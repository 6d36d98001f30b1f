use youlog::parse_level_filter;
use youlog::Level;
use youlog::LevelFilter;
use youlog::Youlog;

#[test]
fn env() {
    let youlog = Youlog::new_from_directives("debug,test=info,other=debug,bleh=error");

    assert!(youlog.enabled("test", Level::Info));
    assert!(youlog.enabled("other", Level::Debug));
    assert_eq!(youlog.max_level, LevelFilter::Debug);

    let youlog = Youlog::new_from_directives("error,test=error");

    assert!(youlog.enabled("test", Level::Error));
    assert_eq!(youlog.max_level, LevelFilter::Error);
}

#[test]
fn directive_string_ceilings() {
    let y = Youlog::new_from_directives("debug,test=info,other=debug,bleh=error");

    assert_eq!(y.max_level, LevelFilter::Debug);
    assert_eq!(y.filters.len(), 3);
    assert_eq!(y.filters[0].name, "test");
    assert_eq!(y.filters[0].level, LevelFilter::Info);
    assert_eq!(y.filters[1].name, "other");
    assert_eq!(y.filters[1].level, LevelFilter::Debug);
    assert_eq!(y.filters[2].name, "bleh");
    assert_eq!(y.filters[2].level, LevelFilter::Error);
}

#[test]
fn invalid_level_directive_dropped() {
    let y = Youlog::new_from_directives("test=notalevel,other=debug");

    assert_eq!(y.max_level, LevelFilter::Trace);
    assert_eq!(y.filters.len(), 1);
    assert_eq!(y.filters[0].name, "other");
    assert_eq!(y.filters[0].level, LevelFilter::Debug);
    assert!(y.enabled("other", Level::Debug));
    assert!(!y.enabled("test", Level::Error));
}

#[test]
fn malformed_directive_dropped() {
    let y = Youlog::new_from_directives("a=b=c,other=warn");

    assert_eq!(y.filters.len(), 1);
    assert_eq!(y.filters[0].name, "other");
    assert_eq!(y.filters[0].level, LevelFilter::Warn);
}

#[test]
fn empty_directive_string_leaves_defaults() {
    let y = Youlog::new_from_directives("");

    assert_eq!(y.max_level, LevelFilter::Trace);
    assert_eq!(y.filters.len(), 0);
}

#[test]
fn reserved_suffix_is_discarded() {
    let y = Youlog::new_from_directives("warn/ignored=error,alsoignored");

    assert_eq!(y.max_level, LevelFilter::Warn);
    assert_eq!(y.filters.len(), 0);
}

#[test]
fn directive_shapes() {
    let y = Youlog::new_from_directives(" info , mod1=warn ,, mod2=, mod3 ");

    assert_eq!(y.max_level, LevelFilter::Info);
    assert_eq!(y.filters.len(), 3);
    assert_eq!(y.filters[0].name, "mod1");
    assert_eq!(y.filters[0].level, LevelFilter::Warn);
    assert_eq!(y.filters[1].name, "mod2");
    assert_eq!(y.filters[1].level, LevelFilter::Trace);
    assert_eq!(y.filters[2].name, "mod3");
    assert_eq!(y.filters[2].level, LevelFilter::Trace);
}

#[test]
fn duplicate_module_directive_keeps_first() {
    let y = Youlog::new_from_directives("test=info,test=error");

    assert_eq!(y.filters.len(), 1);
    assert_eq!(y.filters[0].level, LevelFilter::Info);
}

#[test]
fn off_directive_sets_global_off() {
    let y = Youlog::new_from_directives("off");

    assert_eq!(y.max_level, LevelFilter::Off);
    assert_eq!(y.filters.len(), 0);
}

#[test]
fn parse_level_names() {
    assert_eq!(parse_level_filter("off"), Some(LevelFilter::Off));
    assert_eq!(parse_level_filter("error"), Some(LevelFilter::Error));
    assert_eq!(parse_level_filter("WaRn"), Some(LevelFilter::Warn));
    assert_eq!(parse_level_filter("INFO"), Some(LevelFilter::Info));
    assert_eq!(parse_level_filter("Debug"), Some(LevelFilter::Debug));
    assert_eq!(parse_level_filter("TRACE"), Some(LevelFilter::Trace));
    assert_eq!(parse_level_filter("notalevel"), None);
    assert_eq!(parse_level_filter(""), None);
    assert_eq!(parse_level_filter("warn "), None);
}
