use youlog::Level;
use youlog::LevelFilter;
use youlog::Youlog;

#[test]
fn filter_enabled() {
    let mut youlog = Youlog::new().level("test", LevelFilter::Info);

    assert!(youlog.enabled("test", Level::Info));
    assert!(youlog.enabled("test::blah", Level::Info));
    assert!(youlog.enabled("test::blah::eh", Level::Info));
    assert!(!youlog.enabled("other", Level::Info));
    assert!(!youlog.enabled("test", Level::Trace));

    assert!(!youlog.enabled("test::blah", Level::Debug));

    youlog = youlog.level("test::blah", LevelFilter::Debug);

    assert!(youlog.enabled("test::blah", Level::Debug));
}

#[test]
fn enabled_is_monotone_in_severity() {
    let youlog = Youlog::new().level("m", LevelFilter::Info);

    assert!(youlog.enabled("m", Level::Error));
    assert!(youlog.enabled("m", Level::Warn));
    assert!(youlog.enabled("m", Level::Info));
    assert!(!youlog.enabled("m", Level::Debug));
    assert!(!youlog.enabled("m", Level::Trace));
}

#[test]
fn specificity_wins_after_init() {
    let y = Youlog::new()
        .level("test", LevelFilter::Info)
        .level("test::sub", LevelFilter::Debug)
        .init();
    assert!(y.enabled("test::sub", Level::Debug));
    assert!(!y.enabled("test", Level::Debug));
    assert!(y.enabled("test", Level::Info));

    let z = Youlog::new()
        .level("test::sub", LevelFilter::Debug)
        .level("test", LevelFilter::Info)
        .init();
    assert!(z.enabled("test::sub", Level::Debug));
    assert!(!z.enabled("test", Level::Debug));
    assert!(z.enabled("test", Level::Info));
}

#[test]
fn duplicate_filter_keeps_first() {
    let y = Youlog::new()
        .level("test", LevelFilter::Info)
        .level("test", LevelFilter::Error);

    assert_eq!(y.filters.len(), 1);
    assert_eq!(y.filters[0].name, "test");
    assert_eq!(y.filters[0].level, LevelFilter::Info);
    assert!(y.enabled("test", Level::Info));
    assert!(!y.enabled("test", Level::Debug));
}

#[test]
fn textual_prefix_match_is_not_segment_aware() {
    let y = Youlog::new().level("net", LevelFilter::Warn);

    assert!(y.enabled("net", Level::Warn));
    assert!(y.enabled("net::http", Level::Warn));
    assert!(y.enabled("network", Level::Warn));
    assert!(!y.enabled("ne", Level::Warn));
}

#[test]
fn overrides_ignore_global_ceiling() {
    let y = Youlog::new()
        .global_level(LevelFilter::Error)
        .level("test", LevelFilter::Info);
    assert!(y.enabled("test", Level::Info));
    assert!(!y.enabled("other", Level::Info));

    let z = Youlog::new()
        .global_level(LevelFilter::Trace)
        .level("test", LevelFilter::Info);
    assert!(!z.enabled("other", Level::Info));
    assert!(!z.enabled("test", Level::Trace));
}
