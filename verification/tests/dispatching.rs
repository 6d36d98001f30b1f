use std::sync::atomic::AtomicUsize;
use std::sync::atomic::Ordering;
use std::sync::Arc;

use youlog::Level;
use youlog::LevelFilter;
use youlog::LogCallback;
use youlog::LogRecord;
use youlog::Youlog;

/// Helper for reading a shared counter.
fn count(counter: &Arc<AtomicUsize>) -> usize {
    counter.load(Ordering::Relaxed)
}

/// Helper for creating a pair of handles onto the same counter.
fn create_counter() -> (Arc<AtomicUsize>, Arc<AtomicUsize>) {
    let counter = Arc::new(AtomicUsize::new(0));
    let clone = counter.clone();

    (counter, clone)
}

/// A callback that counts its invocations and prints the message.
struct CountingPrint {
    counter: Arc<AtomicUsize>,
    prefix: &'static str,
}

impl LogCallback for CountingPrint {
    fn on_record(&self, record: &LogRecord) {
        self.counter.fetch_add(1, Ordering::Relaxed);
        println!("{} {}", self.prefix, record.message);
    }
}

/// A callback that only prints the current count, never incrementing it.
struct PrintCount {
    counter: Arc<AtomicUsize>,
}

impl LogCallback for PrintCount {
    fn on_record(&self, _record: &LogRecord) {
        println!("warn {}", self.counter.load(Ordering::Relaxed));
    }
}

/// A callback that only counts its invocations.
struct Counting {
    counter: Arc<AtomicUsize>,
}

impl LogCallback for Counting {
    fn on_record(&self, _record: &LogRecord) {
        self.counter.fetch_add(1, Ordering::Relaxed);
    }
}

fn record(target: &str, level: Level, message: &str) -> LogRecord {
    LogRecord { target: target.to_string(), level, message: message.to_string() }
}

/// The facade's coarse check followed by dispatch: a record reaches `log`
/// only when its level passes the global ceiling.
fn emit(y: &Youlog, level: Level, message: &str) {
    if level.passes(y.max_level) {
        y.log(&record("test", level, message));
    }
}

#[test]
fn logging() {
    let (info_counter, closure_info_counter) = create_counter();
    let (debug_counter, closure_debug_counter) = create_counter();
    // Intentionally not incremented
    let (warn_counter, closure_warn_counter) = create_counter();
    // Intentionally not incremented
    let (trace_counter, closure_trace_counter) = create_counter();
    let (raw_counter, closure_raw_counter) = create_counter();

    let y = Youlog::new()
        .global_level(LevelFilter::Debug)
        .log_fn(
            LevelFilter::Info,
            Box::new(CountingPrint { counter: closure_info_counter, prefix: "info" }),
        )
        .log_fn(
            LevelFilter::Debug,
            Box::new(CountingPrint { counter: closure_debug_counter, prefix: "debug" }),
        )
        .log_fn(LevelFilter::Warn, Box::new(PrintCount { counter: closure_warn_counter }))
        .log_fn(
            LevelFilter::Trace,
            Box::new(CountingPrint { counter: closure_trace_counter, prefix: "trace" }),
        )
        .raw_fn(Box::new(Counting { counter: closure_raw_counter }))
        .init();

    assert_eq!(count(&info_counter), 0);
    assert_eq!(count(&debug_counter), 0);
    assert_eq!(count(&warn_counter), 0);
    assert_eq!(count(&trace_counter), 0);
    assert_eq!(count(&raw_counter), 0);

    emit(&y, Level::Info, "blah");
    emit(&y, Level::Trace, "failed trace");
    // Just making sure :)
    emit(&y, Level::Error, "failed error");

    assert_eq!(count(&info_counter), 1);
    assert_eq!(count(&debug_counter), 0);
    assert_eq!(count(&warn_counter), 0);
    assert_eq!(count(&trace_counter), 0);
    assert_eq!(count(&raw_counter), 2);

    emit(&y, Level::Info, "bleh");
    emit(&y, Level::Debug, "wee");
    emit(&y, Level::Trace, "failed trace");

    assert_eq!(count(&info_counter), 2);
    assert_eq!(count(&debug_counter), 1);
    assert_eq!(count(&warn_counter), 0);
    assert_eq!(count(&trace_counter), 0);
    assert_eq!(count(&raw_counter), 4);
}

#[test]
fn dispatch_invokes_raw_and_exact_level_once() {
    let (raw, raw_c) = create_counter();
    let (error, error_c) = create_counter();
    let (warn, warn_c) = create_counter();
    let (info, info_c) = create_counter();
    let (debug, debug_c) = create_counter();
    let (trace, trace_c) = create_counter();

    let y = Youlog::new()
        .raw_fn(Box::new(Counting { counter: raw_c }))
        .log_fn(LevelFilter::Error, Box::new(Counting { counter: error_c }))
        .log_fn(LevelFilter::Warn, Box::new(Counting { counter: warn_c }))
        .log_fn(LevelFilter::Info, Box::new(Counting { counter: info_c }))
        .log_fn(LevelFilter::Debug, Box::new(Counting { counter: debug_c }))
        .log_fn(LevelFilter::Trace, Box::new(Counting { counter: trace_c }));

    y.log(&record("test", Level::Info, "one record"));

    assert_eq!(count(&raw), 1);
    assert_eq!(count(&info), 1);
    assert_eq!(count(&error), 0);
    assert_eq!(count(&warn), 0);
    assert_eq!(count(&debug), 0);
    assert_eq!(count(&trace), 0);
}

#[test]
fn log_fn_for_off_is_dropped() {
    let (c, c_clone) = create_counter();
    let y = Youlog::new().log_fn(LevelFilter::Off, Box::new(Counting { counter: c_clone }));

    y.log(&record("test", Level::Info, "nothing listens"));
    y.log(&record("test", Level::Error, "still nothing"));

    assert_eq!(count(&c), 0);
}

#[test]
fn flush_is_a_no_op() {
    let y = Youlog::new();
    y.flush();
}
