//! A thin logging backend that dispatches records to user-supplied callback
//! functions, with verified level and module filtering.
//!
//! The engine owns a global severity ceiling, an ordered set of per-module
//! overrides, one callback slot per severity level, and an unconditional
//! callback invoked first for every record. Configuration can be parsed from
//! a directive string of the conventional `module=level` form. Every
//! operation carries a contract over the mathematical model of the engine,
//! and the filtering laws — monotonicity in verbosity, and that the most
//! specific matching prefix decides once the configuration is finalized —
//! are proved below.

use vstd::prelude::*;
use vstd::string::StrSliceExecFns;
use vstd::string::StringExecFns;

mod diag;
mod directives;
mod filter;
mod level;
mod text;

pub use directives::DirectiveModel;
pub use directives::apply_directive_at;
pub use directives::apply_directives_at;
pub use directives::classify_directive;
pub use directives::directive_config;
pub use filter::Filter;
pub use filter::FilterModel;
pub use filter::enabled_at;
pub use filter::filter_matches;
pub use filter::has_filter_named;
pub use filter::insert_by_len;
pub use filter::lemma_enabled_monotonic;
pub use filter::lemma_finalized_specificity;
pub use filter::lemma_sort_multiset;
pub use filter::lemma_most_specific_wins;
pub use filter::lemma_sort_by_len_well_formed;
pub use filter::lemma_sort_names;
pub use filter::names_unique;
pub use filter::sort_by_len;
pub use filter::sorted_by_len;
pub use filter::views_of;
pub use level::Level;
pub use level::LevelFilter;
pub use level::chars_eq_ci;
pub use level::lower_code;
pub use level::parse_level_filter;
pub use level::spec_parse_level_filter;
pub use text::find_char_at;
pub use text::is_prefix;
pub use text::is_ws_char;
pub use text::split_on;
pub use text::trim_of;

use diag::emit_warning;
use text::find_char;
use text::str_eq;
use text::str_starts_with;
use text::trim;

verus! {

/// What a callback receives for one enabled record: the module path that
/// emitted it, its severity, and the rendered message.
pub struct LogRecord {
    pub target: String,
    pub level: Level,
    pub message: String,
}

/// A handler for enabled records, supplied by the host application. A handler
/// may be invoked concurrently from arbitrary threads once the logger is
/// installed, hence the bounds.
pub trait LogCallback: Send + Sync {
    fn on_record(&self, record: &LogRecord);
}

/// The default handler: does nothing.
pub struct NoOpCallback;

impl LogCallback for NoOpCallback {
    fn on_record(&self, _record: &LogRecord) {
    }
}

/// A logger that dispatches records to user-supplied callback functions,
/// gated by a global severity ceiling and by per-module overrides.
pub struct Youlog {
    pub max_level: LevelFilter,
    pub filters: Vec<Filter>,
    pub raw_fn: Box<dyn LogCallback>,
    pub error_fn: Box<dyn LogCallback>,
    pub warn_fn: Box<dyn LogCallback>,
    pub info_fn: Box<dyn LogCallback>,
    pub debug_fn: Box<dyn LogCallback>,
    pub trace_fn: Box<dyn LogCallback>,
}

impl Youlog {
    /// The models of the registered per-module overrides, in registration
    /// order until finalization and by ascending prefix length afterwards.
    pub open spec fn filters_model(&self) -> Seq<FilterModel> {
        views_of(self.filters@)
    }

    /// Every module prefix is registered at most once.
    pub open spec fn wf(&self) -> bool {
        names_unique(self.filters_model())
    }

    /// A new, unconfigured logger: the global ceiling admits everything,
    /// there are no overrides, and every callback does nothing.
    pub fn new() -> (r: Self)
        ensures
            r.max_level == LevelFilter::Trace,
            r.filters_model() == Seq::<FilterModel>::empty(),
            r.wf(),
    {
        let r = Youlog {
            max_level: LevelFilter::Trace,
            filters: Vec::new(),
            raw_fn: Box::new(NoOpCallback),
            error_fn: Box::new(NoOpCallback),
            warn_fn: Box::new(NoOpCallback),
            info_fn: Box::new(NoOpCallback),
            debug_fn: Box::new(NoOpCallback),
            trace_fn: Box::new(NoOpCallback),
        };
        proof {
            assert(r.filters_model() =~= Seq::<FilterModel>::empty());
        }
        r
    }

    /// Whether a record from module `target` at `level` is admitted by the
    /// per-module overrides: the overrides are scanned from the last towards
    /// the first, the first whose prefix starts `target` decides, and with no
    /// matching override the record is refused here — the global ceiling is
    /// the facade's concern, checked before this query.
    pub fn enabled(&self, target: &str, level: Level) -> (r: bool)
        ensures
            r == enabled_at(self.filters_model(), target@, level),
    {
        let ghost m = self.filters_model();
        let mut i = self.filters.len();
        proof {
            assert(m.take(m.len() as int) =~= m);
        }
        while i > 0
            invariant
                i <= self.filters@.len(),
                m == self.filters_model(),
                enabled_at(m.take(i as int), target@, level) == enabled_at(m, target@, level),
            decreases i,
        {
            proof {
                assert(m.take(i as int).last() == m[i - 1]);
                assert(m.take(i as int).drop_last() =~= m.take(i - 1));
                assert(m[i - 1] == self.filters@[i - 1]@);
            }
            let f = &self.filters[i - 1];
            if str_starts_with(target, f.name.as_str()) {
                return level.passes(f.level);
            }
            i -= 1;
        }
        proof {
            assert(m.take(0) =~= Seq::<FilterModel>::empty());
        }
        false
    }

    /// Set the global severity ceiling; the last write wins. Per-module
    /// overrides are not touched.
    pub fn global_level(self, level: LevelFilter) -> (r: Self)
        ensures
            r.max_level == level,
            r.filters == self.filters,
            r.raw_fn == self.raw_fn,
            r.error_fn == self.error_fn,
            r.warn_fn == self.warn_fn,
            r.info_fn == self.info_fn,
            r.debug_fn == self.debug_fn,
            r.trace_fn == self.trace_fn,
    {
        let mut r = self;
        r.max_level = level;
        r
    }

    /// Register a per-module override. A prefix that is already registered is
    /// rejected with a warning: the first registration's ceiling stands and
    /// the configuration is unchanged.
    pub fn level(self, module: &str, level: LevelFilter) -> (r: Self)
        ensures
            r.max_level == self.max_level,
            has_filter_named(self.filters_model(), module@) ==> r.filters == self.filters,
            !has_filter_named(self.filters_model(), module@) ==> r.filters_model()
                == self.filters_model().push(FilterModel { name: module@, level }),
            self.wf() ==> r.wf(),
            r.raw_fn == self.raw_fn,
            r.error_fn == self.error_fn,
            r.warn_fn == self.warn_fn,
            r.info_fn == self.info_fn,
            r.debug_fn == self.debug_fn,
            r.trace_fn == self.trace_fn,
    {
        let ghost m = self.filters_model();
        let n = self.filters.len();
        let mut i: usize = 0;
        while i < n
            invariant
                n == self.filters@.len(),
                m == self.filters_model(),
                i <= n,
                forall|j: int| 0 <= j < i ==> m[j].name != module@,
            decreases n - i,
        {
            proof {
                assert(m[i as int] == self.filters@[i as int]@);
            }
            if str_eq(self.filters[i].name.as_str(), module) {
                proof {
                    assert(m[i as int].name == module@);
                }
                let mut msg = String::new();
                msg.append("level filter for '");
                msg.append(module);
                msg.append("' already exists, ignoring");
                emit_warning(msg.as_str());
                return self;
            }
            i += 1;
        }
        assert(!has_filter_named(m, module@));
        let mut r = self;
        r.filters.push(Filter { name: module.to_owned(), level });
        proof {
            assert(r.filters_model() =~= m.push(FilterModel { name: module@, level }));
            if names_unique(m) {
                assert forall|a: int, b: int|
                    0 <= a < b < r.filters_model().len() implies r.filters_model()[a].name
                    != r.filters_model()[b].name by {
                    if b < m.len() {
                        assert(r.filters_model()[a] == m[a] && r.filters_model()[b] == m[b]);
                    } else {
                        assert(r.filters_model()[a] == m[a]);
                        assert(r.filters_model()[b].name == module@);
                    }
                }
            }
        }
        r
    }

    /// Set the callback invoked for records at exactly the given level. The
    /// `Off` pseudo-level has no callback slot: setting it is a no-op with a
    /// warning.
    pub fn log_fn(self, level: LevelFilter, callback: Box<dyn LogCallback>) -> (r: Self)
        ensures
            r.max_level == self.max_level,
            r.filters == self.filters,
            r.raw_fn == self.raw_fn,
            level != LevelFilter::Error ==> r.error_fn == self.error_fn,
            level != LevelFilter::Warn ==> r.warn_fn == self.warn_fn,
            level != LevelFilter::Info ==> r.info_fn == self.info_fn,
            level != LevelFilter::Debug ==> r.debug_fn == self.debug_fn,
            level != LevelFilter::Trace ==> r.trace_fn == self.trace_fn,
    {
        let mut r = self;
        match level {
            LevelFilter::Off => {
                emit_warning("setting a log fn for LevelFilter::Off doesn't do anything");
            },
            LevelFilter::Error => {
                r.error_fn = callback;
            },
            LevelFilter::Warn => {
                r.warn_fn = callback;
            },
            LevelFilter::Info => {
                r.info_fn = callback;
            },
            LevelFilter::Debug => {
                r.debug_fn = callback;
            },
            LevelFilter::Trace => {
                r.trace_fn = callback;
            },
        }
        r
    }

    /// Set the unconditional callback, invoked first for every dispatched
    /// record, whatever its level.
    pub fn raw_fn(self, callback: Box<dyn LogCallback>) -> (r: Self)
        ensures
            r.max_level == self.max_level,
            r.filters == self.filters,
            r.error_fn == self.error_fn,
            r.warn_fn == self.warn_fn,
            r.info_fn == self.info_fn,
            r.debug_fn == self.debug_fn,
            r.trace_fn == self.trace_fn,
    {
        let mut r = self;
        r.raw_fn = callback;
        r
    }

    /// Dispatch one record that already passed the enabled check: the
    /// unconditional callback runs first, then exactly the one callback
    /// registered for the record's level. No level is re-checked here.
    pub fn log(&self, record: &LogRecord) {
        self.raw_fn.on_record(record);
        match record.level {
            Level::Error => self.error_fn.on_record(record),
            Level::Warn => self.warn_fn.on_record(record),
            Level::Info => self.info_fn.on_record(record),
            Level::Debug => self.debug_fn.on_record(record),
            Level::Trace => self.trace_fn.on_record(record),
        }
    }

    /// Nothing is buffered, so flushing has nothing to do and always
    /// succeeds.
    pub fn flush(&self) {
    }

    /// Finalize the configuration: freeze the overrides stably sorted by
    /// ascending prefix length, so that the admission scan, which runs from
    /// the end, meets the most specific matching prefix first.
    pub fn init(self) -> (r: Self)
        ensures
            r.max_level == self.max_level,
            r.filters_model() == sort_by_len(self.filters_model()),
            self.wf() ==> r.wf() && sorted_by_len(r.filters_model()),
            r.raw_fn == self.raw_fn,
            r.error_fn == self.error_fn,
            r.warn_fn == self.warn_fn,
            r.info_fn == self.info_fn,
            r.debug_fn == self.debug_fn,
            r.trace_fn == self.trace_fn,
    {
        let mut y = self;
        let mut input: Vec<Filter> = Vec::new();
        core::mem::swap(&mut y.filters, &mut input);
        let ghost orig = views_of(input@);
        let mut out: Vec<Filter> = Vec::new();
        proof {
            assert(orig.take(0) =~= Seq::<FilterModel>::empty());
            assert(views_of(out@) =~= sort_by_len(orig.take(0)));
        }
        while input.len() > 0
            invariant
                out@.len() + input@.len() == orig.len(),
                views_of(input@) == orig.skip(out@.len() as int),
                views_of(out@) == sort_by_len(orig.take(out@.len() as int)),
                sorted_by_len(views_of(out@)),
            decreases input@.len(),
        {
            let ghost k = out@.len() as int;
            let ghost prev_input = input@;
            let f = input.remove(0);
            let ghost fm = f@;
            proof {
                assert(views_of(prev_input)[0] == fm);
                assert(fm == orig[k]);
                assert(views_of(input@) =~= orig.skip(k + 1)) by {
                    assert forall|j: int| 0 <= j < input@.len() implies views_of(input@)[j]
                        == orig.skip(k + 1)[j] by {
                        assert(input@[j] == prev_input[j + 1]);
                        assert(views_of(prev_input)[j + 1] == orig.skip(k)[j + 1]);
                    }
                }
            }
            let key_len = f.name.unicode_len();
            let ghost cur = views_of(out@);
            let mut p = out.len();
            while p > 0 && out[p - 1].name.unicode_len() > key_len
                invariant
                    p <= out@.len(),
                    cur == views_of(out@),
                    key_len as int == fm.name.len(),
                    forall|t: int| p <= t < cur.len() ==> cur[t].name.len() > fm.name.len(),
                decreases p,
            {
                proof {
                    assert(cur[p - 1] == out@[p - 1]@);
                }
                p -= 1;
            }
            proof {
                if p > 0 {
                    assert(cur[p - 1] == out@[p - 1]@);
                }
                filter::lemma_insert_by_len_at(cur, fm, p as int);
                filter::lemma_insert_sorted(cur, fm);
            }
            out.insert(p, f);
            proof {
                assert(views_of(out@) =~= cur.subrange(0, p as int).push(fm) + cur.subrange(
                    p as int,
                    cur.len() as int,
                )) by {
                    assert forall|j: int| 0 <= j < out@.len() implies views_of(out@)[j] == (
                    cur.subrange(0, p as int).push(fm) + cur.subrange(p as int, cur.len() as int))[j] by {
                        if j < p {
                        } else if j == p {
                        } else {
                        }
                    }
                }
                assert(views_of(out@) == filter::insert_by_len(cur, fm));
                assert(orig.take(k + 1).drop_last() =~= orig.take(k));
                assert(orig.take(k + 1).last() == orig[k]);
                assert(views_of(out@) == sort_by_len(orig.take(k + 1)));
            }
        }
        proof {
            assert(orig.take(orig.len() as int) =~= orig);
            assert(orig == self.filters_model());
            if self.wf() {
                lemma_sort_by_len_well_formed(self.filters_model());
            }
        }
        y.filters = out;
        y
    }

    /// A logger configured from one directive string, as conventionally found
    /// in an environment variable: comma-separated directives, with an
    /// optional reserved suffix from the first `/` on that is discarded.
    /// Malformed directives and duplicate module registrations are dropped
    /// with a warning; the rest still take effect.
    pub fn new_from_directives(s: &str) -> (r: Self)
        ensures
            r.max_level == directive_config(s@).0,
            r.filters_model() == directive_config(s@).1,
            r.wf(),
    {
        let mut y = Youlog::new();
        proof {
            text::lemma_find_char_bounds(s@, '/');
        }
        let head = match find_char(s, '/') {
            Some(i) => s.substring_char(0, i),
            None => s,
        };
        let mut rest = head;
        loop
            invariant_except_break
                y.wf(),
                apply_directives_at(y.max_level, y.filters_model(), split_on(rest@, ','))
                    == directive_config(s@),
            ensures
                y.wf(),
                y.max_level == directive_config(s@).0,
                y.filters_model() == directive_config(s@).1,
            decreases rest@.len(),
        {
            proof {
                text::lemma_find_char_bounds(rest@, ',');
            }
            match find_char(rest, ',') {
                Some(i) => {
                    let rn = rest.unicode_len();
                    let chunk = rest.substring_char(0, i);
                    let tail = rest.substring_char(i + 1, rn);
                    proof {
                        let ds = split_on(rest@, ',');
                        assert(ds == seq![chunk@] + split_on(tail@, ','));
                        assert(ds[0] == chunk@);
                        assert(ds.subrange(1, ds.len() as int) =~= split_on(tail@, ','));
                    }
                    y = apply_one_directive(y, chunk);
                    rest = tail;
                },
                None => {
                    let ghost g0 = y.max_level;
                    let ghost f0 = y.filters_model();
                    let ghost ds = split_on(rest@, ',');
                    proof {
                        assert(ds == seq![rest@]);
                        assert(ds[0] == rest@);
                        assert(ds.len() == 1);
                        assert(ds.subrange(1, 1) =~= Seq::<Seq<char>>::empty());
                    }
                    y = apply_one_directive(y, rest);
                    proof {
                        let s1 = apply_directive_at(g0, f0, ds[0]);
                        assert(y.max_level == s1.0 && y.filters_model() == s1.1);
                        assert(apply_directives_at(s1.0, s1.1, ds.subrange(1, 1)) == s1);
                        assert(apply_directives_at(g0, f0, ds) == s1);
                    }
                    break;
                },
            }
        }
        y
    }
}

/// One raw directive piece applied to the accumulated configuration.
fn apply_one_directive(y: Youlog, d: &str) -> (r: Youlog)
    ensures
        r.max_level == apply_directive_at(y.max_level, y.filters_model(), d@).0,
        r.filters_model() == apply_directive_at(y.max_level, y.filters_model(), d@).1,
        y.wf() ==> r.wf(),
{
    let t = trim(d);
    if t.unicode_len() == 0 {
        return y;
    }
    match find_char(t, '=') {
        None => {
            match parse_level_filter(t) {
                Some(l) => y.global_level(l),
                None => y.level(t, LevelFilter::Trace),
            }
        },
        Some(i) => {
            proof {
                text::lemma_find_char_bounds(t@, '=');
            }
            let tn = t.unicode_len();
            let name = t.substring_char(0, i);
            let rest = t.substring_char(i + 1, tn);
            match find_char(rest, '=') {
                Some(_) => {
                    let mut msg = String::new();
                    msg.append("invalid logging spec '");
                    msg.append(t);
                    msg.append("', ignoring");
                    emit_warning(msg.as_str());
                    y
                },
                None => {
                    let lvl_txt = trim(rest);
                    if lvl_txt.unicode_len() == 0 {
                        y.level(name, LevelFilter::Trace)
                    } else {
                        match parse_level_filter(lvl_txt) {
                            Some(l) => y.level(name, l),
                            None => {
                                let mut msg = String::new();
                                msg.append("invalid logging spec '");
                                msg.append(lvl_txt);
                                msg.append("', ignoring");
                                emit_warning(msg.as_str());
                                y
                            },
                        }
                    }
                },
            }
        },
    }
}

} // verus!
