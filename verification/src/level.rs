use vstd::prelude::*;
use vstd::string::StrSliceExecFns;

verus! {

/// Severity of a log record, listed from most severe to most verbose.
#[derive(Clone, Copy, PartialEq, Eq, Structural, Debug)]
pub enum Level {
    Error,
    Warn,
    Info,
    Debug,
    Trace,
}

/// A severity ceiling used in configuration: the five record levels plus
/// `Off`, which admits nothing.
#[derive(Clone, Copy, PartialEq, Eq, Structural, Debug)]
pub enum LevelFilter {
    Off,
    Error,
    Warn,
    Info,
    Debug,
    Trace,
}

impl LevelFilter {
    /// Position in the verbosity order: `Off` admits nothing, `Trace` admits
    /// everything.
    pub open spec fn rank(self) -> int {
        match self {
            LevelFilter::Off => 0,
            LevelFilter::Error => 1,
            LevelFilter::Warn => 2,
            LevelFilter::Info => 3,
            LevelFilter::Debug => 4,
            LevelFilter::Trace => 5,
        }
    }

    /// The verbosity rank as a machine integer.
    pub fn rank_u8(self) -> (r: u8)
        ensures
            r as int == self.rank(),
    {
        match self {
            LevelFilter::Off => 0,
            LevelFilter::Error => 1,
            LevelFilter::Warn => 2,
            LevelFilter::Info => 3,
            LevelFilter::Debug => 4,
            LevelFilter::Trace => 5,
        }
    }

    /// Whether this ceiling is at most as verbose as `other`.
    pub fn le(self, other: LevelFilter) -> (r: bool)
        ensures
            r == (self.rank() <= other.rank()),
    {
        self.rank_u8() <= other.rank_u8()
    }
}

impl Level {
    /// The ceiling that admits exactly this level and the more severe ones.
    pub open spec fn to_filter(self) -> LevelFilter {
        match self {
            Level::Error => LevelFilter::Error,
            Level::Warn => LevelFilter::Warn,
            Level::Info => LevelFilter::Info,
            Level::Debug => LevelFilter::Debug,
            Level::Trace => LevelFilter::Trace,
        }
    }

    /// Position of this level in the verbosity order shared with `LevelFilter`.
    pub open spec fn rank(self) -> int {
        self.to_filter().rank()
    }

    /// The ceiling that admits exactly this level and the more severe ones.
    pub fn as_filter(self) -> (r: LevelFilter)
        ensures
            r == self.to_filter(),
    {
        match self {
            Level::Error => LevelFilter::Error,
            Level::Warn => LevelFilter::Warn,
            Level::Info => LevelFilter::Info,
            Level::Debug => LevelFilter::Debug,
            Level::Trace => LevelFilter::Trace,
        }
    }

    /// Whether a record at this level is admitted by the ceiling `bound`.
    pub fn passes(self, bound: LevelFilter) -> (r: bool)
        ensures
            r == (self.rank() <= bound.rank()),
    {
        self.as_filter().le(bound)
    }
}

/// The code point of `c`, with an ASCII upper-case letter folded to lower case.
pub open spec fn lower_code(c: char) -> int {
    if 65 <= c as int && c as int <= 90 {
        c as int + 32
    } else {
        c as int
    }
}

/// Character-wise equality up to ASCII case.
pub open spec fn chars_eq_ci(a: Seq<char>, b: Seq<char>) -> bool {
    a.len() == b.len() && (forall|i: int| 0 <= i < a.len() ==> lower_code(a[i]) == lower_code(b[i]))
}

/// The severity ceiling named by `s`, compared up to ASCII case; `None` when
/// `s` names no ceiling.
pub open spec fn spec_parse_level_filter(s: Seq<char>) -> Option<LevelFilter> {
    if chars_eq_ci(s, "off"@) {
        Some(LevelFilter::Off)
    } else if chars_eq_ci(s, "error"@) {
        Some(LevelFilter::Error)
    } else if chars_eq_ci(s, "warn"@) {
        Some(LevelFilter::Warn)
    } else if chars_eq_ci(s, "info"@) {
        Some(LevelFilter::Info)
    } else if chars_eq_ci(s, "debug"@) {
        Some(LevelFilter::Debug)
    } else if chars_eq_ci(s, "trace"@) {
        Some(LevelFilter::Trace)
    } else {
        None
    }
}

fn eq_ignore_ascii_case(a: &str, b: &str) -> (r: bool)
    ensures
        r == chars_eq_ci(a@, b@),
{
    let alen = a.unicode_len();
    if alen != b.unicode_len() {
        return false;
    }
    let mut i: usize = 0;
    while i < alen
        invariant
            alen == a@.len(),
            a@.len() == b@.len(),
            i <= alen,
            forall|j: int| 0 <= j < i ==> lower_code(a@[j]) == lower_code(b@[j]),
        decreases alen - i,
    {
        let ca = a.get_char(i) as u32;
        let cb = b.get_char(i) as u32;
        let la = if 65 <= ca && ca <= 90 {
            ca + 32
        } else {
            ca
        };
        let lb = if 65 <= cb && cb <= 90 {
            cb + 32
        } else {
            cb
        };
        if la != lb {
            assert(lower_code(a@[i as int]) != lower_code(b@[i as int]));
            return false;
        }
        i += 1;
    }
    true
}

/// The severity ceiling named by `s` (`"off"`, `"error"`, `"warn"`, `"info"`,
/// `"debug"` or `"trace"`, in any ASCII case), or `None`.
pub fn parse_level_filter(s: &str) -> (r: Option<LevelFilter>)
    ensures
        r == spec_parse_level_filter(s@),
{
    if eq_ignore_ascii_case(s, "off") {
        Some(LevelFilter::Off)
    } else if eq_ignore_ascii_case(s, "error") {
        Some(LevelFilter::Error)
    } else if eq_ignore_ascii_case(s, "warn") {
        Some(LevelFilter::Warn)
    } else if eq_ignore_ascii_case(s, "info") {
        Some(LevelFilter::Info)
    } else if eq_ignore_ascii_case(s, "debug") {
        Some(LevelFilter::Debug)
    } else if eq_ignore_ascii_case(s, "trace") {
        Some(LevelFilter::Trace)
    } else {
        None
    }
}

} // verus!
