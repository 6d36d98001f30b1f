use vstd::prelude::*;
use crate::filter::FilterModel;
use crate::filter::has_filter_named;
use crate::level::LevelFilter;
use crate::level::spec_parse_level_filter;
use crate::text::find_char_at;
use crate::text::split_on;
use crate::text::trim_of;

verus! {

/// One trimmed, non-empty directive of the configuration string, classified.
pub enum DirectiveModel {
    /// A bare severity name: sets the global ceiling.
    SetGlobal(LevelFilter),
    /// A module prefix with its ceiling: registers a per-module override.
    AddModule(Seq<char>, LevelFilter),
    /// A malformed directive: dropped with a warning.
    Invalid,
}

/// Reading of one trimmed, non-empty directive. A bare severity name sets the
/// global ceiling; a bare module name, or `module=` with nothing after the
/// sign, registers the module at the most verbose ceiling; `module=severity`
/// registers it at that ceiling; anything else is invalid.
pub open spec fn classify_directive(t: Seq<char>) -> DirectiveModel {
    let i = find_char_at(t, '=');
    if i < 0 {
        match spec_parse_level_filter(t) {
            Some(l) => DirectiveModel::SetGlobal(l),
            None => DirectiveModel::AddModule(t, LevelFilter::Trace),
        }
    } else {
        let name = t.subrange(0, i);
        let rest = t.subrange(i + 1, t.len() as int);
        if find_char_at(rest, '=') >= 0 {
            DirectiveModel::Invalid
        } else {
            let lvl = trim_of(rest);
            if lvl.len() == 0 {
                DirectiveModel::AddModule(name, LevelFilter::Trace)
            } else {
                match spec_parse_level_filter(lvl) {
                    Some(l) => DirectiveModel::AddModule(name, l),
                    None => DirectiveModel::Invalid,
                }
            }
        }
    }
}

/// The configuration reached from global ceiling `g` and overrides `fs` by
/// one raw directive piece `d`: white space around `d` is ignored, an empty
/// or invalid piece changes nothing, and a duplicate module registration is
/// rejected in favour of the first one.
pub open spec fn apply_directive_at(g: LevelFilter, fs: Seq<FilterModel>, d: Seq<char>) -> (
    LevelFilter,
    Seq<FilterModel>,
) {
    let t = trim_of(d);
    if t.len() == 0 {
        (g, fs)
    } else {
        match classify_directive(t) {
            DirectiveModel::SetGlobal(l) => (l, fs),
            DirectiveModel::AddModule(n, l) => if has_filter_named(fs, n) {
                (g, fs)
            } else {
                (g, fs.push(FilterModel { name: n, level: l }))
            },
            DirectiveModel::Invalid => (g, fs),
        }
    }
}

/// The configuration reached by applying the directive pieces `ds` in order.
pub open spec fn apply_directives_at(
    g: LevelFilter,
    fs: Seq<FilterModel>,
    ds: Seq<Seq<char>>,
) -> (LevelFilter, Seq<FilterModel>)
    decreases ds.len(),
{
    if ds.len() == 0 {
        (g, fs)
    } else {
        let s1 = apply_directive_at(g, fs, ds[0]);
        apply_directives_at(s1.0, s1.1, ds.subrange(1, ds.len() as int))
    }
}

/// The configuration named by a whole directive string: everything from the
/// first `/` on is a reserved suffix and is discarded; what precedes it is
/// split on commas and applied to the default configuration, the most
/// verbose global ceiling with no overrides.
pub open spec fn directive_config(s: Seq<char>) -> (LevelFilter, Seq<FilterModel>) {
    let i = find_char_at(s, '/');
    let head = if i < 0 {
        s
    } else {
        s.subrange(0, i)
    };
    apply_directives_at(LevelFilter::Trace, Seq::empty(), split_on(head, ','))
}

} // verus!
