use vstd::prelude::*;
use crate::level::Level;
use crate::level::LevelFilter;
use crate::text::is_prefix;

verus! {

/// Mathematical model of one per-module override: a module prefix and the
/// most verbose severity that modules under it may emit at.
pub struct FilterModel {
    pub name: Seq<char>,
    pub level: LevelFilter,
}

/// One per-module override: a module prefix and the most verbose severity
/// that modules under it may emit at.
pub struct Filter {
    pub name: String,
    pub level: LevelFilter,
}

impl View for Filter {
    type V = FilterModel;

    open spec fn view(&self) -> FilterModel {
        FilterModel { name: self.name@, level: self.level }
    }
}

/// The models of a sequence of filters.
pub open spec fn views_of(v: Seq<Filter>) -> Seq<FilterModel> {
    v.map_values(|f: Filter| f@)
}

/// Whether the override `f` governs the module path `target`: plain textual
/// prefix match, so a parent module's override also governs its submodules.
pub open spec fn filter_matches(f: FilterModel, target: Seq<char>) -> bool {
    is_prefix(f.name, target)
}

/// Whether a record from module `target` at level `lv` is admitted by the
/// overrides `fs`: the scan runs from the last entry towards the first, the
/// first match decides, and no match means the record is refused.
pub open spec fn enabled_at(fs: Seq<FilterModel>, target: Seq<char>, lv: Level) -> bool
    decreases fs.len(),
{
    if fs.len() == 0 {
        false
    } else if filter_matches(fs.last(), target) {
        lv.rank() <= fs.last().level.rank()
    } else {
        enabled_at(fs.drop_last(), target, lv)
    }
}

/// No two overrides name the same module prefix.
pub open spec fn names_unique(fs: Seq<FilterModel>) -> bool {
    forall|i: int, j: int| 0 <= i < j < fs.len() ==> fs[i].name != fs[j].name
}

/// Whether some override in `fs` names exactly `name`.
pub open spec fn has_filter_named(fs: Seq<FilterModel>, name: Seq<char>) -> bool {
    exists|i: int| 0 <= i < fs.len() && fs[i].name == name
}

/// Prefix lengths never decrease along `fs`.
pub open spec fn sorted_by_len(fs: Seq<FilterModel>) -> bool {
    forall|i: int, j: int| 0 <= i < j < fs.len() ==> fs[i].name.len() <= fs[j].name.len()
}

/// `f` placed into the sorted sequence `fs`, after every entry whose prefix
/// is at most as long: the stable insertion step.
pub open spec fn insert_by_len(fs: Seq<FilterModel>, f: FilterModel) -> Seq<FilterModel>
    decreases fs.len(),
{
    if fs.len() == 0 {
        seq![f]
    } else if fs.last().name.len() <= f.name.len() {
        fs.push(f)
    } else {
        insert_by_len(fs.drop_last(), f).push(fs.last())
    }
}

/// `fs` stably sorted by ascending prefix length.
pub open spec fn sort_by_len(fs: Seq<FilterModel>) -> Seq<FilterModel>
    decreases fs.len(),
{
    if fs.len() == 0 {
        fs
    } else {
        insert_by_len(sort_by_len(fs.drop_last()), fs.last())
    }
}

/// Admission is monotone in verbosity: a record admitted at a more verbose
/// level is also admitted at every more severe one, whatever the overrides.
pub proof fn lemma_enabled_monotonic(fs: Seq<FilterModel>, target: Seq<char>, lv1: Level, lv2: Level)
    requires
        lv1.rank() <= lv2.rank(),
        enabled_at(fs, target, lv2),
    ensures
        enabled_at(fs, target, lv1),
    decreases fs.len(),
{
    if fs.len() == 0 {
    } else if filter_matches(fs.last(), target) {
    } else {
        lemma_enabled_monotonic(fs.drop_last(), target, lv1, lv2);
    }
}

/// Once the overrides are sorted by ascending prefix length, the longest
/// matching prefix alone decides, no matter in which order the overrides were
/// registered.
pub proof fn lemma_most_specific_wins(fs: Seq<FilterModel>, target: Seq<char>, lv: Level, i: int)
    requires
        sorted_by_len(fs),
        names_unique(fs),
        0 <= i < fs.len(),
        filter_matches(fs[i], target),
        forall|j: int|
            0 <= j < fs.len() && filter_matches(fs[j], target) ==> fs[j].name.len()
                <= fs[i].name.len(),
    ensures
        enabled_at(fs, target, lv) == (lv.rank() <= fs[i].level.rank()),
    decreases fs.len(),
{
    let last = fs.len() - 1;
    if filter_matches(fs[last], target) {
        assert(fs[last].name.len() <= fs[i].name.len());
        assert(fs[i].name.len() <= fs[last].name.len());
        assert(fs[i].name =~= fs[last].name) by {
            assert(fs[i].name == target.subrange(0, fs[i].name.len() as int));
            assert(fs[last].name == target.subrange(0, fs[last].name.len() as int));
        }
        assert(i == last);
    } else {
        assert(i < last);
        let dl = fs.drop_last();
        assert(dl[i] == fs[i]);
        assert forall|j: int|
            0 <= j < dl.len() && filter_matches(dl[j], target) implies dl[j].name.len()
            <= dl[i].name.len() by {
            assert(dl[j] == fs[j]);
        }
        lemma_most_specific_wins(dl, target, lv, i);
    }
}

proof fn lemma_insert_multiset(fs: Seq<FilterModel>, f: FilterModel)
    ensures
        insert_by_len(fs, f).to_multiset() =~= fs.to_multiset().insert(f),
    decreases fs.len(),
{
    broadcast use vstd::seq_lib::group_to_multiset_ensures;

    if fs.len() == 0 {
        assert(seq![f] =~= fs.push(f));
    } else if fs.last().name.len() <= f.name.len() {
    } else {
        let dl = fs.drop_last();
        lemma_insert_multiset(dl, f);
        assert(dl.push(fs.last()) =~= fs);
        assert(insert_by_len(fs, f) == insert_by_len(dl, f).push(fs.last()));
        assert(insert_by_len(dl, f).push(fs.last()).to_multiset() =~= insert_by_len(
            dl,
            f,
        ).to_multiset().insert(fs.last()));
        assert(dl.to_multiset().insert(f).insert(fs.last()) =~= dl.to_multiset().insert(
            fs.last(),
        ).insert(f));
        assert(fs.to_multiset() =~= dl.to_multiset().insert(fs.last()));
    }
}

/// Sorting keeps exactly the registered overrides, each with its ceiling.
pub proof fn lemma_sort_multiset(fs: Seq<FilterModel>)
    ensures
        sort_by_len(fs).to_multiset() =~= fs.to_multiset(),
    decreases fs.len(),
{
    broadcast use vstd::seq_lib::group_to_multiset_ensures;

    if fs.len() == 0 {
    } else {
        let dl = fs.drop_last();
        lemma_sort_multiset(dl);
        lemma_insert_multiset(sort_by_len(dl), fs.last());
        assert(dl.push(fs.last()) =~= fs);
    }
}

/// Once the overrides are finalized — frozen sorted by ascending prefix
/// length — the longest matching registered prefix alone decides admission,
/// no matter in which order the overrides were registered.
pub proof fn lemma_finalized_specificity(fs: Seq<FilterModel>, target: Seq<char>, lv: Level, i: int)
    requires
        names_unique(fs),
        0 <= i < fs.len(),
        filter_matches(fs[i], target),
        forall|j: int|
            0 <= j < fs.len() && filter_matches(fs[j], target) ==> fs[j].name.len()
                <= fs[i].name.len(),
    ensures
        enabled_at(sort_by_len(fs), target, lv) == (lv.rank() <= fs[i].level.rank()),
{
    broadcast use vstd::seq_lib::group_to_multiset_ensures;

    let s = sort_by_len(fs);
    lemma_sort_by_len_well_formed(fs);
    lemma_sort_multiset(fs);
    assert(fs.contains(fs[i]));
    assert(s.to_multiset().count(fs[i]) > 0);
    assert(s.contains(fs[i]));
    let k = choose|k: int| 0 <= k < s.len() && s[k] == fs[i];
    assert forall|j: int|
        0 <= j < s.len() && filter_matches(s[j], target) implies s[j].name.len()
        <= s[k].name.len() by {
        assert(s.contains(s[j]));
        assert(fs.to_multiset().count(s[j]) > 0);
        assert(fs.contains(s[j]));
        let m = choose|m: int| 0 <= m < fs.len() && fs[m] == s[j];
        assert(fs[m].name.len() <= fs[i].name.len());
    }
    lemma_most_specific_wins(s, target, lv, k);
}

proof fn lemma_insert_len_bound(fs: Seq<FilterModel>, f: FilterModel, bound: int)
    requires
        forall|k: int| 0 <= k < fs.len() ==> fs[k].name.len() <= bound,
        f.name.len() <= bound,
    ensures
        forall|k: int|
            0 <= k < insert_by_len(fs, f).len() ==> insert_by_len(fs, f)[k].name.len() <= bound,
        insert_by_len(fs, f).len() == fs.len() + 1,
    decreases fs.len(),
{
    if fs.len() == 0 {
    } else if fs.last().name.len() <= f.name.len() {
    } else {
        lemma_insert_len_bound(fs.drop_last(), f, bound);
    }
}

/// Names present after an insertion are the old names plus the new one.
proof fn lemma_insert_names(fs: Seq<FilterModel>, f: FilterModel)
    ensures
        forall|n: Seq<char>|
            has_filter_named(insert_by_len(fs, f), n) <==> (has_filter_named(fs, n) || n
                == f.name),
        insert_by_len(fs, f).len() == fs.len() + 1,
    decreases fs.len(),
{
    let r = insert_by_len(fs, f);
    if fs.len() == 0 {
        assert forall|n: Seq<char>|
            has_filter_named(r, n) implies (has_filter_named(fs, n) || n == f.name) by {
            let i = choose|i: int| 0 <= i < r.len() && r[i].name == n;
            assert(r[0] == f);
        }
        assert forall|n: Seq<char>|
            (has_filter_named(fs, n) || n == f.name) implies has_filter_named(r, n) by {
            assert(r[0] == f);
        }
    } else if fs.last().name.len() <= f.name.len() {
        assert forall|n: Seq<char>|
            has_filter_named(r, n) implies (has_filter_named(fs, n) || n == f.name) by {
            let i = choose|i: int| 0 <= i < r.len() && r[i].name == n;
            if i < fs.len() {
                assert(fs[i].name == n);
            }
        }
        assert forall|n: Seq<char>|
            (has_filter_named(fs, n) || n == f.name) implies has_filter_named(r, n) by {
            if has_filter_named(fs, n) {
                let i = choose|i: int| 0 <= i < fs.len() && fs[i].name == n;
                assert(r[i].name == n);
            } else {
                assert(r[fs.len() as int].name == n);
            }
        }
    } else {
        let dl = fs.drop_last();
        lemma_insert_names(dl, f);
        let rr = insert_by_len(dl, f);
        assert(r == rr.push(fs.last()));
        assert forall|n: Seq<char>|
            has_filter_named(r, n) implies (has_filter_named(fs, n) || n == f.name) by {
            let i = choose|i: int| 0 <= i < r.len() && r[i].name == n;
            if i < rr.len() {
                assert(rr[i].name == n);
                assert(has_filter_named(rr, n));
                if has_filter_named(dl, n) {
                    let k = choose|k: int| 0 <= k < dl.len() && dl[k].name == n;
                    assert(fs[k].name == n);
                }
            } else {
                assert(r[i] == fs.last());
                assert(fs[fs.len() - 1].name == n);
            }
        }
        assert forall|n: Seq<char>|
            (has_filter_named(fs, n) || n == f.name) implies has_filter_named(r, n) by {
            assert(has_filter_named(rr, n) <==> (has_filter_named(dl, n) || n == f.name));
            if n == f.name {
                assert(has_filter_named(rr, n));
                let k = choose|k: int| 0 <= k < rr.len() && rr[k].name == n;
                assert(r[k].name == n);
            } else {
                let i = choose|i: int| 0 <= i < fs.len() && fs[i].name == n;
                if i < dl.len() {
                    assert(dl[i].name == n);
                    assert(has_filter_named(dl, n));
                    let k = choose|k: int| 0 <= k < rr.len() && rr[k].name == n;
                    assert(r[k].name == n);
                } else {
                    assert(r[r.len() - 1].name == n);
                }
            }
        }
    }
}

proof fn lemma_insert_unique(fs: Seq<FilterModel>, f: FilterModel)
    requires
        names_unique(fs),
        !has_filter_named(fs, f.name),
    ensures
        names_unique(insert_by_len(fs, f)),
    decreases fs.len(),
{
    let r = insert_by_len(fs, f);
    if fs.len() == 0 {
    } else if fs.last().name.len() <= f.name.len() {
        assert forall|i: int, j: int| 0 <= i < j < r.len() implies r[i].name != r[j].name by {
            if j < fs.len() {
                assert(r[i] == fs[i] && r[j] == fs[j]);
            } else {
                assert(r[i] == fs[i] && r[j] == f);
                assert(!(fs[i].name == f.name));
            }
        }
    } else {
        let dl = fs.drop_last();
        assert forall|k: int| 0 <= k < dl.len() implies dl[k] == fs[k] by {}
        assert(!has_filter_named(dl, f.name)) by {
            if has_filter_named(dl, f.name) {
                let k = choose|k: int| 0 <= k < dl.len() && dl[k].name == f.name;
                assert(fs[k].name == f.name);
            }
        }
        lemma_insert_unique(dl, f);
        lemma_insert_names(dl, f);
        let rr = insert_by_len(dl, f);
        assert(r == rr.push(fs.last()));
        assert(!has_filter_named(rr, fs.last().name)) by {
            if has_filter_named(dl, fs.last().name) {
                let k = choose|k: int| 0 <= k < dl.len() && dl[k].name == fs.last().name;
                assert(fs[k].name == fs[fs.len() - 1].name);
            }
            assert(fs.last().name != f.name) by {
                assert(fs[fs.len() - 1].name == fs.last().name);
            }
        }
        assert forall|i: int, j: int| 0 <= i < j < r.len() implies r[i].name != r[j].name by {
            if j < rr.len() {
                assert(r[i] == rr[i] && r[j] == rr[j]);
            } else {
                assert(r[i] == rr[i]);
                assert(r[j] == fs.last());
                assert(rr[i].name == rr[i].name);
                if rr[i].name == fs.last().name {
                    assert(has_filter_named(rr, fs.last().name));
                }
            }
        }
    }
}

pub(crate) proof fn lemma_insert_sorted(fs: Seq<FilterModel>, f: FilterModel)
    requires
        sorted_by_len(fs),
    ensures
        sorted_by_len(insert_by_len(fs, f)),
    decreases fs.len(),
{
    let r = insert_by_len(fs, f);
    if fs.len() == 0 {
        assert(sorted_by_len(seq![f]));
    } else if fs.last().name.len() <= f.name.len() {
        assert forall|i: int, j: int|
            0 <= i < j < r.len() implies r[i].name.len() <= r[j].name.len() by {
            if j < fs.len() {
            } else {
                assert(r[j] == f);
                assert(fs[i].name.len() <= fs.last().name.len());
            }
        }
    } else {
        let dl = fs.drop_last();
        lemma_insert_sorted(dl, f);
        let rr = insert_by_len(dl, f);
        assert(r == rr.push(fs.last()));
        assert forall|k: int| 0 <= k < dl.len() implies dl[k].name.len()
            <= fs.last().name.len() by {
            assert(dl[k] == fs[k]);
        }
        lemma_insert_len_bound(dl, f, fs.last().name.len() as int);
        assert forall|i: int, j: int|
            0 <= i < j < r.len() implies r[i].name.len() <= r[j].name.len() by {
            if j < rr.len() {
                assert(r[i] == rr[i] && r[j] == rr[j]);
            } else {
                assert(r[i] == rr[i]);
                assert(r[j] == fs.last());
            }
        }
    }
}

/// Sorting keeps exactly the registered prefixes and their number.
pub proof fn lemma_sort_names(fs: Seq<FilterModel>)
    ensures
        forall|n: Seq<char>| has_filter_named(sort_by_len(fs), n) <==> has_filter_named(fs, n),
        sort_by_len(fs).len() == fs.len(),
    decreases fs.len(),
{
    if fs.len() == 0 {
    } else {
        let dl = fs.drop_last();
        lemma_sort_names(dl);
        lemma_insert_names(sort_by_len(dl), fs.last());
        let r = sort_by_len(fs);
        assert(r == insert_by_len(sort_by_len(dl), fs.last()));
        assert forall|n: Seq<char>| has_filter_named(r, n) implies has_filter_named(fs, n) by {
            assert(has_filter_named(r, n) <==> (has_filter_named(sort_by_len(dl), n) || n
                == fs.last().name));
            assert(has_filter_named(sort_by_len(dl), n) <==> has_filter_named(dl, n));
            if has_filter_named(dl, n) {
                let k = choose|k: int| 0 <= k < dl.len() && dl[k].name == n;
                assert(fs[k].name == n);
            } else {
                assert(n == fs.last().name);
                assert(fs[fs.len() - 1].name == n);
            }
        }
        assert forall|n: Seq<char>| has_filter_named(fs, n) implies has_filter_named(r, n) by {
            assert(has_filter_named(r, n) <==> (has_filter_named(sort_by_len(dl), n) || n
                == fs.last().name));
            assert(has_filter_named(sort_by_len(dl), n) <==> has_filter_named(dl, n));
            let k = choose|k: int| 0 <= k < fs.len() && fs[k].name == n;
            if k < dl.len() {
                assert(dl[k].name == n);
            } else {
                assert(fs.last().name == n);
            }
        }
    }
}

/// Sorting by prefix length sorts, and keeps distinct prefixes distinct.
pub proof fn lemma_sort_by_len_well_formed(fs: Seq<FilterModel>)
    requires
        names_unique(fs),
    ensures
        sorted_by_len(sort_by_len(fs)),
        names_unique(sort_by_len(fs)),
    decreases fs.len(),
{
    if fs.len() == 0 {
    } else {
        let dl = fs.drop_last();
        assert(names_unique(dl)) by {
            assert forall|i: int, j: int|
                0 <= i < j < dl.len() implies dl[i].name != dl[j].name by {
                assert(dl[i] == fs[i] && dl[j] == fs[j]);
            }
        }
        lemma_sort_by_len_well_formed(dl);
        lemma_sort_names(dl);
        assert(!has_filter_named(sort_by_len(dl), fs.last().name)) by {
            if has_filter_named(dl, fs.last().name) {
                let k = choose|k: int| 0 <= k < dl.len() && dl[k].name == fs.last().name;
                assert(fs[k].name == fs[fs.len() - 1].name);
            }
        }
        lemma_insert_sorted(sort_by_len(dl), fs.last());
        lemma_insert_unique(sort_by_len(dl), fs.last());
    }
}

/// Where `insert_by_len` places `f`: before the entries longer than it and
/// after the rest.
pub(crate) proof fn lemma_insert_by_len_at(fs: Seq<FilterModel>, f: FilterModel, p: int)
    requires
        sorted_by_len(fs),
        0 <= p <= fs.len(),
        forall|k: int| p <= k < fs.len() ==> fs[k].name.len() > f.name.len(),
        p > 0 ==> fs[p - 1].name.len() <= f.name.len(),
    ensures
        insert_by_len(fs, f) == fs.subrange(0, p).push(f) + fs.subrange(p, fs.len() as int),
    decreases fs.len(),
{
    if fs.len() == 0 {
        assert(insert_by_len(fs, f) =~= fs.subrange(0, p).push(f) + fs.subrange(
            p,
            fs.len() as int,
        ));
    } else if fs.last().name.len() <= f.name.len() {
        assert(p == fs.len());
        assert(fs.push(f) =~= fs.subrange(0, p).push(f) + fs.subrange(p, fs.len() as int));
    } else {
        assert(p < fs.len());
        let dl = fs.drop_last();
        assert forall|k: int| p <= k < dl.len() implies dl[k].name.len() > f.name.len() by {
            assert(dl[k] == fs[k]);
        }
        if p > 0 {
            assert(dl[p - 1] == fs[p - 1]);
        }
        lemma_insert_by_len_at(dl, f, p);
        assert(insert_by_len(dl, f).push(fs.last()) =~= fs.subrange(0, p).push(f) + fs.subrange(
            p,
            fs.len() as int,
        )) by {
            assert(insert_by_len(dl, f) == dl.subrange(0, p).push(f) + dl.subrange(
                p,
                dl.len() as int,
            ));
            assert forall|k: int| 0 <= k < p implies dl.subrange(0, p)[k] == fs.subrange(0, p)[k] by {
                assert(dl[k] == fs[k]);
            }
        }
    }
}

} // verus!
