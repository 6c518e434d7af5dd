//! What holds of the roots of every project.

use vstd::prelude::*;
use crate::composition::{
    found_through, is_composition, is_root_of, has_root_of, lemma_libraries_hold_roots,
    first_mentions, libraries, mentioned, was_found,
};
use crate::packages::{reachable, PackageView};
use crate::roots::RootView;
use crate::source::SourceIdentity;

verus! {

/// The first mentions of a list hold every source of the list, and each once.
proof fn lemma_first_mentions_hold_all(sources: Seq<SourceIdentity>)
    ensures
        first_mentions(sources).no_duplicates(),
        forall|id: SourceIdentity| first_mentions(sources).contains(id) <==> sources.contains(id),
    decreases sources.len(),
{
    if sources.len() > 0 {
        let rest = sources.drop_last();
        let before = first_mentions(rest);
        lemma_first_mentions_hold_all(rest);
        assert forall|id: SourceIdentity| first_mentions(sources).contains(id) <==> sources.contains(
            id,
        ) by {
            if sources.contains(id) {
                let at = choose|at: int| 0 <= at < sources.len() && sources[at] == id;
                if at < rest.len() {
                    assert(rest[at] == id);
                    assert(rest.contains(id));
                    assert(before.contains(id));
                    let found = choose|found: int| 0 <= found < before.len() && before[found] == id;
                    assert(first_mentions(sources)[found] == id);
                } else if !before.contains(id) {
                    assert(first_mentions(sources)[before.len() as int] == id);
                }
            }
            if first_mentions(sources).contains(id) {
                let at = choose|at: int|
                    0 <= at < first_mentions(sources).len() && first_mentions(sources)[at] == id;
                if at < before.len() {
                    assert(before[at] == id);
                    assert(rest.contains(id));
                    let found = choose|found: int| 0 <= found < rest.len() && rest[found] == id;
                    assert(sources[found] == id);
                } else {
                    assert(sources[sources.len() - 1] == id);
                }
            }
        }
    }
}

/// The first mentions of the start of a list are the start of the first
/// mentions of the list.
proof fn lemma_first_mentions_grow(sources: Seq<SourceIdentity>, upto: int)
    requires
        0 <= upto <= sources.len(),
    ensures
        first_mentions(sources.take(upto)).is_prefix_of(first_mentions(sources)),
    decreases sources.len(),
{
    if upto == sources.len() {
        assert(sources.take(upto) =~= sources);
    } else {
        let rest = sources.drop_last();
        assert(rest.take(upto) =~= sources.take(upto));
        lemma_first_mentions_grow(rest, upto);
    }
}

/// What the first roots carry is the start of what more roots carry.
proof fn lemma_mentioned_grows(roots: Seq<RootView>, lower: nat, upper: nat)
    requires
        lower <= upper,
    ensures
        mentioned(roots, lower).is_prefix_of(mentioned(roots, upper)),
    decreases upper,
{
    if lower < upper {
        lemma_mentioned_grows(roots, lower, (upper - 1) as nat);
    }
}

/// What a root carries is among what it and the roots before it carry.
proof fn lemma_mentioned_holds(roots: Seq<RootView>, upto: nat, root: int, nth: int)
    requires
        0 <= root < upto,
        0 <= nth < roots[root].dependencies().len(),
    ensures
        mentioned(roots, upto).contains(roots[root].dependencies()[nth]),
    decreases upto,
{
    let before = mentioned(roots, (upto - 1) as nat);
    if root == upto - 1 {
        assert(mentioned(roots, upto)[before.len() + nth] == roots[root].dependencies()[nth]);
    } else {
        lemma_mentioned_holds(roots, (upto - 1) as nat, root, nth);
        let at = choose|at: int|
            0 <= at < before.len() && before[at] == roots[root].dependencies()[nth];
        assert(mentioned(roots, upto)[at] == roots[root].dependencies()[nth]);
    }
}

/// Two lists that start with the same roots carry the same there.
proof fn lemma_mentioned_of_same_start(one: Seq<RootView>, other: Seq<RootView>, upto: nat)
    requires
        upto <= one.len(),
        upto <= other.len(),
        one.take(upto as int) == other.take(upto as int),
    ensures
        mentioned(one, upto) == mentioned(other, upto),
    decreases upto,
{
    if upto > 0 {
        assert(one.take(upto - 1) =~= one.take(upto as int).take(upto - 1));
        assert(other.take(upto - 1) =~= other.take(upto as int).take(upto - 1));
        lemma_mentioned_of_same_start(one, other, (upto - 1) as nat);
        assert(one[upto - 1] == one.take(upto as int)[upto - 1]);
        assert(other[upto - 1] == other.take(upto as int)[upto - 1]);
    }
}

/// The library of a root is fixed by the roots before it: it is the next
/// first mention among what they carry.
proof fn lemma_library_is_next_mention(
    roots: Seq<RootView>,
    root_dir: Seq<char>,
    direct: Seq<SourceIdentity>,
    packages: Seq<PackageView>,
    at: int,
)
    requires
        is_composition(roots, root_dir, direct, packages),
        1 <= at < roots.len(),
    ensures
        at - 1 < first_mentions(mentioned(roots, at as nat)).len(),
        roots[at]->source == first_mentions(mentioned(roots, at as nat))[at - 1],
{
    let id = roots[at]->source;
    let read = mentioned(roots, at as nat);
    let all = mentioned(roots, roots.len());
    let first = first_mentions(read);
    assert(was_found(roots, at));
    let through = choose|through: int| found_through(roots, at, through);
    let nth = choose|nth: int|
        0 <= nth < roots[through].dependencies().len() && roots[through].dependencies()[nth] == id;
    lemma_mentioned_holds(roots, at as nat, through, nth);
    lemma_first_mentions_hold_all(read);
    lemma_first_mentions_hold_all(all);
    lemma_mentioned_grows(roots, at as nat, roots.len());
    assert(all.take(read.len() as int) =~= read);
    lemma_first_mentions_grow(all, read.len() as int);
    let found = choose|found: int| 0 <= found < first.len() && first[found] == id;
    assert(libraries(roots)[found] == first[found]);
    assert(libraries(roots)[at - 1] == id);
}

/// Two lists of roots of one project agree on their first `upto` roots.
proof fn lemma_same_start(
    one: Seq<RootView>,
    other: Seq<RootView>,
    root_dir: Seq<char>,
    direct: Seq<SourceIdentity>,
    packages: Seq<PackageView>,
    upto: nat,
)
    requires
        is_composition(one, root_dir, direct, packages),
        is_composition(other, root_dir, direct, packages),
        1 <= upto <= one.len(),
        upto <= other.len(),
    ensures
        one.take(upto as int) == other.take(upto as int),
    decreases upto,
{
    if upto == 1 {
        assert(one.take(1) =~= other.take(1));
    } else {
        let at = upto - 1;
        lemma_same_start(one, other, root_dir, direct, packages, at as nat);
        lemma_mentioned_of_same_start(one, other, at as nat);
        lemma_library_is_next_mention(one, root_dir, direct, packages, at);
        lemma_library_is_next_mention(other, root_dir, direct, packages, at);
        assert(one[at] == other[at]);
        assert forall|i: int| 0 <= i < upto implies one.take(upto as int)[i] == other.take(
            upto as int,
        )[i] by {
            if i < at {
                assert(one.take(at)[i] == other.take(at)[i]);
            }
        }
        assert(one.take(upto as int) =~= other.take(upto as int));
    }
}

/// The roots of a project hold one root for each library that the project
/// reaches, and none besides: with the project's root they are one more than
/// those libraries.
pub proof fn lemma_one_root_for_each_library(
    roots: Seq<RootView>,
    root_dir: Seq<char>,
    direct: Seq<SourceIdentity>,
    packages: Seq<PackageView>,
)
    requires
        is_composition(roots, root_dir, direct, packages),
    ensures
        libraries(roots).no_duplicates(),
        libraries(roots).to_set() == Set::new(|id: SourceIdentity| reachable(direct, packages, id)),
        roots.len() == 1 + Set::new(|id: SourceIdentity| reachable(direct, packages, id)).len(),
{
    let found = libraries(roots);
    assert forall|i: int, j: int| 0 <= i < found.len() && 0 <= j < found.len() && i != j implies found[i]
        != found[j] by {
        if found[i] == found[j] {
            assert(is_root_of(roots, i + 1, found[i]));
            assert(is_root_of(roots, j + 1, found[i]));
        }
    }
    assert forall|id: SourceIdentity| found.to_set().contains(id) <==> reachable(
        direct,
        packages,
        id,
    ) by {
        lemma_libraries_hold_roots(roots, root_dir, direct, packages, id);
        assert(has_root_of(roots, id) <==> reachable(direct, packages, id));
    }
    assert(found.to_set() =~= Set::new(|id: SourceIdentity| reachable(direct, packages, id)));
    found.unique_seq_to_set();
}

/// A project has one list of roots: whatever meets the description of the
/// roots is the list that `compose_roots` returns.
pub proof fn lemma_composition_is_unique(
    one: Seq<RootView>,
    other: Seq<RootView>,
    root_dir: Seq<char>,
    direct: Seq<SourceIdentity>,
    packages: Seq<PackageView>,
)
    requires
        is_composition(one, root_dir, direct, packages),
        is_composition(other, root_dir, direct, packages),
    ensures
        one == other,
{
    lemma_one_root_for_each_library(one, root_dir, direct, packages);
    lemma_one_root_for_each_library(other, root_dir, direct, packages);
    lemma_same_start(one, other, root_dir, direct, packages, one.len());
    assert(one.take(one.len() as int) =~= one);
    assert(other.take(other.len() as int) =~= other);
}

} // verus!
