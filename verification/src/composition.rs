//! From a project, its direct dependencies and the resolver's reports to the
//! roots of the run.

use vstd::prelude::*;
use crate::packages::{
    dependencies_of, direct_dependencies, is_first_entry, is_path, is_step, package_views,
    reachable, Package, PackageView,
};
use crate::roots::{root_views, RootView, TagsRoot, TagsRoots};
use crate::source::{identities, SourceIdentity, SourceKind};

verus! {

/// The root at `at` is the library root of `id`.
pub open spec fn is_root_of(roots: Seq<RootView>, at: int, id: SourceIdentity) -> bool {
    &&& 0 <= at < roots.len()
    &&& roots[at] matches RootView::Lib { source, .. }
    &&& source == id
}

/// Some root of the list is the library root of `id`.
pub open spec fn has_root_of(roots: Seq<RootView>, id: SourceIdentity) -> bool {
    exists|at: int| is_root_of(roots, at, id)
}

/// The library of the root at `at` is a direct dependency of the root at
/// `through`, which stands before it.
pub open spec fn found_through(roots: Seq<RootView>, at: int, through: int) -> bool {
    &&& 0 <= through < at < roots.len()
    &&& roots[at] matches RootView::Lib { source, .. }
    &&& roots[through].dependencies().contains(source)
}

/// The library of the root at `at` is a direct dependency of a root that
/// stands before it.
pub open spec fn was_found(roots: Seq<RootView>, at: int) -> bool {
    exists|through: int| found_through(roots, at, through)
}

/// What holds of the roots while they are gathered, and of the finished list:
/// the project's root comes first and carries the project's direct
/// dependencies as they were given; every other root is the root of a
/// library, carries the direct dependencies that the resolver reports for it,
/// shares its library with no other root and was found through a root that
/// stands before it.
pub open spec fn gathered(
    roots: Seq<RootView>,
    root_dir: Seq<char>,
    direct: Seq<SourceIdentity>,
    packages: Seq<PackageView>,
) -> bool {
    &&& roots.len() >= 1
    &&& roots[0] == RootView::Proj { root_dir, dependencies: direct }
    &&& forall|at: int|
        1 <= at < roots.len() ==> {
            &&& (#[trigger] roots[at]) matches RootView::Lib { source, dependencies }
            &&& dependencies == dependencies_of(packages, source)
        }
    &&& forall|at: int, other: int, id: SourceIdentity|
        #[trigger] is_root_of(roots, at, id) && #[trigger] is_root_of(roots, other, id) ==> at
            == other
    &&& forall|at: int| 1 <= at < roots.len() ==> #[trigger] was_found(roots, at)
}

/// The libraries of the roots that follow the project's root, in order.
pub open spec fn libraries(roots: Seq<RootView>) -> Seq<SourceIdentity> {
    Seq::new((roots.len() - 1) as nat, |at: int| roots[at + 1]->source)
}

/// The direct dependencies that the first `upto` roots carry, read one root
/// after the other.
pub open spec fn mentioned(roots: Seq<RootView>, upto: nat) -> Seq<SourceIdentity>
    decreases upto,
{
    if upto == 0 {
        Seq::empty()
    } else {
        mentioned(roots, (upto - 1) as nat) + roots[upto - 1].dependencies()
    }
}

/// The sources of a list, each once, in the order in which they stand first.
pub open spec fn first_mentions(sources: Seq<SourceIdentity>) -> Seq<SourceIdentity>
    decreases sources.len(),
{
    if sources.len() == 0 {
        Seq::empty()
    } else {
        let before = first_mentions(sources.drop_last());
        if before.contains(sources.last()) {
            before
        } else {
            before.push(sources.last())
        }
    }
}

/// Every direct dependency of the roots before `root`, and the first `upto`
/// of the root at `root`, have a root of their own.
spec fn closed_until(roots: Seq<RootView>, root: int, upto: int) -> bool {
    forall|at: int, nth: int|
        #![trigger roots[at].dependencies()[nth]]
        0 <= at < roots.len() && 0 <= nth < roots[at].dependencies().len() && (at < root || (at
            == root && nth < upto)) ==> has_root_of(roots, roots[at].dependencies()[nth])
}

/// The roots of a project: the root of the project, and exactly one root for
/// each library that the project reaches, in the order in which the roots'
/// dependencies mention the libraries first.
pub open spec fn is_composition(
    roots: Seq<RootView>,
    root_dir: Seq<char>,
    direct: Seq<SourceIdentity>,
    packages: Seq<PackageView>,
) -> bool {
    &&& gathered(roots, root_dir, direct, packages)
    &&& forall|id: SourceIdentity|
        #[trigger] has_root_of(roots, id) <==> reachable(direct, packages, id)
    &&& libraries(roots) == first_mentions(mentioned(roots, roots.len()))
}

/// A library that has a root is reached from the project.
proof fn lemma_root_is_reachable(
    roots: Seq<RootView>,
    root_dir: Seq<char>,
    direct: Seq<SourceIdentity>,
    packages: Seq<PackageView>,
    at: int,
)
    requires
        gathered(roots, root_dir, direct, packages),
        1 <= at < roots.len(),
    ensures
        roots[at] matches RootView::Lib { source, .. } && reachable(direct, packages, source),
    decreases at,
{
    let id = roots[at]->source;
    assert(was_found(roots, at));
    let through = choose|through: int| found_through(roots, at, through);
    if through == 0 {
        let path = seq![id];
        assert(is_path(direct, packages, path));
        assert(path.last() == id);
    } else {
        lemma_root_is_reachable(roots, root_dir, direct, packages, through);
        let before = roots[through]->source;
        let path = choose|path: Seq<SourceIdentity>| #[trigger]
            is_path(direct, packages, path) && path.last() == before;
        let longer = path.push(id);
        assert forall|step: int| 0 <= step < longer.len() - 1 implies #[trigger] is_step(
            packages,
            longer,
            step,
        ) by {
            if step < path.len() - 1 {
                assert(is_step(packages, path, step));
                assert(longer[step] == path[step]);
                assert(longer[step + 1] == path[step + 1]);
            } else {
                assert(longer[step] == before);
                assert(longer[step + 1] == id);
            }
        }
        assert(longer[0] == path[0]);
        assert(is_path(direct, packages, longer));
        assert(longer.last() == id);
    }
}

/// Once every dependency of every root has a root, the end of every path has one.
proof fn lemma_path_ends_at_root(
    roots: Seq<RootView>,
    root_dir: Seq<char>,
    direct: Seq<SourceIdentity>,
    packages: Seq<PackageView>,
    path: Seq<SourceIdentity>,
)
    requires
        gathered(roots, root_dir, direct, packages),
        closed_until(roots, roots.len() as int, 0),
        is_path(direct, packages, path),
    ensures
        has_root_of(roots, path.last()),
    decreases path.len(),
{
    if path.len() == 1 {
        let nth = choose|nth: int| 0 <= nth < direct.len() && direct[nth] == path[0];
        assert(roots[0].dependencies()[nth] == path[0]);
    } else {
        let shorter = path.drop_last();
        assert forall|step: int| 0 <= step < shorter.len() - 1 implies #[trigger] is_step(
            packages,
            shorter,
            step,
        ) by {
            assert(is_step(packages, path, step));
            assert(shorter[step] == path[step]);
            assert(shorter[step + 1] == path[step + 1]);
        }
        assert(shorter[0] == path[0]);
        assert(is_path(direct, packages, shorter));
        lemma_path_ends_at_root(roots, root_dir, direct, packages, shorter);
        let before = shorter.last();
        assert(before == path[path.len() - 2]);
        let at = choose|at: int| is_root_of(roots, at, before);
        assert(is_root_of(roots, at, before));
        assert(at >= 1);
        assert(roots[at].dependencies() == dependencies_of(packages, before));
        assert(is_step(packages, path, path.len() - 2));
        let nth = choose|nth: int|
            0 <= nth < roots[at].dependencies().len() && roots[at].dependencies()[nth]
                == path.last();
        assert(roots[at].dependencies()[nth] == path.last());
    }
}

/// Roots that were gathered until every dependency of every root had a root
/// are the roots of the project.
proof fn lemma_closed_is_composition(
    roots: Seq<RootView>,
    root_dir: Seq<char>,
    direct: Seq<SourceIdentity>,
    packages: Seq<PackageView>,
)
    requires
        gathered(roots, root_dir, direct, packages),
        closed_until(roots, roots.len() as int, 0),
        libraries(roots) == first_mentions(mentioned(roots, roots.len())),
    ensures
        is_composition(roots, root_dir, direct, packages),
{
    assert forall|id: SourceIdentity| #[trigger]
        has_root_of(roots, id) <==> reachable(direct, packages, id) by {
        if has_root_of(roots, id) {
            let at = choose|at: int| is_root_of(roots, at, id);
            assert(at >= 1);
            lemma_root_is_reachable(roots, root_dir, direct, packages, at);
        }
        if reachable(direct, packages, id) {
            let path = choose|path: Seq<SourceIdentity>| #[trigger]
                is_path(direct, packages, path) && path.last() == id;
            lemma_path_ends_at_root(roots, root_dir, direct, packages, path);
        }
    }
}

/// The direct dependencies of the project, followed by those of the first
/// `upto` packages: every source that can ever get a root.
spec fn named(direct: Seq<SourceIdentity>, packages: Seq<PackageView>, upto: nat) -> Seq<
    SourceIdentity,
>
    decreases upto,
{
    if upto == 0 {
        direct
    } else {
        named(direct, packages, (upto - 1) as nat) + packages[upto - 1].dependencies
    }
}

proof fn lemma_named_holds_direct(
    direct: Seq<SourceIdentity>,
    packages: Seq<PackageView>,
    upto: nat,
    nth: int,
)
    requires
        0 <= nth < direct.len(),
    ensures
        named(direct, packages, upto).contains(direct[nth]),
    decreases upto,
{
    if upto > 0 {
        lemma_named_holds_direct(direct, packages, (upto - 1) as nat, nth);
        let shorter = named(direct, packages, (upto - 1) as nat);
        let at = choose|at: int| 0 <= at < shorter.len() && shorter[at] == direct[nth];
        assert(named(direct, packages, upto)[at] == direct[nth]);
    }
}

proof fn lemma_named_holds_package(
    direct: Seq<SourceIdentity>,
    packages: Seq<PackageView>,
    upto: nat,
    package: int,
    nth: int,
)
    requires
        0 <= package < upto,
        0 <= nth < packages[package].dependencies.len(),
    ensures
        named(direct, packages, upto).contains(packages[package].dependencies[nth]),
    decreases upto,
{
    let shorter = named(direct, packages, (upto - 1) as nat);
    if package == upto - 1 {
        assert(named(direct, packages, upto)[shorter.len() + nth]
            == packages[package].dependencies[nth]);
    } else {
        lemma_named_holds_package(direct, packages, (upto - 1) as nat, package, nth);
        let at = choose|at: int|
            0 <= at < shorter.len() && shorter[at] == packages[package].dependencies[nth];
        assert(named(direct, packages, upto)[at] == packages[package].dependencies[nth]);
    }
}

/// Whatever a root carries as a direct dependency is named by the project or
/// by a package.
proof fn lemma_dependency_is_named(
    roots: Seq<RootView>,
    root_dir: Seq<char>,
    direct: Seq<SourceIdentity>,
    packages: Seq<PackageView>,
    root: int,
    nth: int,
)
    requires
        gathered(roots, root_dir, direct, packages),
        0 <= root < roots.len(),
        0 <= nth < roots[root].dependencies().len(),
    ensures
        named(direct, packages, packages.len()).contains(roots[root].dependencies()[nth]),
{
    if root == 0 {
        lemma_named_holds_direct(direct, packages, packages.len(), nth);
    } else {
        let id = roots[root]->source;
        assert(roots[root].dependencies() == dependencies_of(packages, id));
        let package = choose|package: int| is_first_entry(packages, id, package);
        lemma_named_holds_package(direct, packages, packages.len(), package, nth);
    }
}

/// A library whose root is missing gets one: the list stays as it should be,
/// and one more dependency has a root.
proof fn lemma_gather_one(
    roots: Seq<RootView>,
    root_dir: Seq<char>,
    direct: Seq<SourceIdentity>,
    packages: Seq<PackageView>,
    root: int,
    nth: int,
)
    requires
        gathered(roots, root_dir, direct, packages),
        closed_until(roots, root, nth),
        0 <= root < roots.len(),
        0 <= nth < roots[root].dependencies().len(),
        !has_root_of(roots, roots[root].dependencies()[nth]),
    ensures
        ({
            let id = roots[root].dependencies()[nth];
            let longer = roots.push(
                RootView::Lib { source: id, dependencies: dependencies_of(packages, id) },
            );
            &&& gathered(longer, root_dir, direct, packages)
            &&& closed_until(longer, root, nth + 1)
            &&& forall|other: SourceIdentity|
                #[trigger] has_root_of(longer, other) <==> has_root_of(roots, other) || other == id
        }),
{
    let id = roots[root].dependencies()[nth];
    let longer = roots.push(
        RootView::Lib { source: id, dependencies: dependencies_of(packages, id) },
    );
    let last = roots.len() as int;
    assert forall|other: SourceIdentity| #[trigger]
        has_root_of(longer, other) <==> has_root_of(roots, other) || other == id by {
        if has_root_of(roots, other) {
            let at = choose|at: int| is_root_of(roots, at, other);
            assert(is_root_of(longer, at, other));
        }
        if other == id {
            assert(is_root_of(longer, last, other));
        }
        if has_root_of(longer, other) {
            let at = choose|at: int| is_root_of(longer, at, other);
            if at < last {
                assert(is_root_of(roots, at, other));
            }
        }
    }
    assert forall|at: int| 1 <= at < longer.len() implies {
        &&& (#[trigger] longer[at]) matches RootView::Lib { source, dependencies }
        &&& dependencies == dependencies_of(packages, source)
    } by {
        if at < last {
            assert(longer[at] == roots[at]);
        }
    }
    assert forall|at: int| 1 <= at < longer.len() implies #[trigger] was_found(longer, at) by {
        if at < last {
            assert(was_found(roots, at));
            let through = choose|through: int| found_through(roots, at, through);
            assert(longer[at] == roots[at]);
            assert(longer[through] == roots[through]);
            assert(found_through(longer, at, through));
        } else {
            assert(longer[root] == roots[root]);
            assert(found_through(longer, at, root));
        }
    }
    assert forall|at: int, other: int, of: SourceIdentity| #[trigger]
        is_root_of(longer, at, of) && #[trigger] is_root_of(longer, other, of) implies at
        == other by {
        if at < last && other < last {
            assert(is_root_of(roots, at, of));
            assert(is_root_of(roots, other, of));
        } else if at < last {
            assert(is_root_of(roots, at, of));
        } else if other < last {
            assert(is_root_of(roots, other, of));
        }
    }
    assert forall|at: int, dep: int|
        #![trigger longer[at].dependencies()[dep]]
        0 <= at < longer.len() && 0 <= dep < longer[at].dependencies().len() && (at < root || (at
            == root && dep < nth + 1)) implies has_root_of(
        longer,
        longer[at].dependencies()[dep],
    ) by {
        assert(longer[at] == roots[at]);
        if at == root && dep == nth {
        } else {
            assert(has_root_of(roots, roots[at].dependencies()[dep]));
        }
    }
}

/// What the first roots carry does not change when a root is put behind them.
proof fn lemma_mentioned_ignores_later(roots: Seq<RootView>, root: RootView, upto: nat)
    requires
        upto <= roots.len(),
    ensures
        mentioned(roots.push(root), upto) == mentioned(roots, upto),
    decreases upto,
{
    if upto > 0 {
        lemma_mentioned_ignores_later(roots, root, (upto - 1) as nat);
        assert(roots.push(root)[upto - 1] == roots[upto - 1]);
    }
}

/// A library has a root exactly when it is among the libraries of the roots.
pub proof fn lemma_libraries_hold_roots(
    roots: Seq<RootView>,
    root_dir: Seq<char>,
    direct: Seq<SourceIdentity>,
    packages: Seq<PackageView>,
    id: SourceIdentity,
)
    requires
        gathered(roots, root_dir, direct, packages),
    ensures
        has_root_of(roots, id) <==> libraries(roots).contains(id),
{
    if has_root_of(roots, id) {
        let at = choose|at: int| is_root_of(roots, at, id);
        assert(libraries(roots)[at - 1] == id);
    }
    if libraries(roots).contains(id) {
        let at = choose|at: int| 0 <= at < libraries(roots).len() && libraries(roots)[at] == id;
        assert(is_root_of(roots, at + 1, id));
    }
}

/// Reading one more dependency keeps the libraries in the order of their
/// first mention, whether the dependency has its root already or gets it now.
proof fn lemma_read_one(
    roots: Seq<RootView>,
    root_dir: Seq<char>,
    direct: Seq<SourceIdentity>,
    packages: Seq<PackageView>,
    root: int,
    nth: int,
)
    requires
        gathered(roots, root_dir, direct, packages),
        0 <= root < roots.len(),
        0 <= nth < roots[root].dependencies().len(),
        libraries(roots) == first_mentions(
            mentioned(roots, root as nat) + roots[root].dependencies().take(nth),
        ),
    ensures
        ({
            let id = roots[root].dependencies()[nth];
            let longer = roots.push(
                RootView::Lib { source: id, dependencies: dependencies_of(packages, id) },
            );
            let read = mentioned(roots, root as nat) + roots[root].dependencies().take(nth + 1);
            &&& has_root_of(roots, id) ==> libraries(roots) == first_mentions(read)
            &&& !has_root_of(roots, id) ==> libraries(longer) == first_mentions(
                mentioned(longer, root as nat) + longer[root].dependencies().take(nth + 1),
            )
        }),
{
    let id = roots[root].dependencies()[nth];
    let grown = RootView::Lib { source: id, dependencies: dependencies_of(packages, id) };
    let longer = roots.push(grown);
    let so_far = mentioned(roots, root as nat) + roots[root].dependencies().take(nth);
    let read = mentioned(roots, root as nat) + roots[root].dependencies().take(nth + 1);
    assert(read =~= so_far.push(id));
    assert(read.drop_last() =~= so_far);
    lemma_libraries_hold_roots(roots, root_dir, direct, packages, id);
    if !has_root_of(roots, id) {
        lemma_mentioned_ignores_later(roots, grown, root as nat);
        assert(longer[root] == roots[root]);
        assert(libraries(longer) =~= libraries(roots).push(id));
    }
}

/// Whether the list holds the root of the library `source`.
fn has_root(roots: &Vec<TagsRoot>, source: &SourceKind) -> (found: bool)
    ensures
        found == has_root_of(root_views(roots@), source@),
{
    let mut i: usize = 0;
    while i < roots.len()
        invariant
            i <= roots.len(),
            forall|at: int| 0 <= at < i ==> !is_root_of(root_views(roots@), at, source@),
        decreases roots.len() - i,
    {
        match &roots[i] {
            TagsRoot::Lib { src_kind, .. } => {
                if *src_kind == *source {
                    assert(is_root_of(root_views(roots@), i as int, source@));
                    return true;
                }
            },
            _ => {},
        }
        i += 1;
    }
    false
}

/// The roots of a project in `root_dir` that depends directly on
/// `dependencies`, where `packages` tells what each library depends on.
///
/// The project's root comes first. It is followed by one root for every
/// library that the project reaches, directly or through other libraries,
/// however many ways lead to it; a library that depends on itself through
/// others gets its one root like any other.
pub fn compose_roots(root_dir: String, dependencies: Vec<SourceKind>, packages: &Vec<Package>) -> (roots:
    TagsRoots)
    ensures
        is_composition(
            root_views(roots@),
            root_dir@,
            identities(dependencies@),
            package_views(packages@),
        ),
{
    let ghost dir = root_dir@;
    let ghost direct = identities(dependencies@);
    let ghost table = package_views(packages@);
    let ghost every = named(direct, table, table.len()).to_set();
    let ghost mut unseen = every;
    let mut roots: Vec<TagsRoot> = Vec::new();
    roots.push(TagsRoot::Proj { root_dir, dependencies });
    proof {
        vstd::seq_lib::seq_to_set_is_finite(named(direct, table, table.len()));
        assert(root_views(roots@)[0] == RootView::Proj { root_dir: dir, dependencies: direct });
        assert(libraries(root_views(roots@)) =~= Seq::<SourceIdentity>::empty());
    }
    let mut done: usize = 0;
    while done < roots.len()
        invariant
            done <= roots.len(),
            table == package_views(packages@),
            every == named(direct, table, table.len()).to_set(),
            gathered(root_views(roots@), dir, direct, table),
            closed_until(root_views(roots@), done as int, 0),
            libraries(root_views(roots@)) == first_mentions(
                mentioned(root_views(roots@), done as nat),
            ),
            unseen.finite(),
            forall|id: SourceIdentity|
                every.contains(id) && !has_root_of(root_views(roots@), id) ==> unseen.contains(id),
        decreases unseen.len() + roots.len() - done,
    {
        let count = roots[done].dependencies().len();
        let ghost budget = unseen.len() + roots.len();
        let mut nth: usize = 0;
        proof {
            let carried = root_views(roots@)[done as int].dependencies();
            assert(mentioned(root_views(roots@), done as nat) + carried.take(0) =~= mentioned(
                root_views(roots@),
                done as nat,
            ));
        }
        while nth < count
            invariant
                done < roots.len(),
                nth <= count,
                count == root_views(roots@)[done as int].dependencies().len(),
                table == package_views(packages@),
                every == named(direct, table, table.len()).to_set(),
                gathered(root_views(roots@), dir, direct, table),
                closed_until(root_views(roots@), done as int, nth as int),
                libraries(root_views(roots@)) == first_mentions(
                    mentioned(root_views(roots@), done as nat) + root_views(
                        roots@,
                    )[done as int].dependencies().take(nth as int),
                ),
                unseen.finite(),
                forall|id: SourceIdentity|
                    every.contains(id) && !has_root_of(root_views(roots@), id) ==> unseen.contains(
                        id,
                    ),
                unseen.len() + roots.len() == budget,
            decreases count - nth,
        {
            let candidate = roots[done].dependencies()[nth].clone();
            let ghost id = candidate@;
            let ghost views = root_views(roots@);
            assert(id == views[done as int].dependencies()[nth as int]);
            proof {
                lemma_read_one(views, dir, direct, table, done as int, nth as int);
            }
            if !has_root(&roots, &candidate) {
                let found = direct_dependencies(packages, &candidate);
                roots.push(TagsRoot::Lib { src_kind: candidate, dependencies: found });
                proof {
                    lemma_gather_one(views, dir, direct, table, done as int, nth as int);
                    lemma_dependency_is_named(views, dir, direct, table, done as int, nth as int);
                    assert(root_views(roots@) =~= views.push(
                        RootView::Lib { source: id, dependencies: dependencies_of(table, id) },
                    ));
                    assert(unseen.contains(id));
                    unseen = unseen.remove(id);
                }
            }
            nth += 1;
        }
        proof {
            let carried = root_views(roots@)[done as int].dependencies();
            assert(carried.take(count as int) =~= carried);
        }
        done += 1;
    }
    proof {
        lemma_closed_is_composition(root_views(roots@), dir, direct, table);
    }
    roots
}

} // verus!
