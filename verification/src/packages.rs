//! What the dependency resolver reports: for each library, the libraries it
//! depends on directly. Read as a graph, the reports tell which libraries a
//! project reaches.

use vstd::prelude::*;
use crate::source::{identities, SourceIdentity, SourceKind};

verus! {

/// A library as the dependency resolver reports it: its source and the
/// sources of the libraries it depends on directly.
#[derive(Debug)]
pub struct Package {
    pub src_kind: SourceKind,
    pub dependencies: Vec<SourceKind>,
}

/// A `Package` seen as a value of mathematics.
pub struct PackageView {
    pub source: SourceIdentity,
    pub dependencies: Seq<SourceIdentity>,
}

/// The packages of a list, each as a value of mathematics.
pub open spec fn package_views(packages: Seq<Package>) -> Seq<PackageView> {
    packages.map_values(|package: Package| package@)
}

impl View for Package {
    type V = PackageView;

    open spec fn view(&self) -> PackageView {
        PackageView { source: self.src_kind@, dependencies: identities(self.dependencies@) }
    }
}

/// The package at `at` is the first one that the resolver reports for `id`.
pub open spec fn is_first_entry(packages: Seq<PackageView>, id: SourceIdentity, at: int) -> bool {
    &&& 0 <= at < packages.len()
    &&& packages[at].source == id
    &&& forall|before: int| 0 <= before < at ==> (#[trigger] packages[before]).source != id
}

/// The direct dependencies of `id`: those of the first package reported for
/// it, and none where the resolver reports no such package.
pub open spec fn dependencies_of(packages: Seq<PackageView>, id: SourceIdentity) -> Seq<
    SourceIdentity,
> {
    if exists|at: int| is_first_entry(packages, id, at) {
        packages[choose|at: int| is_first_entry(packages, id, at)].dependencies
    } else {
        Seq::empty()
    }
}

/// The source at `step + 1` of the path is a direct dependency of the source
/// at `step`.
pub open spec fn is_step(packages: Seq<PackageView>, path: Seq<SourceIdentity>, step: int) -> bool {
    dependencies_of(packages, path[step]).contains(path[step + 1])
}

/// `path` leads from a direct dependency of the project along direct
/// dependencies, as the resolver reports them.
pub open spec fn is_path(
    direct: Seq<SourceIdentity>,
    packages: Seq<PackageView>,
    path: Seq<SourceIdentity>,
) -> bool {
    &&& path.len() >= 1
    &&& direct.contains(path[0])
    &&& forall|step: int| 0 <= step < path.len() - 1 ==> #[trigger] is_step(packages, path, step)
}

/// The project depends on `id`, directly or through other libraries.
pub open spec fn reachable(
    direct: Seq<SourceIdentity>,
    packages: Seq<PackageView>,
    id: SourceIdentity,
) -> bool {
    exists|path: Seq<SourceIdentity>| #[trigger] is_path(direct, packages, path) && path.last() == id
}

/// A copy of a list of sources.
fn copy_sources(sources: &Vec<SourceKind>) -> (copy: Vec<SourceKind>)
    ensures
        copy@ == sources@,
{
    let mut copy: Vec<SourceKind> = Vec::new();
    let mut i: usize = 0;
    while i < sources.len()
        invariant
            i <= sources.len(),
            copy@ == sources@.take(i as int),
        decreases sources.len() - i,
    {
        copy.push(sources[i].clone());
        assert(sources@.take(i + 1) =~= sources@.take(i as int).push(sources@[i as int]));
        i += 1;
    }
    assert(sources@.take(sources.len() as int) =~= sources@);
    copy
}

/// The direct dependencies that the resolver reports for `source`.
pub fn direct_dependencies(packages: &Vec<Package>, source: &SourceKind) -> (dependencies: Vec<
    SourceKind,
>)
    ensures
        identities(dependencies@) == dependencies_of(package_views(packages@), source@),
{
    let ghost table = package_views(packages@);
    let mut i: usize = 0;
    while i < packages.len()
        invariant
            i <= packages.len(),
            table == package_views(packages@),
            forall|before: int| 0 <= before < i ==> (#[trigger] table[before]).source != source@,
        decreases packages.len() - i,
    {
        if packages[i].src_kind == *source {
            assert(is_first_entry(table, source@, i as int));
            return copy_sources(&packages[i].dependencies);
        }
        i += 1;
    }
    assert(identities(Seq::<SourceKind>::empty()) =~= Seq::<SourceIdentity>::empty());
    Vec::new()
}

} // verus!
