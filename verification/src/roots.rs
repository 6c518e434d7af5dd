//! The roots of one run: the project and the libraries that it reaches.

use vstd::prelude::*;
use vstd::string::StringExecFns;
use crate::artifact::Location;
use crate::format::TagsSpec;
use crate::source::{identities, SourceIdentity, SourceKind};

verus! {

/// A directory of source code with a tags file of its own. The tags file of a
/// root indexes the root's source code and that of its direct dependencies,
/// and no more: what the dependencies depend on is found in their own roots.
#[derive(Debug)]
pub enum TagsRoot {
    /// the project, by its directory
    Proj { root_dir: String, dependencies: Vec<SourceKind> },
    /// a library that the project depends on, directly or not
    Lib { src_kind: SourceKind, dependencies: Vec<SourceKind> },
}

pub type TagsRoots = Vec<TagsRoot>;

/// A `TagsRoot` seen as a value of mathematics.
pub enum RootView {
    Proj { root_dir: Seq<char>, dependencies: Seq<SourceIdentity> },
    Lib { source: SourceIdentity, dependencies: Seq<SourceIdentity> },
}

/// The roots of a list, each as a value of mathematics.
pub open spec fn root_views(roots: Seq<TagsRoot>) -> Seq<RootView> {
    roots.map_values(|root: TagsRoot| root@)
}

impl View for TagsRoot {
    type V = RootView;

    open spec fn view(&self) -> RootView {
        match *self {
            TagsRoot::Proj { root_dir, dependencies } => RootView::Proj {
                root_dir: root_dir@,
                dependencies: identities(dependencies@),
            },
            TagsRoot::Lib { src_kind, dependencies } => RootView::Lib {
                source: src_kind@,
                dependencies: identities(dependencies@),
            },
        }
    }
}

/// The labels of a list of sources, with `, ` between them.
pub open spec fn labels(sources: Seq<SourceIdentity>) -> Seq<char>
    decreases sources.len(),
{
    if sources.len() == 0 {
        Seq::empty()
    } else if sources.len() == 1 {
        sources[0].label()
    } else {
        labels(sources.drop_last()) + ", "@ + sources.last().label()
    }
}

impl RootView {
    /// The direct dependencies that the root carries.
    pub open spec fn dependencies(self) -> Seq<SourceIdentity> {
        match self {
            RootView::Proj { dependencies, .. } => dependencies,
            RootView::Lib { dependencies, .. } => dependencies,
        }
    }

    /// The directory that holds the tags file of the root. The tags of the
    /// project and of a library in a local directory lie beside the source
    /// code; all others share the cache directory.
    pub open spec fn tags_dir(self, cache_dir: Seq<char>) -> Seq<char> {
        match self {
            RootView::Proj { root_dir, .. } => root_dir,
            RootView::Lib { source: SourceIdentity::Path { path, .. }, .. } => path,
            RootView::Lib { .. } => cache_dir,
        }
    }

    /// The name of the tags file of the root.
    pub open spec fn tags_file_name(self, tags_spec: &TagsSpec) -> Seq<char> {
        match self {
            RootView::Proj { .. } => tags_spec.spec_file_name(),
            RootView::Lib { source, .. } => source.tags_file_name(tags_spec),
        }
    }

    /// The root as a line of text.
    pub open spec fn describe(self) -> Seq<char> {
        match self {
            RootView::Proj { root_dir, dependencies } => "TagsRoot::Proj ( root_dir: "@ + root_dir
                + ", dependencies: ["@ + labels(dependencies) + "] )"@,
            RootView::Lib { source, dependencies } => "TagsRoot::Lib ( src_kind: "@
                + source.label() + ", dependencies: ["@ + labels(dependencies) + "] )"@,
        }
    }
}

impl TagsRoot {
    /// The direct dependencies that the root carries.
    pub fn dependencies(&self) -> (dependencies: &Vec<SourceKind>)
        ensures
            identities(dependencies@) == self@.dependencies(),
    {
        match self {
            TagsRoot::Proj { dependencies, .. } => dependencies,
            TagsRoot::Lib { dependencies, .. } => dependencies,
        }
    }

    /// Where the tags file of the root lies, if tags that are shared are kept
    /// in `cache_dir`.
    pub fn tags_location(&self, tags_spec: &TagsSpec, cache_dir: &String) -> (location: Location)
        ensures
            location.dir@ == self@.tags_dir(cache_dir@),
            location.file_name@ == self@.tags_file_name(tags_spec),
    {
        match self {
            TagsRoot::Proj { root_dir, .. } => Location {
                dir: root_dir.clone(),
                file_name: String::from_str(tags_spec.file_name()),
            },
            TagsRoot::Lib { src_kind, .. } => {
                let dir = match src_kind {
                    SourceKind::Path { path, .. } => path.clone(),
                    _ => cache_dir.clone(),
                };
                Location { dir, file_name: src_kind.tags_file_name(tags_spec) }
            },
        }
    }

    /// The root as a line of text.
    pub fn describe(&self) -> (text: String)
        ensures
            text@ == self@.describe(),
    {
        match self {
            TagsRoot::Proj { root_dir, dependencies } => {
                let mut text = String::from_str("TagsRoot::Proj ( root_dir: ");
                text.append(root_dir.as_str());
                text.append(", dependencies: [");
                text.append(join_labels(dependencies).as_str());
                text.append("] )");
                text
            },
            TagsRoot::Lib { src_kind, dependencies } => {
                let mut text = String::from_str("TagsRoot::Lib ( src_kind: ");
                text.append(src_kind.display().as_str());
                text.append(", dependencies: [");
                text.append(join_labels(dependencies).as_str());
                text.append("] )");
                text
            },
        }
    }
}

/// The labels of the sources, with `, ` between them.
fn join_labels(sources: &Vec<SourceKind>) -> (text: String)
    ensures
        text@ == labels(identities(sources@)),
{
    let ghost ids = identities(sources@);
    let mut text = String::new();
    let mut i: usize = 0;
    while i < sources.len()
        invariant
            i <= sources.len(),
            ids == identities(sources@),
            text@ == labels(ids.take(i as int)),
        decreases sources.len() - i,
    {
        proof {
            assert(ids.take(i + 1).drop_last() =~= ids.take(i as int));
            assert(ids.take(i + 1).last() == sources@[i as int]@);
        }
        if i > 0 {
            text.append(", ");
        }
        text.append(sources[i].display().as_str());
        i += 1;
    }
    assert(ids.take(sources.len() as int) =~= ids);
    text
}

} // verus!
