//! Where the source code of a library comes from, and the names derived from it.

use vstd::prelude::*;
use vstd::string::StringExecFns;
use vstd::std_specs::cmp::PartialEqSpecImpl;
use crate::format::{extension_of, TagsSpec};

verus! {

/// The place that the source code of a library was taken from.
#[derive(Debug)]
pub enum SourceKind {
    /// one commit of a git repository
    Git { lib_name: String, commit_hash: String },
    /// one version published in the registry
    CratesIo { lib_name: String, version: String },
    /// a directory of this machine
    Path { lib_name: String, path: String },
}

/// The identity of a source: a `SourceKind` seen as a value of mathematics.
/// Two sources are the same root exactly when their identities are equal,
/// that is when the variant and every field agree.
pub enum SourceIdentity {
    Git { lib_name: Seq<char>, commit_hash: Seq<char> },
    CratesIo { lib_name: Seq<char>, version: Seq<char> },
    Path { lib_name: Seq<char>, path: Seq<char> },
}

impl SourceIdentity {
    /// The name of the library.
    pub open spec fn lib_name(self) -> Seq<char> {
        match self {
            SourceIdentity::Git { lib_name, .. } => lib_name,
            SourceIdentity::CratesIo { lib_name, .. } => lib_name,
            SourceIdentity::Path { lib_name, .. } => lib_name,
        }
    }

    /// What tells apart two sources of one library: the commit hash, the
    /// version or the path.
    pub open spec fn discriminator(self) -> Seq<char> {
        match self {
            SourceIdentity::Git { commit_hash, .. } => commit_hash,
            SourceIdentity::CratesIo { version, .. } => version,
            SourceIdentity::Path { path, .. } => path,
        }
    }

    /// The text shown for the source: `name-hash`, `name-version` or
    /// `name: path`.
    pub open spec fn label(self) -> Seq<char> {
        match self {
            SourceIdentity::Path { lib_name, path } => lib_name + seq![':', ' '] + path,
            _ => self.lib_name() + seq!['-'] + self.discriminator(),
        }
    }

    /// The name of the tags file of the source. A local directory holds its
    /// tags file under the name the user chose; the others share a cache
    /// directory, where the label and the kind's extension keep them apart.
    pub open spec fn tags_file_name(self, tags_spec: &TagsSpec) -> Seq<char> {
        match self {
            SourceIdentity::Path { .. } => tags_spec.spec_file_name(),
            _ => self.label() + seq!['.'] + extension_of(tags_spec.kind()),
        }
    }
}

impl View for SourceKind {
    type V = SourceIdentity;

    open spec fn view(&self) -> SourceIdentity {
        match *self {
            SourceKind::Git { lib_name, commit_hash } => SourceIdentity::Git {
                lib_name: lib_name@,
                commit_hash: commit_hash@,
            },
            SourceKind::CratesIo { lib_name, version } => SourceIdentity::CratesIo {
                lib_name: lib_name@,
                version: version@,
            },
            SourceKind::Path { lib_name, path } => SourceIdentity::Path {
                lib_name: lib_name@,
                path: path@,
            },
        }
    }
}

/// The identities of a list of sources, in order.
pub open spec fn identities(sources: Seq<SourceKind>) -> Seq<SourceIdentity> {
    sources.map_values(|source: SourceKind| source@)
}

impl Clone for SourceKind {
    fn clone(&self) -> (copy: SourceKind)
        ensures
            copy == *self,
    {
        match self {
            SourceKind::Git { lib_name, commit_hash } => SourceKind::Git {
                lib_name: lib_name.clone(),
                commit_hash: commit_hash.clone(),
            },
            SourceKind::CratesIo { lib_name, version } => SourceKind::CratesIo {
                lib_name: lib_name.clone(),
                version: version.clone(),
            },
            SourceKind::Path { lib_name, path } => SourceKind::Path {
                lib_name: lib_name.clone(),
                path: path.clone(),
            },
        }
    }
}

impl PartialEq for SourceKind {
    fn eq(&self, other: &SourceKind) -> (same: bool) {
        match (self, other) {
            (
                SourceKind::Git { lib_name: a, commit_hash: b },
                SourceKind::Git { lib_name: c, commit_hash: d },
            ) => *a == *c && *b == *d,
            (
                SourceKind::CratesIo { lib_name: a, version: b },
                SourceKind::CratesIo { lib_name: c, version: d },
            ) => *a == *c && *b == *d,
            (
                SourceKind::Path { lib_name: a, path: b },
                SourceKind::Path { lib_name: c, path: d },
            ) => *a == *c && *b == *d,
            _ => false,
        }
    }
}

impl PartialEqSpecImpl for SourceKind {
    open spec fn obeys_eq_spec() -> bool {
        true
    }

    open spec fn eq_spec(&self, other: &SourceKind) -> bool {
        self@ == other@
    }
}

impl Eq for SourceKind {

}

impl SourceKind {
    /// The name of the tags file of the source.
    pub fn tags_file_name(&self, tags_spec: &TagsSpec) -> (name: String)
        ensures
            name@ == self@.tags_file_name(tags_spec),
            self is Path ==> name@ == tags_spec.spec_file_name(),
    {
        match self {
            SourceKind::Path { .. } => String::from_str(tags_spec.file_name()),
            _ => {
                let mut name = self.display();
                proof {
                    reveal_strlit(".");
                    assert("."@ =~= seq!['.']);
                }
                name.append(".");
                name.append(tags_spec.file_extension());
                name
            },
        }
    }

    /// The name of the library.
    pub fn get_lib_name(&self) -> (name: String)
        ensures
            name@ == self@.lib_name(),
    {
        match self {
            SourceKind::Git { lib_name, .. } => lib_name.clone(),
            SourceKind::CratesIo { lib_name, .. } => lib_name.clone(),
            SourceKind::Path { lib_name, .. } => lib_name.clone(),
        }
    }

    /// The text shown for the source.
    pub fn display(&self) -> (text: String)
        ensures
            text@ == self@.label(),
    {
        proof {
            reveal_strlit("-");
            reveal_strlit(": ");
            assert("-"@ =~= seq!['-']);
            assert(": "@ =~= seq![':', ' ']);
        }
        match self {
            SourceKind::Git { lib_name, commit_hash } => {
                let mut text = lib_name.clone();
                text.append("-");
                text.append(commit_hash.as_str());
                text
            },
            SourceKind::CratesIo { lib_name, version } => {
                let mut text = lib_name.clone();
                text.append("-");
                text.append(version.as_str());
                text
            },
            SourceKind::Path { lib_name, path } => {
                let mut text = lib_name.clone();
                text.append(": ");
                text.append(path.as_str());
                text
            },
        }
    }
}

/// A text is found again in front of whatever was put behind it.
proof fn lemma_cancel_suffix(first: Seq<char>, second: Seq<char>, tail: Seq<char>)
    requires
        first + tail == second + tail,
    ensures
        first == second,
{
    assert(first.len() == second.len()) by {
        assert((first + tail).len() == first.len() + tail.len());
        assert((second + tail).len() == second.len() + tail.len());
    }
    assert forall|i: int| 0 <= i < first.len() implies first[i] == second[i] by {
        assert((first + tail)[i] == first[i]);
        assert((second + tail)[i] == second[i]);
    }
    assert(first =~= second);
}

/// A text is found again behind whatever was put in front of it.
proof fn lemma_cancel_prefix(head: Seq<char>, first: Seq<char>, second: Seq<char>)
    requires
        head + first == head + second,
    ensures
        first == second,
{
    assert(first.len() == second.len()) by {
        assert((head + first).len() == head.len() + first.len());
        assert((head + second).len() == head.len() + second.len());
    }
    assert forall|i: int| 0 <= i < first.len() implies first[i] == second[i] by {
        assert((head + first)[head.len() + i] == first[i]);
        assert((head + second)[head.len() + i] == second[i]);
    }
    assert(first =~= second);
}

/// Two sources kept in the cache share a tags file name exactly when they
/// share a label.
pub proof fn lemma_cached_name_follows_label(
    a: SourceIdentity,
    b: SourceIdentity,
    tags_spec: &TagsSpec,
)
    requires
        !(a is Path),
        !(b is Path),
    ensures
        a.tags_file_name(tags_spec) == b.tags_file_name(tags_spec) <==> a.label() == b.label(),
{
    let ending = seq!['.'] + extension_of(tags_spec.kind());
    assert(a.tags_file_name(tags_spec) =~= a.label() + ending);
    assert(b.tags_file_name(tags_spec) =~= b.label() + ending);
    if a.tags_file_name(tags_spec) == b.tags_file_name(tags_spec) {
        lemma_cancel_suffix(a.label(), b.label(), ending);
    }
}

/// Two sources kept in the cache that differ in commit hash or version have
/// different tags file names, unless name and discriminator run together to
/// one label, as `foo` with `bar-1` and `foo-bar` with `1` do.
pub proof fn lemma_discriminator_tells_names_apart(
    a: SourceIdentity,
    b: SourceIdentity,
    tags_spec: &TagsSpec,
)
    requires
        !(a is Path),
        !(b is Path),
        a.discriminator() != b.discriminator(),
        a.label() != b.label(),
    ensures
        a.tags_file_name(tags_spec) != b.tags_file_name(tags_spec),
{
    lemma_cached_name_follows_label(a, b, tags_spec);
}

/// Two commits or versions of one library never share a tags file name.
pub proof fn lemma_one_library_never_collides(
    a: SourceIdentity,
    b: SourceIdentity,
    tags_spec: &TagsSpec,
)
    requires
        !(a is Path),
        !(b is Path),
        a.lib_name() == b.lib_name(),
        a.discriminator() != b.discriminator(),
    ensures
        a.tags_file_name(tags_spec) != b.tags_file_name(tags_spec),
{
    let head = a.lib_name() + seq!['-'];
    if a.label() == b.label() {
        lemma_cancel_prefix(head, a.discriminator(), b.discriminator());
    }
    lemma_cached_name_follows_label(a, b, tags_spec);
}

/// The tags file of a local directory is named as the user chose, whatever
/// the path is.
pub proof fn lemma_local_name_ignores_path(
    lib_name: Seq<char>,
    path: Seq<char>,
    other_name: Seq<char>,
    other_path: Seq<char>,
    tags_spec: &TagsSpec,
)
    ensures
        (SourceIdentity::Path { lib_name, path }).tags_file_name(tags_spec)
            == tags_spec.spec_file_name(),
        (SourceIdentity::Path { lib_name, path }).tags_file_name(tags_spec) == (
        SourceIdentity::Path { lib_name: other_name, path: other_path }).tags_file_name(tags_spec),
{
}

/// A change of kind changes the name of every tags file, so that tags of one
/// kind are never taken for tags of the other.
pub proof fn lemma_kinds_never_share_a_name(
    source: SourceIdentity,
    one: &TagsSpec,
    other: &TagsSpec,
)
    requires
        one.wf(),
        one.vi_name() == other.vi_name(),
        one.emacs_name() == other.emacs_name(),
        one.kind() != other.kind(),
    ensures
        source.tags_file_name(one) != source.tags_file_name(other),
{
    if !(source is Path) {
        let stem = source.label() + seq!['.'];
        assert(source.tags_file_name(one) =~= stem + extension_of(one.kind()));
        assert(source.tags_file_name(other) =~= stem + extension_of(other.kind()));
        assert(extension_of(one.kind()).len() != extension_of(other.kind()).len());
        assert(source.tags_file_name(one).len() != source.tags_file_name(other).len());
    }
}

} // verus!
