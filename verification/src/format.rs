//! The output format shared by every operation of one run.

use vstd::prelude::*;
use vstd::string::StringExecFns;

verus! {

/// The editor family that a tags file is written for.
#[derive(Clone, Copy, Debug, PartialEq, Eq, Structural)]
pub enum TagsKind {
    Vi,
    Emacs,
}

/// Both kinds were given the same file name, so one would overwrite the other.
#[derive(Debug)]
pub struct ConfigurationError {
    /// the name that was given twice
    pub tags_name: String,
}

/// The format of one run: the kind of tags that is written, and the file name
/// that the user chose for each kind. The two names differ.
#[derive(Debug)]
pub struct TagsSpec {
    /// the kind that is written
    kind: TagsKind,
    /// what a tags file for vi is called
    vi_tags: String,
    /// what a tags file for emacs is called
    emacs_tags: String,
}

/// The extension of a cached tags file of the given kind.
pub open spec fn extension_of(kind: TagsKind) -> Seq<char> {
    match kind {
        TagsKind::Vi => seq!['v', 'i'],
        TagsKind::Emacs => seq!['e', 'm', 'a', 'c', 's'],
    }
}

/// The switch that the indexing program needs to write the given kind, if it
/// needs one.
pub open spec fn option_of(kind: TagsKind) -> Option<Seq<char>> {
    match kind {
        TagsKind::Vi => None,
        TagsKind::Emacs => Some(seq!['-', 'e']),
    }
}

impl ConfigurationError {
    /// What the user is told.
    pub open spec fn spec_message(&self) -> Seq<char> {
        "It's not recommended to use the same tags name '"@ + self.tags_name@
            + "' for vi and emacs!"@
    }

    /// What the user is told.
    pub fn message(&self) -> (text: String)
        ensures
            text@ == self.spec_message(),
    {
        let mut text = String::from_str("It's not recommended to use the same tags name '");
        text.append(self.tags_name.as_str());
        text.append("' for vi and emacs!");
        text
    }
}

impl TagsSpec {
    /// The kind that is written.
    pub closed spec fn spec_kind(&self) -> TagsKind {
        self.kind
    }

    /// What a tags file for vi is called.
    pub closed spec fn vi_name(&self) -> Seq<char> {
        self.vi_tags@
    }

    /// What a tags file for emacs is called.
    pub closed spec fn emacs_name(&self) -> Seq<char> {
        self.emacs_tags@
    }

    /// The two kinds never share a file name.
    #[verifier::type_invariant]
    pub open spec fn wf(&self) -> bool {
        self.vi_name() != self.emacs_name()
    }

    /// The file name of the kind that is written.
    pub open spec fn spec_file_name(&self) -> Seq<char> {
        match self.spec_kind() {
            TagsKind::Vi => self.vi_name(),
            TagsKind::Emacs => self.emacs_name(),
        }
    }

    /// Fails exactly when both kinds are given one name.
    pub fn new(kind: TagsKind, vi_tags: String, emacs_tags: String) -> (made: Result<
        TagsSpec,
        ConfigurationError,
    >)
        ensures
            made is Err <==> vi_tags@ == emacs_tags@,
            made matches Ok(spec) ==> {
                &&& spec.wf()
                &&& spec.spec_kind() == kind
                &&& spec.vi_name() == vi_tags@
                &&& spec.emacs_name() == emacs_tags@
            },
            made matches Err(error) ==> error.tags_name@ == vi_tags@,
    {
        if vi_tags == emacs_tags {
            return Err(ConfigurationError { tags_name: vi_tags });
        }
        Ok(TagsSpec { kind, vi_tags, emacs_tags })
    }

    /// The kind that is written.
    #[verifier::when_used_as_spec(spec_kind)]
    pub fn kind(&self) -> (kind: TagsKind)
        ensures
            kind == self.spec_kind(),
    {
        self.kind
    }

    /// The extension that tags files of the written kind carry in the cache.
    /// It is no part of the file name that the user chose.
    pub fn file_extension(&self) -> (extension: &'static str)
        ensures
            extension@ == extension_of(self.kind()),
    {
        proof {
            reveal_strlit("vi");
            reveal_strlit("emacs");
        }
        match self.kind {
            TagsKind::Vi => {
                assert("vi"@ =~= seq!['v', 'i']);
                "vi"
            },
            TagsKind::Emacs => {
                assert("emacs"@ =~= seq!['e', 'm', 'a', 'c', 's']);
                "emacs"
            },
        }
    }

    /// The file name that the user chose for the written kind.
    pub fn file_name(&self) -> (name: &str)
        ensures
            name@ == self.spec_file_name(),
    {
        match self.kind {
            TagsKind::Vi => self.vi_tags.as_str(),
            TagsKind::Emacs => self.emacs_tags.as_str(),
        }
    }

    /// Whether `name` is the file name of the kind that is written.
    pub fn is_file_name(&self, name: &String) -> (same: bool)
        ensures
            same == (name@ == self.spec_file_name()),
    {
        match self.kind {
            TagsKind::Vi => self.vi_tags == *name,
            TagsKind::Emacs => self.emacs_tags == *name,
        }
    }

    /// The switch that makes the indexing program write the kind, for a kind
    /// that it does not write by itself.
    pub fn ctags_option(&self) -> (option: Option<&'static str>)
        ensures
            option is Some <==> option_of(self.kind()) is Some,
            option matches Some(text) ==> Some(text@) == option_of(self.kind()),
    {
        proof {
            reveal_strlit("-e");
        }
        match self.kind {
            TagsKind::Vi => None,
            TagsKind::Emacs => {
                assert("-e"@ =~= seq!['-', 'e']);
                Some("-e")
            },
        }
    }
}

} // verus!
