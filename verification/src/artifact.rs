//! A tags file and the question whether it can still be used.
//!
//! That a tags file was written for a source directory is remembered in two
//! places. The caller's bookkeeping claims it (`cached`), and the tags file
//! that lies in the source directory under the name of the written kind marks
//! it. The claim is never trusted alone: the directory may have been cleaned
//! since. So the caller looks for the marker, reports what it saw as a
//! `MarkerProbe`, and the tags count as up to date only when the claim and
//! the look agree.

use vstd::prelude::*;
use vstd::string::StringExecFns;
use crate::format::{option_of, TagsSpec};

verus! {

/// The place of a file: its name and the directory that holds it directly.
#[derive(Debug)]
pub struct Location {
    pub dir: String,
    pub file_name: String,
}

/// How a look for a file ended.
#[derive(Clone, Copy, Debug, PartialEq, Eq, Structural)]
pub enum ProbeOutcome {
    /// the file is there
    Found,
    /// there is no such file
    Missing,
    /// the look itself failed, for another reason than the file's absence
    Failed,
}

/// One look for a file, made by the caller.
#[derive(Debug)]
pub struct MarkerProbe {
    /// where the file was looked for
    pub location: Location,
    pub outcome: ProbeOutcome,
}

/// What is known of a tags file once its marker was looked for.
#[derive(Clone, Copy, Debug, PartialEq, Eq, Structural)]
pub enum Freshness {
    /// nothing claims that the tags were ever written
    NeverBuilt,
    /// the tags were claimed to be there and the marker was found
    Confirmed,
    /// the tags were claimed to be there, and the marker was not found
    Stale,
}

/// A tags file, written or yet to be written.
#[derive(Debug)]
pub struct Tags {
    /// the directory whose source code the tags index
    pub src_dir: String,
    /// the file that holds the tags
    pub tags_file: String,
    /// whether an earlier run is known to have written the tags file for
    /// this directory and this kind of tags
    cached: bool,
}

/// What the indexing program is asked to do for one root.
#[derive(Debug)]
pub struct IndexRequest {
    /// the directory to scan
    pub src_dir: String,
    /// the tags file to write
    pub tags_file: String,
    /// the switch for the kind of tags, where the kind needs one
    pub option: Option<&'static str>,
}

/// `true` and `false` as texts.
pub open spec fn bool_text(value: bool) -> Seq<char> {
    if value {
        "true"@
    } else {
        "false"@
    }
}

impl MarkerProbe {
    /// The look found the file `file_name` inside `dir`.
    pub open spec fn found(&self, dir: Seq<char>, file_name: Seq<char>) -> bool {
        &&& self.location.dir@ == dir
        &&& self.location.file_name@ == file_name
        &&& self.outcome is Found
    }
}

impl IndexRequest {
    /// The switch as a text of mathematics.
    pub open spec fn spec_option(&self) -> Option<Seq<char>> {
        match self.option {
            Some(text) => Some(text@),
            None => None,
        }
    }
}

impl Tags {
    /// The directory whose source code the tags index.
    pub closed spec fn spec_src_dir(&self) -> Seq<char> {
        self.src_dir@
    }

    /// The file that holds the tags.
    pub closed spec fn spec_tags_file(&self) -> Seq<char> {
        self.tags_file@
    }

    /// Whether the tags file is claimed to exist already.
    pub closed spec fn cached(&self) -> bool {
        self.cached
    }

    /// Whether `probe` found the marker of these tags: the file named as the
    /// written kind's tags file, inside the source directory.
    pub open spec fn marker_found(&self, tags_spec: &TagsSpec, probe: &MarkerProbe) -> bool {
        probe.found(self.spec_src_dir(), tags_spec.spec_file_name())
    }

    /// The claim set against the look.
    pub open spec fn spec_freshness(&self, tags_spec: &TagsSpec, probe: &MarkerProbe) -> Freshness {
        if !self.cached() {
            Freshness::NeverBuilt
        } else if self.marker_found(tags_spec, probe) {
            Freshness::Confirmed
        } else {
            Freshness::Stale
        }
    }

    /// The tags as a line of text.
    pub open spec fn spec_describe(&self) -> Seq<char> {
        "Tags ( src_dir: "@ + self.spec_src_dir() + ", tags_file: "@ + self.spec_tags_file()
            + ", cached: "@ + bool_text(self.cached()) + " )"@
    }

    /// Tags of the source code in `src_dir`, kept in `tags_file`. `cached`
    /// tells whether an earlier run is known to have written them.
    pub fn new(src_dir: &String, tags_file: &String, cached: bool) -> (tags: Tags)
        ensures
            tags.spec_src_dir() == src_dir@,
            tags.spec_tags_file() == tags_file@,
            tags.cached() == cached,
    {
        Tags { src_dir: src_dir.clone(), tags_file: tags_file.clone(), cached }
    }

    /// Whether the tags file is claimed to exist already.
    #[verifier::when_used_as_spec(cached)]
    pub fn is_cached(&self) -> (cached: bool)
        ensures
            cached == self.cached(),
    {
        self.cached
    }

    /// Where the marker of these tags is to be looked for.
    pub fn marker(&self, tags_spec: &TagsSpec) -> (location: Location)
        ensures
            location.dir@ == self.spec_src_dir(),
            location.file_name@ == tags_spec.spec_file_name(),
    {
        Location { dir: self.src_dir.clone(), file_name: String::from_str(tags_spec.file_name()) }
    }

    /// Sets the claim against the look. A look at another place than the
    /// marker's, or one that failed, confirms nothing.
    pub fn freshness(&self, tags_spec: &TagsSpec, probe: &MarkerProbe) -> (state: Freshness)
        ensures
            state == self.spec_freshness(tags_spec, probe),
    {
        if !self.cached {
            return Freshness::NeverBuilt;
        }
        let found = match probe.outcome {
            ProbeOutcome::Found => true,
            _ => false,
        };
        if found && probe.location.dir == self.src_dir && tags_spec.is_file_name(
            &probe.location.file_name,
        ) {
            Freshness::Confirmed
        } else {
            Freshness::Stale
        }
    }

    /// Whether the tags file can be used as it is. If not, it has to be
    /// written again.
    pub fn is_up_to_date(&self, tags_spec: &TagsSpec, probe: &MarkerProbe) -> (fresh: bool)
        ensures
            fresh == (self.cached() && self.marker_found(tags_spec, probe)),
            fresh == (self.spec_freshness(tags_spec, probe) is Confirmed),
            !self.cached() ==> !fresh,
    {
        match self.freshness(tags_spec, probe) {
            Freshness::Confirmed => true,
            _ => false,
        }
    }

    /// What the indexing program has to do for these tags: nothing where they
    /// are up to date, else scan the source directory and write the tags
    /// file, with the switch of the written kind.
    pub fn index_request(&self, tags_spec: &TagsSpec, probe: &MarkerProbe) -> (request: Option<
        IndexRequest,
    >)
        ensures
            request is None <==> self.cached() && self.marker_found(tags_spec, probe),
            request matches Some(asked) ==> {
                &&& asked.src_dir@ == self.spec_src_dir()
                &&& asked.tags_file@ == self.spec_tags_file()
                &&& asked.spec_option() == option_of(tags_spec.kind())
            },
    {
        if self.is_up_to_date(tags_spec, probe) {
            None
        } else {
            Some(
                IndexRequest {
                    src_dir: self.src_dir.clone(),
                    tags_file: self.tags_file.clone(),
                    option: tags_spec.ctags_option(),
                },
            )
        }
    }

    /// The tags as a line of text.
    pub fn describe(&self) -> (text: String)
        ensures
            text@ == self.spec_describe(),
    {
        let mut text = String::from_str("Tags ( src_dir: ");
        text.append(self.src_dir.as_str());
        text.append(", tags_file: ");
        text.append(self.tags_file.as_str());
        text.append(", cached: ");
        if self.cached {
            text.append("true");
        } else {
            text.append("false");
        }
        text.append(" )");
        text
    }
}

/// The answer follows the marker and nothing else: tags that are claimed to
/// exist are up to date while the marker is found, and no longer once a later
/// look at the same place misses it.
pub proof fn lemma_answer_follows_marker(
    tags: &Tags,
    tags_spec: &TagsSpec,
    earlier: &MarkerProbe,
    later: &MarkerProbe,
)
    requires
        tags.cached(),
        tags.marker_found(tags_spec, earlier),
        later.location.dir@ == earlier.location.dir@,
        later.location.file_name@ == earlier.location.file_name@,
        later.outcome is Missing,
    ensures
        tags.spec_freshness(tags_spec, earlier) is Confirmed,
        tags.spec_freshness(tags_spec, later) is Stale,
{
}

} // verus!
