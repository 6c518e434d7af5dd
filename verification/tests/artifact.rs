use tags_roots::artifact::{Freshness, Location, MarkerProbe, ProbeOutcome, Tags};
use tags_roots::format::{TagsKind, TagsSpec};

fn spec(kind: TagsKind) -> TagsSpec {
    TagsSpec::new(kind, "rusty-tags.vi".to_string(), "rusty-tags.emacs".to_string()).unwrap()
}

fn tags(cached: bool) -> Tags {
    Tags::new(&"/src/serde".to_string(), &"/cache/serde-1.0.0.vi".to_string(), cached)
}

fn probe(dir: &str, file_name: &str, outcome: ProbeOutcome) -> MarkerProbe {
    MarkerProbe {
        location: Location { dir: dir.to_string(), file_name: file_name.to_string() },
        outcome,
    }
}

#[test]
fn new_keeps_what_it_is_given() {
    let made = tags(true);
    assert_eq!(made.src_dir, "/src/serde");
    assert_eq!(made.tags_file, "/cache/serde-1.0.0.vi");
    assert!(made.is_cached());
    assert!(!tags(false).is_cached());
}

#[test]
fn uncached_is_never_up_to_date() {
    let vi = spec(TagsKind::Vi);
    let made = tags(false);
    for outcome in [ProbeOutcome::Found, ProbeOutcome::Missing, ProbeOutcome::Failed] {
        let look = probe("/src/serde", "rusty-tags.vi", outcome);
        assert!(!made.is_up_to_date(&vi, &look));
        assert_eq!(made.freshness(&vi, &look), Freshness::NeverBuilt);
    }
}

#[test]
fn cached_is_up_to_date_with_its_marker() {
    let vi = spec(TagsKind::Vi);
    let look = probe("/src/serde", "rusty-tags.vi", ProbeOutcome::Found);
    assert!(tags(true).is_up_to_date(&vi, &look));
    assert_eq!(tags(true).freshness(&vi, &look), Freshness::Confirmed);
}

#[test]
fn cached_is_stale_without_its_marker() {
    let vi = spec(TagsKind::Vi);
    let look = probe("/src/serde", "rusty-tags.vi", ProbeOutcome::Missing);
    assert!(!tags(true).is_up_to_date(&vi, &look));
    assert_eq!(tags(true).freshness(&vi, &look), Freshness::Stale);
}

#[test]
fn deleting_the_marker_flips_the_answer() {
    let vi = spec(TagsKind::Vi);
    let made = tags(true);
    let there = probe("/src/serde", "rusty-tags.vi", ProbeOutcome::Found);
    let gone = probe("/src/serde", "rusty-tags.vi", ProbeOutcome::Missing);
    assert!(made.is_up_to_date(&vi, &there));
    assert!(!made.is_up_to_date(&vi, &gone));
    assert!(made.is_up_to_date(&vi, &there));
}

#[test]
fn failed_look_forces_regeneration() {
    let vi = spec(TagsKind::Vi);
    let look = probe("/src/serde", "rusty-tags.vi", ProbeOutcome::Failed);
    assert!(!tags(true).is_up_to_date(&vi, &look));
    assert_eq!(tags(true).freshness(&vi, &look), Freshness::Stale);
}

#[test]
fn marker_of_the_other_kind_does_not_count() {
    let look = probe("/src/serde", "rusty-tags.emacs", ProbeOutcome::Found);
    assert!(!tags(true).is_up_to_date(&spec(TagsKind::Vi), &look));
    assert!(tags(true).is_up_to_date(&spec(TagsKind::Emacs), &look));
}

#[test]
fn marker_in_another_directory_does_not_count() {
    let vi = spec(TagsKind::Vi);
    let look = probe("/src/serde/sub", "rusty-tags.vi", ProbeOutcome::Found);
    assert!(!tags(true).is_up_to_date(&vi, &look));
    assert_eq!(tags(true).freshness(&vi, &look), Freshness::Stale);
}

#[test]
fn marker_lies_in_the_source_directory() {
    let at = tags(true).marker(&spec(TagsKind::Vi));
    assert_eq!(at.dir, "/src/serde");
    assert_eq!(at.file_name, "rusty-tags.vi");
    let at = tags(false).marker(&spec(TagsKind::Emacs));
    assert_eq!(at.dir, "/src/serde");
    assert_eq!(at.file_name, "rusty-tags.emacs");
}

#[test]
fn look_at_the_marker_confirms() {
    let emacs = spec(TagsKind::Emacs);
    let made = tags(true);
    let found = MarkerProbe { location: made.marker(&emacs), outcome: ProbeOutcome::Found };
    assert!(made.is_up_to_date(&emacs, &found));
    let missing = MarkerProbe { location: made.marker(&emacs), outcome: ProbeOutcome::Missing };
    assert!(!made.is_up_to_date(&emacs, &missing));
}

#[test]
fn nothing_is_asked_for_fresh_tags() {
    let vi = spec(TagsKind::Vi);
    let look = probe("/src/serde", "rusty-tags.vi", ProbeOutcome::Found);
    assert!(tags(true).index_request(&vi, &look).is_none());
}

#[test]
fn stale_tags_are_asked_for() {
    let vi = spec(TagsKind::Vi);
    let look = probe("/src/serde", "rusty-tags.vi", ProbeOutcome::Missing);
    let asked = tags(true).index_request(&vi, &look).unwrap();
    assert_eq!(asked.src_dir, "/src/serde");
    assert_eq!(asked.tags_file, "/cache/serde-1.0.0.vi");
    assert_eq!(asked.option, None);
}

#[test]
fn unbuilt_tags_are_asked_for_with_the_switch_of_the_kind() {
    let emacs = spec(TagsKind::Emacs);
    let look = probe("/src/serde", "rusty-tags.emacs", ProbeOutcome::Found);
    let asked = tags(false).index_request(&emacs, &look).unwrap();
    assert_eq!(asked.src_dir, "/src/serde");
    assert_eq!(asked.tags_file, "/cache/serde-1.0.0.vi");
    assert_eq!(asked.option, Some("-e"));
}

#[test]
fn tags_as_text() {
    assert_eq!(
        tags(true).describe(),
        "Tags ( src_dir: /src/serde, tags_file: /cache/serde-1.0.0.vi, cached: true )"
    );
    assert_eq!(
        tags(false).describe(),
        "Tags ( src_dir: /src/serde, tags_file: /cache/serde-1.0.0.vi, cached: false )"
    );
}
