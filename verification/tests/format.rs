use tags_roots::format::{TagsKind, TagsSpec};

fn spec(kind: TagsKind) -> TagsSpec {
    TagsSpec::new(kind, "rusty-tags.vi".to_string(), "rusty-tags.emacs".to_string()).unwrap()
}

#[test]
fn equal_names_are_refused() {
    let made = TagsSpec::new(TagsKind::Vi, "x".to_string(), "x".to_string());
    match made {
        Err(error) => assert_eq!(error.tags_name, "x"),
        Ok(_) => panic!("one name for both kinds was accepted"),
    }
}

#[test]
fn equal_names_are_refused_for_emacs_too() {
    assert!(TagsSpec::new(TagsKind::Emacs, "x".to_string(), "x".to_string()).is_err());
    assert!(TagsSpec::new(TagsKind::Emacs, String::new(), String::new()).is_err());
}

#[test]
fn different_names_are_accepted() {
    assert!(TagsSpec::new(TagsKind::Vi, "x".to_string(), "y".to_string()).is_ok());
    assert!(TagsSpec::new(TagsKind::Emacs, "x".to_string(), "y".to_string()).is_ok());
    assert!(TagsSpec::new(TagsKind::Vi, "tags".to_string(), "Tags".to_string()).is_ok());
    assert!(TagsSpec::new(TagsKind::Vi, String::new(), "y".to_string()).is_ok());
}

#[test]
fn refusal_names_the_clash() {
    let error = TagsSpec::new(TagsKind::Vi, "tags".to_string(), "tags".to_string()).unwrap_err();
    assert_eq!(
        error.message(),
        "It's not recommended to use the same tags name 'tags' for vi and emacs!"
    );
}

#[test]
fn kind_is_kept() {
    assert_eq!(spec(TagsKind::Vi).kind(), TagsKind::Vi);
    assert_eq!(spec(TagsKind::Emacs).kind(), TagsKind::Emacs);
}

#[test]
fn extension_follows_kind() {
    assert_eq!(spec(TagsKind::Vi).file_extension(), "vi");
    assert_eq!(spec(TagsKind::Emacs).file_extension(), "emacs");
}

#[test]
fn file_name_follows_kind() {
    assert_eq!(spec(TagsKind::Vi).file_name(), "rusty-tags.vi");
    assert_eq!(spec(TagsKind::Emacs).file_name(), "rusty-tags.emacs");
}

#[test]
fn file_name_is_not_the_extension() {
    let named = TagsSpec::new(TagsKind::Emacs, "tags".to_string(), "TAGS".to_string()).unwrap();
    assert_eq!(named.file_name(), "TAGS");
    assert_eq!(named.file_extension(), "emacs");
}

#[test]
fn file_name_is_recognised() {
    let vi = spec(TagsKind::Vi);
    assert!(vi.is_file_name(&"rusty-tags.vi".to_string()));
    assert!(!vi.is_file_name(&"rusty-tags.emacs".to_string()));
    assert!(!vi.is_file_name(&"rusty-tags.v".to_string()));
    let emacs = spec(TagsKind::Emacs);
    assert!(emacs.is_file_name(&"rusty-tags.emacs".to_string()));
    assert!(!emacs.is_file_name(&"rusty-tags.vi".to_string()));
}

#[test]
fn only_emacs_needs_a_switch() {
    assert_eq!(spec(TagsKind::Vi).ctags_option(), None);
    assert_eq!(spec(TagsKind::Emacs).ctags_option(), Some("-e"));
}
