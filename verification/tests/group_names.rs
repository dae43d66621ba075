use shvl::group::{classify_entry, get_group_names, group_path, validate_group_name};
use shvl::names::{dirs_to_prune, is_control_char, EntryKind};
use std::path::PathBuf;

#[test]
fn valid_names() {
    for name in [
        "foo",
        "foo/bar",
        "foo/bar/fizz",
        "foo-bar",
        "foo_bar",
        "foo.bar",
        "a",
        "foo..bar",
    ] {
        assert!(validate_group_name(name).is_ok(), "expected ok: {name}");
    }
}

#[test]
fn empty() {
    let err = validate_group_name("").unwrap_err();

    assert!(err.message() == "Group name cannot be empty");
}

#[test]
fn leading_slash() {
    let err = validate_group_name("/foo").unwrap_err();

    assert!(err.message() == "Group name cannot start with '/'");
}

#[test]
fn trailing_slash() {
    let err = validate_group_name("foo/").unwrap_err();

    assert!(err.message() == "Group name cannot end with '/'");
}

#[test]
fn empty_segment() {
    let err = validate_group_name("foo//bar").unwrap_err();

    assert!(err.message() == "Group name 'foo//bar' contains an empty segment");
}

#[test]
fn dot_segments() {
    for name in [
        ".",
        "..",
        "../foo",
        "foo/..",
        "foo/../bar",
        "./foo",
        "foo/.",
    ] {
        assert!(validate_group_name(name).is_err(), "expected err: {name}");
    }
}

#[test]
fn hidden_segment() {
    let err = validate_group_name("foo/.bar").unwrap_err();

    assert!(err.message() == "Group name segment '.bar' cannot start with '.'");
}

#[test]
fn backslash() {
    let err = validate_group_name("foo\\bar").unwrap_err();

    assert!(err.message() == "Group name segment 'foo\\bar' cannot contain '\\'");
}

#[test]
fn control_characters() {
    for name in ["foo\nbar", "foo\tbar", "foo\0bar"] {
        assert!(validate_group_name(name).is_err(), "expected err: {name:?}");
    }
}

#[test]
fn dot_segment_message() {
    let err = validate_group_name("foo/../bar").unwrap_err();
    assert_eq!(err.message(), "Group name 'foo/../bar' contains a '.' or '..' segment");
    let err = validate_group_name("foo\u{7f}bar").unwrap_err();
    assert_eq!(err.message(), "Group name segment 'foo\u{7f}bar' cannot contain control characters");
}

#[test]
fn first_broken_rule_is_reported() {
    // the empty segment comes before the hidden one
    let err = validate_group_name("a//.b").unwrap_err();
    assert_eq!(err.message(), "Group name 'a//.b' contains an empty segment");
    // within a segment, the leading dot is checked before the backslash
    let err = validate_group_name(".a\\b").unwrap_err();
    assert_eq!(err.message(), "Group name segment '.a\\b' cannot start with '.'");
}

#[test]
fn control_character_ranges() {
    for c in ['\0', '\u{1f}', '\u{7f}', '\u{85}', '\u{9f}'] {
        assert!(is_control_char(c));
        assert_eq!(is_control_char(c), c.is_control());
    }
    for c in [' ', 'a', '\u{a0}', '\u{7e}', 'é'] {
        assert!(!is_control_char(c));
        assert_eq!(is_control_char(c), c.is_control());
    }
}

#[test]
fn group_path_basic() {
    let path = group_path("/base", "foo").unwrap();

    assert!(PathBuf::from(path) == PathBuf::from("/base/foo.nix"));
}

#[test]
fn group_nested() {
    let path = group_path("/base", "foo/bar/fizz").unwrap();

    assert!(PathBuf::from(path) == PathBuf::from("/base/foo/bar/fizz.nix"));
}

#[test]
fn invalid_name_is_rejected() {
    for name in ["", "/foo", "foo/", "foo//bar", "../foo", ".foo"] {
        assert!(group_path("/base", name).is_err(), "expected err: {name}");
    }
}

#[test]
fn stays_within_base() {
    let path = group_path("/base", "foo/bar").unwrap();

    assert!(PathBuf::from(path).starts_with("/base"));
}

#[test]
fn group_path_joins_like_path_push() {
    for (base, name) in [("/base/", "foo/bar"), ("", "foo"), ("rel", "a/b"), ("/", "x")] {
        let mut expected = PathBuf::from(base);
        let segs: Vec<&str> = name.split('/').collect();
        for (i, s) in segs.iter().enumerate() {
            if i + 1 == segs.len() {
                expected.push(format!("{s}.nix"));
            } else {
                expected.push(s);
            }
        }
        let path = group_path(base, name).unwrap();
        assert_eq!(path, expected.to_str().unwrap());
    }
    assert_eq!(group_path("/base", "a/").unwrap_err().message(), "Invalid group name");
}

#[test]
fn prune_dirs_deepest_first() {
    let dirs = dirs_to_prune("/base", "foo/bar/fizz").unwrap();
    assert_eq!(dirs, vec!["/base/foo/bar", "/base/foo"]);
    assert!(dirs_to_prune("/base", "foo").unwrap().is_empty());
    assert!(dirs_to_prune("/base", "../foo").is_err());
}

fn group_name(prefix: &str, file_name: &str) -> Option<String> {
    match classify_entry(prefix, file_name, false) {
        EntryKind::Group(name) => Some(name),
        _ => None,
    }
}

#[test]
fn sorted_and_nested() {
    let nested = match classify_entry("", "nested", true) {
        EntryKind::Descend(p) => p,
        _ => panic!("expected a directory to walk"),
    };
    let deeper = match classify_entry(&nested, "deeper", true) {
        EntryKind::Descend(p) => p,
        _ => panic!("expected a directory to walk"),
    };
    let found = vec![
        group_name("", "foo.nix").unwrap(),
        group_name("", "bar.nix").unwrap(),
        group_name(&nested, "fizz.nix").unwrap(),
        group_name(&deeper, "buzz.nix").unwrap(),
    ];

    let names = get_group_names(found);

    assert!(
        names
            == vec![
                "bar".to_owned(),
                "foo".to_owned(),
                "nested/deeper/buzz".to_owned(),
                "nested/fizz".to_owned(),
            ]
    );
}

#[test]
fn names_round_trip_through_group_path() {
    let deeper = match classify_entry("nested", "deeper", true) {
        EntryKind::Descend(p) => p,
        _ => panic!("expected a directory to walk"),
    };
    let found = vec![group_name("", "foo.nix").unwrap(), group_name(&deeper, "buzz.nix").unwrap()];
    let expected = ["/base/foo.nix", "/base/nested/deeper/buzz.nix"];

    for (name, file) in get_group_names(found).iter().zip(expected) {
        let path = group_path("/base", name).unwrap();

        assert!(path == file, "expected file for group: {name}");
    }
}

#[test]
fn skips_non_nix_files() {
    assert_eq!(group_name("", "foo.nix"), Some("foo".to_owned()));
    assert_eq!(group_name("", "README.md"), None);
    assert_eq!(group_name("", "notnix"), None);
    assert_eq!(group_name("", "foo.nix.bak"), None);
}

#[test]
fn skips_hidden_entries() {
    assert_eq!(group_name("", ".hidden.nix"), None);
    assert!(matches!(classify_entry("", ".git", true), EntryKind::Skip));
}

#[test]
fn skips_bare_nix_suffix_file() {
    assert_eq!(group_name("", ".nix"), None);
    assert_eq!(group_name("a", ".nix"), None);
}

#[test]
fn empty_dir() {
    assert!(get_group_names(Vec::new()).is_empty());
}

#[test]
fn get_group_names_keeps_every_name() {
    let names = get_group_names(vec!["b".to_owned(), "a".to_owned(), "b".to_owned(), "a/c".to_owned()]);
    assert_eq!(names, vec!["a", "a/c", "b", "b"]);
}
