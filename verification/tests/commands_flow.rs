use shvl::commands::{add_package, create_group, group_info, list_groups, remove_group, remove_package};
use shvl::group::{get_group_names, Group};

fn new_group(name: &str) -> String {
    create_group("/base", &name.to_owned()).unwrap().content
}

fn packages(name: &str, nix: &String) -> Vec<String> {
    Group::deserialize(name.to_owned(), nix).unwrap().packages().clone()
}

fn add(name: &str, nix: &String, package: &str) -> String {
    add_package(&name.to_owned(), nix, &package.to_owned()).unwrap()
}

#[test]
fn commands_basic() {
    let file = create_group("/base", &"foo".to_owned()).unwrap();

    assert!(file.path.ends_with("/foo.nix"));

    let group = Group::deserialize("foo".to_owned(), &file.content).unwrap();
    assert!(*group.name() == "foo");
    assert!(group.packages().is_empty());
}

#[test]
fn commands_nested() {
    let file = create_group("/base", &"foo/bar/fizz".to_owned()).unwrap();

    assert_eq!(file.path, "/base/foo/bar/fizz.nix");
    assert!(packages("foo/bar/fizz", &file.content).is_empty());
}

#[test]
fn invalid_name() {
    for name in ["", "/foo", "foo/", "foo//bar", "../foo", ".foo"] {
        assert!(create_group("/base", &name.to_owned()).is_err());
    }
}

#[test]
fn prunes_empty_dirs() {
    let removal = remove_group("/base", &"foo/bar/fizz".to_owned()).unwrap();

    assert_eq!(removal.file, "/base/foo/bar/fizz.nix");
    assert_eq!(removal.dirs, vec!["/base/foo/bar", "/base/foo"]);
    assert!(remove_group("/base", &"foo/".to_owned()).is_err());
}

#[test]
fn group_info_basic() {
    let nix = add("foo", &new_group("foo"), "ripgrep");

    let table = group_info(&"foo".to_owned(), &nix).unwrap();

    assert!(table.contains("Name:"));
    assert!(table.contains("foo"));
    assert!(table.contains("ripgrep"));
    assert!(packages("foo", &nix) == vec!["ripgrep".to_owned()]);
}

#[test]
fn group_info_refuses_bad_file() {
    let err = group_info(&"foo".to_owned(), &"[ foo ]".to_owned()).unwrap_err();
    assert_eq!(err.message(), "Root expr is not a lambda");
}

#[test]
fn test_list_groups() {
    let table = list_groups(&Vec::new());
    assert!(table.contains("Groups:"));

    let names = get_group_names(vec!["foo".to_owned(), "bar/fizz".to_owned()]);

    assert!(names == vec!["bar/fizz".to_owned(), "foo".to_owned()]);

    let table = list_groups(&names);
    assert!(table.find("bar/fizz").unwrap() < table.find("foo").unwrap());
}

#[test]
fn add_package_basic() {
    let nix = new_group("foo");

    let nix = add("foo", &nix, "ripgrep");
    let nix = add("foo", &nix, "fd");

    assert!(packages("foo", &nix) == vec!["fd".to_owned(), "ripgrep".to_owned()]);
}

#[test]
fn attr_path() {
    let nix = add("foo", &new_group("foo"), "nodePackages.prettier");

    assert!(packages("foo", &nix) == vec!["nodePackages.prettier".to_owned()]);
}

#[test]
fn add_package_exists() {
    let nix = add("foo", &new_group("foo"), "ripgrep");

    let err = add_package(&"foo".to_owned(), &nix, &"ripgrep".to_owned()).unwrap_err();

    assert!(err.message() == "Package 'ripgrep' already exists in group 'foo'");

    assert!(packages("foo", &nix) == vec!["ripgrep".to_owned()]);
}

#[test]
fn remove_package_basic() {
    let nix = add("foo", &new_group("foo"), "ripgrep");
    let nix = add("foo", &nix, "fd");

    let nix = remove_package(&"foo".to_owned(), &nix, &"ripgrep".to_owned()).unwrap();

    assert!(packages("foo", &nix) == vec!["fd".to_owned()]);
}

#[test]
fn last_package() {
    let nix = add("foo", &new_group("foo"), "ripgrep");

    let nix = remove_package(&"foo".to_owned(), &nix, &"ripgrep".to_owned()).unwrap();

    assert!(Group::deserialize("foo".to_owned(), &nix).unwrap().packages().is_empty());
    assert_eq!(nix, new_group("foo"));
}

#[test]
fn does_not_exists() {
    let nix = add("foo", &new_group("foo"), "fd");

    let err = remove_package(&"foo".to_owned(), &nix, &"ripgrep".to_owned()).unwrap_err();

    assert!(err.message() == "Package 'ripgrep' does not exist in group 'foo'");

    assert!(packages("foo", &nix) == vec!["fd".to_owned()]);
}

#[test]
fn add_then_remove_gives_back_the_file() {
    let nix = add("foo", &new_group("foo"), "b");
    let nix = add("foo", &nix, "d");
    let added = add("foo", &nix, "c");
    let back = remove_package(&"foo".to_owned(), &added, &"c".to_owned()).unwrap();
    assert_eq!(back, nix);
}

#[test]
fn commands_refuse_unreadable_files() {
    let err = add_package(&"g".to_owned(), &"".to_owned(), &"x".to_owned()).unwrap_err();
    assert_eq!(err.message(), "Unable to parse nix file");
    let err = remove_package(&"g".to_owned(), &"pkgs: [ foo ]".to_owned(), &"x".to_owned()).unwrap_err();
    assert_eq!(err.message(), "Lambda body does not start with a paren expr");
}

fn tabled_text(rows: Vec<Vec<&str>>) -> String {
    let rows: Vec<Vec<String>> = rows
        .into_iter()
        .map(|r| r.into_iter().map(|c| c.to_owned()).collect())
        .collect();
    tabled::builder::Builder::from_iter(rows)
        .build()
        .with(tabled::settings::Style::ascii_rounded())
        .to_string()
}

#[test]
fn list_groups_table_rows() {
    let names = vec!["a".to_owned(), "b/c".to_owned()];
    let expected = tabled_text(vec![vec!["Groups:"], vec!["", "a"], vec!["", "b/c"]]);
    assert_eq!(list_groups(&names), expected);
}

#[test]
fn group_info_table_rows() {
    let nix = add("foo", &new_group("foo"), "zsh");
    let nix = add("foo", &nix, "bash");
    let expected = tabled_text(vec![
        vec!["Name:", "foo"],
        vec![""],
        vec!["Packages:"],
        vec!["", "bash"],
        vec!["", "zsh"],
    ]);
    assert_eq!(group_info(&"foo".to_owned(), &nix).unwrap(), expected);
}
