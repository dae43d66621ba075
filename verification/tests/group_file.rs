use shvl::error::GroupFileError;
use shvl::group::Group;
use shvl::nix::NixExpr;

fn group_from(nix: &str) -> Result<Group, GroupFileError> {
    Group::deserialize("test".to_owned(), &nix.to_owned())
}

fn packages_of(nix: &str) -> Vec<String> {
    group_from(nix).unwrap().packages().clone().into_iter().collect()
}

fn group_of(name: &str, packages: &[&str]) -> Group {
    let mut group = Group::default(name.to_owned());
    for p in packages {
        group.insert((*p).to_owned());
    }
    group
}

#[test]
fn group_basic() {
    let packages = packages_of("pkgs:\n(\n\twith pkgs;\n\t[\n\t\tripgrep\n\t\tfd\n\t]\n)\n");

    assert!(packages == vec!["fd".to_owned(), "ripgrep".to_owned()]);
}

#[test]
fn name_is_taken_from_argument() {
    let group = group_from("pkgs:\n(\n\twith pkgs;\n\t[\n\t]\n)\n").unwrap();

    assert!(*group.name() == "test");
}

#[test]
fn empty_list() {
    let group = group_from("pkgs:\n(\n\twith pkgs;\n\t[\n\t]\n)\n").unwrap();

    assert!(group.packages().is_empty());
}

#[test]
fn select_expr() {
    let packages = packages_of("pkgs:\n(\n\twith pkgs;\n\t[\n\t\tnodePackages.prettier\n\t]\n)\n");

    assert!(packages == vec!["nodePackages.prettier".to_owned()]);
}

#[test]
fn nested_select_expr() {
    let packages = packages_of("pkgs:\n(\n\twith pkgs;\n\t[\n\t\tfoo.bar.baz\n\t]\n)\n");

    assert!(packages == vec!["foo.bar.baz".to_owned()]);
}

#[test]
fn duplicates_collapse() {
    let packages = packages_of("pkgs:\n(\n\twith pkgs;\n\t[\n\t\tfoo\n\t\tfoo\n\t]\n)\n");

    assert!(packages == vec!["foo".to_owned()]);
}

#[test]
fn ignores_comments_and_layout() {
    let packages = packages_of("# a comment\npkgs: ( with pkgs; [ ripgrep /* inline */ fd ] )\n");

    assert!(packages == vec!["fd".to_owned(), "ripgrep".to_owned()]);
}

#[test]
fn param_name_need_not_be_pkgs() {
    let packages = packages_of("p:\n(\n\twith p;\n\t[\n\t\tfoo\n\t]\n)\n");

    assert!(packages == vec!["foo".to_owned()]);
}

#[test]
fn empty_file() {
    let err = group_from("").unwrap_err();

    assert!(err.message() == "Unable to parse nix file");
}

#[test]
fn invalid_syntax() {
    let err = group_from("pkgs: ( with pkgs; [").unwrap_err();

    assert!(err.message() == "Unable to parse nix file");
}

#[test]
fn root_not_lambda() {
    let err = group_from("[ foo ]").unwrap_err();

    assert!(err.message() == "Root expr is not a lambda");
}

#[test]
fn body_not_paren() {
    let err = group_from("pkgs: [ foo ]").unwrap_err();

    assert!(err.message() == "Lambda body does not start with a paren expr");
}

#[test]
fn paren_not_with() {
    let err = group_from("pkgs: (\n[ foo ]\n)").unwrap_err();

    assert!(err.message() == "Paren body expr does not start with a with expr");
}

#[test]
fn with_body_not_list() {
    let err = group_from("pkgs: (\nwith pkgs;\nfoo\n)").unwrap_err();

    assert!(err.message() == "With body expr is not a list expr");
}

#[test]
fn list_item_not_ident_or_select() {
    for src in [
        "pkgs: (\nwith pkgs;\n[ 123 ]\n)",
        "pkgs: (\nwith pkgs;\n[ \"foo\" ]\n)",
    ] {
        let err = group_from(src).unwrap_err();

        assert!(err.message() == "List expr contains a non ident or select expr");
    }
}

#[test]
fn group_serialize_basic() {
    let nix = group_of("test", &["ripgrep", "fd"]).serialize();

    assert!(nix.starts_with("# This file is autogenerate by shvl."));
    assert!(nix.contains("pkgs:\n"));
    assert!(nix.contains("\twith pkgs;\n"));
    assert!(nix.contains("\t\tfd\n\t\tripgrep\n"));
}

#[test]
fn empty_group() {
    let nix = Group::default("test".to_owned()).serialize();

    assert!(nix.contains("\t[\n\t]\n"));
}

#[test]
fn name_is_not_written_to_file() {
    let nix = group_of("some-unique-group-name", &[]).serialize();

    assert!(!nix.contains("some-unique-group-name"));
}

#[test]
fn round_trip() {
    let packages = ["ripgrep", "fd", "nodePackages.prettier", "foo-bar", "_x'y"];

    let nix = group_of("test", &packages).serialize();

    let group = Group::deserialize("test".to_owned(), &nix).unwrap();

    let mut expected: Vec<String> = packages.iter().map(|p| (*p).to_owned()).collect();
    expected.sort();

    assert!(group.packages().clone().into_iter().collect::<Vec<_>>() == expected);
}

#[test]
fn round_trip_empty() {
    let nix = Group::default("test".to_owned()).serialize();

    let group = Group::deserialize("test".to_owned(), &nix).unwrap();

    assert!(group.packages().is_empty());
}

#[test]
fn round_trip_is_lossy_for_non_ident_names() {
    let nix = group_of("test", &["foo bar"]).serialize();
    let group = Group::deserialize("test".to_owned(), &nix).unwrap();
    assert!(group.packages().clone().into_iter().collect::<Vec<_>>() == vec!["bar", "foo"]);

    let nix = group_of("test", &[""]).serialize();
    assert!(
        Group::deserialize("test".to_owned(), &nix)
            .unwrap()
            .packages()
            .is_empty()
    );

    let nix = group_of("test", &["foo;"]).serialize();
    assert!(Group::deserialize("test".to_owned(), &nix).is_err());

    let nix = group_of("test", &["1abc"]).serialize();
    assert!(Group::deserialize("test".to_owned(), &nix).is_err());
}

#[test]
fn serialize_exact_text() {
    let nix = group_of("test", &["b", "a"]).serialize();

    assert_eq!(
        nix,
        "# This file is autogenerate by shvl. Do no modify unless you know what you are doing\n\npkgs:\n(\n\twith pkgs;\n\t[\n\t\ta\n\t\tb\n\t]\n)\n"
    );
}

#[test]
fn insert_keeps_sorted_and_unique() {
    let mut group = Group::default("g".to_owned());
    assert!(group.insert("zsh".to_owned()));
    assert!(group.insert("bash".to_owned()));
    assert!(!group.insert("zsh".to_owned()));
    assert!(group.insert("fish".to_owned()));
    assert_eq!(*group.packages(), vec!["bash", "fish", "zsh"]);
    assert!(group.contains("fish"));
    assert!(group.remove("fish"));
    assert!(!group.remove("fish"));
    assert!(!group.contains("fish"));
    assert_eq!(*group.packages(), vec!["bash", "zsh"]);
}

#[test]
fn add_then_remove_restores_packages() {
    let mut group = group_of("g", &["a", "c"]);
    group.add_package(&"b".to_owned()).unwrap();
    assert_eq!(*group.packages(), vec!["a", "b", "c"]);
    group.remove_package(&"b".to_owned()).unwrap();
    assert_eq!(*group.packages(), vec!["a", "c"]);
}

#[test]
fn add_package_refuses_duplicate() {
    let mut group = group_of("g", &["a"]);
    let err = group.add_package(&"a".to_owned()).unwrap_err();
    assert_eq!(err.message(), "Package 'a' already exists in group 'g'");
    assert_eq!(*group.packages(), vec!["a"]);
}

#[test]
fn remove_package_refuses_missing() {
    let mut group = group_of("g", &["a"]);
    let err = group.remove_package(&"b".to_owned()).unwrap_err();
    assert_eq!(err.message(), "Package 'b' does not exist in group 'g'");
    assert_eq!(*group.packages(), vec!["a"]);
}

#[test]
fn from_syntax_reads_the_list() {
    let item = |name: &str| NixExpr::Ident { name: name.to_owned() };
    let root = NixExpr::Lambda {
        has_param: true,
        body: Some(Box::new(NixExpr::Paren {
            inner: Some(Box::new(NixExpr::With {
                body: Some(Box::new(NixExpr::List {
                    items: vec![
                        item("zsh"),
                        NixExpr::Select { target: "a".to_owned(), attr_path: "b.c".to_owned() },
                        item("zsh"),
                    ],
                })),
            })),
        })),
    };
    let group = Group::from_syntax("g".to_owned(), Some(root)).unwrap();
    assert_eq!(*group.name(), "g");
    assert_eq!(*group.packages(), vec!["a.b.c", "zsh"]);
}

#[test]
fn from_syntax_errors() {
    assert_eq!(Group::from_syntax("g".to_owned(), None).unwrap_err(), GroupFileError::Unparsable);
    assert_eq!(
        Group::from_syntax("g".to_owned(), Some(NixExpr::Other)).unwrap_err(),
        GroupFileError::RootNotLambda
    );
    let no_param = NixExpr::Lambda { has_param: false, body: None };
    assert_eq!(
        Group::from_syntax("g".to_owned(), Some(no_param)).unwrap_err(),
        GroupFileError::LambdaWithoutParam
    );
    let no_body = NixExpr::Lambda { has_param: true, body: None };
    assert_eq!(
        Group::from_syntax("g".to_owned(), Some(no_body)).unwrap_err(),
        GroupFileError::LambdaWithoutBody
    );
    let empty_paren = NixExpr::Lambda {
        has_param: true,
        body: Some(Box::new(NixExpr::Paren { inner: None })),
    };
    assert_eq!(
        Group::from_syntax("g".to_owned(), Some(empty_paren)).unwrap_err(),
        GroupFileError::ParenWithoutBody
    );
    let empty_with = NixExpr::Lambda {
        has_param: true,
        body: Some(Box::new(NixExpr::Paren {
            inner: Some(Box::new(NixExpr::With { body: None })),
        })),
    };
    assert_eq!(
        Group::from_syntax("g".to_owned(), Some(empty_with)).unwrap_err(),
        GroupFileError::WithWithoutBody
    );
    assert_eq!(GroupFileError::ParenWithoutBody.message(), "Paren has no body expr");
    assert_eq!(GroupFileError::WithWithoutBody.message(), "With expr has no body expr");
    assert_eq!(GroupFileError::LambdaWithoutParam.message(), "Lambda has no param expr");
    assert_eq!(GroupFileError::LambdaWithoutBody.message(), "Lambda has no body expr");
}
