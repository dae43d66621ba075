use vstd::prelude::*;
use crate::error::{ShvlError, ShvlFault};
use crate::group::{Group, group_text, parsed_group, with_package, without_package};
use crate::names::{dirs_to_prune, group_path, group_path_result, prune_dirs};
use crate::nix::nix_parse;
use crate::order::string_views;

verus! {

/// The text that `tabled` renders for these rows (each a list of cells) in
/// its `ascii_rounded` style.
pub uninterp spec fn ascii_rounded_table(rows: Seq<Seq<Seq<char>>>) -> Seq<char>;

/// The cells of each row.
pub open spec fn rows_view(rows: Seq<Vec<String>>) -> Seq<Seq<Seq<char>>> {
    rows.map_values(|r: Vec<String>| string_views(r@))
}

/// Renders `rows` with `tabled`: a `Builder` fed the rows in order
/// (`Builder::from_iter`, which pushes each as a record), built into a
/// `Table`, styled with `Style::ascii_rounded` and turned into text.
///
/// The contract only names the result, a function of the rows alone; the
/// layout of the table is not stated.
#[verifier::external_body]
fn render_table(rows: Vec<Vec<String>>) -> (text: String)
    ensures
        text@ == ascii_rounded_table(rows_view(rows@)),
{
    tabled::builder::Builder::from_iter(rows).build().with(tabled::settings::Style::ascii_rounded()).to_string()
}

/// A new group's file: where it goes and what it holds.
pub struct GroupFile {
    pub path: String,
    pub content: String,
}

/// The file that creating the group `group` under `base` writes: at the
/// group's path, the text of a group with no packages; or why the name is
/// refused.
pub fn create_group(base: &str, group: &String) -> (r: Result<GroupFile, ShvlError>)
    ensures
        match group_path_result(base@, group@) {
            Ok(p) => r matches Ok(f) && f.path@ == p && f.content@ == group_text(Seq::empty()),
            Err(e) => r matches Err(x) && x@ == e,
        },
{
    let path = group_path(base, group.as_str())?;
    let content = Group::default(group.clone()).serialize();
    Ok(GroupFile { path, content })
}

/// What removing the group `group` under `base` deletes: its file, then each
/// directory it leaves empty, deepest first (the caller stops at the first
/// directory that still holds something).
pub struct GroupRemoval {
    pub file: String,
    pub dirs: Vec<String>,
}

/// Plans the removal of the group `group` under `base`; or why the name is
/// refused.
pub fn remove_group(base: &str, group: &String) -> (r: Result<GroupRemoval, ShvlError>)
    ensures
        match group_path_result(base@, group@) {
            Ok(p) => r matches Ok(g) && g.file@ == p && string_views(g.dirs@) == prune_dirs(
                base@,
                group@,
            ),
            Err(e) => r matches Err(x) && x@ == e,
        },
{
    let file = group_path(base, group.as_str())?;
    let dirs = dirs_to_prune(base, group.as_str())?;
    Ok(GroupRemoval { file, dirs })
}

/// The new text of the file of the group `group`, whose text is `nix`, once
/// `package` is added; refused when the file cannot be read as a group or
/// already lists the package.
pub fn add_package(group: &String, nix: &String, package: &String) -> (r: Result<String, ShvlError>)
    ensures
        match parsed_group(group@, nix_parse(nix@)) {
            Err(e) => r matches Err(x) && x@ == ShvlFault::GroupFile(e),
            Ok(g) => if g.packages.contains(package@) {
                r matches Err(x) && x@ == ShvlFault::PackageExists(package@, g.name)
            } else {
                r matches Ok(t) && t@ == group_text(with_package(g.packages, package@))
            },
        },
{
    let mut g = match Group::deserialize(group.clone(), nix) {
        Ok(g) => g,
        Err(e) => {
            return Err(ShvlError::GroupFile(e));
        },
    };
    g.add_package(package)?;
    Ok(g.serialize())
}

/// The new text of the file of the group `group`, whose text is `nix`, once
/// `package` is taken out; refused when the file cannot be read as a group or
/// does not list the package.
pub fn remove_package(group: &String, nix: &String, package: &String) -> (r: Result<String, ShvlError>)
    ensures
        match parsed_group(group@, nix_parse(nix@)) {
            Err(e) => r matches Err(x) && x@ == ShvlFault::GroupFile(e),
            Ok(g) => if g.packages.contains(package@) {
                r matches Ok(t) && t@ == group_text(without_package(g.packages, package@))
            } else {
                r matches Err(x) && x@ == ShvlFault::PackageMissing(package@, g.name)
            },
        },
{
    let mut g = match Group::deserialize(group.clone(), nix) {
        Ok(g) => g,
        Err(e) => {
            return Err(ShvlError::GroupFile(e));
        },
    };
    g.remove_package(package)?;
    Ok(g.serialize())
}

/// The rows of the table that describes a group: its name, a blank row, then
/// the packages under a heading.
pub open spec fn info_rows(name: Seq<char>, packages: Seq<Seq<char>>) -> Seq<Seq<Seq<char>>> {
    seq![seq!["Name:"@, name], seq![""@], seq!["Packages:"@]] + packages.map_values(
        |p: Seq<char>| seq![""@, p],
    )
}

/// The rows of the table that lists groups: a heading, then one row per name.
pub open spec fn list_rows(names: Seq<Seq<char>>) -> Seq<Seq<Seq<char>>> {
    seq![seq!["Groups:"@]] + names.map_values(|n: Seq<char>| seq![""@, n])
}

fn row1(a: &str) -> (row: Vec<String>)
    ensures
        string_views(row@) == seq![a@],
{
    let row = vec![a.to_owned()];
    assert(string_views(row@) =~= seq![a@]);
    row
}

fn row2(a: &str, b: &String) -> (row: Vec<String>)
    ensures
        string_views(row@) == seq![a@, b@],
{
    let row = vec![a.to_owned(), b.clone()];
    assert(string_views(row@) =~= seq![a@, b@]);
    row
}

proof fn lemma_rows_view_push(rows: Seq<Vec<String>>, row: Vec<String>)
    ensures
        rows_view(rows.push(row)) == rows_view(rows).push(string_views(row@)),
{
    assert(rows_view(rows.push(row)) =~= rows_view(rows).push(string_views(row@)));
}

/// The table that describes the group `group`, whose file's text is `nix`;
/// refused when the file cannot be read as a group.
pub fn group_info(group: &String, nix: &String) -> (r: Result<String, ShvlError>)
    ensures
        match parsed_group(group@, nix_parse(nix@)) {
            Err(e) => r matches Err(x) && x@ == ShvlFault::GroupFile(e),
            Ok(g) => r matches Ok(t) && t@ == ascii_rounded_table(info_rows(g.name, g.packages)),
        },
{
    let g = match Group::deserialize(group.clone(), nix) {
        Ok(g) => g,
        Err(e) => {
            return Err(ShvlError::GroupFile(e));
        },
    };
    let mut rows: Vec<Vec<String>> = Vec::new();
    rows.push(row2("Name:", g.name()));
    rows.push(row1(""));
    rows.push(row1("Packages:"));
    let packages_of_g = g.packages();
    let ghost packages = g@.packages;
    assert(rows_view(rows@) =~= info_rows(g@.name, packages.take(0)));
    let mut i: usize = 0;
    while i < packages_of_g.len()
        invariant
            i <= packages_of_g@.len(),
            packages == g@.packages,
            string_views(packages_of_g@) == packages,
            rows_view(rows@) == info_rows(g@.name, packages.take(i as int)),
        decreases packages_of_g@.len() - i,
    {
        let ghost before = rows@;
        let row = row2("", &packages_of_g[i]);
        rows.push(row);
        proof {
            lemma_rows_view_push(before, row);
            assert(packages.take(i + 1).map_values(|p: Seq<char>| seq![""@, p]) =~= packages.take(
                i as int,
            ).map_values(|p: Seq<char>| seq![""@, p]).push(seq![""@, packages[i as int]]));
        }
        assert(rows_view(rows@) =~= info_rows(g@.name, packages.take(i + 1)));
        i = i + 1;
    }
    assert(packages.take(i as int) =~= packages);
    Ok(render_table(rows))
}

/// The table that lists the groups `names`, in the given order.
pub fn list_groups(names: &Vec<String>) -> (text: String)
    ensures
        text@ == ascii_rounded_table(list_rows(string_views(names@))),
{
    let mut rows: Vec<Vec<String>> = Vec::new();
    rows.push(row1("Groups:"));
    let mut i: usize = 0;
    assert(rows_view(rows@) =~= list_rows(string_views(names@.take(0))));
    while i < names.len()
        invariant
            i <= names@.len(),
            rows_view(rows@) == list_rows(string_views(names@.take(i as int))),
        decreases names@.len() - i,
    {
        let ghost before = rows@;
        let row = row2("", &names[i]);
        rows.push(row);
        proof {
            lemma_rows_view_push(before, row);
            let nv = string_views(names@.take(i + 1));
            assert(nv =~= string_views(names@.take(i as int)).push(names@[i as int]@));
            assert(nv.map_values(|n: Seq<char>| seq![""@, n]) =~= string_views(names@.take(i as int)).map_values(
                |n: Seq<char>| seq![""@, n],
            ).push(seq![""@, names@[i as int]@]));
        }
        assert(rows_view(rows@) =~= list_rows(string_views(names@.take(i + 1))));
        i = i + 1;
    }
    assert(names@.take(i as int) =~= names@);
    render_table(rows)
}

/// The table that describes a group shows the group's name exactly as given
/// (for a nested group, the whole `/` separated name) on its first row, after
/// `Name:`; then a blank row and the `Packages:` heading; then one row per
/// package, in the group's order, with the package in the second cell.
pub proof fn lemma_info_rows_show_the_group(name: Seq<char>, packages: Seq<Seq<char>>)
    ensures
        info_rows(name, packages).len() == packages.len() + 3,
        info_rows(name, packages)[0] == seq!["Name:"@, name],
        info_rows(name, packages)[1] == seq![""@],
        info_rows(name, packages)[2] == seq!["Packages:"@],
        forall|i: int|
            0 <= i < packages.len() ==> #[trigger] info_rows(name, packages)[i + 3] == seq![
                ""@,
                packages[i],
            ],
{
}

/// The table that lists groups shows each name exactly as given, one row per
/// name and in the given order, after a `Groups:` heading.
pub proof fn lemma_list_rows_show_every_name(names: Seq<Seq<char>>)
    ensures
        list_rows(names).len() == names.len() + 1,
        list_rows(names)[0] == seq!["Groups:"@],
        forall|i: int| 0 <= i < names.len() ==> #[trigger] list_rows(names)[i + 1] == seq![""@, names[i]],
{
}

} // verus!
