use vstd::prelude::*;
use crate::error::{GroupFileError, ShvlError, ShvlFault};
use crate::nix::{NixExpr, nix_parse, parse_nix};
use crate::order::{
    string_views, strictly_sorted, sorted_elements, insert_sorted_unique, remove_sorted,
    lemma_sorted_elements, lemma_sorted_elements_insert, lemma_sorted_elements_remove,
};

pub use crate::names::{validate_group_name, group_path, get_group_names, classify_entry};

verus! {

/// A group: a named set of packages, kept as a strictly sorted list (so each
/// package appears once and they are listed in the order `Ord` gives strings).
/// The order is the type's invariant; only the methods below change a group.
#[derive(Debug)]
pub struct Group {
    name: String,
    packages: Vec<String>,
}

/// What a group is: its name and its packages in order.
pub struct GroupView {
    pub name: Seq<char>,
    pub packages: Seq<Seq<char>>,
}

impl View for Group {
    type V = GroupView;

    closed spec fn view(&self) -> GroupView {
        GroupView { name: self.name@, packages: string_views(self.packages@) }
    }
}

/// The lines that open every group file.
pub open spec fn file_header() -> Seq<char> {
    "# This file is autogenerate by shvl. Do no modify unless you know what you are doing\n\n"@
        + "pkgs:\n"@ + "(\n"@ + "\twith pkgs;\n"@ + "\t[\n"@
}

/// One line per package, indented by two tabs, in the given order.
pub open spec fn package_lines(packages: Seq<Seq<char>>) -> Seq<char>
    decreases packages.len(),
{
    if packages.len() == 0 {
        Seq::empty()
    } else {
        package_lines(packages.drop_last()) + "\t\t"@ + packages.last() + "\n"@
    }
}

/// The lines that close every group file.
pub open spec fn file_footer() -> Seq<char> {
    "\t]\n"@ + ")\n"@
}

/// The text of the file of a group with these packages: a function of the
/// packages alone (the group's name is not written).
pub open spec fn group_text(packages: Seq<Seq<char>>) -> Seq<char> {
    file_header() + package_lines(packages) + file_footer()
}

/// The list that a group file's expression holds, found along the path
/// `param: ( with namespace; [ ... ] )`, or the first step that fails.
pub open spec fn list_items(root: Option<NixExpr>) -> Result<Seq<NixExpr>, GroupFileError> {
    match root {
        None => Err(GroupFileError::Unparsable),
        Some(NixExpr::Lambda { has_param, body }) => {
            if !has_param {
                Err(GroupFileError::LambdaWithoutParam)
            } else {
                match body {
                    None => Err(GroupFileError::LambdaWithoutBody),
                    Some(b) => match *b {
                        NixExpr::Paren { inner } => match inner {
                            None => Err(GroupFileError::ParenWithoutBody),
                            Some(i) => match *i {
                                NixExpr::With { body } => match body {
                                    None => Err(GroupFileError::WithWithoutBody),
                                    Some(w) => match *w {
                                        NixExpr::List { items } => Ok(items@),
                                        _ => Err(GroupFileError::WithBodyNotList),
                                    },
                                },
                                _ => Err(GroupFileError::ParenNotWith),
                            },
                        },
                        _ => Err(GroupFileError::BodyNotParen),
                    },
                }
            }
        },
        Some(_) => Err(GroupFileError::RootNotLambda),
    }
}

/// The package that a list item names: an identifier as written, or an
/// attribute selection as `target.attr_path`.
pub open spec fn item_text(e: NixExpr) -> Option<Seq<char>> {
    match e {
        NixExpr::Ident { name } => Some(name@),
        NixExpr::Select { target, attr_path } => Some(target@ + "."@ + attr_path@),
        _ => None,
    }
}

/// Every item names a package.
pub open spec fn all_items_named(items: Seq<NixExpr>) -> bool {
    forall|i: int| 0 <= i < items.len() ==> (#[trigger] item_text(items[i])) is Some
}

/// The packages that the items name, in the list's order.
pub open spec fn item_texts(items: Seq<NixExpr>) -> Seq<Seq<char>> {
    items.map_values(|e: NixExpr| item_text(e)->0)
}

/// The set of packages a group file's expression lists, or why it lists none.
pub open spec fn package_set(root: Option<NixExpr>) -> Result<Set<Seq<char>>, GroupFileError> {
    match list_items(root) {
        Err(e) => Err(e),
        Ok(items) => if all_items_named(items) {
            Ok(item_texts(items).to_set())
        } else {
            Err(GroupFileError::ListItemNotIdentOrSelect)
        },
    }
}

/// The group named `name` that a group file's expression describes: its
/// packages sorted, each once.
pub open spec fn parsed_group(name: Seq<char>, root: Option<NixExpr>) -> Result<GroupView, GroupFileError> {
    match package_set(root) {
        Err(e) => Err(e),
        Ok(set) => Ok(GroupView { name, packages: sorted_elements(set) }),
    }
}

/// The packages sorted, with `package` added.
pub open spec fn with_package(packages: Seq<Seq<char>>, package: Seq<char>) -> Seq<Seq<char>> {
    sorted_elements(packages.to_set().insert(package))
}

/// The packages sorted, without `package`.
pub open spec fn without_package(packages: Seq<Seq<char>>, package: Seq<char>) -> Seq<Seq<char>> {
    sorted_elements(packages.to_set().remove(package))
}

impl Group {
    /// The packages are strictly sorted.
    #[verifier::type_invariant]
    spec fn wf(self) -> bool {
        strictly_sorted(string_views(self.packages@))
    }

    /// The group's name.
    pub fn name(&self) -> (r: &String)
        ensures
            r@ == self@.name,
    {
        &self.name
    }

    /// The group's packages, strictly sorted.
    pub fn packages(&self) -> (r: &Vec<String>)
        ensures
            string_views(r@) == self@.packages,
            strictly_sorted(self@.packages),
    {
        proof {
            use_type_invariant(self);
        }
        &self.packages
    }

    /// A group with no packages.
    pub fn default(name: String) -> (g: Group)
        ensures
            g@.name == name@,
            g@.packages == Seq::<Seq<char>>::empty(),
    {
        let packages: Vec<String> = Vec::new();
        assert(string_views(packages@) =~= Seq::<Seq<char>>::empty());
        let g = Group { name, packages };
        g
    }

    /// Whether the group holds `package`.
    pub fn contains(&self, package: &str) -> (r: bool)
        ensures
            r == self@.packages.contains(package@),
    {
        let target = package.to_owned();
        let mut i: usize = 0;
        while i < self.packages.len()
            invariant
                i <= self.packages@.len(),
                target@ == package@,
                forall|j: int| 0 <= j < i ==> #[trigger] self@.packages[j] != package@,
            decreases self.packages@.len() - i,
        {
            if self.packages[i] == target {
                assert(self@.packages[i as int] == package@);
                return true;
            }
            i = i + 1;
        }
        false
    }

    /// Adds `package` unless the group holds it; answers whether it was added.
    pub fn insert(&mut self, package: String) -> (inserted: bool)
        ensures
            strictly_sorted(final(self)@.packages),
            final(self)@.name == old(self)@.name,
            inserted == !old(self)@.packages.contains(package@),
            final(self)@.packages.to_set() == old(self)@.packages.to_set().insert(package@),
            final(self)@.packages == with_package(old(self)@.packages, package@),
    {
        proof {
            use_type_invariant(&*self);
        }
        let mut packages: Vec<String> = Vec::new();
        assert(string_views(packages@) =~= Seq::<Seq<char>>::empty());
        std::mem::swap(&mut packages, &mut self.packages);
        let inserted = insert_sorted_unique(&mut packages, package);
        self.packages = packages;
        proof {
            lemma_sorted_elements(self@.packages);
        }
        inserted
    }

    /// Takes `package` out of the group if it is there; answers whether it was.
    pub fn remove(&mut self, package: &str) -> (removed: bool)
        ensures
            strictly_sorted(final(self)@.packages),
            final(self)@.name == old(self)@.name,
            removed == old(self)@.packages.contains(package@),
            final(self)@.packages.to_set() == old(self)@.packages.to_set().remove(package@),
            final(self)@.packages == without_package(old(self)@.packages, package@),
    {
        proof {
            use_type_invariant(&*self);
        }
        let mut packages: Vec<String> = Vec::new();
        assert(string_views(packages@) =~= Seq::<Seq<char>>::empty());
        std::mem::swap(&mut packages, &mut self.packages);
        let removed = remove_sorted(&mut packages, package);
        self.packages = packages;
        proof {
            lemma_sorted_elements(self@.packages);
        }
        removed
    }

    /// The text of the group's file: a header, one line per package in the
    /// group's order, and a footer.
    pub fn serialize(self) -> (text: String)
        ensures
            text@ == group_text(self@.packages),
    {
        let mut out = "# This file is autogenerate by shvl. Do no modify unless you know what you are doing\n\n".to_owned();
        out.append("pkgs:\n");
        out.append("(\n");
        out.append("\twith pkgs;\n");
        out.append("\t[\n");
        let ghost packages = self@.packages;
        let mut i: usize = 0;
        assert(packages.take(0) =~= Seq::<Seq<char>>::empty());
        while i < self.packages.len()
            invariant
                i <= self.packages@.len(),
                packages == self@.packages,
                out@ == file_header() + package_lines(packages.take(i as int)),
            decreases self.packages@.len() - i,
        {
            assert(packages.take(i + 1).drop_last() =~= packages.take(i as int));
            out.append("\t\t");
            out.append(self.packages[i].as_str());
            out.append("\n");
            i = i + 1;
        }
        assert(packages.take(i as int) =~= packages);
        out.append("\t]\n");
        out.append(")\n");
        out
    }

    /// Reads the group named `name` from the expression of its file: the
    /// expression must be `param: ( with namespace; [ items ] )` where every
    /// item is an identifier or an attribute selection.
    pub fn from_syntax(name: String, root: Option<NixExpr>) -> (r: Result<Group, GroupFileError>)
        ensures
            match parsed_group(name@, root) {
                Ok(g) => r matches Ok(x) && x@ == g,
                Err(e) => r == Err::<Group, GroupFileError>(e),
            },
    {
        let ghost whole = root;
        let lambda = match root {
            Some(e) => e,
            None => {
                return Err(GroupFileError::Unparsable);
            },
        };
        let body = match lambda {
            NixExpr::Lambda { has_param, body } => {
                if !has_param {
                    return Err(GroupFileError::LambdaWithoutParam);
                }
                match body {
                    Some(b) => *b,
                    None => {
                        return Err(GroupFileError::LambdaWithoutBody);
                    },
                }
            },
            _ => {
                return Err(GroupFileError::RootNotLambda);
            },
        };
        let inner = match body {
            NixExpr::Paren { inner } => match inner {
                Some(i) => *i,
                None => {
                    return Err(GroupFileError::ParenWithoutBody);
                },
            },
            _ => {
                return Err(GroupFileError::BodyNotParen);
            },
        };
        let with_body = match inner {
            NixExpr::With { body } => match body {
                Some(b) => *b,
                None => {
                    return Err(GroupFileError::WithWithoutBody);
                },
            },
            _ => {
                return Err(GroupFileError::ParenNotWith);
            },
        };
        let items = match with_body {
            NixExpr::List { items } => items,
            _ => {
                return Err(GroupFileError::WithBodyNotList);
            },
        };
        assert(list_items(whole) == Ok::<Seq<NixExpr>, GroupFileError>(items@));
        let mut group = Group::default(name);
        let mut i: usize = 0;
        assert(item_texts(items@.take(0)).to_set() =~= Set::<Seq<char>>::empty());
        while i < items.len()
            invariant
                i <= items@.len(),
                group@.name == name@,
                list_items(whole) == Ok::<Seq<NixExpr>, GroupFileError>(items@),
                whole == root,
                group@.packages.to_set() == item_texts(items@.take(i as int)).to_set(),
                forall|j: int| 0 <= j < i ==> (#[trigger] item_text(items@[j])) is Some,
            decreases items@.len() - i,
        {
            let ghost before = group@.packages;
            match &items[i] {
                NixExpr::Ident { name } => {
                    group.insert(name.clone());
                },
                NixExpr::Select { target, attr_path } => {
                    let mut text = target.clone();
                    text.append(".");
                    text.append(attr_path.as_str());
                    group.insert(text);
                },
                _ => {
                    assert(!all_items_named(items@));
                    return Err(GroupFileError::ListItemNotIdentOrSelect);
                },
            }
            assert(item_texts(items@.take(i + 1)) =~= item_texts(items@.take(i as int)).push(
                item_text(items@[i as int])->0,
            ));
            proof {
                item_texts(items@.take(i as int)).lemma_push_to_set_commute(
                    item_text(items@[i as int])->0,
                );
            }
            i = i + 1;
        }
        assert(items@.take(i as int) =~= items@);
        proof {
            use_type_invariant(&group);
            lemma_sorted_elements(group@.packages);
        }
        Ok(group)
    }

    /// Reads the group named `name` from the text of its file, which `rnix`
    /// parses; then as `from_syntax`.
    pub fn deserialize(name: String, file_content: &String) -> (r: Result<Group, GroupFileError>)
        ensures
            match parsed_group(name@, nix_parse(file_content@)) {
                Ok(g) => r matches Ok(x) && x@ == g,
                Err(e) => r == Err::<Group, GroupFileError>(e),
            },
    {
        let root = parse_nix(file_content.as_str());
        Self::from_syntax(name, root)
    }
}

impl Group {
    /// Adds `package` to the group; refused, with the group unchanged, when the
    /// group already holds it.
    pub fn add_package(&mut self, package: &String) -> (r: Result<(), ShvlError>)
        ensures
            strictly_sorted(final(self)@.packages),
            final(self)@.name == old(self)@.name,
            if old(self)@.packages.contains(package@) {
                &&& r matches Err(e) && e@ == ShvlFault::PackageExists(package@, old(self)@.name)
                &&& final(self)@ == old(self)@
            } else {
                &&& r is Ok
                &&& final(self)@.packages == with_package(old(self)@.packages, package@)
            },
    {
        proof {
            use_type_invariant(&*self);
        }
        if self.contains(package.as_str()) {
            return Err(ShvlError::PackageExists(package.clone(), self.name.clone()));
        }
        self.insert(package.clone());
        Ok(())
    }

    /// Takes `package` out of the group; refused, with the group unchanged,
    /// when the group does not hold it.
    pub fn remove_package(&mut self, package: &String) -> (r: Result<(), ShvlError>)
        ensures
            strictly_sorted(final(self)@.packages),
            final(self)@.name == old(self)@.name,
            if old(self)@.packages.contains(package@) {
                &&& r is Ok
                &&& final(self)@.packages == without_package(old(self)@.packages, package@)
            } else {
                &&& r matches Err(e) && e@ == ShvlFault::PackageMissing(package@, old(self)@.name)
                &&& final(self)@ == old(self)@
            },
    {
        proof {
            use_type_invariant(&*self);
        }
        if !self.contains(package.as_str()) {
            return Err(ShvlError::PackageMissing(package.clone(), self.name.clone()));
        }
        self.remove(package.as_str());
        Ok(())
    }
}

/// Adding a package the group lacks and then removing it gives back the
/// packages the group had.
pub proof fn lemma_add_then_remove(packages: Seq<Seq<char>>, package: Seq<char>)
    requires
        strictly_sorted(packages),
        !packages.contains(package),
    ensures
        without_package(with_package(packages, package), package) == packages,
{
    lemma_sorted_elements_insert(packages, package);
    let added = with_package(packages, package);
    assert(added.to_set().remove(package) =~= packages.to_set());
    lemma_sorted_elements(packages);
}

/// Removing a package the group holds and then adding it again gives back the
/// packages the group had.
pub proof fn lemma_remove_then_add(packages: Seq<Seq<char>>, package: Seq<char>)
    requires
        strictly_sorted(packages),
        packages.contains(package),
    ensures
        with_package(without_package(packages, package), package) == packages,
{
    lemma_sorted_elements_remove(packages, package);
    let removed = without_package(packages, package);
    assert(removed.to_set().insert(package) =~= packages.to_set());
    lemma_sorted_elements(packages);
}

/// After adding a package the group holds it, and every package it held;
/// after removing one it no longer holds it, and keeps every other.
pub proof fn lemma_package_membership(packages: Seq<Seq<char>>, package: Seq<char>, other: Seq<char>)
    requires
        strictly_sorted(packages),
    ensures
        with_package(packages, package).contains(package),
        packages.contains(other) ==> with_package(packages, package).contains(other),
        !without_package(packages, package).contains(package),
        other != package ==> (without_package(packages, package).contains(other)
            <==> packages.contains(other)),
{
    lemma_sorted_elements_insert(packages, package);
    lemma_sorted_elements_remove(packages, package);
    assert(with_package(packages, package).to_set().contains(package));
    assert(!without_package(packages, package).to_set().contains(package));
    if packages.contains(other) {
        assert(packages.to_set().contains(other));
        assert(with_package(packages, package).to_set().contains(other));
    }
    if other != package {
        assert(without_package(packages, package).to_set().contains(other) <==> packages.to_set().contains(other));
    }
}

/// `rnix` reads the list in `text` back as one item per package of
/// `packages`, each naming that package, in order.
pub open spec fn reads_back(text: Seq<char>, packages: Seq<Seq<char>>) -> bool {
    list_items(nix_parse(text)) matches Ok(items) && all_items_named(items) && item_texts(items)
        == packages
}

/// Reading back the file written for a group gives the group again (its name
/// comes from the caller), provided `rnix` reads the written list back as one
/// item per line naming that line's package. Which names `rnix` reads so is
/// up to its grammar: a package such as `foo bar` comes back as two.
pub proof fn lemma_serialize_deserialize(name: Seq<char>, packages: Seq<Seq<char>>)
    requires
        strictly_sorted(packages),
        reads_back(group_text(packages), packages),
    ensures
        parsed_group(name, nix_parse(group_text(packages))) == Ok::<GroupView, GroupFileError>(
            GroupView { name, packages },
        ),
{
    lemma_sorted_elements(packages);
}

/// Adding a package to a group's file and then removing it from the new file
/// gives back the original file text, provided `rnix` reads the new file back
/// as its packages. The new file lists the package, so the removal is not
/// refused, and what it writes is the text the group's packages give.
pub proof fn lemma_add_then_remove_file(name: Seq<char>, packages: Seq<Seq<char>>, package: Seq<char>)
    requires
        strictly_sorted(packages),
        !packages.contains(package),
        reads_back(group_text(with_package(packages, package)), with_package(packages, package)),
    ensures
        parsed_group(name, nix_parse(group_text(with_package(packages, package)))) == Ok::<
            GroupView,
            GroupFileError,
        >(GroupView { name, packages: with_package(packages, package) }),
        with_package(packages, package).contains(package),
        group_text(without_package(with_package(packages, package), package)) == group_text(
            packages,
        ),
{
    lemma_sorted_elements_insert(packages, package);
    lemma_serialize_deserialize(name, with_package(packages, package));
    lemma_package_membership(packages, package, package);
    lemma_add_then_remove(packages, package);
}

/// The line that lists `package` in a group file.
pub open spec fn package_line(package: Seq<char>) -> Seq<char> {
    "\t\t"@ + package + "\n"@
}

proof fn lemma_package_lines_flatten(packages: Seq<Seq<char>>)
    ensures
        package_lines(packages) == packages.map_values(|p: Seq<char>| package_line(p)).flatten_alt(),
    decreases packages.len(),
{
    let lines = packages.map_values(|p: Seq<char>| package_line(p));
    if packages.len() > 0 {
        lemma_package_lines_flatten(packages.drop_last());
        assert(lines.drop_last() =~= packages.drop_last().map_values(|p: Seq<char>| package_line(p)));
        assert(lines.last() == package_line(packages.last()));
        assert(package_lines(packages) =~= lines.drop_last().flatten_alt() + lines.last());
    } else {
        assert(lines =~= Seq::<Seq<char>>::empty());
    }
}

/// A group file lists every package of the group, each on a line of its own
/// (two tabs, the package, a line break), in the group's order, between the
/// fixed header and footer: the lines are exactly the packages' lines
/// concatenated, whatever the number of packages.
pub proof fn lemma_group_text_lists_every_package(packages: Seq<Seq<char>>)
    ensures
        group_text(packages) == file_header() + packages.map_values(|p: Seq<char>| package_line(p)).flatten()
            + file_footer(),
{
    lemma_package_lines_flatten(packages);
    packages.map_values(|p: Seq<char>| package_line(p)).lemma_flatten_and_flatten_alt_are_equivalent();
}

} // verus!
