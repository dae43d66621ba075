use vstd::prelude::*;

verus! {

/// Why a group name was refused; the segment-level variants carry the text
/// that the message quotes (the whole name or the offending segment).
#[derive(Debug)]
pub enum NameError {
    Empty,
    LeadingSlash,
    TrailingSlash,
    /// Holds the whole group name.
    EmptySegment(String),
    /// Holds the whole group name.
    DotSegment(String),
    /// Holds the offending segment.
    HiddenSegment(String),
    /// Holds the offending segment.
    Backslash(String),
    /// Holds the offending segment.
    ControlCharacter(String),
}

/// `NameError` with its texts as character sequences.
pub enum NameFault {
    Empty,
    LeadingSlash,
    TrailingSlash,
    EmptySegment(Seq<char>),
    DotSegment(Seq<char>),
    HiddenSegment(Seq<char>),
    Backslash(Seq<char>),
    ControlCharacter(Seq<char>),
}

impl View for NameError {
    type V = NameFault;

    open spec fn view(&self) -> NameFault {
        match self {
            NameError::Empty => NameFault::Empty,
            NameError::LeadingSlash => NameFault::LeadingSlash,
            NameError::TrailingSlash => NameFault::TrailingSlash,
            NameError::EmptySegment(g) => NameFault::EmptySegment(g@),
            NameError::DotSegment(g) => NameFault::DotSegment(g@),
            NameError::HiddenSegment(s) => NameFault::HiddenSegment(s@),
            NameError::Backslash(s) => NameFault::Backslash(s@),
            NameError::ControlCharacter(s) => NameFault::ControlCharacter(s@),
        }
    }
}

impl NameFault {
    /// The message shown for this refusal.
    pub open spec fn text(self) -> Seq<char> {
        match self {
            NameFault::Empty => "Group name cannot be empty"@,
            NameFault::LeadingSlash => "Group name cannot start with '/'"@,
            NameFault::TrailingSlash => "Group name cannot end with '/'"@,
            NameFault::EmptySegment(g) => "Group name '"@ + g + "' contains an empty segment"@,
            NameFault::DotSegment(g) => "Group name '"@ + g + "' contains a '.' or '..' segment"@,
            NameFault::HiddenSegment(s) => "Group name segment '"@ + s + "' cannot start with '.'"@,
            NameFault::Backslash(s) => "Group name segment '"@ + s + "' cannot contain '\\'"@,
            NameFault::ControlCharacter(s) => "Group name segment '"@ + s
                + "' cannot contain control characters"@,
        }
    }
}

/// `prefix + middle + suffix` as a new string.
fn quoted(prefix: &str, middle: &str, suffix: &str) -> (res: String)
    ensures
        res@ == prefix@ + middle@ + suffix@,
{
    let mut res = prefix.to_owned();
    res.append(middle);
    res.append(suffix);
    res
}

impl NameError {
    /// The message that describes this refusal.
    pub fn message(&self) -> (m: String)
        ensures
            m@ == self@.text(),
    {
        match self {
            NameError::Empty => "Group name cannot be empty".to_owned(),
            NameError::LeadingSlash => "Group name cannot start with '/'".to_owned(),
            NameError::TrailingSlash => "Group name cannot end with '/'".to_owned(),
            NameError::EmptySegment(g) => quoted("Group name '", g, "' contains an empty segment"),
            NameError::DotSegment(g) => quoted(
                "Group name '",
                g,
                "' contains a '.' or '..' segment",
            ),
            NameError::HiddenSegment(s) => quoted(
                "Group name segment '",
                s,
                "' cannot start with '.'",
            ),
            NameError::Backslash(s) => quoted("Group name segment '", s, "' cannot contain '\\'"),
            NameError::ControlCharacter(s) => quoted(
                "Group name segment '",
                s,
                "' cannot contain control characters",
            ),
        }
    }
}

/// Why the text of a group file could not be read as a group.
#[derive(Debug, PartialEq, Eq, Structural, Clone, Copy)]
pub enum GroupFileError {
    /// The text is not valid Nix, or holds no expression.
    Unparsable,
    RootNotLambda,
    LambdaWithoutParam,
    LambdaWithoutBody,
    BodyNotParen,
    ParenWithoutBody,
    ParenNotWith,
    WithWithoutBody,
    WithBodyNotList,
    ListItemNotIdentOrSelect,
}

impl GroupFileError {
    /// The message shown for this error.
    pub open spec fn text(self) -> Seq<char> {
        match self {
            GroupFileError::Unparsable => "Unable to parse nix file"@,
            GroupFileError::RootNotLambda => "Root expr is not a lambda"@,
            GroupFileError::LambdaWithoutParam => "Lambda has no param expr"@,
            GroupFileError::LambdaWithoutBody => "Lambda has no body expr"@,
            GroupFileError::BodyNotParen => "Lambda body does not start with a paren expr"@,
            GroupFileError::ParenWithoutBody => "Paren has no body expr"@,
            GroupFileError::ParenNotWith => "Paren body expr does not start with a with expr"@,
            GroupFileError::WithWithoutBody => "With expr has no body expr"@,
            GroupFileError::WithBodyNotList => "With body expr is not a list expr"@,
            GroupFileError::ListItemNotIdentOrSelect => "List expr contains a non ident or select expr"@,
        }
    }

    /// The message that describes this error.
    pub fn message(&self) -> (m: String)
        ensures
            m@ == self.text(),
    {
        match self {
            GroupFileError::Unparsable => "Unable to parse nix file".to_owned(),
            GroupFileError::RootNotLambda => "Root expr is not a lambda".to_owned(),
            GroupFileError::LambdaWithoutParam => "Lambda has no param expr".to_owned(),
            GroupFileError::LambdaWithoutBody => "Lambda has no body expr".to_owned(),
            GroupFileError::BodyNotParen => "Lambda body does not start with a paren expr".to_owned(),
            GroupFileError::ParenWithoutBody => "Paren has no body expr".to_owned(),
            GroupFileError::ParenNotWith => "Paren body expr does not start with a with expr".to_owned(),
            GroupFileError::WithWithoutBody => "With expr has no body expr".to_owned(),
            GroupFileError::WithBodyNotList => "With body expr is not a list expr".to_owned(),
            GroupFileError::ListItemNotIdentOrSelect => "List expr contains a non ident or select expr".to_owned(),
        }
    }
}

/// The errors of the library's operations on groups.
#[derive(Debug)]
pub enum ShvlError {
    /// A group name was refused; the message is the outer one, the cause is kept.
    InvalidGroupName(NameError),
    /// A group file could not be read.
    GroupFile(GroupFileError),
    /// `(package, group)`: the package is already in the group.
    PackageExists(String, String),
    /// `(package, group)`: the package is not in the group.
    PackageMissing(String, String),
}

/// `ShvlError` with its texts as character sequences.
pub enum ShvlFault {
    InvalidGroupName(NameFault),
    GroupFile(GroupFileError),
    PackageExists(Seq<char>, Seq<char>),
    PackageMissing(Seq<char>, Seq<char>),
}

impl View for ShvlError {
    type V = ShvlFault;

    open spec fn view(&self) -> ShvlFault {
        match self {
            ShvlError::InvalidGroupName(e) => ShvlFault::InvalidGroupName(e@),
            ShvlError::GroupFile(e) => ShvlFault::GroupFile(*e),
            ShvlError::PackageExists(p, g) => ShvlFault::PackageExists(p@, g@),
            ShvlError::PackageMissing(p, g) => ShvlFault::PackageMissing(p@, g@),
        }
    }
}

impl ShvlFault {
    /// The message shown for this error.
    pub open spec fn text(self) -> Seq<char> {
        match self {
            ShvlFault::InvalidGroupName(_) => "Invalid group name"@,
            ShvlFault::GroupFile(e) => e.text(),
            ShvlFault::PackageExists(p, g) => "Package '"@ + p + "' already exists in group '"@ + g
                + "'"@,
            ShvlFault::PackageMissing(p, g) => "Package '"@ + p + "' does not exist in group '"@ + g
                + "'"@,
        }
    }
}

impl ShvlError {
    /// The message that describes this error (for a refused name, the outer
    /// message; the refusal itself is kept in the variant).
    pub fn message(&self) -> (m: String)
        ensures
            m@ == self@.text(),
    {
        match self {
            ShvlError::InvalidGroupName(_) => "Invalid group name".to_owned(),
            ShvlError::GroupFile(e) => e.message(),
            ShvlError::PackageExists(p, g) => {
                let mut m = quoted("Package '", p, "' already exists in group '");
                m.append(g);
                m.append("'");
                m
            },
            ShvlError::PackageMissing(p, g) => {
                let mut m = quoted("Package '", p, "' does not exist in group '");
                m.append(g);
                m.append("'");
                m
            },
        }
    }
}

} // verus!
