use vstd::prelude::*;
use rnix::ast::Expr;

verus! {

/// The part of a Nix expression tree that a group file is read from.
///
/// Each value mirrors one node of the tree that the `rnix` parser builds:
/// lambdas, parenthesised expressions, `with` expressions and lists keep
/// their children; identifiers and attribute selections keep their source
/// text; every other kind of expression is `Other`.
pub enum NixExpr {
    /// `param: body`; `has_param` records whether a parameter was present.
    Lambda { has_param: bool, body: Option<Box<NixExpr>> },
    /// `( inner )`.
    Paren { inner: Option<Box<NixExpr>> },
    /// `with namespace; body`.
    With { body: Option<Box<NixExpr>> },
    /// `[ items ]`.
    List { items: Vec<NixExpr> },
    /// A bare identifier such as `ripgrep`.
    Ident { name: String },
    /// An attribute selection `target.attr_path`, both parts kept as written.
    Select { target: String, attr_path: String },
    /// Any other expression (strings, numbers, applications, ...).
    Other,
}

/// `rnix`'s expression node, which only the conversion into `NixExpr` handles.
#[verifier::external_type_specification]
#[verifier::external_body]
pub struct ExRnixExpr(Expr);

/// The root expression that `rnix` finds in `text`, as a `NixExpr`: `None`
/// when the parser reports an error or the file holds no expression.
pub uninterp spec fn nix_parse(text: Seq<char>) -> Option<NixExpr>;

/// Parses `text` with `rnix::Root::parse`, keeps the tree only when the parse
/// has no error (`Parse::ok`) and holds a root expression (`Root::expr`), and
/// converts that expression to a `NixExpr`.
///
/// The contract only names the result: `nix_parse(text)` is whatever `rnix`
/// makes of the text, a function of the text alone. Nothing about Nix's
/// grammar is stated.
#[verifier::external_body]
pub(crate) fn parse_nix(text: &str) -> (res: Option<NixExpr>)
    ensures
        res == nix_parse(text@),
{
    match rnix::Root::parse(text).ok() {
        Ok(root) => root.expr().map(nix_expr_of),
        Err(_) => None,
    }
}

/// Converts one `rnix` expression node, and the children that `NixExpr`
/// keeps, into a `NixExpr`. Used only by `parse_nix` to convert its result.
///
/// The two `unwrap`s never fail: `rnix`'s parser opens a `NODE_IDENT` only to
/// put an identifier token (`TOKEN_IDENT`, which is also how it stores `or`
/// used as a name) into it, and opens a `NODE_SELECT` around the expression it
/// has just parsed and then always adds an attribute path node.
#[verifier::external_body]
fn nix_expr_of(e: Expr) -> NixExpr {
    match e {
        Expr::Lambda(l) => NixExpr::Lambda { has_param: l.param().is_some(), body: nix_child(l.body()) },
        Expr::Paren(p) => NixExpr::Paren { inner: nix_child(p.expr()) },
        Expr::With(w) => NixExpr::With { body: nix_child(w.body()) },
        Expr::List(l) => NixExpr::List { items: l.items().map(nix_expr_of).collect() },
        Expr::Ident(i) => NixExpr::Ident { name: i.ident_token().unwrap().text().to_owned() },
        Expr::Select(s) => NixExpr::Select {
            target: s.expr().unwrap().to_string(),
            attr_path: s.attrpath().unwrap().to_string(),
        },
        _ => NixExpr::Other,
    }
}

/// Converts an optional child of an `rnix` node, as `nix_expr_of` does.
#[verifier::external_body]
fn nix_child(e: Option<Expr>) -> Option<Box<NixExpr>> {
    e.map(|e| Box::new(nix_expr_of(e)))
}

} // verus!
