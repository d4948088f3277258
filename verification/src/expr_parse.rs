//! What the host expression parser says about a piece of source text.
//!
//! Classification of a head or an argument segment ultimately asks the host
//! grammar: is this text an expression, is it an assignment, is it a bare
//! string literal, and what does the literal spell. Those four answers are
//! functions of the text alone; they are given names here and `syn` is called
//! behind them.

use vstd::prelude::*;

verus! {

/// How a piece of source text parses under the host expression grammar.
pub enum SegmentKind {
    /// Not a valid expression.
    Invalid,
    /// A top-level assignment `target = value`.
    Assign,
    /// A bare string literal; the payload is its unescaped value.
    StrLiteral(String),
    /// Any other expression.
    Other,
}

/// The text parses as an expression.
pub uninterp spec fn parses_as_expr(s: Seq<char>) -> bool;

/// The text parses as an expression whose top-level form is an assignment.
pub uninterp spec fn parses_as_assign(s: Seq<char>) -> bool;

/// The text parses as an expression that is a bare string literal.
pub uninterp spec fn parses_as_str_lit(s: Seq<char>) -> bool;

/// The unescaped value of the string literal that the text spells.
pub uninterp spec fn str_lit_value(s: Seq<char>) -> Seq<char>;

/// Relies on syn::parse_str::<syn::Expr> (and, on a string literal,
/// syn::LitStr::value): whether the text parses as an expression, whether
/// that expression is an assignment or a bare string literal, and the
/// literal's unescaped value. Each is a function of the text alone.
#[verifier::external_body]
pub(crate) fn parse_segment(s: &str) -> (k: SegmentKind)
    ensures
        (k is Invalid) == !parses_as_expr(s@),
        (k is Assign) == (parses_as_expr(s@) && parses_as_assign(s@)),
        (k is StrLiteral) == (parses_as_expr(s@) && parses_as_str_lit(s@)),
        k matches SegmentKind::StrLiteral(v) ==> v@ == str_lit_value(s@),
{
    match syn::parse_str::<syn::Expr>(s) {
        Err(_) => SegmentKind::Invalid,
        Ok(syn::Expr::Assign(_)) => SegmentKind::Assign,
        Ok(syn::Expr::Lit(syn::ExprLit { lit: syn::Lit::Str(lit), .. })) => {
            SegmentKind::StrLiteral(lit.value())
        },
        Ok(_) => SegmentKind::Other,
    }
}

/// Whether the text parses as an expression.
pub fn expression_is_valid(s: &str) -> (r: bool)
    ensures
        r == parses_as_expr(s@),
{
    match parse_segment(s) {
        SegmentKind::Invalid => false,
        _ => true,
    }
}

/// An argument is named iff its top-level form is an assignment.
pub open spec fn spec_is_named(s: Seq<char>) -> bool {
    parses_as_expr(s) && parses_as_assign(s)
}

/// A segment can serve as the template iff it is a bare string literal.
pub open spec fn spec_is_literal_segment(s: Seq<char>) -> bool {
    parses_as_expr(s) && parses_as_str_lit(s)
}

} // verus!
