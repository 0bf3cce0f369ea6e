//! The expression tree produced by the parser, and its mathematical view.

use vstd::prelude::*;

verus! {

/// A parsed expression: the empty expression, a parenthesized list,
/// a bare alphabetic identifier, or a double-quoted string literal.
#[derive(Debug, PartialEq)]
pub enum Expr {
    Noop,
    List(Vec<Expr>),
    Identifier(String),
    StringLiteral(String),
}

/// The mathematical shape of an [`Expr`]: the same tree over `Seq`.
#[verifier::ext_equal]
pub enum SpecExpr {
    Noop,
    List(Seq<SpecExpr>),
    Identifier(Seq<char>),
    StringLiteral(Seq<char>),
}

impl Expr {
    pub open spec fn view(self) -> SpecExpr
        decreases self,
    {
        match self {
            Expr::Noop => SpecExpr::Noop,
            Expr::List(v) => SpecExpr::List(views_of(v@)),
            Expr::Identifier(s) => SpecExpr::Identifier(s@),
            Expr::StringLiteral(s) => SpecExpr::StringLiteral(s@),
        }
    }
}

/// The views of a sequence of expressions, element by element.
pub open spec fn views_of(v: Seq<Expr>) -> Seq<SpecExpr>
    decreases v,
{
    Seq::new(v.len(), |i: int| if 0 <= i < v.len() {
        v[i].view()
    } else {
        SpecExpr::Noop
    })
}

/// Appending an expression to a list appends its view to the list's views.
pub proof fn lemma_views_of_push(v: Seq<Expr>, e: Expr)
    ensures
        views_of(v.push(e)) =~= views_of(v).push(e.view()),
{
}

} // verus!
