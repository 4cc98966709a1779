//! A logic-less text templating engine in the Mustache family.
//!
//! A template source is parsed into a tree of parts, and the tree is rendered
//! against a dynamically shaped data value.

use vstd::prelude::*;

pub mod compiler;
pub mod errors;
pub mod escape;
pub mod in_place;
pub mod parse;
pub mod parser;
pub mod reflect_render;
pub mod render;
pub mod renderer;
pub mod soundness;
pub mod template;
pub mod templates;
pub mod text;
pub mod value;
pub mod vm;

verus! {

/// An expression of the small language that is compiled to bytecode.
#[derive(Debug, PartialEq, Eq)]
pub enum Expr {
    /// Text that is written as it is.
    String(String),
    /// The interpolation of the value at a path.
    Var(String),
    /// A block that is rendered depending on the value at a path.
    Section { var: String, body: Vec<Expr> },
}

/// What an expression stands for: the tree below it.
pub enum ExprView {
    String(Seq<char>),
    Var(Seq<char>),
    Section { var: Seq<char>, body: Seq<ExprView> },
}

/// The views of a run of expressions, one for one.
pub open spec fn exprs_view(exprs: Seq<Expr>) -> Seq<ExprView>
    decreases exprs,
{
    Seq::new(
        exprs.len(),
        |i: int|
            if 0 <= i < exprs.len() {
                expr_view(exprs[i])
            } else {
                ExprView::String(Seq::empty())
            },
    )
}

/// The tree that `expr` stands for.
pub open spec fn expr_view(expr: Expr) -> ExprView
    decreases expr,
{
    match expr {
        Expr::String(s) => ExprView::String(s@),
        Expr::Var(v) => ExprView::Var(v@),
        Expr::Section { var, body } => ExprView::Section { var: var@, body: exprs_view(body@) },
    }
}

impl View for Expr {
    type V = ExprView;

    open spec fn view(&self) -> ExprView {
        expr_view(*self)
    }
}

} // verus!
