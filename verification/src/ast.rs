//! The expression tree of a search query.

use vstd::prelude::*;

verus! {

/// Fields a search can look at.
#[derive(Debug, Clone, Copy, PartialEq, Eq, Structural)]
pub enum Campo {
    Title,
    Album,
    Performer,
    Year,
    Genre,
    Track,
}

/// Expression tree of a search.
#[derive(Debug, PartialEq)]
pub enum Expr {
    /// campo:"valor"
    Condicion { campo: Campo, valor: String },
    /// expr ^ expr
    And(Box<Expr>, Box<Expr>),
    /// expr + expr
    Or(Box<Expr>, Box<Expr>),
    /// ~expr
    Not(Box<Expr>),
}

/// Mathematical model of [`Expr`]: the same tree, with each value as its characters.
pub enum ExprV {
    Condicion { campo: Campo, valor: Seq<char> },
    And(Box<ExprV>, Box<ExprV>),
    Or(Box<ExprV>, Box<ExprV>),
    Not(Box<ExprV>),
}

pub open spec fn expr_view(e: Expr) -> ExprV
    decreases e,
{
    match e {
        Expr::Condicion { campo, valor } => ExprV::Condicion { campo, valor: valor@ },
        Expr::And(a, b) => ExprV::And(Box::new(expr_view(*a)), Box::new(expr_view(*b))),
        Expr::Or(a, b) => ExprV::Or(Box::new(expr_view(*a)), Box::new(expr_view(*b))),
        Expr::Not(a) => ExprV::Not(Box::new(expr_view(*a))),
    }
}

impl View for Expr {
    type V = ExprV;

    open spec fn view(&self) -> ExprV {
        expr_view(*self)
    }
}

/// A copy of `e` with the same model.
pub fn copiar_expr(e: &Expr) -> (r: Expr)
    ensures
        r@ == e@,
    decreases e,
{
    match e {
        Expr::Condicion { campo, valor } => Expr::Condicion { campo: *campo, valor: valor.clone() },
        Expr::And(a, b) => Expr::And(Box::new(copiar_expr(a)), Box::new(copiar_expr(b))),
        Expr::Or(a, b) => Expr::Or(Box::new(copiar_expr(a)), Box::new(copiar_expr(b))),
        Expr::Not(a) => Expr::Not(Box::new(copiar_expr(a))),
    }
}

impl Clone for Expr {
    fn clone(&self) -> (r: Self)
        ensures
            r@ == self@,
    {
        copiar_expr(self)
    }
}

} // verus!
