//! Callable values.

use crate::ast::expr::{exprs_view, Expr, ExprView};
use crate::ast::stmt::{stmts_view, Stmt, StmtView};
use vstd::prelude::*;

verus! {

/// A callable: a host-provided native function, known by name and
/// dispatched by the evaluator, or a user-defined one carrying its
/// parameter expressions and body.
#[derive(Debug, PartialEq)]
pub enum Function {
    Native { name: String },
    Coded { name: String, args: Vec<Expr>, body: Vec<Stmt> },
}

/// The mathematical shape of a callable.
pub enum FunctionView {
    Native { name: Seq<char> },
    Coded { name: Seq<char>, args: Seq<ExprView>, body: Seq<StmtView> },
}

/// The view of a callable.
pub open spec fn function_view(f: Function) -> FunctionView {
    match f {
        Function::Native { name } => FunctionView::Native { name: name@ },
        Function::Coded { name, args, body } => FunctionView::Coded {
            name: name@,
            args: exprs_view(args@),
            body: stmts_view(body@),
        },
    }
}

impl View for Function {
    type V = FunctionView;

    open spec fn view(&self) -> FunctionView {
        function_view(*self)
    }
}

impl Function {
    /// A structural copy of this callable.
    pub fn duplicate(&self) -> (r: Function)
        ensures
            r@ == self@,
    {
        match self {
            Function::Native { name } => Function::Native { name: name.clone() },
            Function::Coded { name, args, body } => Function::Coded {
                name: name.clone(),
                args: crate::ast::stmt::exprs_duplicate(args),
                body: crate::ast::stmt::stmts_duplicate(body),
            },
        }
    }
}

} // verus!
