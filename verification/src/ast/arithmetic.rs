//! Elements of a postfix arithmetic sequence.

use crate::ast::expr::{Expr, ExprView};
use crate::token::EOperator;
use vstd::prelude::*;

verus! {

/// One element of a postfix (reverse-Polish) arithmetic sequence:
/// an operand expression or a binary operator.
#[derive(Debug, PartialEq)]
pub enum Arithmetic {
    Node(Box<Expr>),
    Op(EOperator),
}

/// The mathematical shape of a postfix element.
pub enum ArithView {
    Node(Box<ExprView>),
    Op(EOperator),
}

impl View for Arithmetic {
    type V = ArithView;

    open spec fn view(&self) -> ArithView {
        crate::ast::expr::arith_view(*self)
    }
}

impl DeepView for Arithmetic {
    type V = ArithView;

    open spec fn deep_view(&self) -> ArithView {
        crate::ast::expr::arith_view(*self)
    }
}

impl Arithmetic {
    /// A structural copy of this element.
    pub fn duplicate(&self) -> (r: Arithmetic)
        ensures
            r@ == self@,
        decreases self,
    {
        match self {
            Arithmetic::Node(e) => Arithmetic::Node(Box::new(e.duplicate())),
            Arithmetic::Op(op) => Arithmetic::Op(*op),
        }
    }
}

} // verus!
