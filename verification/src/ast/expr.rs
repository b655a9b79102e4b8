//! Expression tree nodes.

pub mod constants;

use crate::ast::arithmetic::{Arithmetic, ArithView};
use constants::{Const, ConstView};
use vstd::prelude::*;

verus! {

/// An expression: a literal, a variable reference, a postfix arithmetic
/// sequence, a call by bare name, or a construction.
#[derive(Debug, PartialEq)]
pub enum Expr {
    Const(Const),
    Var(String),
    Arith(Vec<Arithmetic>),
    FuncCallSimple { name: String, args: Vec<Box<Expr>> },
    NewConstruct(Box<Expr>),
}

/// The mathematical shape of an expression.
pub enum ExprView {
    Const(ConstView),
    Var(Seq<char>),
    Arith(Seq<ArithView>),
    FuncCallSimple { name: Seq<char>, args: Seq<ExprView> },
    NewConstruct(Box<ExprView>),
}

/// The view of an expression (a free function, so that the mutual
/// recursion with postfix elements has a plain termination measure).
pub open spec fn expr_view(e: Expr) -> ExprView
    decreases e,
    via expr_view_dec
{
    match e {
        Expr::Const(c) => ExprView::Const(c@),
        Expr::Var(n) => ExprView::Var(n@),
        Expr::Arith(v) => ExprView::Arith(ariths_view(v@)),
        Expr::FuncCallSimple { name, args } => ExprView::FuncCallSimple {
            name: name@,
            args: boxed_exprs_view(args@),
        },
        Expr::NewConstruct(e2) => ExprView::NewConstruct(Box::new(expr_view(*e2))),
    }
}

#[via_fn]
proof fn expr_view_dec(e: Expr) {
    match e {
        Expr::Arith(v) => {
            assert(decreases_to!(e => v));
            assert(decreases_to!(v => v@));
        },
        Expr::FuncCallSimple { name, args } => {
            assert(decreases_to!(e => args));
            assert(decreases_to!(args => args@));
        },
        _ => {},
    }
}

/// The view of a postfix element.
pub open spec fn arith_view(a: Arithmetic) -> ArithView
    decreases a,
{
    match a {
        Arithmetic::Node(e) => ArithView::Node(Box::new(expr_view(*e))),
        Arithmetic::Op(op) => ArithView::Op(op),
    }
}

/// The views of a sequence of postfix elements.
pub open spec fn ariths_view(v: Seq<Arithmetic>) -> Seq<ArithView>
    decreases v,
{
    if v.len() == 0 {
        Seq::empty()
    } else {
        ariths_view(v.subrange(0, v.len() - 1)).push(arith_view(v[v.len() - 1]))
    }
}

/// The views of a sequence of boxed expressions.
pub open spec fn boxed_exprs_view(v: Seq<Box<Expr>>) -> Seq<ExprView>
    decreases v,
{
    if v.len() == 0 {
        Seq::empty()
    } else {
        boxed_exprs_view(v.subrange(0, v.len() - 1)).push(expr_view(*v[v.len() - 1]))
    }
}

/// The views of a sequence of expressions.
pub open spec fn exprs_view(v: Seq<Expr>) -> Seq<ExprView>
    decreases v,
{
    if v.len() == 0 {
        Seq::empty()
    } else {
        exprs_view(v.subrange(0, v.len() - 1)).push(expr_view(v[v.len() - 1]))
    }
}

/// Element-wise reading of [`ariths_view`].
pub proof fn lemma_ariths_view(v: Seq<Arithmetic>)
    ensures
        ariths_view(v).len() == v.len(),
        forall|i: int| 0 <= i < v.len() ==> ariths_view(v)[i] == arith_view(v[i]),
    decreases v.len(),
{
    if v.len() > 0 {
        lemma_ariths_view(v.subrange(0, v.len() - 1));
        assert(forall|i: int|
            0 <= i < v.len() - 1 ==> v.subrange(0, v.len() - 1)[i] == v[i]);
    }
}

/// Element-wise reading of [`boxed_exprs_view`].
pub proof fn lemma_boxed_exprs_view(v: Seq<Box<Expr>>)
    ensures
        boxed_exprs_view(v).len() == v.len(),
        forall|i: int| 0 <= i < v.len() ==> boxed_exprs_view(v)[i] == expr_view(*v[i]),
    decreases v.len(),
{
    if v.len() > 0 {
        lemma_boxed_exprs_view(v.subrange(0, v.len() - 1));
        assert(forall|i: int|
            0 <= i < v.len() - 1 ==> v.subrange(0, v.len() - 1)[i] == v[i]);
    }
}

/// Element-wise reading of [`exprs_view`].
pub proof fn lemma_exprs_view(v: Seq<Expr>)
    ensures
        exprs_view(v).len() == v.len(),
        forall|i: int| 0 <= i < v.len() ==> exprs_view(v)[i] == expr_view(v[i]),
    decreases v.len(),
{
    if v.len() > 0 {
        lemma_exprs_view(v.subrange(0, v.len() - 1));
        assert(forall|i: int|
            0 <= i < v.len() - 1 ==> v.subrange(0, v.len() - 1)[i] == v[i]);
    }
}

impl View for Expr {
    type V = ExprView;

    open spec fn view(&self) -> ExprView {
        expr_view(*self)
    }
}

impl DeepView for Expr {
    type V = ExprView;

    open spec fn deep_view(&self) -> ExprView {
        expr_view(*self)
    }
}


/// Appending one element extends the view list by its view.
pub proof fn lemma_ariths_view_push(old_v: Seq<Arithmetic>, new_v: Seq<Arithmetic>, x: Arithmetic)
    requires
        new_v == old_v.push(x),
    ensures
        ariths_view(new_v) == ariths_view(old_v).push(arith_view(x)),
{
    assert(new_v.subrange(0, new_v.len() - 1) =~= old_v);
}

/// Appending two elements extends the view list by their views.
pub proof fn lemma_ariths_view_push2(
    old_v: Seq<Arithmetic>,
    new_v: Seq<Arithmetic>,
    x: Arithmetic,
    y: Arithmetic,
)
    requires
        new_v == old_v.push(x).push(y),
    ensures
        ariths_view(new_v) == ariths_view(old_v) + seq![arith_view(x), arith_view(y)],
{
    lemma_ariths_view_push(old_v, old_v.push(x), x);
    lemma_ariths_view_push(old_v.push(x), new_v, y);
    assert(ariths_view(old_v).push(arith_view(x)).push(arith_view(y)) =~= ariths_view(old_v)
        + seq![arith_view(x), arith_view(y)]);
}

/// Appending one expression extends the view list by its view.
pub proof fn lemma_exprs_view_push(old_v: Seq<Expr>, new_v: Seq<Expr>, x: Expr)
    requires
        new_v == old_v.push(x),
    ensures
        exprs_view(new_v) == exprs_view(old_v).push(expr_view(x)),
{
    assert(new_v.subrange(0, new_v.len() - 1) =~= old_v);
}

impl Expr {
    /// A structural copy of this expression.
    pub fn duplicate(&self) -> (r: Expr)
        ensures
            r@ == self@,
        decreases self,
    {
        match self {
            Expr::Const(c) => Expr::Const(c.duplicate()),
            Expr::Var(n) => Expr::Var(n.clone()),
            Expr::Arith(v) => Expr::Arith(ariths_duplicate(v)),
            Expr::FuncCallSimple { name, args } => Expr::FuncCallSimple {
                name: name.clone(),
                args: boxed_exprs_duplicate(args),
            },
            Expr::NewConstruct(e) => Expr::NewConstruct(Box::new(e.duplicate())),
        }
    }
}

/// A structural copy of a postfix sequence.
fn ariths_duplicate(v: &Vec<Arithmetic>) -> (r: Vec<Arithmetic>)
    ensures
        ariths_view(r@) == ariths_view(v@),
    decreases v,
{
    let mut out: Vec<Arithmetic> = Vec::new();
    let mut idx: usize = 0;
    while idx < v.len()
        invariant
            idx <= v@.len(),
            out@.len() == idx,
            forall|k: int| 0 <= k < idx ==> #[trigger] arith_view(out@[k]) == arith_view(v@[k]),
        decreases v@.len() - idx,
    {
        let d = v[idx].duplicate();
        out.push(d);
        idx = idx + 1;
    }
    proof {
        lemma_ariths_view(out@);
        lemma_ariths_view(v@);
        assert(ariths_view(out@) =~= ariths_view(v@));
    }
    out
}

/// A structural copy of an argument list.
fn boxed_exprs_duplicate(v: &Vec<Box<Expr>>) -> (r: Vec<Box<Expr>>)
    ensures
        boxed_exprs_view(r@) == boxed_exprs_view(v@),
    decreases v,
{
    let mut out: Vec<Box<Expr>> = Vec::new();
    let mut idx: usize = 0;
    while idx < v.len()
        invariant
            idx <= v@.len(),
            out@.len() == idx,
            forall|k: int|
                0 <= k < idx ==> #[trigger] expr_view(*out@[k]) == expr_view(*v@[k]),
        decreases v@.len() - idx,
    {
        let d = v[idx].duplicate();
        out.push(Box::new(d));
        idx = idx + 1;
    }
    proof {
        lemma_boxed_exprs_view(out@);
        lemma_boxed_exprs_view(v@);
        assert(boxed_exprs_view(out@) =~= boxed_exprs_view(v@));
    }
    out
}

} // verus!
