//! Statement tree nodes.

use crate::ast::expr::{Expr, ExprView};
use vstd::prelude::*;

verus! {

/// The three declaration qualifiers.
#[derive(Clone, Copy, Debug, Eq, PartialEq, Structural)]
pub enum VarQualifier {
    Const,
    Let,
    Var,
}

/// A statement: a simple declaration `let a = b;`, a function
/// declaration with parameters and body, a bare call `name(args);`, a
/// `return`, or a class declaration with field initializers and methods.
#[derive(Debug, PartialEq)]
pub enum Stmt {
    VardeclSimple { name: String, val: Expr, qual: VarQualifier },
    Funcdecl { name: String, args: Vec<Expr>, body: Vec<Stmt> },
    FunctCallSimple { name: String, args: Vec<Expr> },
    ReturnStmt(Expr),
    ClassDecl { name: String, vars: Vec<Stmt>, fns: Vec<Stmt> },
}

/// The mathematical shape of a statement.
pub enum StmtView {
    VardeclSimple { name: Seq<char>, val: ExprView, qual: VarQualifier },
    Funcdecl { name: Seq<char>, args: Seq<ExprView>, body: Seq<StmtView> },
    FunctCallSimple { name: Seq<char>, args: Seq<ExprView> },
    ReturnStmt(ExprView),
    ClassDecl { name: Seq<char>, vars: Seq<StmtView>, fns: Seq<StmtView> },
}

/// The view of a statement.
pub open spec fn stmt_view(st: Stmt) -> StmtView
    decreases st,
    via stmt_view_dec
{
    match st {
        Stmt::VardeclSimple { name, val, qual } => StmtView::VardeclSimple {
            name: name@,
            val: crate::ast::expr::expr_view(val),
            qual: qual,
        },
        Stmt::Funcdecl { name, args, body } => StmtView::Funcdecl {
            name: name@,
            args: crate::ast::expr::exprs_view(args@),
            body: stmts_view(body@),
        },
        Stmt::FunctCallSimple { name, args } => StmtView::FunctCallSimple {
            name: name@,
            args: crate::ast::expr::exprs_view(args@),
        },
        Stmt::ReturnStmt(e) => StmtView::ReturnStmt(crate::ast::expr::expr_view(e)),
        Stmt::ClassDecl { name, vars, fns } => StmtView::ClassDecl {
            name: name@,
            vars: stmts_view(vars@),
            fns: stmts_view(fns@),
        },
    }
}

#[via_fn]
proof fn stmt_view_dec(st: Stmt) {
    match st {
        Stmt::Funcdecl { name, args, body } => {
            assert(decreases_to!(st => body));
            assert(decreases_to!(body => body@));
        },
        Stmt::ClassDecl { name, vars, fns } => {
            assert(decreases_to!(st => vars));
            assert(decreases_to!(vars => vars@));
            assert(decreases_to!(st => fns));
            assert(decreases_to!(fns => fns@));
        },
        _ => {},
    }
}

/// The views of a sequence of statements.
pub open spec fn stmts_view(v: Seq<Stmt>) -> Seq<StmtView>
    decreases v,
{
    if v.len() == 0 {
        Seq::empty()
    } else {
        stmts_view(v.subrange(0, v.len() - 1)).push(stmt_view(v[v.len() - 1]))
    }
}

/// Element-wise reading of [`stmts_view`].
pub proof fn lemma_stmts_view(v: Seq<Stmt>)
    ensures
        stmts_view(v).len() == v.len(),
        forall|i: int| 0 <= i < v.len() ==> stmts_view(v)[i] == stmt_view(v[i]),
    decreases v.len(),
{
    if v.len() > 0 {
        lemma_stmts_view(v.subrange(0, v.len() - 1));
        assert(forall|i: int|
            0 <= i < v.len() - 1 ==> v.subrange(0, v.len() - 1)[i] == v[i]);
    }
}

impl View for Stmt {
    type V = StmtView;

    open spec fn view(&self) -> StmtView {
        stmt_view(*self)
    }
}

impl DeepView for Stmt {
    type V = StmtView;

    open spec fn deep_view(&self) -> StmtView {
        stmt_view(*self)
    }
}


/// Appending one statement extends the view list by its view.
pub proof fn lemma_stmts_view_push(old_v: Seq<Stmt>, new_v: Seq<Stmt>, x: Stmt)
    requires
        new_v == old_v.push(x),
    ensures
        stmts_view(new_v) == stmts_view(old_v).push(stmt_view(x)),
{
    assert(new_v.subrange(0, new_v.len() - 1) =~= old_v);
}

/// A structural copy of a list of expressions.
pub fn exprs_duplicate(v: &Vec<Expr>) -> (r: Vec<Expr>)
    ensures
        crate::ast::expr::exprs_view(r@) == crate::ast::expr::exprs_view(v@),
{
    let mut out: Vec<Expr> = Vec::new();
    let mut idx: usize = 0;
    while idx < v.len()
        invariant
            idx <= v@.len(),
            out@.len() == idx,
            forall|k: int|
                0 <= k < idx ==> #[trigger] crate::ast::expr::expr_view(out@[k])
                    == crate::ast::expr::expr_view(v@[k]),
        decreases v@.len() - idx,
    {
        let d = v[idx].duplicate();
        out.push(d);
        idx = idx + 1;
    }
    proof {
        crate::ast::expr::lemma_exprs_view(out@);
        crate::ast::expr::lemma_exprs_view(v@);
        assert(crate::ast::expr::exprs_view(out@) =~= crate::ast::expr::exprs_view(v@));
    }
    out
}

/// A structural copy of a list of statements.
pub fn stmts_duplicate(v: &Vec<Stmt>) -> (r: Vec<Stmt>)
    ensures
        stmts_view(r@) == stmts_view(v@),
    decreases v,
{
    let mut out: Vec<Stmt> = Vec::new();
    let mut idx: usize = 0;
    while idx < v.len()
        invariant
            idx <= v@.len(),
            out@.len() == idx,
            forall|k: int| 0 <= k < idx ==> #[trigger] stmt_view(out@[k]) == stmt_view(v@[k]),
        decreases v@.len() - idx,
    {
        proof {
            assert(decreases_to!(*v => v@[idx as int]));
        }
        let d = v[idx].duplicate();
        out.push(d);
        idx = idx + 1;
    }
    proof {
        lemma_stmts_view(out@);
        lemma_stmts_view(v@);
        assert(stmts_view(out@) =~= stmts_view(v@));
    }
    out
}

impl Stmt {
    /// A structural copy of this statement.
    pub fn duplicate(&self) -> (r: Stmt)
        ensures
            r@ == self@,
        decreases self,
    {
        match self {
            Stmt::VardeclSimple { name, val, qual } => Stmt::VardeclSimple {
                name: name.clone(),
                val: val.duplicate(),
                qual: *qual,
            },
            Stmt::Funcdecl { name, args, body } => {
                let a2 = exprs_duplicate(args);
                proof {
                    assert(decreases_to!(*self => self->Funcdecl_body));
                }
                let b2 = stmts_duplicate(body);
                Stmt::Funcdecl { name: name.clone(), args: a2, body: b2 }
            },
            Stmt::FunctCallSimple { name, args } => {
                let a2 = exprs_duplicate(args);
                Stmt::FunctCallSimple { name: name.clone(), args: a2 }
            },
            Stmt::ReturnStmt(e) => Stmt::ReturnStmt(e.duplicate()),
            Stmt::ClassDecl { name, vars, fns } => {
                proof {
                    assert(decreases_to!(*self => self->ClassDecl_vars));
                    assert(decreases_to!(*self => self->ClassDecl_fns));
                }
                let v2 = stmts_duplicate(vars);
                let f2 = stmts_duplicate(fns);
                Stmt::ClassDecl { name: name.clone(), vars: v2, fns: f2 }
            },
        }
    }
}

} // verus!
