//! The structural parser: token slices to expression and statement trees.
//!
//! Both builders scan a token slice left to right and carve out nested
//! ranges with bracket-depth counters, recursing into the ranges.  Their
//! results are pinned to recursive specification functions over token
//! views; parse failures that the language defines as fatal (a missing
//! `(` after `function`, an unclosed block, a multi-name assignment) are
//! returned as [`ParseError`] values.

pub mod arithmetic;
pub mod expr;
pub mod stmt;

use crate::ast::arithmetic::{Arithmetic, ArithView};
use crate::ast::expr::constants::{Const, ConstView};
use crate::ast::expr::{
    ariths_view, boxed_exprs_view, expr_view, exprs_view, lemma_ariths_view, lemma_boxed_exprs_view,
    lemma_exprs_view, Expr, ExprView,
};
use crate::ast::stmt::{stmt_view, stmts_view, Stmt, StmtView, VarQualifier};
use crate::token::{str_is, EOperator, Token, TokenView};
use vstd::prelude::*;
use vstd::slice::slice_index_get;
use vstd::slice::slice_subrange;

verus! {

/// A fatal parse failure, with the token position that raised it.
#[derive(Clone, Copy, Debug, Eq, PartialEq, Structural)]
pub enum ParseError {
    ExpectedIdentifier(usize),
    ExpectedEquals(usize),
    ExpectedLParen(usize),
    ExpectedLBrace(usize),
    MissingSemicolon(usize),
    UnclosedDelimiter(usize),
    UnsupportedAssignment(usize),
}

/// The views of a token sequence.
pub open spec fn views_of(s: Seq<Token>) -> Seq<TokenView> {
    Seq::new(s.len(), |i: int| s[i]@)
}

pub proof fn lemma_views_of_subrange(s: Seq<Token>, a: int, b: int)
    requires
        0 <= a <= b <= s.len(),
    ensures
        views_of(s.subrange(a, b)) == views_of(s).subrange(a, b),
{
    assert(views_of(s.subrange(a, b)) =~= views_of(s).subrange(a, b));
}

/// Tokens remaining after position `j`, clamped at zero.
pub open spec fn rem(len: nat, j: nat) -> nat {
    if j <= len {
        (len - j) as nat
    } else {
        0
    }
}

/// Clamp a parse position so that it advances and stays in the range;
/// the parse always advances, so this changes nothing.
pub open spec fn padv(toks: Seq<TokenView>, i: nat, j: nat) -> nat {
    if i < j <= toks.len() {
        j
    } else {
        i + 1
    }
}

pub open spec fn is_arith(op: EOperator) -> bool {
    op == EOperator::Plus || op == EOperator::Minus || op == EOperator::Multiply || op
        == EOperator::Divide
}

pub open spec fn is_open_tok(t: TokenView) -> bool {
    t == TokenView::Operator(EOperator::LParen) || t == TokenView::Operator(EOperator::LBrace)
        || t == TokenView::Operator(EOperator::LBracket)
}

pub open spec fn is_close_tok(t: TokenView) -> bool {
    t == TokenView::Operator(EOperator::RParen) || t == TokenView::Operator(EOperator::RBrace)
        || t == TokenView::Operator(EOperator::RBracket)
}

/// Binding strength: products and quotients bind tighter than sums.
pub open spec fn prec(op: EOperator) -> int {
    if op == EOperator::Multiply || op == EOperator::Divide {
        20
    } else if op == EOperator::Plus || op == EOperator::Minus {
        10
    } else {
        0
    }
}

/// The expression of a proper sub-range of the tokens (the guard only
/// rules out ranges no caller produces, and makes termination plain).
pub open spec fn sub_expr(toks: Seq<TokenView>, a: nat, b: nat) -> ExprView
    decreases toks.len(), 0nat, 0nat,
{
    if 1 <= a && a <= b && b <= toks.len() && b - a < toks.len() {
        spec_expr_gen(toks.subrange(a as int, b as int))
    } else {
        ExprView::Const(ConstView::Undef)
    }
}

/// Collect the infix arithmetic sequence from position `j`: operands are
/// split at top-level `+ - * /`, with bracket depth tracked over all
/// three bracket kinds, and each operand parsed as an expression.
pub open spec fn collect_infix(toks: Seq<TokenView>, j: nat, last: nat, gb: int) -> Seq<ArithView>
    decreases toks.len(), rem(toks.len(), j), 1nat,
{
    if j >= toks.len() {
        seq![ArithView::Node(Box::new(sub_expr(toks, last, toks.len())))]
    } else {
        let t = toks[j as int];
        if t matches TokenView::Operator(op) && is_arith(op) && gb == 0 {
            seq![
                ArithView::Node(Box::new(sub_expr(toks, last, j))),
                ArithView::Op(arith_op_at(toks, j)),
            ] + collect_infix(toks, j + 1, j + 1, gb)
        } else if is_open_tok(t) {
            collect_infix(toks, j + 1, last, gb + 1)
        } else if is_close_tok(t) {
            collect_infix(toks, j + 1, last, gb - 1)
        } else {
            collect_infix(toks, j + 1, last, gb)
        }
    }
}

/// The operator stored at a position known to hold one.
pub open spec fn arith_op_at(toks: Seq<TokenView>, j: nat) -> EOperator {
    match toks[j as int] {
        TokenView::Operator(op) => op,
        _ => EOperator::Plus,
    }
}

/// Emit the remaining operator stack, in pop order.
pub open spec fn pop_all(stack: Seq<EOperator>) -> Seq<ArithView>
    decreases stack.len(),
{
    if stack.len() == 0 {
        Seq::empty()
    } else {
        seq![ArithView::Op(stack.last())] + pop_all(stack.drop_last())
    }
}

/// Infix to postfix by operator precedence: an incoming operator first
/// emits every stacked operator of greater or equal strength (the
/// left-associative tie-break), and operands pass straight through.
pub open spec fn shunt(v: Seq<ArithView>, i: nat, stack: Seq<EOperator>, out: Seq<ArithView>) -> Seq<
    ArithView,
>
    decreases v.len() - i, stack.len(),
{
    if i >= v.len() {
        out + pop_all(stack)
    } else {
        match v[i as int] {
            ArithView::Node(n) => shunt(v, i + 1, stack, out.push(ArithView::Node(n))),
            ArithView::Op(o) => {
                if stack.len() > 0 && prec(stack.last()) >= prec(o) {
                    shunt(v, i, stack.drop_last(), out.push(ArithView::Op(stack.last())))
                } else {
                    shunt(v, i + 1, stack.push(o), out)
                }
            },
        }
    }
}

/// Argument expressions of a call: the range up to the matching `)` at
/// depth zero, split at top-level commas; an empty final segment (as in
/// `f()`) contributes no argument.
pub open spec fn call_args(toks: Seq<TokenView>, j: nat, last: nat, gb: int) -> Seq<ExprView>
    decreases toks.len(), rem(toks.len(), j), 1nat,
{
    if j >= toks.len() {
        Seq::empty()
    } else {
        let t = toks[j as int];
        if is_open_tok(t) {
            call_args(toks, j + 1, last, gb + 1)
        } else if t == TokenView::Operator(EOperator::RBrace) || t == TokenView::Operator(
            EOperator::RBracket,
        ) {
            call_args(toks, j + 1, last, gb - 1)
        } else if t == TokenView::Operator(EOperator::RParen) {
            if gb == 0 {
                if j != last {
                    seq![sub_expr(toks, last, j)]
                } else {
                    Seq::empty()
                }
            } else {
                call_args(toks, j + 1, last, gb - 1)
            }
        } else if t == TokenView::Operator(EOperator::Comma) && gb == 0 {
            seq![sub_expr(toks, last, j)] + call_args(toks, j + 1, j + 1, gb)
        } else {
            call_args(toks, j + 1, last, gb)
        }
    }
}

/// Position of the `)` that closes a call's argument range, or the
/// token count when it never closes.
pub open spec fn call_end(toks: Seq<TokenView>, j: nat, gb: int) -> nat
    decreases toks.len(), rem(toks.len(), j), 0nat,
{
    if j >= toks.len() {
        toks.len()
    } else {
        let t = toks[j as int];
        if is_open_tok(t) {
            call_end(toks, j + 1, gb + 1)
        } else if t == TokenView::Operator(EOperator::RBrace) || t == TokenView::Operator(
            EOperator::RBracket,
        ) {
            call_end(toks, j + 1, gb - 1)
        } else if t == TokenView::Operator(EOperator::RParen) {
            if gb == 0 {
                j
            } else {
                call_end(toks, j + 1, gb - 1)
            }
        } else {
            call_end(toks, j + 1, gb)
        }
    }
}

proof fn lemma_call_end_bounds(toks: Seq<TokenView>, j: nat, gb: int)
    requires
        j <= toks.len(),
    ensures
        j <= call_end(toks, j, gb) <= toks.len(),
    decreases toks.len() - j,
{
    if j < toks.len() {
        lemma_call_end_bounds(toks, j + 1, gb + 1);
        lemma_call_end_bounds(toks, j + 1, gb - 1);
        lemma_call_end_bounds(toks, j + 1, gb);
    }
}

/// One scan step of the expression builder: the current result is
/// replaced by literals and names, an arithmetic operator switches to
/// postfix collection of the rest of the range, `(` after a name
/// becomes a call, and `new` wraps the rest as a construction.
pub open spec fn spec_expr_from(toks: Seq<TokenView>, i: nat, res: ExprView) -> ExprView
    decreases toks.len(), rem(toks.len(), i), 2nat,
{
    if i >= toks.len() {
        res
    } else {
        let t = toks[i as int];
        match t {
            TokenView::Identifier(id) => spec_expr_from(toks, i + 1, ExprView::Var(id)),
            TokenView::Integer(v) => spec_expr_from(
                toks,
                i + 1,
                ExprView::Const(ConstView::Integer(v)),
            ),
            TokenView::Float(d) => spec_expr_from(toks, i + 1, ExprView::Const(ConstView::Float(d))),
            TokenView::Str { v, is_raw, is_fmt } => spec_expr_from(
                toks,
                i + 1,
                ExprView::Const(ConstView::Str { v, is_raw, is_fmt }),
            ),
            TokenView::Bool(b) => spec_expr_from(toks, i + 1, ExprView::Const(ConstView::Bool(b))),
            TokenView::Operator(op) => {
                if is_arith(op) {
                    let infix = seq![ArithView::Node(Box::new(res)), ArithView::Op(op)]
                        + collect_infix(toks, i + 1, i + 1, 0);
                    ExprView::Arith(shunt(infix, 0, Seq::empty(), Seq::empty()))
                } else if op == EOperator::LParen && res matches ExprView::Var(name) {
                    let e = call_end(toks, i + 1, 0);
                    let nxt = if e + 1 <= toks.len() {
                        e + 1
                    } else {
                        toks.len()
                    };
                    spec_expr_from(
                        toks,
                        padv(toks, i, nxt),
                        ExprView::FuncCallSimple {
                            name: res->Var_0,
                            args: call_args(toks, i + 1, i + 1, 0),
                        },
                    )
                } else {
                    spec_expr_from(toks, i + 1, res)
                }
            },
            TokenView::Keyword(k) => {
                if k == "new"@ {
                    ExprView::NewConstruct(
                        Box::new(sub_expr_new(toks, i + 1)),
                    )
                } else {
                    spec_expr_from(toks, i + 1, res)
                }
            },
            _ => spec_expr_from(toks, i + 1, res),
        }
    }
}

/// The rest of the range after `new`, parsed as an expression.
pub open spec fn sub_expr_new(toks: Seq<TokenView>, a: nat) -> ExprView
    decreases toks.len(), 0nat, 1nat,
{
    if 1 <= a && a <= toks.len() {
        spec_expr_gen(toks.subrange(a as int, toks.len() as int))
    } else {
        ExprView::Const(ConstView::Undef)
    }
}

/// The expression of a whole token range.
pub open spec fn spec_expr_gen(toks: Seq<TokenView>) -> ExprView
    decreases toks.len(), rem(toks.len(), 0), 3nat,
{
    spec_expr_from(toks, 0, ExprView::Const(ConstView::Undef))
}


/// Smaller of a position and the range length.
pub open spec fn nmin(len: nat, j: nat) -> nat {
    if j <= len {
        j
    } else {
        len
    }
}

/// First `;` at or after `j`, or the token count.
pub open spec fn semi_simple(toks: Seq<TokenView>, j: nat) -> nat
    decreases toks.len(), rem(toks.len(), j), 0nat,
{
    if j >= toks.len() {
        toks.len()
    } else if toks[j as int] == TokenView::Operator(EOperator::Semicolon) {
        j
    } else {
        semi_simple(toks, j + 1)
    }
}

/// First `;` at bracket depth zero at or after `j`, or the token count.
pub open spec fn semi_depth(toks: Seq<TokenView>, j: nat, gb: int) -> nat
    decreases toks.len(), rem(toks.len(), j), 0nat,
{
    if j >= toks.len() {
        toks.len()
    } else {
        let t = toks[j as int];
        if t == TokenView::Operator(EOperator::Semicolon) && gb == 0 {
            j
        } else if is_open_tok(t) {
            semi_depth(toks, j + 1, gb + 1)
        } else if is_close_tok(t) {
            semi_depth(toks, j + 1, gb - 1)
        } else {
            semi_depth(toks, j + 1, gb)
        }
    }
}

/// The `;` scan of a class field initializer: the depth count leaves
/// `}` out (kept as the statement builder has always behaved).
pub open spec fn class_semi(toks: Seq<TokenView>, j: nat, gb: int) -> nat
    decreases toks.len(), rem(toks.len(), j), 0nat,
{
    if j >= toks.len() {
        toks.len()
    } else {
        let t = toks[j as int];
        if t == TokenView::Operator(EOperator::Semicolon) && gb == 0 {
            j
        } else if is_open_tok(t) {
            class_semi(toks, j + 1, gb + 1)
        } else if t == TokenView::Operator(EOperator::RParen) || t == TokenView::Operator(
            EOperator::RBracket,
        ) {
            class_semi(toks, j + 1, gb - 1)
        } else {
            class_semi(toks, j + 1, gb)
        }
    }
}

/// Position of the `}` that closes a block at depth zero, or the token
/// count when it never closes.
pub open spec fn block_end(toks: Seq<TokenView>, j: nat, gb: int) -> nat
    decreases toks.len(), rem(toks.len(), j), 0nat,
{
    if j >= toks.len() {
        toks.len()
    } else {
        let t = toks[j as int];
        if is_open_tok(t) {
            block_end(toks, j + 1, gb + 1)
        } else if t == TokenView::Operator(EOperator::RBrace) {
            if gb == 0 {
                j
            } else {
                block_end(toks, j + 1, gb - 1)
            }
        } else if t == TokenView::Operator(EOperator::RParen) || t == TokenView::Operator(
            EOperator::RBracket,
        ) {
            block_end(toks, j + 1, gb - 1)
        } else {
            block_end(toks, j + 1, gb)
        }
    }
}

/// First position at or after `j` that is not a newline token.
pub open spec fn skip_nl(toks: Seq<TokenView>, j: nat) -> nat
    decreases toks.len(), rem(toks.len(), j), 0nat,
{
    if j >= toks.len() {
        toks.len()
    } else if toks[j as int] == TokenView::Newline {
        skip_nl(toks, j + 1)
    } else {
        j
    }
}

/// Number of tokens (newlines left out) between position `j` and the
/// previous statement boundary — a depth-zero `;` or a block-closing
/// depth-zero `}` — scanning backward.
pub open spec fn back_count(toks: Seq<TokenView>, j: int, gb: int) -> nat
    decreases j + 1,
{
    if j < 0 || j >= toks.len() {
        0
    } else {
        let t = toks[j];
        if (t == TokenView::Operator(EOperator::Semicolon) || t == TokenView::Operator(
            EOperator::RBrace,
        )) && gb == 0 {
            0
        } else if t == TokenView::Newline {
            back_count(toks, j - 1, gb)
        } else if is_open_tok(t) {
            1 + back_count(toks, j - 1, gb + 1)
        } else if is_close_tok(t) {
            1 + back_count(toks, j - 1, gb - 1)
        } else {
            1 + back_count(toks, j - 1, gb)
        }
    }
}

/// Index of the first token below `j` that is not a newline.
pub open spec fn back_single_idx(toks: Seq<TokenView>, j: int) -> int
    decreases j + 1,
{
    if j < 0 || j >= toks.len() {
        -1
    } else if toks[j] == TokenView::Newline {
        back_single_idx(toks, j - 1)
    } else {
        j
    }
}

/// Prepend one statement to a parse result.
pub open spec fn cons_stmt(st: StmtView, r: Result<Seq<StmtView>, ParseError>) -> Result<
    Seq<StmtView>,
    ParseError,
> {
    match r {
        Ok(v) => Ok(seq![st] + v),
        Err(e) => Err(e),
    }
}

/// Statements already taken, joined with the parse of the rest.
pub open spec fn stmts_join(pre: Seq<StmtView>, r: Result<Seq<StmtView>, ParseError>) -> Result<
    Seq<StmtView>,
    ParseError,
> {
    match r {
        Ok(v) => Ok(pre + v),
        Err(e) => Err(e),
    }
}

/// The statements of a proper sub-range of the tokens (the guard only
/// rules out ranges no caller produces, and makes termination plain).
pub open spec fn sub_stmts(toks: Seq<TokenView>, a: nat, b: nat) -> Result<
    Seq<StmtView>,
    ParseError,
>
    decreases toks.len(), 0nat, 0nat,
{
    if 1 <= a && a <= b && b <= toks.len() && b - a < toks.len() {
        spec_stmt_gen(toks.subrange(a as int, b as int))
    } else {
        Ok(Seq::empty())
    }
}

/// The declaration qualifier of a keyword.
pub open spec fn qual_of(kw: Seq<char>) -> VarQualifier {
    if kw == "const"@ {
        VarQualifier::Const
    } else if kw == "var"@ {
        VarQualifier::Var
    } else {
        VarQualifier::Let
    }
}

/// The members of a class body from position `j`: each `name ( … ) { … }`
/// at depth zero is a method, each `name = …;` at depth zero a field
/// initializer, and the depth-zero `}` ends the class.
pub open spec fn class_stmt(toks: Seq<TokenView>, j: nat, gb: int, name: Seq<char>) -> Result<
    StmtView,
    ParseError,
>
    decreases toks.len(), rem(toks.len(), j), 1nat,
{
    if j >= toks.len() {
        Err(ParseError::UnclosedDelimiter(j as usize))
    } else {
        let t = toks[j as int];
        if t == TokenView::Operator(EOperator::LBrace) || t == TokenView::Operator(
            EOperator::LBracket,
        ) {
            class_stmt(toks, j + 1, gb + 1, name)
        } else if t == TokenView::Operator(EOperator::RBrace) {
            if gb == 0 {
                Ok(StmtView::ClassDecl { name, vars: Seq::empty(), fns: Seq::empty() })
            } else {
                class_stmt(toks, j + 1, gb - 1, name)
            }
        } else if t == TokenView::Operator(EOperator::RParen) || t == TokenView::Operator(
            EOperator::RBracket,
        ) {
            class_stmt(toks, j + 1, gb - 1, name)
        } else if t == TokenView::Operator(EOperator::LParen) && gb == 0 {
            if j >= 1 && toks[j - 1] matches TokenView::Identifier(fname) {
                let rp = call_end(toks, j + 1, 0);
                if rp >= toks.len() {
                    Err(ParseError::UnclosedDelimiter(j as usize))
                } else {
                    let args = call_args(toks, j + 1, j + 1, 0);
                    let last = rp + 1;
                    let be = block_end(toks, nmin(toks.len(), last + 1), 0);
                    if be >= toks.len() {
                        Err(ParseError::UnclosedDelimiter(j as usize))
                    } else {
                        match sub_stmts(toks, nmin(toks.len(), last + 1), be) {
                            Err(e) => Err(e),
                            Ok(body) => match class_stmt(toks, padv(toks, j, be + 1), gb, name) {
                                Err(e) => Err(e),
                                Ok(rest) => match rest {
                                    StmtView::ClassDecl { name: n2, vars: v2, fns: f2 } => Ok(
                                        StmtView::ClassDecl {
                                            name: n2,
                                            vars: v2,
                                            fns: seq![
                                                StmtView::Funcdecl {
                                                    name: toks[j - 1]->Identifier_0,
                                                    args,
                                                    body,
                                                },
                                            ] + f2,
                                        },
                                    ),
                                    _ => Ok(rest),
                                },
                            },
                        }
                    }
                }
            } else {
                class_stmt(toks, j + 1, gb - 1, name)
            }
        } else if t == TokenView::Operator(EOperator::Eq) && gb == 0 {
            if j >= 1 && toks[j - 1] matches TokenView::Identifier(vname) {
                let s = class_semi(toks, j + 1, 0);
                let st = StmtView::VardeclSimple {
                    name: toks[j - 1]->Identifier_0,
                    val: sub_expr(toks, j + 1, nmin(toks.len(), s)),
                    qual: VarQualifier::Let,
                };
                match class_stmt(toks, padv(toks, j, nmin(toks.len(), s + 1)), gb, name) {
                    Err(e) => Err(e),
                    Ok(rest) => match rest {
                        StmtView::ClassDecl { name: n2, vars: v2, fns: f2 } => Ok(
                            StmtView::ClassDecl { name: n2, vars: seq![st] + v2, fns: f2 },
                        ),
                        _ => Ok(rest),
                    },
                }
            } else {
                Err(ParseError::UnsupportedAssignment(j as usize))
            }
        } else {
            class_stmt(toks, j + 1, gb, name)
        }
    }
}

/// The position of the `}` that ends a class body whose members begin
/// at `j`, moving exactly as the member scan does.
pub open spec fn class_end(toks: Seq<TokenView>, j: nat, gb: int) -> nat
    decreases toks.len(), rem(toks.len(), j), 0nat,
{
    if j >= toks.len() {
        toks.len()
    } else {
        let t = toks[j as int];
        if t == TokenView::Operator(EOperator::LBrace) || t == TokenView::Operator(
            EOperator::LBracket,
        ) {
            class_end(toks, j + 1, gb + 1)
        } else if t == TokenView::Operator(EOperator::RBrace) {
            if gb == 0 {
                j
            } else {
                class_end(toks, j + 1, gb - 1)
            }
        } else if t == TokenView::Operator(EOperator::RParen) || t == TokenView::Operator(
            EOperator::RBracket,
        ) {
            class_end(toks, j + 1, gb - 1)
        } else if t == TokenView::Operator(EOperator::LParen) && gb == 0 {
            if j >= 1 && toks[j - 1] matches TokenView::Identifier(fname) {
                let rp = call_end(toks, j + 1, 0);
                if rp >= toks.len() {
                    toks.len()
                } else {
                    let be = block_end(toks, nmin(toks.len(), rp + 2), 0);
                    if be >= toks.len() {
                        toks.len()
                    } else {
                        class_end(toks, padv(toks, j, be + 1), gb)
                    }
                }
            } else {
                class_end(toks, j + 1, gb - 1)
            }
        } else if t == TokenView::Operator(EOperator::Eq) && gb == 0 {
            if j >= 1 && toks[j - 1] matches TokenView::Identifier(vname) {
                let s = class_semi(toks, j + 1, 0);
                class_end(toks, padv(toks, j, nmin(toks.len(), s + 1)), gb)
            } else {
                toks.len()
            }
        } else {
            class_end(toks, j + 1, gb)
        }
    }
}

/// One scan step of the statement builder at position `i`.
pub open spec fn spec_stmts_from(toks: Seq<TokenView>, i: nat) -> Result<Seq<StmtView>, ParseError>
    decreases toks.len(), rem(toks.len(), i), 2nat,
{
    let len = toks.len();
    if i >= len {
        Ok(Seq::empty())
    } else {
        let t = toks[i as int];
        match t {
            TokenView::Keyword(kw) => {
                if kw == "let"@ || kw == "var"@ || kw == "const"@ {
                    if i + 1 < len && toks[i + 1 as int] matches TokenView::Identifier(id) {
                        if i + 2 < len && toks[i + 2 as int] == TokenView::Operator(EOperator::Eq) {
                            let j = semi_simple(toks, i + 3);
                            let st = StmtView::VardeclSimple {
                                name: toks[i + 1 as int]->Identifier_0,
                                val: sub_expr(toks, i + 3, j),
                                qual: qual_of(kw),
                            };
                            cons_stmt(st, spec_stmts_from(toks, padv(toks, i, nmin(len, j + 1))))
                        } else {
                            Err(ParseError::ExpectedEquals((i + 2) as usize))
                        }
                    } else {
                        spec_stmts_from(toks, i + 1)
                    }
                } else if kw == "function"@ {
                    if i + 1 >= len {
                        Err(ParseError::ExpectedIdentifier((i + 1) as usize))
                    } else if i + 2 >= len || toks[i + 2 as int] != TokenView::Operator(
                        EOperator::LParen,
                    ) {
                        Err(ParseError::ExpectedLParen((i + 2) as usize))
                    } else if !(toks[i + 1 as int] matches TokenView::Identifier(nm)) {
                        Err(ParseError::ExpectedIdentifier((i + 1) as usize))
                    } else {
                        let rp = call_end(toks, i + 3, 0);
                        if rp >= len {
                            Err(ParseError::UnclosedDelimiter((i + 2) as usize))
                        } else {
                            let args = call_args(toks, i + 3, i + 3, 0);
                            let last = rp + 1;
                            let be = block_end(toks, nmin(len, last + 1), 0);
                            if be >= len {
                                Err(ParseError::UnclosedDelimiter(i as usize))
                            } else {
                                match sub_stmts(toks, last, be) {
                                    Err(e) => Err(e),
                                    Ok(body) => cons_stmt(
                                        StmtView::Funcdecl {
                                            name: toks[i + 1 as int]->Identifier_0,
                                            args,
                                            body,
                                        },
                                        spec_stmts_from(toks, padv(toks, i, be)),
                                    ),
                                }
                            }
                        }
                    }
                } else if kw == "return"@ {
                    let e = semi_depth(toks, i + 1, 0);
                    if e >= len {
                        Err(ParseError::MissingSemicolon(i as usize))
                    } else {
                        cons_stmt(
                            StmtView::ReturnStmt(sub_expr(toks, i + 1, e)),
                            spec_stmts_from(toks, padv(toks, i, e + 1)),
                        )
                    }
                } else if kw == "class"@ {
                    if i + 1 >= len || !(toks[i + 1 as int] matches TokenView::Identifier(nm)) {
                        Err(ParseError::ExpectedIdentifier((i + 1) as usize))
                    } else {
                        let bst = skip_nl(toks, i + 2);
                        if bst >= len || toks[bst as int] != TokenView::Operator(EOperator::LBrace) {
                            Err(ParseError::ExpectedLBrace(bst as usize))
                        } else {
                            match class_stmt(
                                toks,
                                padv(toks, i, bst + 1),
                                0,
                                toks[i + 1 as int]->Identifier_0,
                            ) {
                                Err(e) => Err(e),
                                Ok(st) => {
                                    let ce = class_end(toks, padv(toks, i, bst + 1), 0);
                                    cons_stmt(
                                        st,
                                        spec_stmts_from(toks, padv(toks, i, nmin(len, ce + 1))),
                                    )
                                },
                            }
                        }
                    }
                } else {
                    spec_stmts_from(toks, i + 1)
                }
            },
            TokenView::Operator(op) => {
                if op == EOperator::LParen {
                    if i >= 1 && toks[i - 1] matches TokenView::Identifier(fname) {
                        let args = call_args(toks, i + 1, i + 1, 0);
                        let e = call_end(toks, i + 1, 0);
                        let e2 = if e >= len {
                            i
                        } else {
                            e
                        };
                        let s = semi_simple(toks, e2 + 1);
                        let nxt = (if s < len {
                            s
                        } else {
                            e2
                        }) + 1;
                        cons_stmt(
                            StmtView::FunctCallSimple { name: toks[i - 1]->Identifier_0, args },
                            spec_stmts_from(toks, padv(toks, i, nmin(len, nxt))),
                        )
                    } else {
                        spec_stmts_from(toks, i + 1)
                    }
                } else if op == EOperator::Eq {
                    if i == 0 {
                        Err(ParseError::UnsupportedAssignment(0))
                    } else if back_count(toks, i - 1, 0) == 1 {
                        let si = back_single_idx(toks, i - 1);
                        let nm = if 0 <= si && toks[si] matches TokenView::Identifier(id) {
                            toks[si]->Identifier_0
                        } else {
                            "undefined"@
                        };
                        let s = semi_depth(toks, i + 1, 0);
                        if s >= len {
                            Err(ParseError::MissingSemicolon(i as usize))
                        } else {
                            cons_stmt(
                                StmtView::VardeclSimple {
                                    name: nm,
                                    val: sub_expr(toks, i + 1, s),
                                    qual: VarQualifier::Let,
                                },
                                spec_stmts_from(toks, padv(toks, i, s + 1)),
                            )
                        }
                    } else {
                        Err(ParseError::UnsupportedAssignment(i as usize))
                    }
                } else {
                    spec_stmts_from(toks, i + 1)
                }
            },
            _ => spec_stmts_from(toks, i + 1),
        }
    }
}

/// The statement sequence of a whole token range.
pub open spec fn spec_stmt_gen(toks: Seq<TokenView>) -> Result<Seq<StmtView>, ParseError>
    decreases toks.len(), rem(toks.len(), 0), 3nat,
{
    spec_stmts_from(toks, 0)
}

fn prec_exec(op: EOperator) -> (r: i32)
    ensures
        r == prec(op),
{
    if op == EOperator::Multiply || op == EOperator::Divide {
        20
    } else if op == EOperator::Plus || op == EOperator::Minus {
        10
    } else {
        0
    }
}

fn is_arith_exec(op: EOperator) -> (b: bool)
    ensures
        b == is_arith(op),
{
    op == EOperator::Plus || op == EOperator::Minus || op == EOperator::Multiply || op
        == EOperator::Divide
}

fn is_open_exec(t: &Token) -> (b: bool)
    ensures
        b == is_open_tok(t@),
{
    match t {
        Token::Operator(op) => *op == EOperator::LParen || *op == EOperator::LBrace || *op
            == EOperator::LBracket,
        _ => false,
    }
}

fn is_close_exec(t: &Token) -> (b: bool)
    ensures
        b == is_close_tok(t@),
{
    match t {
        Token::Operator(op) => *op == EOperator::RParen || *op == EOperator::RBrace || *op
            == EOperator::RBracket,
        _ => false,
    }
}

/// Append the infix arithmetic elements collected from `j0` to the end
/// of the token range.
fn collect_infix_exec(toks: &[Token], j0: usize, out: &mut Vec<Arithmetic>)
    requires
        1 <= j0 <= toks@.len(),
    ensures
        ariths_view(final(out)@) == ariths_view(old(out)@) + collect_infix(
            views_of(toks@),
            j0 as nat,
            j0 as nat,
            0,
        ),
    decreases toks@.len(), 0nat, 0nat,
{
    let ghost tv = views_of(toks@);
    proof {
        assert(tv.len() == toks@.len());
    }
    let ghost base = ariths_view(out@);
    let n = toks.len();
    let mut j = j0;
    let mut last = j0;
    let mut gb: i128 = 0;
    while j < n
        invariant
            n == toks@.len(),
            tv == views_of(toks@),
            tv.len() == n,
            1 <= j0 <= last <= j <= n,
            -(j as int) <= gb <= j as int,
            ariths_view(out@) + collect_infix(tv, j as nat, last as nat, gb as int) == base
                + collect_infix(tv, j0 as nat, j0 as nat, 0),
        decreases n - j,
    {
        let t = slice_index_get(toks, j);
        proof {
            assert(tv[j as int] == t@);
        }
        let mut handled = false;
        match t {
            Token::Operator(op) => {
                if is_arith_exec(*op) && gb == 0 {
                    let sub = slice_subrange(toks, last, j);
                    proof {
                        lemma_views_of_subrange(toks@, last as int, j as int);
                        assert(views_of(sub@) == tv.subrange(last as int, j as int));
                    }
                    let e = expr_gen(sub);
                    let ghost bv = out@;
                    let ghost ev = expr_view(e);
                    proof {
                        assert(ev == sub_expr(tv, last as nat, j as nat));
                        assert(arith_op_at(tv, j as nat) == *op);
                        assert(collect_infix(tv, j as nat, last as nat, gb as int) == seq![
                            ArithView::Node(Box::new(sub_expr(tv, last as nat, j as nat))),
                            ArithView::Op(arith_op_at(tv, j as nat)),
                        ] + collect_infix(tv, (j + 1) as nat, (j + 1) as nat, gb as int));
                    }
                    let node = Arithmetic::Node(Box::new(e));
                    let ghost gx = node;
                    out.push(node);
                    let opv = Arithmetic::Op(*op);
                    let ghost gy = opv;
                    out.push(opv);
                    proof {
                        crate::ast::expr::lemma_ariths_view_push2(bv, out@, gx, gy);
                        assert((ariths_view(bv) + seq![
                            ArithView::Node(Box::new(ev)),
                            ArithView::Op(*op),
                        ]) + collect_infix(tv, (j + 1) as nat, (j + 1) as nat, gb as int)
                            =~= ariths_view(bv) + (seq![
                            ArithView::Node(Box::new(ev)),
                            ArithView::Op(*op),
                        ] + collect_infix(tv, (j + 1) as nat, (j + 1) as nat, gb as int)));
                    }
                    last = j + 1;
                    handled = true;
                }
            },
            _ => {},
        }
        if !handled {
            if is_open_exec(t) {
                gb = gb + 1;
            } else if is_close_exec(t) {
                gb = gb - 1;
            }
        }
        j = j + 1;
    }
    let sub = slice_subrange(toks, last, n);
    proof {
        lemma_views_of_subrange(toks@, last as int, n as int);
        assert(views_of(sub@) == tv.subrange(last as int, n as int));
    }
    let e = expr_gen(sub);
    let ghost bv = out@;
    let ghost ev = expr_view(e);
    proof {
        assert(ev == sub_expr(tv, last as nat, n as nat));
        assert(collect_infix(tv, n as nat, last as nat, gb as int) == seq![
            ArithView::Node(Box::new(sub_expr(tv, last as nat, n as nat))),
        ]);
    }
    let node = Arithmetic::Node(Box::new(e));
    let ghost gx = node;
    out.push(node);
    proof {
        crate::ast::expr::lemma_ariths_view_push(bv, out@, gx);
        assert(ariths_view(bv).push(ArithView::Node(Box::new(ev))) =~= ariths_view(bv) + seq![
            ArithView::Node(Box::new(ev)),
        ]);
    }
}

/// Convert infix to postfix with an operator stack.
fn shunt_exec(v: Vec<Arithmetic>) -> (r: Vec<Arithmetic>)
    ensures
        ariths_view(r@) == shunt(ariths_view(v@), 0, Seq::empty(), Seq::empty()),
{
    let ghost vv = ariths_view(v@);
    proof {
        lemma_ariths_view(v@);
    }
    let n = v.len();
    let mut out: Vec<Arithmetic> = Vec::new();
    let mut stack: Vec<EOperator> = Vec::new();
    let mut i: usize = 0;
    while i < n
        invariant
            n == v@.len(),
            vv == ariths_view(v@),
            vv.len() == n,
            forall|k: int| 0 <= k < n ==> vv[k] == crate::ast::expr::arith_view(v@[k]),
            i <= n,
            shunt(vv, i as nat, stack@, ariths_view(out@)) == shunt(
                vv,
                0,
                Seq::empty(),
                Seq::empty(),
            ),
        decreases n - i,
    {
        match &v[i] {
            Arithmetic::Node(e) => {
                let ghost bv = out@;
                let node = Arithmetic::Node(Box::new(e.duplicate()));
                let ghost gx = node;
                out.push(node);
                proof {
                    crate::ast::expr::lemma_ariths_view_push(bv, out@, gx);
                }
                i = i + 1;
            },
            Arithmetic::Op(o) => {
                while stack.len() > 0 && prec_exec(stack[stack.len() - 1]) >= prec_exec(*o)
                    invariant
                        n == v@.len(),
                        vv == ariths_view(v@),
                        vv.len() == n,
                        forall|k: int| 0 <= k < n ==> vv[k] == crate::ast::expr::arith_view(v@[k]),
                        i < n,
                        v@[i as int] == Arithmetic::Op(*o),
                        shunt(vv, i as nat, stack@, ariths_view(out@)) == shunt(
                            vv,
                            0,
                            Seq::empty(),
                            Seq::empty(),
                        ),
                    decreases stack.len(),
                {
                    let ghost bv = out@;
                    let top = stack.pop().unwrap();
                    out.push(Arithmetic::Op(top));
                    proof {
                        crate::ast::expr::lemma_ariths_view_push(bv, out@, Arithmetic::Op(top));
                    }
                }
                stack.push(*o);
                i = i + 1;
            },
        }
    }
    while stack.len() > 0
        invariant
            ariths_view(out@) + pop_all(stack@) == shunt(vv, 0, Seq::empty(), Seq::empty()),
        decreases stack.len(),
    {
        let ghost bv = out@;
        let top = stack.pop().unwrap();
        out.push(Arithmetic::Op(top));
        proof {
            crate::ast::expr::lemma_ariths_view_push(bv, out@, Arithmetic::Op(top));
            assert(ariths_view(bv).push(ArithView::Op(top)) + pop_all(stack@) =~= ariths_view(bv)
                + (seq![ArithView::Op(top)] + pop_all(stack@)));
        }
    }
    proof {
        assert(ariths_view(out@) + pop_all(stack@) =~= ariths_view(out@));
    }
    out
}

/// Collect call arguments from `j0` (just after the `(`): the argument
/// expressions and the position of the matching `)` (or the token count
/// when it never closes).
fn call_args_exec(toks: &[Token], j0: usize) -> (r: (Vec<Expr>, usize))
    requires
        1 <= j0 <= toks@.len(),
    ensures
        exprs_view(r.0@) == call_args(views_of(toks@), j0 as nat, j0 as nat, 0),
        r.1 == call_end(views_of(toks@), j0 as nat, 0),
        j0 <= r.1 <= toks@.len(),
    decreases toks@.len(), 0nat, 1nat,
{
    let ghost tv = views_of(toks@);
    proof {
        lemma_call_end_bounds(tv, j0 as nat, 0);
        assert(tv.len() == toks@.len());
    }
    let n = toks.len();
    let mut out: Vec<Expr> = Vec::new();
    let mut j = j0;
    let mut last = j0;
    let mut gb: i128 = 0;
    while j < n
        invariant
            n == toks@.len(),
            tv == views_of(toks@),
            tv.len() == n,
            1 <= j0 <= last <= j <= n,
            -(j as int) <= gb <= j as int,
            exprs_view(out@) + call_args(tv, j as nat, last as nat, gb as int) == call_args(
                tv,
                j0 as nat,
                j0 as nat,
                0,
            ),
            call_end(tv, j as nat, gb as int) == call_end(tv, j0 as nat, 0),
        decreases n - j,
    {
        let t = slice_index_get(toks, j);
        proof {
            assert(tv[j as int] == t@);
        }
        if is_open_exec(t) {
            gb = gb + 1;
            j = j + 1;
        } else {
            let is_rbrace_or_rbracket = match t {
                Token::Operator(op) => *op == EOperator::RBrace || *op == EOperator::RBracket,
                _ => false,
            };
            let is_rparen = match t {
                Token::Operator(op) => *op == EOperator::RParen,
                _ => false,
            };
            let is_comma = match t {
                Token::Operator(op) => *op == EOperator::Comma,
                _ => false,
            };
            if is_rbrace_or_rbracket {
                gb = gb - 1;
                j = j + 1;
            } else if is_rparen {
                if gb == 0 {
                    if j != last {
                        let sub = slice_subrange(toks, last, j);
                        proof {
                            lemma_views_of_subrange(toks@, last as int, j as int);
                            assert(views_of(sub@) == tv.subrange(last as int, j as int));
                        }
                        let e = expr_gen(sub);
                        let ghost bv = out@;
                        let ghost gx = e;
                        out.push(e);
                        proof {
                            assert(expr_view(gx) == sub_expr(tv, last as nat, j as nat));
                            assert(call_args(tv, j as nat, last as nat, 0) == seq![
                                sub_expr(tv, last as nat, j as nat),
                            ]);
                            crate::ast::expr::lemma_exprs_view_push(bv, out@, gx);
                            assert(exprs_view(bv).push(expr_view(gx)) =~= exprs_view(bv) + seq![
                                expr_view(gx),
                            ]);
                        }
                    } else {
                        proof {
                            assert(exprs_view(out@) + Seq::<ExprView>::empty() =~= exprs_view(
                                out@,
                            ));
                        }
                    }
                    return (out, j);
                } else {
                    gb = gb - 1;
                    j = j + 1;
                }
            } else if is_comma && gb == 0 {
                let sub = slice_subrange(toks, last, j);
                proof {
                    lemma_views_of_subrange(toks@, last as int, j as int);
                    assert(views_of(sub@) == tv.subrange(last as int, j as int));
                }
                let e = expr_gen(sub);
                let ghost bv = out@;
                let ghost gx = e;
                proof {
                    assert(expr_view(gx) == sub_expr(tv, last as nat, j as nat));
                }
                out.push(e);
                proof {
                    crate::ast::expr::lemma_exprs_view_push(bv, out@, gx);
                    assert(exprs_view(bv).push(expr_view(gx)) + call_args(
                        tv,
                        (j + 1) as nat,
                        (j + 1) as nat,
                        gb as int,
                    ) =~= exprs_view(bv) + (seq![expr_view(gx)] + call_args(
                        tv,
                        (j + 1) as nat,
                        (j + 1) as nat,
                        gb as int,
                    )));
                }
                last = j + 1;
                j = j + 1;
            } else {
                j = j + 1;
            }
        }
    }
    proof {
        assert(exprs_view(out@) =~= exprs_view(out@) + Seq::<ExprView>::empty());
    }
    (out, n)
}

/// Box a list of argument expressions.
fn box_exprs(v: Vec<Expr>) -> (r: Vec<Box<Expr>>)
    ensures
        boxed_exprs_view(r@) == exprs_view(v@),
{
    proof {
        lemma_exprs_view(v@);
    }
    let mut out: Vec<Box<Expr>> = Vec::new();
    let mut idx: usize = 0;
    let n = v.len();
    let v2 = v;
    while idx < n
        invariant
            n == v2@.len(),
            idx <= n,
            out@.len() == idx,
            forall|k: int|
                0 <= k < idx ==> #[trigger] expr_view(*out@[k]) == expr_view(v2@[k]),
        decreases n - idx,
    {
        let e = v2[idx].duplicate();
        out.push(Box::new(e));
        idx = idx + 1;
    }
    proof {
        lemma_boxed_exprs_view(out@);
        lemma_exprs_view(v2@);
        assert(boxed_exprs_view(out@) =~= exprs_view(v2@));
    }
    out
}

/// Build the expression of a token slice.  The scan keeps a current
/// result that later literals and names overwrite; the result is
/// exactly [`spec_expr_gen`] of the slice.
pub fn expr_gen(toks: &[Token]) -> (r: Expr)
    ensures
        expr_view(r) == spec_expr_gen(views_of(toks@)),
    decreases toks@.len(), 0nat, 2nat,
{
    let ghost tv = views_of(toks@);
    proof {
        assert(tv.len() == toks@.len());
    }
    let n = toks.len();
    let mut res: Expr = Expr::Const(Const::Undef);
    let mut i: usize = 0;
    while i < n
        invariant
            n == toks@.len(),
            tv == views_of(toks@),
            tv.len() == n,
            i <= n,
            spec_expr_from(tv, i as nat, expr_view(res)) == spec_expr_gen(tv),
        decreases n - i,
    {
        let t = slice_index_get(toks, i);
        proof {
            assert(tv[i as int] == t@);
        }
        match t {
            Token::Identifier(id) => {
                res = Expr::Var(id.clone());
                i = i + 1;
            },
            Token::Integer(v) => {
                res = Expr::Const(Const::Integer(*v));
                i = i + 1;
            },
            Token::Float(d) => {
                res = Expr::Const(Const::Float(*d));
                i = i + 1;
            },
            Token::Str { v, is_raw, is_fmt } => {
                res = Expr::Const(Const::Str { v: v.clone(), is_raw: *is_raw, is_fmt: *is_fmt });
                i = i + 1;
            },
            Token::Bool(b) => {
                res = Expr::Const(Const::Bool(*b));
                i = i + 1;
            },
            Token::Operator(op) => {
                if is_arith_exec(*op) {
                    let mut infix: Vec<Arithmetic> = Vec::new();
                    let ghost rv = expr_view(res);
                    let node = Arithmetic::Node(Box::new(res));
                    let ghost gx = node;
                    infix.push(node);
                    let opv = Arithmetic::Op(*op);
                    let ghost gy = opv;
                    infix.push(opv);
                    proof {
                        crate::ast::expr::lemma_ariths_view_push2(Seq::empty(), infix@, gx, gy);
                        assert(ariths_view(Seq::<Arithmetic>::empty()) + seq![
                            ArithView::Node(Box::new(rv)),
                            ArithView::Op(*op),
                        ] =~= seq![ArithView::Node(Box::new(rv)), ArithView::Op(*op)]);
                    }
                    collect_infix_exec(toks, i + 1, &mut infix);
                    proof {
                        assert((seq![ArithView::Node(Box::new(rv)), ArithView::Op(*op)])
                            + collect_infix(tv, (i + 1) as nat, (i + 1) as nat, 0)
                            == ariths_view(infix@));
                    }
                    let pf = shunt_exec(infix);
                    return Expr::Arith(pf);
                } else if *op == EOperator::LParen {
                    let mut was_var = false;
                    match &res {
                        Expr::Var(_) => {
                            was_var = true;
                        },
                        _ => {},
                    }
                    if was_var {
                        let name = match &res {
                            Expr::Var(nm) => nm.clone(),
                            _ => String::new(),
                        };
                        let (args_p, end) = call_args_exec(toks, i + 1);
                        let bargs = box_exprs(args_p);
                        res = Expr::FuncCallSimple { name, args: bargs };
                        i = if end < n {
                            end + 1
                        } else {
                            n
                        };
                    } else {
                        i = i + 1;
                    }
                } else {
                    i = i + 1;
                }
            },
            Token::Keyword(k) => {
                if str_is(k, "new") {
                    let sub = slice_subrange(toks, i + 1, n);
                    proof {
                        lemma_views_of_subrange(toks@, (i + 1) as int, n as int);
                        assert(views_of(sub@) == tv.subrange((i + 1) as int, n as int));
                    }
                    let inner = expr_gen(sub);
                    proof {
                        assert(expr_view(inner) == spec_expr_gen(
                            tv.subrange((i + 1) as int, n as int),
                        ));
                        assert(tv.subrange((i + 1) as int, tv.len() as int) == tv.subrange(
                            (i + 1) as int,
                            n as int,
                        ));
                        assert(sub_expr_new(tv, (i + 1) as nat) == spec_expr_gen(
                            tv.subrange((i + 1) as int, tv.len() as int),
                        ));
                        assert(expr_view(inner) == sub_expr_new(tv, (i + 1) as nat));
                        assert(spec_expr_from(tv, i as nat, expr_view(res))
                            == ExprView::NewConstruct(
                            Box::new(sub_expr_new(tv, (i + 1) as nat)),
                        ));
                    }
                    return Expr::NewConstruct(Box::new(inner));
                } else {
                    i = i + 1;
                }
            },
            _ => {
                i = i + 1;
            },
        }
    }
    res
}


proof fn lemma_semi_simple_bounds(toks: Seq<TokenView>, j: nat)
    requires
        j <= toks.len(),
    ensures
        j <= semi_simple(toks, j) <= toks.len(),
    decreases toks.len() - j,
{
    if j < toks.len() && toks[j as int] != TokenView::Operator(EOperator::Semicolon) {
        lemma_semi_simple_bounds(toks, j + 1);
    }
}

proof fn lemma_semi_depth_bounds(toks: Seq<TokenView>, j: nat, gb: int)
    requires
        j <= toks.len(),
    ensures
        j <= semi_depth(toks, j, gb) <= toks.len(),
    decreases toks.len() - j,
{
    if j < toks.len() {
        lemma_semi_depth_bounds(toks, j + 1, gb + 1);
        lemma_semi_depth_bounds(toks, j + 1, gb - 1);
        lemma_semi_depth_bounds(toks, j + 1, gb);
    }
}

proof fn lemma_class_semi_bounds(toks: Seq<TokenView>, j: nat, gb: int)
    requires
        j <= toks.len(),
    ensures
        j <= class_semi(toks, j, gb) <= toks.len(),
    decreases toks.len() - j,
{
    if j < toks.len() {
        lemma_class_semi_bounds(toks, j + 1, gb + 1);
        lemma_class_semi_bounds(toks, j + 1, gb - 1);
        lemma_class_semi_bounds(toks, j + 1, gb);
    }
}

proof fn lemma_block_end_bounds(toks: Seq<TokenView>, j: nat, gb: int)
    requires
        j <= toks.len(),
    ensures
        j <= block_end(toks, j, gb) <= toks.len(),
    decreases toks.len() - j,
{
    if j < toks.len() {
        lemma_block_end_bounds(toks, j + 1, gb + 1);
        lemma_block_end_bounds(toks, j + 1, gb - 1);
        lemma_block_end_bounds(toks, j + 1, gb);
    }
}

proof fn lemma_skip_nl_bounds(toks: Seq<TokenView>, j: nat)
    requires
        j <= toks.len(),
    ensures
        j <= skip_nl(toks, j) <= toks.len(),
    decreases toks.len() - j,
{
    if j < toks.len() && toks[j as int] == TokenView::Newline {
        lemma_skip_nl_bounds(toks, j + 1);
    }
}

fn exec_semi_simple(toks: &[Token], n: usize, j0: usize) -> (r: usize)
    requires
        n == toks@.len(),
        j0 <= n,
    ensures
        r == semi_simple(views_of(toks@), j0 as nat),
        j0 <= r <= n,
{
    let ghost tv = views_of(toks@);
    proof {
        assert(tv.len() == toks@.len());
        lemma_semi_simple_bounds(tv, j0 as nat);
    }
    let mut j = j0;
    while j < n
        invariant
            n == toks@.len(),
            tv == views_of(toks@),
            tv.len() == n,
            j0 <= j <= n,
            semi_simple(tv, j0 as nat) == semi_simple(tv, j as nat),
        decreases n - j,
    {
        let t = slice_index_get(toks, j);
        proof {
            assert(tv[j as int] == t@);
        }
        let is_semi = match t {
            Token::Operator(op) => *op == EOperator::Semicolon,
            _ => false,
        };
        if is_semi {
            return j;
        }
        j = j + 1;
    }
    j
}

fn exec_semi_depth(toks: &[Token], n: usize, j0: usize) -> (r: usize)
    requires
        n == toks@.len(),
        j0 <= n,
    ensures
        r == semi_depth(views_of(toks@), j0 as nat, 0),
        j0 <= r <= n,
{
    let ghost tv = views_of(toks@);
    proof {
        assert(tv.len() == toks@.len());
        lemma_semi_depth_bounds(tv, j0 as nat, 0);
    }
    let mut j = j0;
    let mut gb: i128 = 0;
    while j < n
        invariant
            n == toks@.len(),
            tv == views_of(toks@),
            tv.len() == n,
            j0 <= j <= n,
            -(j as int) <= gb <= j as int,
            semi_depth(tv, j0 as nat, 0) == semi_depth(tv, j as nat, gb as int),
        decreases n - j,
    {
        let t = slice_index_get(toks, j);
        proof {
            assert(tv[j as int] == t@);
        }
        let is_semi = match t {
            Token::Operator(op) => *op == EOperator::Semicolon,
            _ => false,
        };
        if is_semi && gb == 0 {
            return j;
        }
        if is_open_exec(t) {
            gb = gb + 1;
        } else if is_close_exec(t) {
            gb = gb - 1;
        }
        j = j + 1;
    }
    j
}

fn exec_class_semi(toks: &[Token], n: usize, j0: usize) -> (r: usize)
    requires
        n == toks@.len(),
        j0 <= n,
    ensures
        r == class_semi(views_of(toks@), j0 as nat, 0),
        j0 <= r <= n,
{
    let ghost tv = views_of(toks@);
    proof {
        assert(tv.len() == toks@.len());
        lemma_class_semi_bounds(tv, j0 as nat, 0);
    }
    let mut j = j0;
    let mut gb: i128 = 0;
    while j < n
        invariant
            n == toks@.len(),
            tv == views_of(toks@),
            tv.len() == n,
            j0 <= j <= n,
            -(j as int) <= gb <= j as int,
            class_semi(tv, j0 as nat, 0) == class_semi(tv, j as nat, gb as int),
        decreases n - j,
    {
        let t = slice_index_get(toks, j);
        proof {
            assert(tv[j as int] == t@);
        }
        let is_semi = match t {
            Token::Operator(op) => *op == EOperator::Semicolon,
            _ => false,
        };
        if is_semi && gb == 0 {
            return j;
        }
        if is_open_exec(t) {
            gb = gb + 1;
        } else {
            let dec = match t {
                Token::Operator(op) => *op == EOperator::RParen || *op == EOperator::RBracket,
                _ => false,
            };
            if dec {
                gb = gb - 1;
            }
        }
        j = j + 1;
    }
    j
}

fn exec_block_end(toks: &[Token], n: usize, j0: usize) -> (r: usize)
    requires
        n == toks@.len(),
        j0 <= n,
    ensures
        r == block_end(views_of(toks@), j0 as nat, 0),
        j0 <= r <= n,
{
    let ghost tv = views_of(toks@);
    proof {
        assert(tv.len() == toks@.len());
        lemma_block_end_bounds(tv, j0 as nat, 0);
    }
    let mut j = j0;
    let mut gb: i128 = 0;
    while j < n
        invariant
            n == toks@.len(),
            tv == views_of(toks@),
            tv.len() == n,
            j0 <= j <= n,
            -(j as int) <= gb <= j as int,
            block_end(tv, j0 as nat, 0) == block_end(tv, j as nat, gb as int),
        decreases n - j,
    {
        let t = slice_index_get(toks, j);
        proof {
            assert(tv[j as int] == t@);
        }
        if is_open_exec(t) {
            gb = gb + 1;
        } else {
            let is_rbrace = match t {
                Token::Operator(op) => *op == EOperator::RBrace,
                _ => false,
            };
            if is_rbrace {
                if gb == 0 {
                    return j;
                }
                gb = gb - 1;
            } else {
                let dec = match t {
                    Token::Operator(op) => *op == EOperator::RParen || *op
                        == EOperator::RBracket,
                    _ => false,
                };
                if dec {
                    gb = gb - 1;
                }
            }
        }
        j = j + 1;
    }
    j
}

fn exec_skip_nl(toks: &[Token], n: usize, j0: usize) -> (r: usize)
    requires
        n == toks@.len(),
        j0 <= n,
    ensures
        r == skip_nl(views_of(toks@), j0 as nat),
        j0 <= r <= n,
{
    let ghost tv = views_of(toks@);
    proof {
        assert(tv.len() == toks@.len());
        lemma_skip_nl_bounds(tv, j0 as nat);
    }
    let mut j = j0;
    while j < n
        invariant
            n == toks@.len(),
            tv == views_of(toks@),
            tv.len() == n,
            j0 <= j <= n,
            skip_nl(tv, j0 as nat) == skip_nl(tv, j as nat),
        decreases n - j,
    {
        let t = slice_index_get(toks, j);
        proof {
            assert(tv[j as int] == t@);
        }
        let is_nl = match t {
            Token::Newline => true,
            _ => false,
        };
        if !is_nl {
            return j;
        }
        j = j + 1;
    }
    j
}

/// Scan backward from just before position `i` to the statement
/// boundary: how many tokens stand there (newlines left out), and where
/// the first of them is.
fn exec_back_scan(toks: &[Token], n: usize, i: usize) -> (r: (usize, usize, bool))
    requires
        n == toks@.len(),
        1 <= i <= n,
    ensures
        r.0 == back_count(views_of(toks@), i - 1, 0),
        r.2 ==> r.1 < n && r.1 as int == back_single_idx(views_of(toks@), i - 1),
        !r.2 ==> r.0 == 0,
{
    let ghost tv = views_of(toks@);
    proof {
        assert(tv.len() == toks@.len());
    }
    let mut pos = i;
    let mut gb: i128 = 0;
    let mut cnt: usize = 0;
    let mut sidx: usize = 0;
    let mut found = false;
    while pos > 0
        invariant
            n == toks@.len(),
            tv == views_of(toks@),
            tv.len() == n,
            pos <= i <= n,
            -(i as int) + pos as int <= gb <= i as int - pos as int,
            cnt + pos <= i,
            back_count(tv, i - 1, 0) == cnt + back_count(tv, pos - 1, gb as int),
            found ==> sidx < n && sidx as int == back_single_idx(tv, i - 1) && cnt >= 1,
            !found ==> cnt == 0 && back_single_idx(tv, i - 1) == back_single_idx(
                tv,
                pos - 1,
            ),
        decreases pos,
    {
        let j = pos - 1;
        let t = slice_index_get(toks, j);
        proof {
            assert(tv[j as int] == t@);
        }
        let is_boundary = match t {
            Token::Operator(op) => *op == EOperator::Semicolon || *op == EOperator::RBrace,
            _ => false,
        };
        let is_nl = match t {
            Token::Newline => true,
            _ => false,
        };
        if is_boundary && gb == 0 {
            return (cnt, sidx, found);
        }
        if !is_nl {
            cnt = cnt + 1;
            if !found {
                sidx = j;
                found = true;
            }
            if is_open_exec(t) {
                gb = gb + 1;
            } else if is_close_exec(t) {
                gb = gb - 1;
            }
        }
        pos = pos - 1;
    }
    (cnt, sidx, found)
}


/// The six trigger keywords are pairwise distinct words.
proof fn lemma_keywords_distinct()
    ensures
        "let"@ != "var"@,
        "let"@ != "const"@,
        "let"@ != "function"@,
        "let"@ != "return"@,
        "let"@ != "class"@,
        "var"@ != "const"@,
        "var"@ != "function"@,
        "var"@ != "return"@,
        "var"@ != "class"@,
        "const"@ != "function"@,
        "const"@ != "return"@,
        "const"@ != "class"@,
        "function"@ != "return"@,
        "function"@ != "class"@,
        "return"@ != "class"@,
{
    reveal_strlit("let");
    reveal_strlit("var");
    reveal_strlit("const");
    reveal_strlit("function");
    reveal_strlit("return");
    reveal_strlit("class");
    assert("let"@.len() == 3);
    assert("var"@.len() == 3);
    assert("const"@.len() == 5);
    assert("function"@.len() == 8);
    assert("return"@.len() == 6);
    assert("class"@.len() == 5);
    assert("let"@[0] == 'l');
    assert("var"@[0] == 'v');
    assert("const"@[1] == 'o');
    assert("class"@[1] == 'l');
}

/// Append a statement that the specification parse yields next,
/// carrying the join relation from position `i` to position `j`.
#[verifier::rlimit(60)]
fn push_stmt(
    res: &mut Vec<Stmt>,
    st: Stmt,
    Ghost(tv): Ghost<Seq<TokenView>>,
    Ghost(i): Ghost<nat>,
    Ghost(j): Ghost<nat>,
)
    requires
        spec_stmts_from(tv, i) == cons_stmt(stmt_view(st), spec_stmts_from(tv, j)),
        stmts_join(stmts_view(old(res)@), spec_stmts_from(tv, i)) == spec_stmt_gen(tv),
    ensures
        stmts_join(stmts_view(final(res)@), spec_stmts_from(tv, j)) == spec_stmt_gen(tv),
{
    let ghost pre = res@;
    let ghost sv = stmt_view(st);
    res.push(st);
    proof {
        crate::ast::stmt::lemma_stmts_view_push(pre, res@, res@[res@.len() - 1]);
        match spec_stmts_from(tv, j) {
            Ok(v) => {
                assert(stmts_view(pre).push(sv) + v =~= stmts_view(pre) + (seq![sv] + v));
            },
            Err(_) => {},
        }
    }
}

/// Parse one `let | var | const` declaration at `i`; `None` when the
/// keyword is not followed by a name and the scan just moves on.
#[verifier::rlimit(60)]
fn parse_let(toks: &[Token], n: usize, i: usize, kw: &String) -> (r: Result<
    Option<(Stmt, usize)>,
    ParseError,
>)
    requires
        n == toks@.len(),
        i < n,
        views_of(toks@)[i as int] == TokenView::Keyword(kw@),
        kw@ == "let"@ || kw@ == "var"@ || kw@ == "const"@,
    ensures
        match r {
            Ok(o) => match o {
                Some(p) => spec_stmts_from(views_of(toks@), i as nat) == cons_stmt(
                    stmt_view(p.0),
                    spec_stmts_from(views_of(toks@), p.1 as nat),
                ) && i < p.1 <= n,
                None => spec_stmts_from(views_of(toks@), i as nat) == spec_stmts_from(
                    views_of(toks@),
                    (i + 1) as nat,
                ),
            },
            Err(e) => spec_stmts_from(views_of(toks@), i as nat) == Err::<
                Seq<StmtView>,
                ParseError,
            >(e),
        },
{
    let ghost tv = views_of(toks@);
    proof {
        assert(tv.len() == toks@.len());
    }
    let mut id: Option<String> = None;
    if i + 1 < n {
        let t1 = slice_index_get(toks, i + 1);
        proof {
            assert(tv[i + 1] == t1@);
        }
        match t1 {
            Token::Identifier(nm) => {
                id = Some(nm.clone());
            },
            _ => {},
        }
    }
    match id {
        None => Ok(None),
        Some(nm) => {
            let mut eq_ok = false;
            if i + 2 < n {
                let t2 = slice_index_get(toks, i + 2);
                proof {
                    assert(tv[i + 2] == t2@);
                }
                eq_ok = match t2 {
                    Token::Operator(op) => *op == EOperator::Eq,
                    _ => false,
                };
            }
            if !eq_ok {
                return Err(ParseError::ExpectedEquals(i + 2));
            }
            let j = exec_semi_simple(toks, n, i + 3);
            let sub = slice_subrange(toks, i + 3, j);
            proof {
                lemma_views_of_subrange(toks@, (i + 3) as int, j as int);
                assert(views_of(sub@) == tv.subrange((i + 3) as int, j as int));
            }
            let e = expr_gen(sub);
            proof {
                assert(expr_view(e) == sub_expr(tv, (i + 3) as nat, j as nat));
            }
            let qual = if str_is(kw, "const") {
                VarQualifier::Const
            } else if str_is(kw, "var") {
                VarQualifier::Var
            } else {
                VarQualifier::Let
            };
            let st = Stmt::VardeclSimple { name: nm, val: e, qual };
            let nxt = if j < n {
                j + 1
            } else {
                n
            };
            Ok(Some((st, nxt)))
        },
    }
}

/// Parse one function declaration at `i`.
#[verifier::rlimit(60)]
fn parse_function(toks: &[Token], n: usize, i: usize) -> (r: Result<(Stmt, usize), ParseError>)
    requires
        n == toks@.len(),
        i < n,
        views_of(toks@)[i as int] == TokenView::Keyword("function"@),
    ensures
        match r {
            Ok(p) => spec_stmts_from(views_of(toks@), i as nat) == cons_stmt(
                stmt_view(p.0),
                spec_stmts_from(views_of(toks@), p.1 as nat),
            ) && i < p.1 <= n,
            Err(e) => spec_stmts_from(views_of(toks@), i as nat) == Err::<
                Seq<StmtView>,
                ParseError,
            >(e),
        },
    decreases toks@.len(), 0nat, 2nat,
{
    let ghost tv = views_of(toks@);
    proof {
        assert(tv.len() == toks@.len());
        lemma_keywords_distinct();
    }
    if i + 1 >= n {
        return Err(ParseError::ExpectedIdentifier(i + 1));
    }
    let mut lp_ok = false;
    if i + 2 < n {
        let t2 = slice_index_get(toks, i + 2);
        proof {
            assert(tv[i + 2] == t2@);
        }
        lp_ok = match t2 {
            Token::Operator(op) => *op == EOperator::LParen,
            _ => false,
        };
    }
    if !lp_ok {
        return Err(ParseError::ExpectedLParen(i + 2));
    }
    let t1 = slice_index_get(toks, i + 1);
    proof {
        assert(tv[i + 1] == t1@);
    }
    let nm = match t1 {
        Token::Identifier(x) => Some(x.clone()),
        _ => None,
    };
    match nm {
        None => Err(ParseError::ExpectedIdentifier(i + 1)),
        Some(fname) => {
            let (args_p, rp) = call_args_exec(toks, i + 3);
            if rp >= n {
                return Err(ParseError::UnclosedDelimiter(i + 2));
            }
            let last = rp + 1;
            let bstart = if last < n {
                last + 1
            } else {
                n
            };
            let be = exec_block_end(toks, n, bstart);
            if be >= n {
                return Err(ParseError::UnclosedDelimiter(i));
            }
            let sub = slice_subrange(toks, last, be);
            proof {
                lemma_views_of_subrange(toks@, last as int, be as int);
                assert(views_of(sub@) == tv.subrange(last as int, be as int));
            }
            match stmt_gen(sub) {
                Err(e) => Err(e),
                Ok(bodyv) => {
                    proof {
                        assert(sub_stmts(tv, last as nat, be as nat) == Ok::<
                            Seq<StmtView>,
                            ParseError,
                        >(stmts_view(bodyv@)));
                    }
                    let st = Stmt::Funcdecl { name: fname, args: args_p, body: bodyv };
                    Ok((st, be))
                },
            }
        },
    }
}

/// Parse one `return` statement at `i`.
#[verifier::rlimit(60)]
fn parse_return(toks: &[Token], n: usize, i: usize) -> (r: Result<(Stmt, usize), ParseError>)
    requires
        n == toks@.len(),
        i < n,
        views_of(toks@)[i as int] == TokenView::Keyword("return"@),
    ensures
        match r {
            Ok(p) => spec_stmts_from(views_of(toks@), i as nat) == cons_stmt(
                stmt_view(p.0),
                spec_stmts_from(views_of(toks@), p.1 as nat),
            ) && i < p.1 <= n,
            Err(e) => spec_stmts_from(views_of(toks@), i as nat) == Err::<
                Seq<StmtView>,
                ParseError,
            >(e),
        },
{
    let ghost tv = views_of(toks@);
    proof {
        assert(tv.len() == toks@.len());
        lemma_keywords_distinct();
    }
    let e = exec_semi_depth(toks, n, i + 1);
    if e >= n {
        return Err(ParseError::MissingSemicolon(i));
    }
    let sub = slice_subrange(toks, i + 1, e);
    proof {
        lemma_views_of_subrange(toks@, (i + 1) as int, e as int);
        assert(views_of(sub@) == tv.subrange((i + 1) as int, e as int));
    }
    let ex = expr_gen(sub);
    proof {
        assert(expr_view(ex) == sub_expr(tv, (i + 1) as nat, e as nat));
    }
    Ok((Stmt::ReturnStmt(ex), e + 1))
}

/// Parse one bare call statement whose `(` stands at `i`; `None` when
/// no name precedes it.
#[verifier::rlimit(60)]
fn parse_call(toks: &[Token], n: usize, i: usize) -> (r: Option<(Stmt, usize)>)
    requires
        n == toks@.len(),
        i < n,
        views_of(toks@)[i as int] == TokenView::Operator(EOperator::LParen),
    ensures
        match r {
            Some(p) => spec_stmts_from(views_of(toks@), i as nat) == cons_stmt(
                stmt_view(p.0),
                spec_stmts_from(views_of(toks@), p.1 as nat),
            ) && i < p.1 <= n,
            None => spec_stmts_from(views_of(toks@), i as nat) == spec_stmts_from(
                views_of(toks@),
                (i + 1) as nat,
            ),
        },
{
    let ghost tv = views_of(toks@);
    proof {
        assert(tv.len() == toks@.len());
    }
    let mut fname: Option<String> = None;
    if i >= 1 {
        let p = slice_index_get(toks, i - 1);
        proof {
            assert(tv[i - 1] == p@);
        }
        match p {
            Token::Identifier(x) => {
                fname = Some(x.clone());
            },
            _ => {},
        }
    }
    match fname {
        None => None,
        Some(fnm) => {
            let (args_p, e) = call_args_exec(toks, i + 1);
            let e2 = if e >= n {
                i
            } else {
                e
            };
            let s = exec_semi_simple(toks, n, e2 + 1);
            let base = if s < n {
                s
            } else {
                e2
            };
            let nxt0 = base + 1;
            let st = Stmt::FunctCallSimple { name: fnm, args: args_p };
            Some((st, nxt0))
        },
    }
}

/// Parse one simple assignment whose `=` stands at `i`.
#[verifier::rlimit(60)]
fn parse_assign(toks: &[Token], n: usize, i: usize) -> (r: Result<(Stmt, usize), ParseError>)
    requires
        n == toks@.len(),
        i < n,
        views_of(toks@)[i as int] == TokenView::Operator(EOperator::Eq),
    ensures
        match r {
            Ok(p) => spec_stmts_from(views_of(toks@), i as nat) == cons_stmt(
                stmt_view(p.0),
                spec_stmts_from(views_of(toks@), p.1 as nat),
            ) && i < p.1 <= n,
            Err(e) => spec_stmts_from(views_of(toks@), i as nat) == Err::<
                Seq<StmtView>,
                ParseError,
            >(e),
        },
{
    let ghost tv = views_of(toks@);
    proof {
        assert(tv.len() == toks@.len());
    }
    if i == 0 {
        return Err(ParseError::UnsupportedAssignment(0));
    }
    let (cnt, sidx, found) = exec_back_scan(toks, n, i);
    if cnt != 1 {
        return Err(ParseError::UnsupportedAssignment(i));
    }
    let s = exec_semi_depth(toks, n, i + 1);
    if s >= n {
        return Err(ParseError::MissingSemicolon(i));
    }
    let nm = if found {
        let pt = slice_index_get(toks, sidx);
        proof {
            assert(tv[sidx as int] == pt@);
        }
        match pt {
            Token::Identifier(x) => x.clone(),
            _ => String::from_str("undefined"),
        }
    } else {
        String::from_str("undefined")
    };
    let sub = slice_subrange(toks, i + 1, s);
    proof {
        lemma_views_of_subrange(toks@, (i + 1) as int, s as int);
        assert(views_of(sub@) == tv.subrange((i + 1) as int, s as int));
    }
    let e = expr_gen(sub);
    proof {
        assert(expr_view(e) == sub_expr(tv, (i + 1) as nat, s as nat));
    }
    let st = Stmt::VardeclSimple { name: nm, val: e, qual: VarQualifier::Let };
    Ok((st, s + 1))
}

/// The method prepended to the rest of a class scan.
pub open spec fn cons_method(m: StmtView, r: Result<StmtView, ParseError>) -> Result<
    StmtView,
    ParseError,
> {
    match r {
        Ok(st) => match st {
            StmtView::ClassDecl { name, vars: v2, fns: f2 } => Ok(
                StmtView::ClassDecl { name, vars: v2, fns: seq![m] + f2 },
            ),
            _ => Ok(st),
        },
        Err(e) => Err(e),
    }
}

/// The field initializer prepended to the rest of a class scan.
pub open spec fn cons_field(st0: StmtView, r: Result<StmtView, ParseError>) -> Result<
    StmtView,
    ParseError,
> {
    match r {
        Ok(st) => match st {
            StmtView::ClassDecl { name, vars: v2, fns: f2 } => Ok(
                StmtView::ClassDecl { name, vars: seq![st0] + v2, fns: f2 },
            ),
            _ => Ok(st),
        },
        Err(e) => Err(e),
    }
}

/// Parse one class method whose `(` stands at `j` (at member depth
/// zero); `None` when no name precedes the `(`.
#[verifier::rlimit(60)]
fn parse_method(toks: &[Token], n: usize, j: usize, Ghost(name): Ghost<Seq<char>>) -> (r: Result<
    Option<(Stmt, usize)>,
    ParseError,
>)
    requires
        n == toks@.len(),
        j < n,
        views_of(toks@)[j as int] == TokenView::Operator(EOperator::LParen),
    ensures
        match r {
            Ok(o) => match o {
                Some(p) => class_stmt(views_of(toks@), j as nat, 0, name) == cons_method(
                    stmt_view(p.0),
                    class_stmt(views_of(toks@), p.1 as nat, 0, name),
                ) && j < p.1 <= n && class_end(views_of(toks@), j as nat, 0) == class_end(
                    views_of(toks@),
                    p.1 as nat,
                    0,
                ),
                None => j >= 1 ==> !(views_of(toks@)[j - 1] matches TokenView::Identifier(x)),
            },
            Err(e) => class_stmt(views_of(toks@), j as nat, 0, name) == Err::<
                StmtView,
                ParseError,
            >(e),
        },
    decreases toks@.len(), 0nat, 2nat,
{
    let ghost tv = views_of(toks@);
    proof {
        assert(tv.len() == toks@.len());
    }
    let mut fname: Option<String> = None;
    if j >= 1 {
        let p = slice_index_get(toks, j - 1);
        proof {
            assert(tv[j - 1] == p@);
        }
        match p {
            Token::Identifier(id) => {
                fname = Some(id.clone());
            },
            _ => {},
        }
    }
    match fname {
        None => Ok(None),
        Some(fnm) => {
            let (args_p, rp) = call_args_exec(toks, j + 1);
            if rp >= n {
                return Err(ParseError::UnclosedDelimiter(j));
            }
            let last = rp + 1;
            let bstart = if last < n {
                last + 1
            } else {
                n
            };
            let be = exec_block_end(toks, n, bstart);
            if be >= n {
                return Err(ParseError::UnclosedDelimiter(j));
            }
            let sub = slice_subrange(toks, bstart, be);
            proof {
                lemma_views_of_subrange(toks@, bstart as int, be as int);
                assert(views_of(sub@) == tv.subrange(bstart as int, be as int));
            }
            match stmt_gen(sub) {
                Err(e) => Err(e),
                Ok(bodyv) => {
                    proof {
                        assert(sub_stmts(tv, bstart as nat, be as nat) == Ok::<
                            Seq<StmtView>,
                            ParseError,
                        >(stmts_view(bodyv@)));
                    }
                    let m = Stmt::Funcdecl { name: fnm, args: args_p, body: bodyv };
                    Ok(Some((m, be + 1)))
                },
            }
        },
    }
}

/// Parse one class field initializer whose `=` stands at `j` (at member
/// depth zero).
#[verifier::rlimit(60)]
fn parse_field(toks: &[Token], n: usize, j: usize, Ghost(name): Ghost<Seq<char>>) -> (r: Result<
    (Stmt, usize),
    ParseError,
>)
    requires
        n == toks@.len(),
        j < n,
        views_of(toks@)[j as int] == TokenView::Operator(EOperator::Eq),
    ensures
        match r {
            Ok(p) => class_stmt(views_of(toks@), j as nat, 0, name) == cons_field(
                stmt_view(p.0),
                class_stmt(views_of(toks@), p.1 as nat, 0, name),
            ) && j < p.1 <= n && class_end(views_of(toks@), j as nat, 0) == class_end(
                views_of(toks@),
                p.1 as nat,
                0,
            ),
            Err(e) => class_stmt(views_of(toks@), j as nat, 0, name) == Err::<
                StmtView,
                ParseError,
            >(e),
        },
{
    let ghost tv = views_of(toks@);
    proof {
        assert(tv.len() == toks@.len());
    }
    let mut vname: Option<String> = None;
    if j >= 1 {
        let p = slice_index_get(toks, j - 1);
        proof {
            assert(tv[j - 1] == p@);
        }
        match p {
            Token::Identifier(id) => {
                vname = Some(id.clone());
            },
            _ => {},
        }
    }
    match vname {
        None => Err(ParseError::UnsupportedAssignment(j)),
        Some(vnm) => {
            let s = exec_class_semi(toks, n, j + 1);
            let sub = slice_subrange(toks, j + 1, s);
            proof {
                lemma_views_of_subrange(toks@, (j + 1) as int, s as int);
                assert(views_of(sub@) == tv.subrange((j + 1) as int, s as int));
            }
            let e = expr_gen(sub);
            proof {
                assert(expr_view(e) == sub_expr(tv, (j + 1) as nat, s as nat));
            }
            let st = Stmt::VardeclSimple { name: vnm, val: e, qual: VarQualifier::Let };
            let nxt = if s < n {
                s + 1
            } else {
                n
            };
            Ok((st, nxt))
        },
    }
}

/// Members taken so far, joined with the scan of the rest of the class.
pub open spec fn class_join(
    vars: Seq<StmtView>,
    fns: Seq<StmtView>,
    r: Result<StmtView, ParseError>,
) -> Result<StmtView, ParseError> {
    match r {
        Ok(st) => match st {
            StmtView::ClassDecl { name, vars: v2, fns: f2 } => Ok(
                StmtView::ClassDecl { name, vars: vars + v2, fns: fns + f2 },
            ),
            _ => Ok(st),
        },
        Err(e) => Err(e),
    }
}

proof fn lemma_class_join_fn(
    vars: Seq<StmtView>,
    fns: Seq<StmtView>,
    m: StmtView,
    r: Result<StmtView, ParseError>,
)
    ensures
        class_join(vars, fns.push(m), r) == class_join(vars, fns, cons_method(m, r)),
{
    match r {
        Ok(st) => match st {
            StmtView::ClassDecl { name, vars: v2, fns: f2 } => {
                assert(fns.push(m) + f2 =~= fns + (seq![m] + f2));
            },
            _ => {},
        },
        Err(_) => {},
    }
}

proof fn lemma_class_join_var(
    vars: Seq<StmtView>,
    fns: Seq<StmtView>,
    st0: StmtView,
    r: Result<StmtView, ParseError>,
)
    ensures
        class_join(vars.push(st0), fns, r) == class_join(vars, fns, cons_field(st0, r)),
{
    match r {
        Ok(st) => match st {
            StmtView::ClassDecl { name, vars: v2, fns: f2 } => {
                assert(vars.push(st0) + v2 =~= vars + (seq![st0] + v2));
            },
            _ => {},
        },
        Err(_) => {},
    }
}

/// Scan the members of a class body from `j0` (just after its `{`):
/// the field initializers, the methods, and the position of the closing
/// `}`.
#[verifier::rlimit(60)]
fn class_scan(toks: &[Token], n: usize, j0: usize, Ghost(name): Ghost<Seq<char>>) -> (r: Result<
    (Vec<Stmt>, Vec<Stmt>, usize),
    ParseError,
>)
    requires
        n == toks@.len(),
        1 <= j0 <= n,
    ensures
        match r {
            Ok(t) => class_stmt(views_of(toks@), j0 as nat, 0, name) == Ok::<StmtView, ParseError>(
                StmtView::ClassDecl { name, vars: stmts_view(t.0@), fns: stmts_view(t.1@) },
            ) && t.2 == class_end(views_of(toks@), j0 as nat, 0) && j0 <= t.2 < n,
            Err(e) => class_stmt(views_of(toks@), j0 as nat, 0, name) == Err::<
                StmtView,
                ParseError,
            >(e),
        },
    decreases toks@.len(), 0nat, 3nat,
{
    let ghost tv = views_of(toks@);
    proof {
        assert(tv.len() == toks@.len());
    }
    let mut vars: Vec<Stmt> = Vec::new();
    let mut fns: Vec<Stmt> = Vec::new();
    let mut j = j0;
    let mut gb: i128 = 0;
    loop
        invariant
            n == toks@.len(),
            tv == views_of(toks@),
            tv.len() == n,
            1 <= j0 <= j,
            j <= n,
            -((j - j0) as int) <= gb <= (j - j0) as int,
            class_join(
                stmts_view(vars@),
                stmts_view(fns@),
                class_stmt(tv, j as nat, gb as int, name),
            ) == class_stmt(tv, j0 as nat, 0, name),
            class_end(tv, j as nat, gb as int) == class_end(tv, j0 as nat, 0),
        decreases n - j,
    {
        if j >= n {
            return Err(ParseError::UnclosedDelimiter(j));
        }
        let t = slice_index_get(toks, j);
        proof {
            assert(tv[j as int] == t@);
        }
        let op = match t {
            Token::Operator(o) => Some(*o),
            _ => None,
        };
        match op {
            Some(EOperator::LBrace) | Some(EOperator::LBracket) => {
                gb = gb + 1;
                j = j + 1;
            },
            Some(EOperator::RBrace) => {
                if gb == 0 {
                    proof {
                        assert(stmts_view(vars@) + Seq::<StmtView>::empty() =~= stmts_view(
                            vars@,
                        ));
                        assert(stmts_view(fns@) + Seq::<StmtView>::empty() =~= stmts_view(fns@));
                    }
                    return Ok((vars, fns, j));
                }
                gb = gb - 1;
                j = j + 1;
            },
            Some(EOperator::RParen) | Some(EOperator::RBracket) => {
                gb = gb - 1;
                j = j + 1;
            },
            Some(EOperator::LParen) if gb == 0 => {
                match parse_method(toks, n, j, Ghost(name)) {
                    Err(e) => {
                        return Err(e);
                    },
                    Ok(None) => {
                        gb = gb - 1;
                        j = j + 1;
                    },
                    Ok(Some((m, nxt))) => {
                        let ghost bfns = fns@;
                        let ghost mv = stmt_view(m);
                        fns.push(m);
                        proof {
                            crate::ast::stmt::lemma_stmts_view_push(
                                bfns,
                                fns@,
                                fns@[fns@.len() - 1],
                            );
                            lemma_class_join_fn(
                                stmts_view(vars@),
                                stmts_view(bfns),
                                mv,
                                class_stmt(tv, nxt as nat, 0, name),
                            );
                        }
                        j = nxt;
                    },
                }
            },
            Some(EOperator::Eq) if gb == 0 => {
                match parse_field(toks, n, j, Ghost(name)) {
                    Err(e) => {
                        return Err(e);
                    },
                    Ok((st, nxt)) => {
                        let ghost bvars = vars@;
                        let ghost sv = stmt_view(st);
                        vars.push(st);
                        proof {
                            crate::ast::stmt::lemma_stmts_view_push(
                                bvars,
                                vars@,
                                vars@[vars@.len() - 1],
                            );
                            lemma_class_join_var(
                                stmts_view(bvars),
                                stmts_view(fns@),
                                sv,
                                class_stmt(tv, nxt as nat, 0, name),
                            );
                        }
                        j = nxt;
                    },
                }
            },
            _ => {
                j = j + 1;
            },
        }
    }
}

/// Parse one class declaration at `i`.
#[verifier::rlimit(60)]
fn parse_class(toks: &[Token], n: usize, i: usize) -> (r: Result<(Stmt, usize), ParseError>)
    requires
        n == toks@.len(),
        i < n,
        views_of(toks@)[i as int] == TokenView::Keyword("class"@),
    ensures
        match r {
            Ok(p) => spec_stmts_from(views_of(toks@), i as nat) == cons_stmt(
                stmt_view(p.0),
                spec_stmts_from(views_of(toks@), p.1 as nat),
            ) && i < p.1 <= n,
            Err(e) => spec_stmts_from(views_of(toks@), i as nat) == Err::<
                Seq<StmtView>,
                ParseError,
            >(e),
        },
    decreases toks@.len(), 0nat, 4nat,
{
    let ghost tv = views_of(toks@);
    proof {
        assert(tv.len() == toks@.len());
        lemma_keywords_distinct();
    }
    let mut cname: Option<String> = None;
    if i + 1 < n {
        let t1 = slice_index_get(toks, i + 1);
        proof {
            assert(tv[i + 1] == t1@);
        }
        match t1 {
            Token::Identifier(x) => {
                cname = Some(x.clone());
            },
            _ => {},
        }
    }
    match cname {
        None => Err(ParseError::ExpectedIdentifier(i + 1)),
        Some(cn) => {
            let bst = exec_skip_nl(toks, n, i + 2);
            let mut brace_ok = false;
            if bst < n {
                let tb = slice_index_get(toks, bst);
                proof {
                    assert(tv[bst as int] == tb@);
                }
                brace_ok = match tb {
                    Token::Operator(op) => *op == EOperator::LBrace,
                    _ => false,
                };
            }
            if !brace_ok {
                return Err(ParseError::ExpectedLBrace(bst));
            }
            match class_scan(toks, n, bst + 1, Ghost(cn@)) {
                Err(e) => Err(e),
                Ok((cvars, cfns, ce)) => {
                    let st = Stmt::ClassDecl { name: cn, vars: cvars, fns: cfns };
                    let nxt = if ce < n {
                        ce + 1
                    } else {
                        n
                    };
                    Ok((st, nxt))
                },
            }
        },
    }
}

/// Build the statement sequence of a token slice: declarations,
/// function declarations, bare calls, `return`, class declarations and
/// simple assignments, exactly as [`spec_stmt_gen`] lays them out.
#[verifier::rlimit(60)]
pub fn stmt_gen(toks: &[Token]) -> (r: Result<Vec<Stmt>, ParseError>)
    ensures
        match r {
            Ok(v) => spec_stmt_gen(views_of(toks@)) == Ok::<Seq<StmtView>, ParseError>(
                stmts_view(v@),
            ),
            Err(e) => spec_stmt_gen(views_of(toks@)) == Err::<Seq<StmtView>, ParseError>(e),
        },
    decreases toks@.len(), 0nat, 5nat,
{
    let ghost tv = views_of(toks@);
    proof {
        assert(tv.len() == toks@.len());
    }
    let n = toks.len();
    let mut res: Vec<Stmt> = Vec::new();
    let mut i: usize = 0;
    while i < n
        invariant
            n == toks@.len(),
            tv == views_of(toks@),
            tv.len() == n,
            i <= n,
            stmts_join(stmts_view(res@), spec_stmts_from(tv, i as nat)) == spec_stmt_gen(tv),
        decreases n - i,
    {
        let ghost gi = i as nat;
        let t = slice_index_get(toks, i);
        proof {
            assert(tv[i as int] == t@);
        }
        match t {
            Token::Keyword(kw) => {
                if str_is(kw, "let") || str_is(kw, "var") || str_is(kw, "const") {
                    match parse_let(toks, n, i, kw) {
                        Err(e) => {
                            return Err(e);
                        },
                        Ok(None) => {
                            i = i + 1;
                        },
                        Ok(Some((st, nxt))) => {
                            push_stmt(&mut res, st, Ghost(tv), Ghost(gi), Ghost(nxt as nat));
                            i = nxt;
                        },
                    }
                } else if str_is(kw, "function") {
                    match parse_function(toks, n, i) {
                        Err(e) => {
                            return Err(e);
                        },
                        Ok((st, nxt)) => {
                            push_stmt(&mut res, st, Ghost(tv), Ghost(gi), Ghost(nxt as nat));
                            i = nxt;
                        },
                    }
                } else if str_is(kw, "return") {
                    match parse_return(toks, n, i) {
                        Err(e) => {
                            return Err(e);
                        },
                        Ok((st, nxt)) => {
                            push_stmt(&mut res, st, Ghost(tv), Ghost(gi), Ghost(nxt as nat));
                            i = nxt;
                        },
                    }
                } else if str_is(kw, "class") {
                    match parse_class(toks, n, i) {
                        Err(e) => {
                            return Err(e);
                        },
                        Ok((st, nxt)) => {
                            push_stmt(&mut res, st, Ghost(tv), Ghost(gi), Ghost(nxt as nat));
                            i = nxt;
                        },
                    }
                } else {
                    i = i + 1;
                }
            },
            Token::Operator(op0) => {
                if *op0 == EOperator::LParen {
                    match parse_call(toks, n, i) {
                        None => {
                            i = i + 1;
                        },
                        Some((st, nxt)) => {
                            push_stmt(&mut res, st, Ghost(tv), Ghost(gi), Ghost(nxt as nat));
                            i = nxt;
                        },
                    }
                } else if *op0 == EOperator::Eq {
                    match parse_assign(toks, n, i) {
                        Err(e) => {
                            return Err(e);
                        },
                        Ok((st, nxt)) => {
                            push_stmt(&mut res, st, Ghost(tv), Ghost(gi), Ghost(nxt as nat));
                            i = nxt;
                        },
                    }
                } else {
                    i = i + 1;
                }
            },
            _ => {
                i = i + 1;
            },
        }
    }
    proof {
        assert(stmts_view(res@) + Seq::<StmtView>::empty() =~= stmts_view(res@));
    }
    Ok(res)
}

} // verus!
