//! Properties of the evaluator, stated and proved once for all inputs.

use crate::ast::expr::constants::ConstView;
use crate::ast::expr::ExprView;
use crate::ast::stmt::StmtView;
use crate::parser::module::{spec_lookup, ModuleView};
use crate::parser::obj::{num_dec, spec_apply_op, str_const, EvalErrorView, ObjectView};
use crate::parser::{bind_params, mk_frame, spec_stmt_call};
use crate::text::spec_int_string;
use crate::token::EOperator;
use vstd::prelude::*;

verus! {

/// Adding a string and an integer, in either order, concatenates: the
/// string operand keeps its characters first and the integer is
/// appended in its textual form.
pub proof fn lemma_plus_string_number(s: Seq<char>, raw: bool, fmt: bool, n: i64)
    ensures
        spec_apply_op(
            EOperator::Plus,
            ObjectView::Const(ConstView::Integer(n)),
            ObjectView::Const(ConstView::Str { v: s, is_raw: raw, is_fmt: fmt }),
        ) == Ok::<ObjectView, EvalErrorView>(str_const(s + spec_int_string(n as int))),
        spec_apply_op(
            EOperator::Plus,
            ObjectView::Const(ConstView::Str { v: s, is_raw: raw, is_fmt: fmt }),
            ObjectView::Const(ConstView::Integer(n)),
        ) == Ok::<ObjectView, EvalErrorView>(str_const(s + spec_int_string(n as int))),
{
}

/// Division by a zero divisor — integer zero or a decimal worth zero —
/// fails with `DivisionByZero`, whatever the left operand's numeric
/// value is.
pub proof fn lemma_divide_by_zero(l: ConstView, r: ConstView)
    requires
        num_dec(l) is Some,
        num_dec(r) is Some,
        num_dec(r)->Some_0.mant == 0,
    ensures
        spec_apply_op(EOperator::Divide, ObjectView::Const(r), ObjectView::Const(l)) == Err::<
            ObjectView,
            EvalErrorView,
        >(EvalErrorView::DivisionByZero),
{
}

/// Division by a nonzero divisor never fails with `DivisionByZero` and
/// never yields a non-numeric value: the result is a decimal number,
/// or an overflow report where its mantissa cannot be held.
pub proof fn lemma_divide_nonzero(l: ConstView, r: ConstView)
    requires
        num_dec(l) is Some,
        num_dec(r) is Some,
        num_dec(r)->Some_0.mant != 0,
    ensures
        match spec_apply_op(EOperator::Divide, ObjectView::Const(r), ObjectView::Const(l)) {
            Ok(v) => v matches ObjectView::Const(ConstView::Float(..)),
            Err(e) => e == EvalErrorView::Overflow,
        },
{
}

/// Later parameters that do not rebind `p` leave its binding alone.
proof fn lemma_bind_params_keeps(
    params: Seq<ExprView>,
    vals: Seq<ObjectView>,
    j: nat,
    acc: Map<Seq<char>, ObjectView>,
    p: Seq<char>,
)
    requires
        acc.dom().contains(p),
        forall|k: int|
            j <= k < params.len() ==> !(params[k] == ExprView::Var(p) && k < vals.len()),
    ensures
        bind_params(params, vals, j, acc).dom().contains(p),
        bind_params(params, vals, j, acc)[p] == acc[p],
    decreases params.len() - j,
{
    if j < params.len() {
        let acc2 = if params[j as int] matches ExprView::Var(vn) && j < vals.len() {
            acc.insert(params[j as int]->Var_0, vals[j as int])
        } else {
            acc
        };
        assert(acc2.dom().contains(p) && acc2[p] == acc[p]);
        lemma_bind_params_keeps(params, vals, j + 1, acc2, p);
    }
}

/// A parameter bound before position `j` keeps its place until `j`.
proof fn lemma_bind_params_from(
    params: Seq<ExprView>,
    vals: Seq<ObjectView>,
    j0: nat,
    acc: Map<Seq<char>, ObjectView>,
    j: int,
    p: Seq<char>,
)
    requires
        j0 <= j < params.len(),
        params[j] == ExprView::Var(p),
        j < vals.len(),
        forall|k: int| j < k < params.len() ==> !(params[k] == ExprView::Var(p) && k < vals.len()),
    ensures
        bind_params(params, vals, j0, acc).dom().contains(p),
        bind_params(params, vals, j0, acc)[p] == vals[j],
    decreases params.len() - j0,
{
    if j0 == j {
        let acc2 = acc.insert(p, vals[j]);
        lemma_bind_params_keeps(params, vals, j0 + 1, acc2, p);
    } else {
        let acc2 = if params[j0 as int] matches ExprView::Var(vn) && j0 < vals.len() {
            acc.insert(params[j0 as int]->Var_0, vals[j0 as int])
        } else {
            acc
        };
        lemma_bind_params_from(params, vals, j0 + 1, acc2, j, p);
    }
}

/// Variable shadowing: inside a call frame, a parameter named like an
/// outer variable resolves to the parameter's value — whatever the
/// calling frame binds for that name.
pub proof fn lemma_parameter_shadowing(
    params: Seq<ExprView>,
    vals: Seq<ObjectView>,
    body: Seq<StmtView>,
    caller: ModuleView,
    j: int,
    p: Seq<char>,
)
    requires
        0 <= j < params.len(),
        params[j] == ExprView::Var(p),
        j < vals.len(),
        forall|k: int| j < k < params.len() ==> !(params[k] == ExprView::Var(p) && k < vals.len()),
    ensures
        spec_lookup(mk_frame(params, vals, Map::empty(), body, caller), p) == Some(vals[j]),
{
    lemma_bind_params_from(params, vals, 0, Map::empty(), j, p);
}

/// A call in statement position leaves the calling frame untouched:
/// after the call returns, every outer binding is what it was.
pub proof fn lemma_call_keeps_caller(
    name: Seq<char>,
    args: Seq<ExprView>,
    m: ModuleView,
    fuel: nat,
)
    ensures
        spec_stmt_call(name, args, m, fuel).module == m,
{
    if fuel > 0 {
        match spec_lookup(m, name) {
            Some(callee) => {},
            None => {},
        }
    }
}


/// A literal token carrying a numeric or other constant.
pub open spec fn lit_const(t: crate::token::TokenView) -> ConstView {
    match t {
        crate::token::TokenView::Integer(v) => ConstView::Integer(v),
        crate::token::TokenView::Float(d) => ConstView::Float(d),
        _ => ConstView::Undef,
    }
}

pub open spec fn is_num_lit(t: crate::token::TokenView) -> bool {
    t matches crate::token::TokenView::Integer(..) || t matches crate::token::TokenView::Float(..)
}

pub open spec fn is_arith_op_tok(t: crate::token::TokenView) -> bool {
    t matches crate::token::TokenView::Operator(op) && crate::ast::is_arith(t->Operator_0)
}

/// The infix element list of literals `cs` joined by operators `ops`,
/// from operand `k` on.
pub open spec fn lit_infix(cs: Seq<ConstView>, ops: Seq<EOperator>, k: nat) -> Seq<
    crate::ast::arithmetic::ArithView,
>
    decreases ops.len() - k,
{
    let node = crate::ast::arithmetic::ArithView::Node(Box::new(ExprView::Const(cs[k as int])));
    if k >= ops.len() {
        seq![node]
    } else {
        seq![node, crate::ast::arithmetic::ArithView::Op(ops[k as int])] + lit_infix(
            cs,
            ops,
            k + 1,
        )
    }
}

/// The operators a shunting run emits, consuming `v` over `stack`.
pub open spec fn shunt_emit(
    v: Seq<crate::ast::arithmetic::ArithView>,
    stack: Seq<EOperator>,
) -> Seq<crate::ast::arithmetic::ArithView>
    decreases v.len(), stack.len(),
{
    if v.len() == 0 {
        Seq::empty()
    } else {
        match v[0] {
            crate::ast::arithmetic::ArithView::Node(n) => seq![
                crate::ast::arithmetic::ArithView::Node(n),
            ] + shunt_emit(v.drop_first(), stack),
            crate::ast::arithmetic::ArithView::Op(o) => {
                if stack.len() > 0 && crate::ast::prec(stack.last()) >= crate::ast::prec(o) {
                    seq![crate::ast::arithmetic::ArithView::Op(stack.last())] + shunt_emit(
                        v,
                        stack.drop_last(),
                    )
                } else {
                    shunt_emit(v.drop_first(), stack.push(o))
                }
            },
        }
    }
}

/// The operator stack a shunting run leaves, consuming `v` over `stack`.
pub open spec fn shunt_stack(
    v: Seq<crate::ast::arithmetic::ArithView>,
    stack: Seq<EOperator>,
) -> Seq<EOperator>
    decreases v.len(), stack.len(),
{
    if v.len() == 0 {
        stack
    } else {
        match v[0] {
            crate::ast::arithmetic::ArithView::Node(n) => shunt_stack(v.drop_first(), stack),
            crate::ast::arithmetic::ArithView::Op(o) => {
                if stack.len() > 0 && crate::ast::prec(stack.last()) >= crate::ast::prec(o) {
                    shunt_stack(v, stack.drop_last())
                } else {
                    shunt_stack(v.drop_first(), stack.push(o))
                }
            },
        }
    }
}

/// The conversion to postfix emits as it scans and then empties its
/// stack.
pub proof fn lemma_shunt_as_emit(
    v: Seq<crate::ast::arithmetic::ArithView>,
    i: nat,
    stack: Seq<EOperator>,
    out: Seq<crate::ast::arithmetic::ArithView>,
)
    requires
        i <= v.len(),
    ensures
        crate::ast::shunt(v, i, stack, out) == out + shunt_emit(v.subrange(i as int, v.len() as int), stack)
            + crate::ast::pop_all(shunt_stack(v.subrange(i as int, v.len() as int), stack)),
    decreases v.len() - i, stack.len(),
{
    let rest = v.subrange(i as int, v.len() as int);
    if i >= v.len() {
        assert(rest =~= Seq::<crate::ast::arithmetic::ArithView>::empty());
        assert(out + shunt_emit(rest, stack) =~= out);
    } else {
        assert(rest[0] == v[i as int]);
        match v[i as int] {
            crate::ast::arithmetic::ArithView::Node(n) => {
                lemma_shunt_as_emit(v, i + 1, stack, out.push(
                    crate::ast::arithmetic::ArithView::Node(n),
                ));
                assert(rest.drop_first() =~= v.subrange((i + 1) as int, v.len() as int));
                assert(out.push(crate::ast::arithmetic::ArithView::Node(n)) + shunt_emit(
                    rest.drop_first(),
                    stack,
                ) =~= out + (seq![crate::ast::arithmetic::ArithView::Node(n)] + shunt_emit(
                    rest.drop_first(),
                    stack,
                )));
            },
            crate::ast::arithmetic::ArithView::Op(o) => {
                if stack.len() > 0 && crate::ast::prec(stack.last()) >= crate::ast::prec(o) {
                    lemma_shunt_as_emit(v, i, stack.drop_last(), out.push(
                        crate::ast::arithmetic::ArithView::Op(stack.last()),
                    ));
                    assert(out.push(crate::ast::arithmetic::ArithView::Op(stack.last()))
                        + shunt_emit(rest, stack.drop_last()) =~= out + (seq![
                        crate::ast::arithmetic::ArithView::Op(stack.last()),
                    ] + shunt_emit(rest, stack.drop_last())));
                } else {
                    lemma_shunt_as_emit(v, i + 1, stack.push(o), out);
                    assert(rest.drop_first() =~= v.subrange((i + 1) as int, v.len() as int));
                }
            },
        }
    }
}


/// Index of the last additive operator, or `-1` when none is there.
pub open spec fn last_prec10(ops: Seq<EOperator>) -> int
    decreases ops.len(),
{
    if ops.len() == 0 {
        -1
    } else if crate::ast::prec(ops.last()) == 10 {
        ops.len() - 1
    } else {
        last_prec10(ops.drop_last())
    }
}

/// Where the top of the operator tree splits: at the last additive
/// operator, or — in a purely multiplicative chain — at the last one.
pub open spec fn split_at(ops: Seq<EOperator>) -> int {
    if 0 <= last_prec10(ops) < ops.len() {
        last_prec10(ops)
    } else {
        ops.len() - 1
    }
}

/// The postfix form of literals under standard precedence: products
/// and quotients bind tighter than sums and differences, and operators
/// of one tier associate to the left.
pub open spec fn std_postfix(cs: Seq<ConstView>, ops: Seq<EOperator>) -> Seq<
    crate::ast::arithmetic::ArithView,
>
    decreases ops.len(),
{
    if ops.len() == 0 {
        seq![crate::ast::arithmetic::ArithView::Node(Box::new(ExprView::Const(cs[0])))]
    } else {
        let i = split_at(ops);
        std_postfix(cs.take(i + 1), ops.take(i)) + std_postfix(cs.skip(i + 1), ops.skip(i + 1))
            + seq![crate::ast::arithmetic::ArithView::Op(ops[i])]
    }
}

/// Evaluation of literals under standard precedence, operands left to
/// right.
pub open spec fn std_eval(cs: Seq<ConstView>, ops: Seq<EOperator>) -> Result<
    ObjectView,
    EvalErrorView,
>
    decreases ops.len(),
{
    if ops.len() == 0 {
        Ok(ObjectView::Const(cs[0]))
    } else {
        let i = split_at(ops);
        match std_eval(cs.take(i + 1), ops.take(i)) {
            Err(e) => Err(e),
            Ok(l) => match std_eval(cs.skip(i + 1), ops.skip(i + 1)) {
                Err(e) => Err(e),
                Ok(r) => spec_apply_op(ops[i], r, l),
            },
        }
    }
}

proof fn lemma_last_prec10_facts(ops: Seq<EOperator>)
    ensures
        -1 <= last_prec10(ops) < ops.len(),
        last_prec10(ops) >= 0 ==> crate::ast::prec(ops[last_prec10(ops)]) == 10,
        forall|k: int|
            last_prec10(ops) < k < ops.len() ==> crate::ast::prec(ops[k]) != 10,
    decreases ops.len(),
{
    if ops.len() > 0 && crate::ast::prec(ops.last()) != 10 {
        lemma_last_prec10_facts(ops.drop_last());
        assert(forall|k: int| 0 <= k < ops.len() - 1 ==> ops.drop_last()[k] == ops[k]);
    }
}

proof fn lemma_pop_all_bottom(a: EOperator, s: Seq<EOperator>)
    ensures
        crate::ast::pop_all(seq![a] + s) == crate::ast::pop_all(s) + seq![
            crate::ast::arithmetic::ArithView::Op(a),
        ],
    decreases s.len(),
{
    if s.len() == 0 {
        assert(seq![a] + s =~= seq![a]);
        assert((seq![a]).drop_last() =~= Seq::<EOperator>::empty());
        assert(crate::ast::pop_all(Seq::<EOperator>::empty())
            == Seq::<crate::ast::arithmetic::ArithView>::empty());
        assert(crate::ast::pop_all(seq![a]) =~= seq![crate::ast::arithmetic::ArithView::Op(a)]);
        assert(crate::ast::pop_all(s) + seq![crate::ast::arithmetic::ArithView::Op(a)] =~= seq![
            crate::ast::arithmetic::ArithView::Op(a),
        ]);
    } else {
        assert((seq![a] + s).last() == s.last());
        assert((seq![a] + s).drop_last() =~= seq![a] + s.drop_last());
        lemma_pop_all_bottom(a, s.drop_last());
        assert(seq![crate::ast::arithmetic::ArithView::Op(s.last())] + (crate::ast::pop_all(
            s.drop_last(),
        ) + seq![crate::ast::arithmetic::ArithView::Op(a)]) =~= (seq![
            crate::ast::arithmetic::ArithView::Op(s.last()),
        ] + crate::ast::pop_all(s.drop_last())) + seq![crate::ast::arithmetic::ArithView::Op(a)]);
    }
}

/// Shift a literal infix list to start at its `k`-th operand.
proof fn lemma_lit_infix_shift(cs: Seq<ConstView>, ops: Seq<EOperator>, k: nat)
    requires
        cs.len() == ops.len() + 1,
        k <= ops.len(),
    ensures
        lit_infix(cs, ops, k) == lit_infix(cs.skip(k as int), ops.skip(k as int), 0),
    decreases ops.len() - k,
{
    let cs2 = cs.skip(k as int);
    let ops2 = ops.skip(k as int);
    assert(cs2[0] == cs[k as int]);
    if k < ops.len() {
        assert(ops2[0] == ops[k as int]);
        lemma_lit_infix_shift(cs, ops, k + 1);
        assert(cs.skip((k + 1) as int) =~= cs2.skip(1));
        assert(ops.skip((k + 1) as int) =~= ops2.skip(1));
        lemma_lit_infix_shift(cs2, ops2, 1);
    }
}

/// Split a literal infix list at operator `i`.
proof fn lemma_lit_infix_split(cs: Seq<ConstView>, ops: Seq<EOperator>, i: int)
    requires
        cs.len() == ops.len() + 1,
        0 <= i < ops.len(),
    ensures
        lit_infix(cs, ops, 0) == lit_infix(cs.take(i + 1), ops.take(i), 0) + seq![
            crate::ast::arithmetic::ArithView::Op(ops[i]),
        ] + lit_infix(cs.skip(i + 1), ops.skip(i + 1), 0),
    decreases i,
{
    let csa = cs.take(i + 1);
    let opsa = ops.take(i);
    if i == 0 {
        assert(csa[0] == cs[0]);
        assert(lit_infix(csa, opsa, 0) =~= seq![
            crate::ast::arithmetic::ArithView::Node(Box::new(ExprView::Const(cs[0]))),
        ]);
        lemma_lit_infix_shift(cs, ops, 1);
        assert((lit_infix(csa, opsa, 0) + seq![crate::ast::arithmetic::ArithView::Op(ops[0])]
            + lit_infix(cs.skip(1), ops.skip(1), 0)) =~= seq![
            crate::ast::arithmetic::ArithView::Node(Box::new(ExprView::Const(cs[0]))),
            crate::ast::arithmetic::ArithView::Op(ops[0]),
        ] + lit_infix(cs, ops, 1));
    } else {
        lemma_lit_infix_split(cs.skip(1), ops.skip(1), i - 1);
        lemma_lit_infix_shift(cs, ops, 1);
        assert(cs.skip(1).take(i) =~= csa.skip(1));
        assert(ops.skip(1).take(i - 1) =~= opsa.skip(1));
        assert(cs.skip(1).skip(i) =~= cs.skip(i + 1));
        assert(ops.skip(1).skip(i) =~= ops.skip(i + 1));
        assert(cs.skip(1)[i - 1 + 1] == cs[i + 1]);
        assert(ops.skip(1)[i - 1] == ops[i]);
        lemma_lit_infix_shift(csa, opsa, 1);
        assert(csa[0] == cs[0] && opsa[0] == ops[0]);
        assert(csa.skip(1) =~= cs.skip(1).take(i));
        // assemble both decompositions element-wise
        assert(lit_infix(cs, ops, 0) == seq![
            crate::ast::arithmetic::ArithView::Node(Box::new(ExprView::Const(cs[0]))),
            crate::ast::arithmetic::ArithView::Op(ops[0]),
        ] + lit_infix(cs, ops, 1));
        assert(lit_infix(csa, opsa, 0) == seq![
            crate::ast::arithmetic::ArithView::Node(Box::new(ExprView::Const(cs[0]))),
            crate::ast::arithmetic::ArithView::Op(ops[0]),
        ] + lit_infix(csa, opsa, 1));
        assert(lit_infix(cs, ops, 1) == lit_infix(cs.skip(1), ops.skip(1), 0));
        assert(lit_infix(csa, opsa, 1) == lit_infix(csa.skip(1), opsa.skip(1), 0));
        assert(lit_infix(cs.skip(1), ops.skip(1), 0) == lit_infix(cs.skip(1).take(i), ops.skip(
            1,
        ).take(i - 1), 0) + seq![crate::ast::arithmetic::ArithView::Op(ops[i])] + lit_infix(
            cs.skip(i + 1),
            ops.skip(i + 1),
            0,
        ));
        assert(opsa.skip(1) =~= ops.skip(1).take(i - 1));
        assert((seq![
            crate::ast::arithmetic::ArithView::Node(Box::new(ExprView::Const(cs[0]))),
            crate::ast::arithmetic::ArithView::Op(ops[0]),
        ] + (lit_infix(csa.skip(1), opsa.skip(1), 0) + seq![
            crate::ast::arithmetic::ArithView::Op(ops[i]),
        ] + lit_infix(cs.skip(i + 1), ops.skip(i + 1), 0))) =~= ((seq![
            crate::ast::arithmetic::ArithView::Node(Box::new(ExprView::Const(cs[0]))),
            crate::ast::arithmetic::ArithView::Op(ops[0]),
        ] + lit_infix(csa.skip(1), opsa.skip(1), 0)) + seq![
            crate::ast::arithmetic::ArithView::Op(ops[i]),
        ] + lit_infix(cs.skip(i + 1), ops.skip(i + 1), 0)));
    }
}


/// An additive operator empties the whole stack of arithmetic
/// operators before taking their place.
proof fn lemma_flush(
    a: EOperator,
    rest: Seq<crate::ast::arithmetic::ArithView>,
    s: Seq<EOperator>,
)
    requires
        crate::ast::prec(a) == 10,
        forall|k: int| 0 <= k < s.len() ==> crate::ast::prec(#[trigger] s[k]) >= 10,
    ensures
        shunt_emit(seq![crate::ast::arithmetic::ArithView::Op(a)] + rest, s) == crate::ast::pop_all(
            s,
        ) + shunt_emit(rest, seq![a]),
        shunt_stack(seq![crate::ast::arithmetic::ArithView::Op(a)] + rest, s) == shunt_stack(
            rest,
            seq![a],
        ),
    decreases s.len(),
{
    let v = seq![crate::ast::arithmetic::ArithView::Op(a)] + rest;
    assert(v[0] == crate::ast::arithmetic::ArithView::Op(a));
    if s.len() == 0 {
        assert(v.drop_first() =~= rest);
        assert(s.push(a) =~= seq![a]);
        assert(crate::ast::pop_all(s) + shunt_emit(rest, seq![a]) =~= shunt_emit(rest, seq![a]));
    } else {
        assert(crate::ast::prec(s.last()) >= crate::ast::prec(a));
        assert(forall|k: int|
            0 <= k < s.len() - 1 ==> crate::ast::prec(#[trigger] s.drop_last()[k]) >= 10);
        lemma_flush(a, rest, s.drop_last());
        assert(seq![crate::ast::arithmetic::ArithView::Op(s.last())] + (crate::ast::pop_all(
            s.drop_last(),
        ) + shunt_emit(rest, seq![a])) =~= (seq![
            crate::ast::arithmetic::ArithView::Op(s.last()),
        ] + crate::ast::pop_all(s.drop_last())) + shunt_emit(rest, seq![a]));
    }
}

/// A multiplicative run never reaches an additive operator at the
/// bottom of the stack: it behaves as if the bottom were absent.
proof fn lemma_mult_bottom(
    v: Seq<crate::ast::arithmetic::ArithView>,
    bot: EOperator,
    s: Seq<EOperator>,
)
    requires
        crate::ast::prec(bot) == 10,
        forall|k: int|
            0 <= k < v.len() ==> ((#[trigger] v[k]) matches crate::ast::arithmetic::ArithView::Op(
                o,
            ) ==> crate::ast::prec(v[k]->Op_0) == 20),
        forall|k: int| 0 <= k < s.len() ==> crate::ast::prec(#[trigger] s[k]) == 20,
    ensures
        shunt_emit(v, seq![bot] + s) == shunt_emit(v, s),
        shunt_stack(v, seq![bot] + s) == seq![bot] + shunt_stack(v, s),
    decreases v.len(), s.len(),
{
    let bs = seq![bot] + s;
    if v.len() == 0 {
    } else {
        match v[0] {
            crate::ast::arithmetic::ArithView::Node(n) => {
                assert(forall|k: int|
                    0 <= k < v.drop_first().len() ==> (#[trigger] v.drop_first()[k]) == v[k + 1]);
                lemma_mult_bottom(v.drop_first(), bot, s);
            },
            crate::ast::arithmetic::ArithView::Op(o) => {
                assert(crate::ast::prec(o) == 20);
                if s.len() > 0 {
                    assert(bs.last() == s.last());
                    assert(crate::ast::prec(s.last()) >= crate::ast::prec(o));
                    assert(bs.drop_last() =~= seq![bot] + s.drop_last());
                    assert(forall|k: int|
                        0 <= k < s.len() - 1 ==> crate::ast::prec(
                            #[trigger] s.drop_last()[k],
                        ) == 20);
                    lemma_mult_bottom(v, bot, s.drop_last());
                } else {
                    assert(bs.last() == bot);
                    assert(!(crate::ast::prec(bot) >= crate::ast::prec(o)));
                    assert(forall|k: int|
                        0 <= k < v.drop_first().len() ==> (#[trigger] v.drop_first()[k]) == v[k
                            + 1]);
                    assert(bs.push(o) =~= seq![bot] + s.push(o));
                    assert(forall|k: int|
                        0 <= k < s.push(o).len() ==> crate::ast::prec(
                            #[trigger] s.push(o)[k],
                        ) == 20);
                    lemma_mult_bottom(v.drop_first(), bot, s.push(o));
                }
            },
        }
    }
}

/// A purely multiplicative chain converts to its left-associated
/// postfix, one operator pending at the end.
proof fn lemma_allmult(cs: Seq<ConstView>, ops: Seq<EOperator>)
    requires
        cs.len() == ops.len() + 1,
        ops.len() >= 1,
        forall|k: int| 0 <= k < ops.len() ==> crate::ast::prec(#[trigger] ops[k]) == 20,
    ensures
        shunt_stack(lit_infix(cs, ops, 0), Seq::empty()) == seq![ops.last()],
        shunt_emit(lit_infix(cs, ops, 0), Seq::empty()) + seq![
            crate::ast::arithmetic::ArithView::Op(ops.last()),
        ] == std_postfix(cs, ops),
    decreases ops.len(),
{
    reveal_with_fuel(shunt_emit, 6);
    reveal_with_fuel(shunt_stack, 6);
    reveal_with_fuel(std_postfix, 3);
    reveal_with_fuel(lit_infix, 4);
    lemma_last_prec10_facts(ops);
    assert(last_prec10(ops) == -1);
    let i = split_at(ops);
    assert(i == ops.len() - 1);
    let n0 = crate::ast::arithmetic::ArithView::Node(Box::new(ExprView::Const(cs[0])));
    if ops.len() == 1 {
        let v = lit_infix(cs, ops, 0);
        let c1 = crate::ast::arithmetic::ArithView::Node(
            Box::new(ExprView::Const(cs[1])),
        );
        assert(lit_infix(cs, ops, 1) =~= seq![c1]);
        assert(v =~= seq![n0, crate::ast::arithmetic::ArithView::Op(ops[0]), c1]);
        assert(v[0] == n0);
        assert(v.drop_first() =~= seq![crate::ast::arithmetic::ArithView::Op(ops[0]), c1]);
        assert(v.drop_first()[0] == crate::ast::arithmetic::ArithView::Op(ops[0]));
        assert(v.drop_first().drop_first() =~= seq![c1]);
        assert(Seq::<EOperator>::empty().push(ops[0]) =~= seq![ops[0]]);
        assert((seq![c1]).drop_first() =~= Seq::<crate::ast::arithmetic::ArithView>::empty());
        assert(shunt_emit(v, Seq::empty()) =~= seq![n0, c1]);
        assert(shunt_stack(v, Seq::empty()) == seq![ops[0]]);
        assert(cs.take(i + 1) =~= seq![cs[0]]);
        assert(cs.skip(i + 1) =~= seq![cs[1]]);
        assert(std_postfix(cs, ops) =~= seq![n0, c1, crate::ast::arithmetic::ArithView::Op(
            ops[0],
        )]);
        assert(shunt_emit(v, Seq::empty()) + seq![crate::ast::arithmetic::ArithView::Op(
            ops.last(),
        )] =~= std_postfix(cs, ops));
    } else {
        let csa = cs.take(i + 1);
        let opsa = ops.take(i);
        let csm = cs.skip(i + 1);
        lemma_lit_infix_split(cs, ops, i);
        assert(forall|k: int| 0 <= k < opsa.len() ==> opsa[k] == ops[k]);
        lemma_allmult(csa, opsa);
        let va = lit_infix(csa, opsa, 0);
        let tailp = seq![crate::ast::arithmetic::ArithView::Op(ops[i])] + lit_infix(
            csm,
            ops.skip(i + 1),
            0,
        );
        let cm = crate::ast::arithmetic::ArithView::Node(
            Box::new(ExprView::Const(csm[0])),
        );
        assert(ops.skip(i + 1).len() == 0);
        assert(lit_infix(csm, ops.skip(i + 1), 0) =~= seq![cm]);
        lemma_shunt_emit_app(va, tailp, Seq::empty());
        // process the tail over the stack left by the prefix
        let st1 = seq![opsa.last()];
        assert(tailp[0] == crate::ast::arithmetic::ArithView::Op(ops[i]));
        assert(crate::ast::prec(st1.last()) >= crate::ast::prec(ops[i]));
        assert(st1.drop_last() =~= Seq::<EOperator>::empty());
        assert(tailp.drop_first() =~= seq![cm]);
        assert(Seq::<EOperator>::empty().push(ops[i]) =~= seq![ops[i]]);
        assert((seq![cm]).drop_first() =~= Seq::<crate::ast::arithmetic::ArithView>::empty());
        assert(shunt_emit(tailp, st1) =~= seq![
            crate::ast::arithmetic::ArithView::Op(opsa.last()),
            cm,
        ]);
        assert(shunt_stack(tailp, st1) == seq![ops[i]]);
        assert(lit_infix(cs, ops, 0) =~= va + tailp);
        assert(opsa.last() == ops[i - 1]);
        assert(shunt_emit(va + tailp, Seq::empty()) =~= shunt_emit(va, Seq::empty()) + seq![
            crate::ast::arithmetic::ArithView::Op(opsa.last()),
            cm,
        ]);
        assert((shunt_emit(va, Seq::empty()) + seq![
            crate::ast::arithmetic::ArithView::Op(opsa.last()),
            cm,
        ]) + seq![crate::ast::arithmetic::ArithView::Op(ops[i])] =~= (shunt_emit(
            va,
            Seq::empty(),
        ) + seq![crate::ast::arithmetic::ArithView::Op(opsa.last())]) + (seq![cm] + seq![
            crate::ast::arithmetic::ArithView::Op(ops[i]),
        ]));
        assert(std_postfix(csm, ops.skip(i + 1)) =~= seq![cm]);
        assert(std_postfix(cs, ops) =~= std_postfix(csa, opsa) + seq![cm] + seq![
            crate::ast::arithmetic::ArithView::Op(ops[i]),
        ]);
        assert((std_postfix(csa, opsa) + (seq![cm] + seq![
            crate::ast::arithmetic::ArithView::Op(ops[i]),
        ])) =~= std_postfix(csa, opsa) + seq![cm] + seq![
            crate::ast::arithmetic::ArithView::Op(ops[i]),
        ]);
    }
}

/// Emissions and stack compose over concatenation of the input.
proof fn lemma_shunt_emit_app(
    p1: Seq<crate::ast::arithmetic::ArithView>,
    p2: Seq<crate::ast::arithmetic::ArithView>,
    s: Seq<EOperator>,
)
    ensures
        shunt_emit(p1 + p2, s) == shunt_emit(p1, s) + shunt_emit(p2, shunt_stack(p1, s)),
        shunt_stack(p1 + p2, s) == shunt_stack(p2, shunt_stack(p1, s)),
    decreases p1.len(), s.len(),
{
    if p1.len() == 0 {
        assert(p1 + p2 =~= p2);
        assert(shunt_emit(p1, s) + shunt_emit(p2, s) =~= shunt_emit(p2, s));
    } else {
        assert((p1 + p2)[0] == p1[0]);
        match p1[0] {
            crate::ast::arithmetic::ArithView::Node(n) => {
                assert((p1 + p2).drop_first() =~= p1.drop_first() + p2);
                lemma_shunt_emit_app(p1.drop_first(), p2, s);
                assert(seq![crate::ast::arithmetic::ArithView::Node(n)] + (shunt_emit(
                    p1.drop_first(),
                    s,
                ) + shunt_emit(p2, shunt_stack(p1.drop_first(), s))) =~= (seq![
                    crate::ast::arithmetic::ArithView::Node(n),
                ] + shunt_emit(p1.drop_first(), s)) + shunt_emit(
                    p2,
                    shunt_stack(p1.drop_first(), s),
                ));
            },
            crate::ast::arithmetic::ArithView::Op(o) => {
                if s.len() > 0 && crate::ast::prec(s.last()) >= crate::ast::prec(o) {
                    lemma_shunt_emit_app(p1, p2, s.drop_last());
                    assert(seq![crate::ast::arithmetic::ArithView::Op(s.last())] + (shunt_emit(
                        p1,
                        s.drop_last(),
                    ) + shunt_emit(p2, shunt_stack(p1, s.drop_last()))) =~= (seq![
                        crate::ast::arithmetic::ArithView::Op(s.last()),
                    ] + shunt_emit(p1, s.drop_last())) + shunt_emit(
                        p2,
                        shunt_stack(p1, s.drop_last()),
                    ));
                } else {
                    assert((p1 + p2).drop_first() =~= p1.drop_first() + p2);
                    lemma_shunt_emit_app(p1.drop_first(), p2, s.push(o));
                }
            },
        }
    }
}


/// Every operator in a literal infix list is one of the given
/// operators.
proof fn lemma_lit_infix_ops(cs: Seq<ConstView>, ops: Seq<EOperator>, k: nat)
    requires
        k <= ops.len(),
    ensures
        forall|j: int|
            (0 <= j < lit_infix(cs, ops, k).len() && (#[trigger] lit_infix(cs, ops, k)[j])
                is Op) ==> exists|t: int|
                0 <= t < ops.len() && lit_infix(cs, ops, k)[j]->Op_0 == ops[t],
    decreases ops.len() - k,
{
    if k < ops.len() {
        lemma_lit_infix_ops(cs, ops, k + 1);
        let v = lit_infix(cs, ops, k);
        let rest = lit_infix(cs, ops, k + 1);
        assert(forall|j: int| 0 <= j < rest.len() ==> v[j + 2] == rest[j]);
        assert(forall|j: int|
            (0 <= j < v.len() && (#[trigger] v[j]) is Op) ==> exists|t: int|
                0 <= t < ops.len() && v[j]->Op_0 == ops[t]) by {
            assert(v[1]->Op_0 == ops[k as int]);
        }
    }
}

/// The operator stack only ever holds operators that entered it.
proof fn lemma_stack_arith(
    v: Seq<crate::ast::arithmetic::ArithView>,
    s: Seq<EOperator>,
)
    requires
        forall|k: int|
            0 <= k < v.len() ==> ((#[trigger] v[k]) matches crate::ast::arithmetic::ArithView::Op(
                o,
            ) ==> crate::ast::prec(v[k]->Op_0) >= 10),
        forall|k: int| 0 <= k < s.len() ==> crate::ast::prec(#[trigger] s[k]) >= 10,
    ensures
        forall|k: int|
            0 <= k < shunt_stack(v, s).len() ==> crate::ast::prec(
                #[trigger] shunt_stack(v, s)[k],
            ) >= 10,
    decreases v.len(), s.len(),
{
    if v.len() > 0 {
        match v[0] {
            crate::ast::arithmetic::ArithView::Node(n) => {
                assert(forall|k: int|
                    0 <= k < v.drop_first().len() ==> (#[trigger] v.drop_first()[k]) == v[k + 1]);
                lemma_stack_arith(v.drop_first(), s);
                assert(shunt_stack(v, s) == shunt_stack(v.drop_first(), s));
            },
            crate::ast::arithmetic::ArithView::Op(o) => {
                if s.len() > 0 && crate::ast::prec(s.last()) >= crate::ast::prec(o) {
                    assert(forall|k: int|
                        0 <= k < s.len() - 1 ==> crate::ast::prec(
                            #[trigger] s.drop_last()[k],
                        ) >= 10);
                    lemma_stack_arith(v, s.drop_last());
                    assert(shunt_stack(v, s) == shunt_stack(v, s.drop_last()));
                } else {
                    assert(crate::ast::prec(v[0]->Op_0) >= 10);
                    assert(forall|k: int|
                        0 <= k < v.drop_first().len() ==> (#[trigger] v.drop_first()[k]) == v[k
                            + 1]);
                    assert(forall|k: int|
                        0 <= k < s.push(o).len() ==> crate::ast::prec(
                            #[trigger] s.push(o)[k],
                        ) >= 10);
                    lemma_stack_arith(v.drop_first(), s.push(o));
                    assert(shunt_stack(v, s) == shunt_stack(v.drop_first(), s.push(o)));
                }
            },
        }
    }
}

/// Converting a literal infix list to postfix respects standard
/// precedence: the result is the postfix of the standard parse.
#[verifier::rlimit(100)]
#[verifier::spinoff_prover]
proof fn lemma_shunt_std(cs: Seq<ConstView>, ops: Seq<EOperator>)
    requires
        cs.len() == ops.len() + 1,
        forall|k: int| 0 <= k < ops.len() ==> crate::ast::is_arith(#[trigger] ops[k]),
    ensures
        shunt_emit(lit_infix(cs, ops, 0), Seq::empty()) + crate::ast::pop_all(
            shunt_stack(lit_infix(cs, ops, 0), Seq::empty()),
        ) == std_postfix(cs, ops),
    decreases ops.len(),
{
    reveal_with_fuel(shunt_emit, 4);
    reveal_with_fuel(shunt_stack, 4);
    reveal_with_fuel(crate::ast::pop_all, 4);
    reveal_with_fuel(std_postfix, 2);
    reveal_with_fuel(lit_infix, 3);
    assert(forall|k: int|
        0 <= k < ops.len() ==> crate::ast::prec(#[trigger] ops[k]) == 10 || crate::ast::prec(
            ops[k],
        ) == 20);
    let whole = lit_infix(cs, ops, 0);
    if ops.len() == 0 {
        let n0 = crate::ast::arithmetic::ArithView::Node(Box::new(ExprView::Const(cs[0])));
        assert(whole =~= seq![n0]);
        assert((seq![n0]).drop_first() =~= Seq::<crate::ast::arithmetic::ArithView>::empty());
        assert(shunt_emit(whole, Seq::empty()) =~= seq![n0]);
        assert(shunt_stack(whole, Seq::empty()) =~= Seq::<EOperator>::empty());
        assert(shunt_emit(whole, Seq::empty()) + crate::ast::pop_all(
            Seq::<EOperator>::empty(),
        ) =~= std_postfix(cs, ops));
    } else {
        lemma_last_prec10_facts(ops);
        let la = last_prec10(ops);
        if la == -1 {
            assert(forall|k: int| 0 <= k < ops.len() ==> crate::ast::prec(#[trigger] ops[k]) == 20);
            lemma_allmult(cs, ops);
            assert(crate::ast::pop_all(seq![ops.last()]) =~= seq![
                crate::ast::arithmetic::ArithView::Op(ops.last()),
            ]);
        } else {
            let i = la;
            assert(split_at(ops) == i);
            let csa = cs.take(i + 1);
            let opsa = ops.take(i);
            let csm = cs.skip(i + 1);
            let opsm = ops.skip(i + 1);
            let a = ops[i];
            assert(crate::ast::prec(a) == 10);
            assert(forall|k: int| 0 <= k < opsa.len() ==> opsa[k] == ops[k]);
            assert(forall|k: int| 0 <= k < opsm.len() ==> opsm[k] == ops[k + i + 1]);
            assert(forall|k: int|
                0 <= k < opsm.len() ==> crate::ast::prec(#[trigger] opsm[k]) == 20);
            let va = lit_infix(csa, opsa, 0);
            let vm = lit_infix(csm, opsm, 0);
            lemma_lit_infix_split(cs, ops, i);
            assert(whole =~= va + (seq![crate::ast::arithmetic::ArithView::Op(a)] + vm));
            let tail = seq![crate::ast::arithmetic::ArithView::Op(a)] + vm;
            lemma_shunt_emit_app(va, tail, Seq::empty());
            let stka = shunt_stack(va, Seq::empty());
            lemma_lit_infix_ops(csa, opsa, 0);
            assert(forall|k: int|
                0 <= k < va.len() ==> ((#[trigger] va[k])
                    matches crate::ast::arithmetic::ArithView::Op(o) ==> crate::ast::prec(
                    va[k]->Op_0,
                ) >= 10));
            lemma_stack_arith(va, Seq::empty());
            lemma_flush(a, vm, stka);
            lemma_shunt_std(csa, opsa);
            lemma_lit_infix_ops(csm, opsm, 0);
            assert(forall|k: int|
                0 <= k < vm.len() ==> ((#[trigger] vm[k])
                    matches crate::ast::arithmetic::ArithView::Op(o) ==> crate::ast::prec(
                    vm[k]->Op_0,
                ) == 20));
            assert(seq![a] + Seq::<EOperator>::empty() =~= seq![a]);
            lemma_mult_bottom(vm, a, Seq::empty());
            let stkm = shunt_stack(vm, Seq::empty());
            lemma_pop_all_bottom(a, stkm);
            if opsm.len() == 0 {
                let cm = crate::ast::arithmetic::ArithView::Node(
                    Box::new(ExprView::Const(csm[0])),
                );
                assert(vm =~= seq![cm]);
                assert((seq![cm]).drop_first()
                    =~= Seq::<crate::ast::arithmetic::ArithView>::empty());
                assert(shunt_emit(vm, Seq::empty()) =~= seq![cm]);
                assert(stkm =~= Seq::<EOperator>::empty());
                assert(std_postfix(csm, opsm) =~= seq![cm]);
            } else {
                lemma_allmult(csm, opsm);
            }
            assert((shunt_emit(va, Seq::empty()) + (crate::ast::pop_all(stka) + shunt_emit(
                vm,
                Seq::empty(),
            ))) + (crate::ast::pop_all(stkm) + seq![crate::ast::arithmetic::ArithView::Op(a)])
                =~= ((shunt_emit(va, Seq::empty()) + crate::ast::pop_all(stka)) + (shunt_emit(
                vm,
                Seq::empty(),
            ) + crate::ast::pop_all(stkm))) + seq![crate::ast::arithmetic::ArithView::Op(a)]);
            if opsm.len() == 0 {
                assert((shunt_emit(vm, Seq::empty()) + crate::ast::pop_all(stkm))
                    =~= std_postfix(csm, opsm));
            } else {
                assert(crate::ast::pop_all(seq![opsm.last()]) =~= seq![
                    crate::ast::arithmetic::ArithView::Op(opsm.last()),
                ]);
                assert((shunt_emit(vm, Seq::empty()) + crate::ast::pop_all(stkm))
                    =~= std_postfix(csm, opsm));
            }
            assert(std_postfix(cs, ops) == std_postfix(csa, opsa) + std_postfix(csm, opsm)
                + seq![crate::ast::arithmetic::ArithView::Op(a)]);
            assert((std_postfix(csa, opsa) + std_postfix(csm, opsm)) + seq![
                crate::ast::arithmetic::ArithView::Op(a),
            ] =~= std_postfix(csa, opsa) + std_postfix(csm, opsm) + seq![
                crate::ast::arithmetic::ArithView::Op(a),
            ]);
        }
    }
}


/// A pure stack machine over a constant-only postfix sequence: the
/// final operand stack, or the error that stopped it.
pub open spec fn run_postfix(
    p: Seq<crate::ast::arithmetic::ArithView>,
    stack: Seq<ObjectView>,
) -> Result<Seq<ObjectView>, EvalErrorView>
    decreases p.len(),
{
    if p.len() == 0 {
        Ok(stack)
    } else {
        match p[0] {
            crate::ast::arithmetic::ArithView::Node(n) => {
                if (*n) matches ExprView::Const(c) {
                    run_postfix(p.drop_first(), stack.push(ObjectView::Const((*n)->Const_0)))
                } else {
                    Err(EvalErrorView::MalformedExpression)
                }
            },
            crate::ast::arithmetic::ArithView::Op(o) => {
                if stack.len() < 2 {
                    Err(EvalErrorView::MalformedExpression)
                } else {
                    match spec_apply_op(o, stack.last(), stack[stack.len() - 2]) {
                        Err(e) => Err(e),
                        Ok(v) => run_postfix(
                            p.drop_first(),
                            stack.drop_last().drop_last().push(v),
                        ),
                    }
                }
            },
        }
    }
}

/// The machine composes over concatenation of its input.
proof fn lemma_run_app(
    p1: Seq<crate::ast::arithmetic::ArithView>,
    p2: Seq<crate::ast::arithmetic::ArithView>,
    st: Seq<ObjectView>,
)
    ensures
        run_postfix(p1 + p2, st) == (match run_postfix(p1, st) {
            Ok(s) => run_postfix(p2, s),
            Err(e) => Err(e),
        }),
    decreases p1.len(),
{
    if p1.len() == 0 {
        assert(p1 + p2 =~= p2);
    } else {
        assert((p1 + p2)[0] == p1[0]);
        assert((p1 + p2).drop_first() =~= p1.drop_first() + p2);
        match p1[0] {
            crate::ast::arithmetic::ArithView::Node(n) => {
                if (*n) matches ExprView::Const(c) {
                    lemma_run_app(p1.drop_first(), p2, st.push(ObjectView::Const((*n)->Const_0)));
                }
            },
            crate::ast::arithmetic::ArithView::Op(o) => {
                if st.len() >= 2 {
                    match spec_apply_op(o, st.last(), st[st.len() - 2]) {
                        Err(e) => {},
                        Ok(v) => {
                            lemma_run_app(
                                p1.drop_first(),
                                p2,
                                st.drop_last().drop_last().push(v),
                            );
                        },
                    }
                }
            },
        }
    }
}

/// Running the standard-precedence postfix pushes the standard
/// evaluation of the literals, or stops at its error.
proof fn lemma_run_std(cs: Seq<ConstView>, ops: Seq<EOperator>, st: Seq<ObjectView>)
    requires
        cs.len() == ops.len() + 1,
    ensures
        run_postfix(std_postfix(cs, ops), st) == (match std_eval(cs, ops) {
            Ok(v) => Ok(st.push(v)),
            Err(e) => Err::<Seq<ObjectView>, EvalErrorView>(e),
        }),
    decreases ops.len(),
{
    reveal_with_fuel(run_postfix, 3);
    if ops.len() == 0 {
        let n0 = crate::ast::arithmetic::ArithView::Node(Box::new(ExprView::Const(cs[0])));
        assert(std_postfix(cs, ops) =~= seq![n0]);
        assert((seq![n0]).drop_first() =~= Seq::<crate::ast::arithmetic::ArithView>::empty());
    } else {
        let i = split_at(ops);
        lemma_last_prec10_facts(ops);
        let csa = cs.take(i + 1);
        let opsa = ops.take(i);
        let csm = cs.skip(i + 1);
        let opsm = ops.skip(i + 1);
        let pa = std_postfix(csa, opsa);
        let pm = std_postfix(csm, opsm);
        let tail = seq![crate::ast::arithmetic::ArithView::Op(ops[i])];
        assert(std_postfix(cs, ops) == pa + pm + tail);
        assert(pa + pm + tail =~= pa + (pm + tail));
        lemma_run_app(pa, pm + tail, st);
        lemma_run_std(csa, opsa, st);
        match std_eval(csa, opsa) {
            Err(e) => {},
            Ok(l) => {
                lemma_run_app(pm, tail, st.push(l));
                lemma_run_std(csm, opsm, st.push(l));
                match std_eval(csm, opsm) {
                    Err(e) => {},
                    Ok(r) => {
                        let s2 = st.push(l).push(r);
                        assert(s2.last() == r);
                        assert(s2[s2.len() - 2] == l);
                        assert(tail[0] == crate::ast::arithmetic::ArithView::Op(ops[i]));
                        assert(tail.drop_first()
                            =~= Seq::<crate::ast::arithmetic::ArithView>::empty());
                        match spec_apply_op(ops[i], r, l) {
                            Err(e) => {},
                            Ok(v) => {
                                assert(s2.drop_last().drop_last().push(v) =~= st.push(v));
                            },
                        }
                    },
                }
            },
        }
    }
}

/// Every node of the standard postfix is a literal constant.
proof fn lemma_std_postfix_shape(cs: Seq<ConstView>, ops: Seq<EOperator>)
    requires
        cs.len() == ops.len() + 1,
    ensures
        std_postfix(cs, ops).len() == 2 * ops.len() + 1,
        forall|j: int|
            (0 <= j < std_postfix(cs, ops).len() && (#[trigger] std_postfix(cs, ops)[j]) is Node)
                ==> (*std_postfix(cs, ops)[j]->Node_0) is Const,
    decreases ops.len(),
{
    if ops.len() > 0 {
        let i = split_at(ops);
        lemma_last_prec10_facts(ops);
        lemma_std_postfix_shape(cs.take(i + 1), ops.take(i));
        lemma_std_postfix_shape(cs.skip(i + 1), ops.skip(i + 1));
        let pa = std_postfix(cs.take(i + 1), ops.take(i));
        let pm = std_postfix(cs.skip(i + 1), ops.skip(i + 1));
        let whole = std_postfix(cs, ops);
        assert(forall|j: int| 0 <= j < pa.len() ==> whole[j] == pa[j]);
        assert(forall|j: int| 0 <= j < pm.len() ==> whole[pa.len() + j] == pm[j]);
        assert(whole[whole.len() - 1] == crate::ast::arithmetic::ArithView::Op(ops[i]));
    }
}

/// Running a constant-only postfix under the interpreter, with fuel to
/// spare, is the pure machine run: no printing, and a lone final
/// operand as the value.
proof fn lemma_arith_fuel(
    p: Seq<crate::ast::arithmetic::ArithView>,
    idx: nat,
    stack: Seq<ObjectView>,
    m: crate::parser::module::ModuleView,
    fuel: nat,
)
    requires
        idx <= p.len(),
        fuel >= 2 * (p.len() - idx) + 2,
        forall|j: int|
            (0 <= j < p.len() && (#[trigger] p[j]) is Node) ==> (*p[j]->Node_0) is Const,
    ensures
        crate::parser::spec_arith(p, idx, stack, m, fuel) == (crate::parser::EvalOutcome {
            result: match run_postfix(p.subrange(idx as int, p.len() as int), stack) {
                Err(e) => Err(e),
                Ok(s) => if s.len() == 1 {
                    Ok(s[0])
                } else {
                    Err(EvalErrorView::MalformedExpression)
                },
            },
            out: Seq::empty(),
        }),
    decreases p.len() - idx,
{
    let rest = p.subrange(idx as int, p.len() as int);
    if idx >= p.len() {
        assert(rest =~= Seq::<crate::ast::arithmetic::ArithView>::empty());
    } else {
        assert(rest[0] == p[idx as int]);
        assert(rest.drop_first() =~= p.subrange((idx + 1) as int, p.len() as int));
        match p[idx as int] {
            crate::ast::arithmetic::ArithView::Node(n) => {
                assert((*n) is Const);
                let c = (*n)->Const_0;
                assert(crate::parser::spec_eval(*n, m, (fuel - 1) as nat)
                    == crate::parser::EvalOutcome {
                    result: Ok(ObjectView::Const(c)),
                    out: Seq::empty(),
                });
                lemma_arith_fuel(p, idx + 1, stack.push(ObjectView::Const(c)), m, (fuel
                    - 1) as nat);
                assert(Seq::<Seq<char>>::empty() + Seq::<Seq<char>>::empty()
                    =~= Seq::<Seq<char>>::empty());
            },
            crate::ast::arithmetic::ArithView::Op(o) => {
                if stack.len() < 2 {
                } else {
                    match spec_apply_op(o, stack.last(), stack[stack.len() - 2]) {
                        Err(e) => {},
                        Ok(v) => {
                            lemma_arith_fuel(
                                p,
                                idx + 1,
                                stack.drop_last().drop_last().push(v),
                                m,
                                (fuel - 1) as nat,
                            );
                        },
                    }
                }
            },
        }
    }
}


/// A single numeric literal reads as its constant.
proof fn lemma_single_lit(t: crate::token::TokenView)
    requires
        is_num_lit(t),
    ensures
        crate::ast::spec_expr_gen(seq![t]) == ExprView::Const(lit_const(t)),
{
    reveal_with_fuel(crate::ast::spec_expr_from, 3);
    assert((seq![t])[0] == t);
}

/// Collecting the infix elements of an alternating literal-operator
/// range, from literal `k` on, yields the literal infix list.
proof fn lemma_collect_lit(
    toks: Seq<crate::token::TokenView>,
    cs: Seq<ConstView>,
    ops: Seq<EOperator>,
    k: nat,
)
    requires
        cs.len() == ops.len() + 1,
        toks.len() == 2 * ops.len() + 1,
        forall|t: int|
            0 <= t < cs.len() ==> is_num_lit(#[trigger] toks[2 * t]) && lit_const(toks[2 * t])
                == cs[t],
        forall|t: int|
            0 <= t < ops.len() ==> toks[2 * t + 1] == crate::token::TokenView::Operator(
                #[trigger] ops[t],
            ) && crate::ast::is_arith(ops[t]),
        1 <= k <= ops.len(),
    ensures
        crate::ast::collect_infix(toks, 2 * k, 2 * k, 0) == lit_infix(cs, ops, k),
    decreases ops.len() - k,
{
    reveal_with_fuel(crate::ast::collect_infix, 3);
    reveal_with_fuel(lit_infix, 2);
    let j = 2 * k;
    assert(is_num_lit(toks[j as int]));
    assert(!crate::ast::is_open_tok(toks[j as int]) && !crate::ast::is_close_tok(
        toks[j as int],
    ));
    assert(crate::ast::collect_infix(toks, j, j, 0) == crate::ast::collect_infix(
        toks,
        j + 1,
        j,
        0,
    ));
    if k < ops.len() {
        assert(toks[j as int + 1] == crate::token::TokenView::Operator(ops[k as int]));
        assert(crate::ast::arith_op_at(toks, (j + 1) as nat) == ops[k as int]);
        assert(toks.subrange(j as int, j as int + 1) =~= seq![toks[j as int]]);
        lemma_single_lit(toks[j as int]);
        assert(crate::ast::sub_expr(toks, j as nat, (j + 1) as nat) == ExprView::Const(
            cs[k as int],
        ));
        lemma_collect_lit(toks, cs, ops, k + 1);
        assert(crate::ast::collect_infix(toks, j + 1, j, 0) == seq![
            crate::ast::arithmetic::ArithView::Node(Box::new(ExprView::Const(cs[k as int]))),
            crate::ast::arithmetic::ArithView::Op(ops[k as int]),
        ] + crate::ast::collect_infix(toks, j + 2, j + 2, 0));
    } else {
        assert(j + 1 == toks.len());
        assert(toks.subrange(j as int, toks.len() as int) =~= seq![toks[j as int]]);
        lemma_single_lit(toks[j as int]);
        assert(crate::ast::sub_expr(toks, j as nat, toks.len() as nat) == ExprView::Const(
            cs[k as int],
        ));
        assert(crate::ast::collect_infix(toks, j + 1, j, 0) == seq![
            crate::ast::arithmetic::ArithView::Node(Box::new(ExprView::Const(cs[k as int]))),
        ]);
    }
}

/// The expression builder turns an alternating literal-operator range
/// into the postfix conversion of its literal infix list.
proof fn lemma_expr_gen_lit(
    toks: Seq<crate::token::TokenView>,
    cs: Seq<ConstView>,
    ops: Seq<EOperator>,
)
    requires
        cs.len() == ops.len() + 1,
        toks.len() == 2 * ops.len() + 1,
        forall|t: int|
            0 <= t < cs.len() ==> is_num_lit(#[trigger] toks[2 * t]) && lit_const(toks[2 * t])
                == cs[t],
        forall|t: int|
            0 <= t < ops.len() ==> toks[2 * t + 1] == crate::token::TokenView::Operator(
                #[trigger] ops[t],
            ) && crate::ast::is_arith(ops[t]),
        ops.len() >= 1,
    ensures
        crate::ast::spec_expr_gen(toks) == ExprView::Arith(
            crate::ast::shunt(lit_infix(cs, ops, 0), 0, Seq::empty(), Seq::empty()),
        ),
{
    reveal_with_fuel(crate::ast::spec_expr_from, 3);
    reveal_with_fuel(lit_infix, 2);
    assert(is_num_lit(toks[0]));
    assert(toks[1] == crate::token::TokenView::Operator(ops[0]));
    assert(crate::ast::spec_expr_from(toks, 0, ExprView::Const(
        crate::ast::expr::constants::ConstView::Undef,
    )) == crate::ast::spec_expr_from(toks, 1, ExprView::Const(cs[0])));
    lemma_collect_lit(toks, cs, ops, 1);
    assert(seq![
        crate::ast::arithmetic::ArithView::Node(Box::new(ExprView::Const(cs[0]))),
        crate::ast::arithmetic::ArithView::Op(ops[0]),
    ] + crate::ast::collect_infix(toks, 2, 2, 0) =~= lit_infix(cs, ops, 0));
}

/// Arithmetic over numeric literals follows standard precedence: for a
/// range of literals joined by `+ - * /`, the built expression
/// evaluates — with fuel to spare, in any frame, printing nothing — to
/// the standard-precedence, left-associative evaluation of the
/// literals.
pub proof fn lemma_arithmetic_standard_precedence(
    toks: Seq<crate::token::TokenView>,
    cs: Seq<ConstView>,
    ops: Seq<EOperator>,
    m: crate::parser::module::ModuleView,
    fuel: nat,
)
    requires
        cs.len() == ops.len() + 1,
        toks.len() == 2 * ops.len() + 1,
        forall|t: int|
            0 <= t < cs.len() ==> is_num_lit(#[trigger] toks[2 * t]) && lit_const(toks[2 * t])
                == cs[t],
        forall|t: int|
            0 <= t < ops.len() ==> toks[2 * t + 1] == crate::token::TokenView::Operator(
                #[trigger] ops[t],
            ) && crate::ast::is_arith(ops[t]),
        ops.len() >= 1,
        fuel >= 4 * ops.len() + 6,
    ensures
        crate::parser::spec_eval(crate::ast::spec_expr_gen(toks), m, fuel)
            == (crate::parser::EvalOutcome { result: std_eval(cs, ops), out: Seq::empty() }),
{
    lemma_expr_gen_lit(toks, cs, ops);
    let infix = lit_infix(cs, ops, 0);
    let p = crate::ast::shunt(infix, 0, Seq::empty(), Seq::empty());
    lemma_shunt_as_emit(infix, 0, Seq::empty(), Seq::empty());
    assert(infix.subrange(0, infix.len() as int) =~= infix);
    assert(Seq::<crate::ast::arithmetic::ArithView>::empty() + (shunt_emit(
        infix,
        Seq::empty(),
    ) + crate::ast::pop_all(shunt_stack(infix, Seq::empty()))) =~= shunt_emit(infix, Seq::empty())
        + crate::ast::pop_all(shunt_stack(infix, Seq::empty())));
    lemma_shunt_std(cs, ops);
    assert(p == std_postfix(cs, ops));
    lemma_std_postfix_shape(cs, ops);
    lemma_arith_fuel(p, 0, Seq::empty(), m, (fuel - 1) as nat);
    assert(p.subrange(0, p.len() as int) =~= p);
    lemma_run_std(cs, ops, Seq::empty());
    match std_eval(cs, ops) {
        Ok(v) => {
            assert(Seq::<ObjectView>::empty().push(v).len() == 1);
            assert(Seq::<ObjectView>::empty().push(v)[0] == v);
        },
        Err(e) => {},
    }
}


/// A constructor's assignments are reflected on the instance: after
/// construction, each field holds the constructor frame's final
/// binding for its name, and keeps its initializer where the
/// constructor never bound it.
pub proof fn lemma_constructor_fields_reflect(
    inst: Map<Seq<char>, ObjectView>,
    frame: Map<Seq<char>, ObjectView>,
    k: Seq<char>,
)
    requires
        inst.dom().contains(k),
    ensures
        crate::parser::merge_fields(inst, frame).dom().contains(k),
        frame.dom().contains(k) ==> crate::parser::merge_fields(inst, frame)[k] == frame[k],
        !frame.dom().contains(k) ==> crate::parser::merge_fields(inst, frame)[k] == inst[k],
{
}

} // verus!
