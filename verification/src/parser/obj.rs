//! Runtime values and expression evaluation.

use crate::ast::expr::constants::{spec_const_display, Const, ConstView};
use crate::num::{
    canon, canonize, dec_add, dec_div, dec_mul, dec_sub, int_add, int_mul, int_sub, spec_dec_add,
    spec_dec_div, spec_dec_mul, spec_dec_sub, spec_int_add, spec_int_mul, spec_int_sub,
    spec_to_dec, to_dec, Dec,
};
use crate::parser::classes::{classd_view, classo_view, ClassD, ClassDView, ClassO, ClassOView};
use crate::parser::module::{Module};
use crate::parser::function::{function_view, Function, FunctionView};
use crate::text::{push_dec, push_i64, spec_dec_string, spec_int_string};
use crate::token::EOperator;
use vstd::prelude::*;
use vstd::string::StringExecFns;

verus! {

/// A runtime value: a constant, a callable, a class descriptor, or a
/// class instance.
#[derive(Debug, PartialEq)]
pub enum Object {
    Const(Const),
    Funct(Function),
    Class(ClassD),
    ClassObj(ClassO),
}

/// The mathematical shape of a runtime value.
pub enum ObjectView {
    Const(ConstView),
    Funct(FunctionView),
    Class(ClassDView),
    ClassObj(ClassOView),
}

/// The view of a runtime value.
pub open spec fn object_view(o: Object) -> ObjectView
    decreases o,
{
    match o {
        Object::Const(c) => ObjectView::Const(c@),
        Object::Funct(f) => ObjectView::Funct(function_view(f)),
        Object::Class(c) => ObjectView::Class(classd_view(c)),
        Object::ClassObj(c) => ObjectView::ClassObj(classo_view(c)),
    }
}

/// The view of a variable table: bindings applied left to right, a
/// later binding for a name overwriting an earlier one.
pub open spec fn table_view(t: Seq<(String, Object)>) -> Map<Seq<char>, ObjectView>
    decreases t,
{
    if t.len() == 0 {
        Map::empty()
    } else {
        table_view(t.subrange(0, t.len() - 1)).insert(t.last().0@, object_view(t.last().1))
    }
}

impl View for Object {
    type V = ObjectView;

    open spec fn view(&self) -> ObjectView {
        object_view(*self)
    }
}

/// Appending one binding turns the table view into an insertion.
pub proof fn lemma_table_view_push(old_t: Seq<(String, Object)>, new_t: Seq<(String, Object)>, n: String, v: Object)
    requires
        new_t == old_t.push((n, v)),
    ensures
        table_view(new_t) == table_view(old_t).insert(n@, object_view(v)),
{
    assert(new_t.subrange(0, new_t.len() - 1) =~= old_t);
}

impl Object {
    /// A structural copy of this value.
    pub fn duplicate(&self) -> (r: Object)
        ensures
            r@ == self@,
        decreases self,
    {
        match self {
            Object::Const(c) => Object::Const(c.duplicate()),
            Object::Funct(f) => Object::Funct(f.duplicate()),
            Object::Class(c) => Object::Class(c.duplicate()),
            Object::ClassObj(c) => Object::ClassObj(c.duplicate()),
        }
    }
}

/// A structural copy of a variable table.
pub fn table_duplicate(t: &Vec<(String, Object)>) -> (r: Vec<(String, Object)>)
    ensures
        table_view(r@) == table_view(t@),
    decreases t,
{
    let mut out: Vec<(String, Object)> = Vec::new();
    let mut idx: usize = 0;
    while idx < t.len()
        invariant
            idx <= t@.len(),
            out@.len() == idx,
            forall|k: int|
                0 <= k < idx ==> (#[trigger] out@[k]).0@ == t@[k].0@ && object_view(out@[k].1)
                    == object_view(t@[k].1),
        decreases t@.len() - idx,
    {
        proof {
            assert(decreases_to!(*t => t@[idx as int]));
        }
        let nm = t[idx].0.clone();
        let ov = t[idx].1.duplicate();
        out.push((nm, ov));
        idx = idx + 1;
    }
    proof {
        lemma_table_view_eq(out@, t@);
    }
    out
}

/// Tables with bindings equal pairwise have equal views.
proof fn lemma_table_view_eq(a: Seq<(String, Object)>, b: Seq<(String, Object)>)
    requires
        a.len() == b.len(),
        forall|k: int|
            0 <= k < a.len() ==> (#[trigger] a[k]).0@ == b[k].0@ && object_view(a[k].1)
                == object_view(b[k].1),
    ensures
        table_view(a) == table_view(b),
    decreases a.len(),
{
    if a.len() > 0 {
        assert(forall|k: int|
            0 <= k < a.len() - 1 ==> a.subrange(0, a.len() - 1)[k] == a[k] && b.subrange(
                0,
                b.len() - 1,
            )[k] == b[k]);
        lemma_table_view_eq(a.subrange(0, a.len() - 1), b.subrange(0, b.len() - 1));
    }
}

/// The kind of a value, named in type errors.
#[derive(Clone, Copy, Debug, Eq, PartialEq, Structural)]
pub enum ValueKind {
    Integer,
    Float,
    Str,
    Bool,
    Undefined,
    Function,
    Class,
    Instance,
}

/// An evaluation failure.
#[derive(Debug, PartialEq)]
pub enum EvalError {
    UndefinedVariable(String),
    NotCallable(String),
    UndefinedFunction(String),
    DivisionByZero,
    TypeMismatch { op: EOperator, left: ValueKind, right: ValueKind },
    Overflow,
    MalformedExpression,
    RecursionLimit,
}

/// The mathematical shape of an evaluation failure.
pub enum EvalErrorView {
    UndefinedVariable(Seq<char>),
    NotCallable(Seq<char>),
    UndefinedFunction(Seq<char>),
    DivisionByZero,
    TypeMismatch { op: EOperator, left: ValueKind, right: ValueKind },
    Overflow,
    MalformedExpression,
    RecursionLimit,
}

/// The view of an evaluation failure.
pub open spec fn error_view(e: EvalError) -> EvalErrorView {
    match e {
        EvalError::UndefinedVariable(n) => EvalErrorView::UndefinedVariable(n@),
        EvalError::NotCallable(n) => EvalErrorView::NotCallable(n@),
        EvalError::UndefinedFunction(n) => EvalErrorView::UndefinedFunction(n@),
        EvalError::DivisionByZero => EvalErrorView::DivisionByZero,
        EvalError::TypeMismatch { op, left, right } => EvalErrorView::TypeMismatch {
            op,
            left,
            right,
        },
        EvalError::Overflow => EvalErrorView::Overflow,
        EvalError::MalformedExpression => EvalErrorView::MalformedExpression,
        EvalError::RecursionLimit => EvalErrorView::RecursionLimit,
    }
}

impl View for EvalError {
    type V = EvalErrorView;

    open spec fn view(&self) -> EvalErrorView {
        error_view(*self)
    }
}

/// The view of an evaluation result.
pub open spec fn res_view(r: Result<Object, EvalError>) -> Result<ObjectView, EvalErrorView> {
    match r {
        Ok(o) => Ok(object_view(o)),
        Err(e) => Err(error_view(e)),
    }
}

pub open spec fn const_kind(c: ConstView) -> ValueKind {
    match c {
        ConstView::Integer(..) => ValueKind::Integer,
        ConstView::Float(..) => ValueKind::Float,
        ConstView::Str { .. } => ValueKind::Str,
        ConstView::Bool(..) => ValueKind::Bool,
        ConstView::Undef => ValueKind::Undefined,
    }
}

pub open spec fn kind_of(o: ObjectView) -> ValueKind {
    match o {
        ObjectView::Const(c) => const_kind(c),
        ObjectView::Funct(..) => ValueKind::Function,
        ObjectView::Class(..) => ValueKind::Class,
        ObjectView::ClassObj(..) => ValueKind::Instance,
    }
}

/// A numeric constant as a canonical decimal.
pub open spec fn num_dec(c: ConstView) -> Option<Dec> {
    match c {
        ConstView::Integer(i) => Some(spec_to_dec(i)),
        ConstView::Float(d) => Some(canon(d)),
        _ => None,
    }
}

/// Wrap an optional decimal result, reporting overflow.
pub open spec fn dec_result(d: Option<Dec>) -> Result<ObjectView, EvalErrorView> {
    match d {
        Some(v) => Ok(ObjectView::Const(ConstView::Float(v))),
        None => Err(EvalErrorView::Overflow),
    }
}

/// Wrap an optional integer result, reporting overflow.
pub open spec fn int_result(i: Option<i64>) -> Result<ObjectView, EvalErrorView> {
    match i {
        Some(v) => Ok(ObjectView::Const(ConstView::Integer(v))),
        None => Err(EvalErrorView::Overflow),
    }
}

/// A string constant value.
pub open spec fn str_const(v: Seq<char>) -> ObjectView {
    ObjectView::Const(ConstView::Str { v, is_raw: false, is_fmt: false })
}

/// Numeric arithmetic on two constants: integers stay integers under
/// `+ - *`, any decimal operand makes the result decimal, and `/` is
/// always decimal with a zero divisor rejected.
pub open spec fn spec_numeric(op: EOperator, l: ConstView, r: ConstView) -> Result<
    ObjectView,
    EvalErrorView,
> {
    match (num_dec(l), num_dec(r)) {
        (Some(ld), Some(rd)) => {
            if op == EOperator::Divide {
                if rd.mant == 0 {
                    Err(EvalErrorView::DivisionByZero)
                } else {
                    dec_result(spec_dec_div(ld, rd))
                }
            } else if l matches ConstView::Integer(x) && r matches ConstView::Integer(y) {
                if op == EOperator::Plus {
                    int_result(spec_int_add(l->Integer_0, r->Integer_0))
                } else if op == EOperator::Minus {
                    int_result(spec_int_sub(l->Integer_0, r->Integer_0))
                } else {
                    int_result(spec_int_mul(l->Integer_0, r->Integer_0))
                }
            } else {
                if op == EOperator::Plus {
                    dec_result(spec_dec_add(ld, rd))
                } else if op == EOperator::Minus {
                    dec_result(spec_dec_sub(ld, rd))
                } else {
                    dec_result(spec_dec_mul(ld, rd))
                }
            }
        },
        _ => Err(
            EvalErrorView::TypeMismatch { op, left: const_kind(l), right: const_kind(r) },
        ),
    }
}

/// Apply one binary operator to two constants.  `+` concatenates when
/// either side is a string: the string side keeps its characters first
/// and the other side is appended in its textual form.
pub open spec fn spec_apply_const(op: EOperator, l: ConstView, r: ConstView) -> Result<
    ObjectView,
    EvalErrorView,
> {
    if op == EOperator::Plus {
        match (l, r) {
            (ConstView::Str { v: lv, .. }, ConstView::Str { v: rv, .. }) => Ok(
                str_const(lv + rv),
            ),
            (ConstView::Str { v: lv, .. }, ConstView::Integer(y)) => Ok(
                str_const(lv + spec_int_string(y as int)),
            ),
            (ConstView::Str { v: lv, .. }, ConstView::Float(d)) => Ok(
                str_const(lv + spec_dec_string(d)),
            ),
            (ConstView::Integer(x), ConstView::Str { v: rv, .. }) => Ok(
                str_const(rv + spec_int_string(x as int)),
            ),
            (ConstView::Float(d), ConstView::Str { v: rv, .. }) => Ok(
                str_const(rv + spec_dec_string(d)),
            ),
            _ => spec_numeric(op, l, r),
        }
    } else if op == EOperator::Minus || op == EOperator::Multiply || op == EOperator::Divide {
        spec_numeric(op, l, r)
    } else {
        Err(EvalErrorView::TypeMismatch { op, left: const_kind(l), right: const_kind(r) })
    }
}

/// Apply one binary operator to two popped operands: `a` was popped
/// first (the right operand), `b` second (the left).
pub open spec fn spec_apply_op(op: EOperator, a: ObjectView, b: ObjectView) -> Result<
    ObjectView,
    EvalErrorView,
> {
    match (b, a) {
        (ObjectView::Const(bc), ObjectView::Const(ac)) => spec_apply_const(op, bc, ac),
        _ => Err(EvalErrorView::TypeMismatch { op, left: kind_of(b), right: kind_of(a) }),
    }
}

/// The display form of a runtime value: constants by their display
/// form, other values by a placeholder word.
pub open spec fn spec_display_obj(o: ObjectView) -> Seq<char> {
    match o {
        ObjectView::Const(c) => spec_const_display(c),
        ObjectView::Funct(..) => "<function>"@,
        ObjectView::Class(..) => "<class>"@,
        ObjectView::ClassObj(..) => "<object>"@,
    }
}

impl Object {
    /// The display form of this value.
    pub fn display_text(&self) -> (r: String)
        ensures
            r@ == spec_display_obj(self@),
    {
        match self {
            Object::Const(c) => c.display_text(),
            Object::Funct(..) => String::from_str("<function>"),
            Object::Class(..) => String::from_str("<class>"),
            Object::ClassObj(..) => String::from_str("<object>"),
        }
    }
}

/// Apply one binary operator to two popped operand values.
pub fn apply_op(op: EOperator, a: &Object, b: &Object) -> (r: Result<Object, EvalError>)
    ensures
        res_view(r) == spec_apply_op(op, a@, b@),
{
    match (b, a) {
        (Object::Const(bc), Object::Const(ac)) => apply_const(op, bc, ac),
        _ => Err(
            EvalError::TypeMismatch { op, left: kind_of_exec(b), right: kind_of_exec(a) },
        ),
    }
}

fn kind_of_exec(o: &Object) -> (k: ValueKind)
    ensures
        k == kind_of(o@),
{
    match o {
        Object::Const(c) => match c {
            Const::Integer(..) => ValueKind::Integer,
            Const::Float(..) => ValueKind::Float,
            Const::Str { .. } => ValueKind::Str,
            Const::Bool(..) => ValueKind::Bool,
            Const::Undef => ValueKind::Undefined,
        },
        Object::Funct(..) => ValueKind::Function,
        Object::Class(..) => ValueKind::Class,
        Object::ClassObj(..) => ValueKind::Instance,
    }
}

fn apply_const(op: EOperator, l: &Const, r: &Const) -> (res: Result<Object, EvalError>)
    ensures
        res_view(res) == spec_apply_const(op, l@, r@),
{
    if op == EOperator::Plus {
        match (l, r) {
            (Const::Str { v: lv, .. }, Const::Str { v: rv, .. }) => {
                let mut s = lv.clone();
                s.append(rv.as_str());
                Ok(Object::Const(Const::Str { v: s, is_raw: false, is_fmt: false }))
            },
            (Const::Str { v: lv, .. }, Const::Integer(y)) => {
                let mut s = lv.clone();
                push_i64(&mut s, *y);
                Ok(Object::Const(Const::Str { v: s, is_raw: false, is_fmt: false }))
            },
            (Const::Str { v: lv, .. }, Const::Float(d)) => {
                let mut s = lv.clone();
                push_dec(&mut s, *d);
                Ok(Object::Const(Const::Str { v: s, is_raw: false, is_fmt: false }))
            },
            (Const::Integer(x), Const::Str { v: rv, .. }) => {
                let mut s = rv.clone();
                push_i64(&mut s, *x);
                Ok(Object::Const(Const::Str { v: s, is_raw: false, is_fmt: false }))
            },
            (Const::Float(d), Const::Str { v: rv, .. }) => {
                let mut s = rv.clone();
                push_dec(&mut s, *d);
                Ok(Object::Const(Const::Str { v: s, is_raw: false, is_fmt: false }))
            },
            _ => exec_numeric(op, l, r),
        }
    } else if op == EOperator::Minus || op == EOperator::Multiply || op == EOperator::Divide {
        exec_numeric(op, l, r)
    } else {
        Err(
            EvalError::TypeMismatch {
                op,
                left: kind_of_exec(&Object::Const(l.duplicate())),
                right: kind_of_exec(&Object::Const(r.duplicate())),
            },
        )
    }
}

fn exec_num_dec(c: &Const) -> (r: Option<Dec>)
    ensures
        r == num_dec(c@),
        r matches Some(d) ==> crate::num::dec_wf(d),
{
    match c {
        Const::Integer(i) => Some(to_dec(*i)),
        Const::Float(d) => Some(canonize(*d)),
        _ => None,
    }
}

fn exec_numeric(op: EOperator, l: &Const, r: &Const) -> (res: Result<Object, EvalError>)
    ensures
        res_view(res) == spec_numeric(op, l@, r@),
{
    let ld = exec_num_dec(l);
    let rd = exec_num_dec(r);
    match (ld, rd) {
        (Some(x), Some(y)) => {
            if op == EOperator::Divide {
                if y.mant == 0 {
                    Err(EvalError::DivisionByZero)
                } else {
                    match dec_div(x, y) {
                        Some(d) => Ok(Object::Const(Const::Float(d))),
                        None => Err(EvalError::Overflow),
                    }
                }
            } else {
                let mut int_pair: Option<(i64, i64)> = None;
                match (l, r) {
                    (Const::Integer(a), Const::Integer(b)) => {
                        int_pair = Some((*a, *b));
                    },
                    _ => {},
                }
                match int_pair {
                    Some((a, b)) => {
                        let v = if op == EOperator::Plus {
                            int_add(a, b)
                        } else if op == EOperator::Minus {
                            int_sub(a, b)
                        } else {
                            int_mul(a, b)
                        };
                        match v {
                            Some(i) => Ok(Object::Const(Const::Integer(i))),
                            None => Err(EvalError::Overflow),
                        }
                    },
                    None => {
                        let v = if op == EOperator::Plus {
                            dec_add(x, y)
                        } else if op == EOperator::Minus {
                            dec_sub(x, y)
                        } else {
                            dec_mul(x, y)
                        };
                        match v {
                            Some(d) => Ok(Object::Const(Const::Float(d))),
                            None => Err(EvalError::Overflow),
                        }
                    },
                }
            }
        },
        _ => {
            Err(
                EvalError::TypeMismatch {
                    op,
                    left: kind_of_exec(&Object::Const(l.duplicate())),
                    right: kind_of_exec(&Object::Const(r.duplicate())),
                },
            )
        },
    }
}


/// The one print line of a native `print` call: each argument's display
/// form followed by one space.
pub open spec fn spec_print_line(args: Seq<ObjectView>) -> Seq<char>
    decreases args.len(),
{
    if args.len() == 0 {
        Seq::empty()
    } else {
        (spec_print_line(args.drop_last()) + spec_display_obj(args.last())).push(' ')
    }
}

/// Build the print line of evaluated arguments.
pub fn print_line(vals: &Vec<Object>) -> (r: String)
    ensures
        r@ == spec_print_line(crate::parser::objs_view(vals@)),
{
    let ghost vv = crate::parser::objs_view(vals@);
    proof {
        assert(vv.len() == vals@.len());
    }
    let mut s = String::new();
    let mut j: usize = 0;
    while j < vals.len()
        invariant
            j <= vals@.len(),
            vv == crate::parser::objs_view(vals@),
            vv.len() == vals@.len(),
            s@ == spec_print_line(vv.subrange(0, j as int)),
        decreases vals@.len() - j,
    {
        let d = vals[j].display_text();
        s.append(d.as_str());
        crate::text::push_char(&mut s, ' ');
        j = j + 1;
        proof {
            assert(vv.subrange(0, j as int).drop_last() =~= vv.subrange(0, j - 1));
            assert(vv.subrange(0, j as int).last() == vv[j - 1]);
            assert(vv[j - 1] == object_view(vals@[j - 1]));
        }
    }
    proof {
        assert(vv.subrange(0, vals@.len() as int) =~= vv);
    }
    s
}

/// Look a name up in a variable table alone.
pub fn table_get<'a>(t: &'a Vec<(String, Object)>, n: &String) -> (r: Option<&'a Object>)
    ensures
        match r {
            Some(o) => table_view(t@).dom().contains(n@) && table_view(t@)[n@] == o@,
            None => !table_view(t@).dom().contains(n@),
        },
{
    let ghost tv = t@;
    proof {
        assert(tv.subrange(0, tv.len() as int) =~= tv);
    }
    let mut j = t.len();
    while j > 0
        invariant
            j <= t@.len(),
            tv == t@,
            table_view(tv).dom().contains(n@) == table_view(tv.subrange(0, j as int)).dom()
                .contains(n@),
            table_view(tv).dom().contains(n@) ==> table_view(tv)[n@] == table_view(
                tv.subrange(0, j as int),
            )[n@],
        decreases j,
    {
        j = j - 1;
        proof {
            assert(tv.subrange(0, (j + 1) as int).subrange(0, j as int) =~= tv.subrange(
                0,
                j as int,
            ));
            assert(tv.subrange(0, (j + 1) as int).last() == tv[j as int]);
        }
        if t[j].0.eq(n) {
            return Some(&t[j].1);
        }
    }
    proof {
        assert(tv.subrange(0, 0) =~= Seq::<(String, Object)>::empty());
    }
    None
}

/// Build a call frame: the seed bindings, then each bare-name parameter
/// bound to its argument value, the body as the statements, and a copy
/// of the calling frame as the parent.
fn build_frame(
    params: &Vec<crate::ast::expr::Expr>,
    vals: &Vec<Object>,
    seed: Vec<(String, Object)>,
    body: Vec<crate::ast::stmt::Stmt>,
    parent: &Module,
) -> (r: Module)
    ensures
        r@ == crate::parser::mk_frame(
            crate::ast::expr::exprs_view(params@),
            crate::parser::objs_view(vals@),
            table_view(seed@),
            crate::ast::stmt::stmts_view(body@),
            parent@,
        ),
{
    let ghost pv = crate::ast::expr::exprs_view(params@);
    let ghost vv = crate::parser::objs_view(vals@);
    proof {
        crate::ast::expr::lemma_exprs_view(params@);
        assert(vv.len() == vals@.len());
    }
    let mut vt = seed;
    let mut j: usize = 0;
    while j < params.len()
        invariant
            j <= params@.len(),
            pv == crate::ast::expr::exprs_view(params@),
            pv.len() == params@.len(),
            forall|k: int| 0 <= k < pv.len() ==> pv[k] == crate::ast::expr::expr_view(params@[k]),
            vv == crate::parser::objs_view(vals@),
            vv.len() == vals@.len(),
            crate::parser::bind_params(pv, vv, j as nat, table_view(vt@)) == crate::parser::bind_params(
                pv,
                vv,
                0,
                table_view(seed@),
            ),
        decreases params@.len() - j,
    {
        match &params[j] {
            crate::ast::expr::Expr::Var(vn) => {
                if j < vals.len() {
                    let ghost pre = vt@;
                    vt.push((vn.clone(), vals[j].duplicate()));
                    proof {
                        lemma_table_view_push(pre, vt@, vt@.last().0, vt@.last().1);
                        assert(vv[j as int] == object_view(vals@[j as int]));
                    }
                }
            },
            _ => {},
        }
        j = j + 1;
    }
    let md2 = Module {
        vtable: vt,
        stmts: body,
        parent: Some(Box::new(parent.duplicate())),
        rt: Object::Const(Const::Undef),
        got_rt: false,
    };
    md2
}

/// Evaluate the argument expressions of a call, left to right.
fn eval_args_boxed(
    args: &Vec<Box<crate::ast::expr::Expr>>,
    idx: usize,
    md: &Module,
    out: &mut Vec<String>,
    fuel: u64,
) -> (r: Result<Vec<Object>, EvalError>)
    requires
        idx <= args@.len(),
    ensures
        ({
            let ao = crate::parser::spec_eval_args(
                crate::ast::expr::boxed_exprs_view(args@),
                idx as nat,
                md@,
                fuel as nat,
            );
            &&& crate::parser::lines_view(final(out)@) == crate::parser::lines_view(old(out)@)
                + ao.out
            &&& (match r {
                Ok(v) => ao.result == Ok::<Seq<ObjectView>, EvalErrorView>(
                    crate::parser::objs_view(v@),
                ),
                Err(e) => ao.result == Err::<Seq<ObjectView>, EvalErrorView>(e@),
            })
        }),
    decreases fuel as nat, 3nat,
{
    let ghost av = crate::ast::expr::boxed_exprs_view(args@);
    proof {
        crate::ast::expr::lemma_boxed_exprs_view(args@);
    }
    if fuel == 0 {
        proof {
            assert(crate::parser::lines_view(out@) =~= crate::parser::lines_view(out@)
                + Seq::<Seq<char>>::empty());
        }
        return Err(EvalError::RecursionLimit);
    }
    if idx >= args.len() {
        let v: Vec<Object> = Vec::new();
        proof {
            assert(crate::parser::lines_view(out@) =~= crate::parser::lines_view(out@)
                + Seq::<Seq<char>>::empty());
            assert(crate::parser::objs_view(v@) =~= Seq::<ObjectView>::empty());
        }
        return Ok(v);
    }
    let b = &args[idx];
    let first = obj_eval(&**b, md, out, fuel - 1);
    match first {
        Err(e) => Err(e),
        Ok(v) => {
            let ghost out1 = out@;
            match eval_args_boxed(args, idx + 1, md, out, fuel - 1) {
                Err(e) => {
                    proof {
                        let ao = crate::parser::spec_eval_args(av, idx as nat, md@, fuel as nat);
                        assert(crate::parser::lines_view(out@) =~= crate::parser::lines_view(
                            old(out)@,
                        ) + ao.out);
                    }
                    Err(e)
                },
                Ok(vs) => {
                    let mut vs2 = vs;
                    let ghost vpre = vs2@;
                    vs2.insert(0, v);
                    proof {
                        let ao = crate::parser::spec_eval_args(av, idx as nat, md@, fuel as nat);
                        assert(crate::parser::lines_view(out@) =~= crate::parser::lines_view(
                            old(out)@,
                        ) + ao.out);
                        assert(crate::parser::objs_view(vs2@) =~= seq![object_view(v)]
                            + crate::parser::objs_view(vpre));
                    }
                    Ok(vs2)
                },
            }
        },
    }
}

/// Evaluate the argument expressions of a statement call.
fn eval_args_plain(
    args: &Vec<crate::ast::expr::Expr>,
    idx: usize,
    md: &Module,
    out: &mut Vec<String>,
    fuel: u64,
) -> (r: Result<Vec<Object>, EvalError>)
    requires
        idx <= args@.len(),
    ensures
        ({
            let ao = crate::parser::spec_eval_args(
                crate::ast::expr::exprs_view(args@),
                idx as nat,
                md@,
                fuel as nat,
            );
            &&& crate::parser::lines_view(final(out)@) == crate::parser::lines_view(old(out)@)
                + ao.out
            &&& (match r {
                Ok(v) => ao.result == Ok::<Seq<ObjectView>, EvalErrorView>(
                    crate::parser::objs_view(v@),
                ),
                Err(e) => ao.result == Err::<Seq<ObjectView>, EvalErrorView>(e@),
            })
        }),
    decreases fuel as nat, 3nat,
{
    let ghost av = crate::ast::expr::exprs_view(args@);
    proof {
        crate::ast::expr::lemma_exprs_view(args@);
    }
    if fuel == 0 {
        proof {
            assert(crate::parser::lines_view(out@) =~= crate::parser::lines_view(out@)
                + Seq::<Seq<char>>::empty());
        }
        return Err(EvalError::RecursionLimit);
    }
    if idx >= args.len() {
        let v: Vec<Object> = Vec::new();
        proof {
            assert(crate::parser::lines_view(out@) =~= crate::parser::lines_view(out@)
                + Seq::<Seq<char>>::empty());
            assert(crate::parser::objs_view(v@) =~= Seq::<ObjectView>::empty());
        }
        return Ok(v);
    }
    let first = obj_eval(&args[idx], md, out, fuel - 1);
    match first {
        Err(e) => Err(e),
        Ok(v) => {
            match eval_args_plain(args, idx + 1, md, out, fuel - 1) {
                Err(e) => {
                    proof {
                        let ao = crate::parser::spec_eval_args(av, idx as nat, md@, fuel as nat);
                        assert(crate::parser::lines_view(out@) =~= crate::parser::lines_view(
                            old(out)@,
                        ) + ao.out);
                    }
                    Err(e)
                },
                Ok(vs) => {
                    let mut vs2 = vs;
                    let ghost vpre = vs2@;
                    vs2.insert(0, v);
                    proof {
                        let ao = crate::parser::spec_eval_args(av, idx as nat, md@, fuel as nat);
                        assert(crate::parser::lines_view(out@) =~= crate::parser::lines_view(
                            old(out)@,
                        ) + ao.out);
                        assert(crate::parser::objs_view(vs2@) =~= seq![object_view(v)]
                            + crate::parser::objs_view(vpre));
                    }
                    Ok(vs2)
                },
            }
        },
    }
}

/// The instance field table after a constructor ran.
fn merge_tables(inst: &Vec<(String, Object)>, frame: &Vec<(String, Object)>) -> (r: Vec<
    (String, Object),
>)
    ensures
        table_view(r@) == crate::parser::merge_fields(table_view(inst@), table_view(frame@)),
{
    let mut out: Vec<(String, Object)> = Vec::new();
    let mut j: usize = 0;
    while j < inst.len()
        invariant
            j <= inst@.len(),
            out@.len() == j,
            forall|k: int|
                0 <= k < j ==> (#[trigger] out@[k]).0@ == inst@[k].0@ && object_view(out@[k].1)
                    == (if table_view(frame@).dom().contains(inst@[k].0@) {
                    table_view(frame@)[inst@[k].0@]
                } else {
                    object_view(inst@[k].1)
                }),
        decreases inst@.len() - j,
    {
        let nm = inst[j].0.clone();
        match table_get(frame, &nm) {
            Some(o) => {
                out.push((nm, o.duplicate()));
            },
            None => {
                out.push((nm, inst[j].1.duplicate()));
            },
        }
        j = j + 1;
    }
    proof {
        lemma_merge_table(out@, inst@, table_view(frame@));
    }
    out
}

/// A table whose bindings apply a frame's final values pointwise folds
/// to the merged map.
proof fn lemma_merge_table(
    o: Seq<(String, Object)>,
    inst: Seq<(String, Object)>,
    fm: Map<Seq<char>, ObjectView>,
)
    requires
        o.len() == inst.len(),
        forall|k: int|
            0 <= k < o.len() ==> (#[trigger] o[k]).0@ == inst[k].0@ && object_view(o[k].1) == (
            if fm.dom().contains(inst[k].0@) {
                fm[inst[k].0@]
            } else {
                object_view(inst[k].1)
            }),
    ensures
        table_view(o) == crate::parser::merge_fields(table_view(inst), fm),
    decreases o.len(),
{
    if o.len() == 0 {
        assert(table_view(o) =~= crate::parser::merge_fields(table_view(inst), fm));
    } else {
        let o2 = o.subrange(0, o.len() - 1);
        let i2 = inst.subrange(0, inst.len() - 1);
        assert(forall|k: int| 0 <= k < o2.len() ==> o2[k] == o[k] && i2[k] == inst[k]);
        lemma_merge_table(o2, i2, fm);
        assert(table_view(o) =~= crate::parser::merge_fields(table_view(inst), fm));
    }
}

/// Evaluate a call in expression position.
#[verifier::rlimit(100)]
fn eval_call(
    name: &String,
    args: &Vec<Box<crate::ast::expr::Expr>>,
    md: &Module,
    out: &mut Vec<String>,
    fuel: u64,
) -> (r: Result<Object, EvalError>)
    ensures
        ({
            let oc = crate::parser::spec_call(
                name@,
                crate::ast::expr::boxed_exprs_view(args@),
                md@,
                fuel as nat,
            );
            &&& crate::parser::lines_view(final(out)@) == crate::parser::lines_view(old(out)@)
                + oc.out
            &&& res_view(r) == oc.result
        }),
    decreases fuel as nat, 4nat,
{
    if fuel == 0 {
        proof {
            assert(crate::parser::lines_view(out@) =~= crate::parser::lines_view(out@)
                + Seq::<Seq<char>>::empty());
        }
        return Err(EvalError::RecursionLimit);
    }
    let callee = md.get_var(name);
    match callee {
        None => {
            proof {
                assert(crate::parser::lines_view(out@) =~= crate::parser::lines_view(out@)
                    + Seq::<Seq<char>>::empty());
            }
            Err(EvalError::UndefinedFunction(name.clone()))
        },
        Some(o) => match o {
            Object::Funct(Function::Native { name: nm }) => {
                match eval_args_boxed(args, 0, md, out, fuel - 1) {
                    Err(e) => Err(e),
                    Ok(vals) => {
                        if crate::token::str_is(nm, "print") {
                            let ghost pre = out@;
                            let line = print_line(&vals);
                            out.push(line);
                            proof {
                                crate::parser::lemma_lines_view_push(
                                    pre,
                                    out@,
                                    out@.last(),
                                );
                                let oc = crate::parser::spec_call(
                                    name@,
                                    crate::ast::expr::boxed_exprs_view(args@),
                                    md@,
                                    fuel as nat,
                                );
                                assert(crate::parser::lines_view(out@)
                                    =~= crate::parser::lines_view(old(out)@) + oc.out);
                            }
                            Ok(Object::Const(Const::Undef))
                        } else {
                            Ok(Object::Const(Const::Undef))
                        }
                    },
                }
            },
            Object::Funct(Function::Coded { name: _, args: params, body }) => {
                match eval_args_boxed(args, 0, md, out, fuel - 1) {
                    Err(e) => Err(e),
                    Ok(vals) => {
                        let mut fmd = build_frame(
                            params,
                            &vals,
                            Vec::new(),
                            crate::ast::stmt::stmts_duplicate(body),
                            md,
                        );
                        proof {
                            assert(table_view(Seq::<(String, Object)>::empty())
                                =~= Map::<Seq<char>, ObjectView>::empty());
                        }
                        let rr = crate::parser::exec_stmts(&mut fmd, out, 0, fuel - 1);
                        proof {
                            let oc = crate::parser::spec_call(
                                name@,
                                crate::ast::expr::boxed_exprs_view(args@),
                                md@,
                                fuel as nat,
                            );
                            assert(crate::parser::lines_view(out@)
                                =~= crate::parser::lines_view(old(out)@) + oc.out);
                        }
                        match rr {
                            Err(e) => Err(e),
                            Ok(()) => Ok(fmd.rt),
                        }
                    },
                }
            },
            Object::Class(crate::parser::classes::ClassD::Coded { name: cn, vars }) => {
                match eval_args_boxed(args, 0, md, out, fuel - 1) {
                    Err(e) => Err(e),
                    Ok(vals) => {
                        let needle = String::from_str("constructor");
                        proof {
                            reveal_strlit("constructor");
                        }
                        let ctor = table_get(vars, &needle);
                        let mut is_coded_ctor = false;
                        match ctor {
                            Some(Object::Funct(Function::Coded { .. })) => {
                                is_coded_ctor = true;
                            },
                            _ => {},
                        }
                        if is_coded_ctor {
                            match ctor {
                                Some(Object::Funct(Function::Coded {
                                    name: _,
                                    args: cargs,
                                    body: cbody,
                                })) => {
                                    let seed = table_duplicate(vars);
                                    let mut cmod = build_frame(
                                        cargs,
                                        &vals,
                                        seed,
                                        crate::ast::stmt::stmts_duplicate(cbody),
                                        md,
                                    );
                                    let rr = crate::parser::exec_stmts(
                                        &mut cmod,
                                        out,
                                        0,
                                        fuel - 1,
                                    );
                                    proof {
                                        let oc = crate::parser::spec_call(
                                            name@,
                                            crate::ast::expr::boxed_exprs_view(args@),
                                            md@,
                                            fuel as nat,
                                        );
                                        assert(crate::parser::lines_view(out@)
                                            =~= crate::parser::lines_view(old(out)@) + oc.out);
                                    }
                                    match rr {
                                        Err(e) => Err(e),
                                        Ok(()) => {
                                            let inst = merge_tables(vars, &cmod.vtable);
                                            Ok(
                                                Object::ClassObj(
                                                    ClassO {
                                                        name: cn.clone(),
                                                        vars: inst,
                                                    },
                                                ),
                                            )
                                        },
                                    }
                                },
                                _ => {
                                    Err(EvalError::MalformedExpression)
                                },
                            }
                        } else {
                            Ok(
                                Object::ClassObj(
                                    ClassO { name: cn.clone(), vars: table_duplicate(vars) },
                                ),
                            )
                        }
                    },
                }
            },
            Object::Class(crate::parser::classes::ClassD::Native { .. }) => {
                proof {
                    assert(crate::parser::lines_view(out@) =~= crate::parser::lines_view(out@)
                        + Seq::<Seq<char>>::empty());
                }
                Ok(Object::Const(Const::Undef))
            },
            _ => {
                proof {
                    assert(crate::parser::lines_view(out@) =~= crate::parser::lines_view(out@)
                        + Seq::<Seq<char>>::empty());
                }
                Err(EvalError::NotCallable(name.clone()))
            },
        },
    }
}

/// Execute a call in statement position.
#[verifier::rlimit(100)]
pub fn exec_stmt_call(
    md: &Module,
    out: &mut Vec<String>,
    name: &String,
    args: &Vec<crate::ast::expr::Expr>,
    fuel: u64,
) -> (r: Result<(), EvalError>)
    ensures
        ({
            let oc = crate::parser::spec_stmt_call(
                name@,
                crate::ast::expr::exprs_view(args@),
                md@,
                fuel as nat,
            );
            &&& oc.module == md@
            &&& crate::parser::lines_view(final(out)@) == crate::parser::lines_view(old(out)@)
                + oc.out
            &&& (match r {
                Ok(()) => oc.err is None,
                Err(e) => oc.err == Some(e@),
            })
        }),
    decreases fuel as nat, 4nat,
{
    if fuel == 0 {
        proof {
            assert(crate::parser::lines_view(out@) =~= crate::parser::lines_view(out@)
                + Seq::<Seq<char>>::empty());
        }
        return Err(EvalError::RecursionLimit);
    }
    let callee = md.get_var(name);
    match callee {
        None => {
            proof {
                assert(crate::parser::lines_view(out@) =~= crate::parser::lines_view(out@)
                    + Seq::<Seq<char>>::empty());
            }
            Err(EvalError::UndefinedFunction(name.clone()))
        },
        Some(o) => match o {
            Object::Funct(Function::Native { name: nm }) => {
                match eval_args_plain(args, 0, md, out, fuel - 1) {
                    Err(e) => Err(e),
                    Ok(vals) => {
                        if crate::token::str_is(nm, "print") {
                            let ghost pre = out@;
                            let line = print_line(&vals);
                            out.push(line);
                            proof {
                                crate::parser::lemma_lines_view_push(pre, out@, out@.last());
                                let oc = crate::parser::spec_stmt_call(
                                    name@,
                                    crate::ast::expr::exprs_view(args@),
                                    md@,
                                    fuel as nat,
                                );
                                assert(crate::parser::lines_view(out@)
                                    =~= crate::parser::lines_view(old(out)@) + oc.out);
                            }
                            Ok(())
                        } else {
                            Ok(())
                        }
                    },
                }
            },
            Object::Funct(Function::Coded { name: _, args: params, body }) => {
                match eval_args_plain(args, 0, md, out, fuel - 1) {
                    Err(e) => Err(e),
                    Ok(vals) => {
                        let mut fmd = build_frame(
                            params,
                            &vals,
                            Vec::new(),
                            crate::ast::stmt::stmts_duplicate(body),
                            md,
                        );
                        proof {
                            assert(table_view(Seq::<(String, Object)>::empty())
                                =~= Map::<Seq<char>, ObjectView>::empty());
                        }
                        let rr = crate::parser::exec_stmts(&mut fmd, out, 0, fuel - 1);
                        proof {
                            let oc = crate::parser::spec_stmt_call(
                                name@,
                                crate::ast::expr::exprs_view(args@),
                                md@,
                                fuel as nat,
                            );
                            assert(crate::parser::lines_view(out@)
                                =~= crate::parser::lines_view(old(out)@) + oc.out);
                        }
                        match rr {
                            Err(e) => Err(e),
                            Ok(()) => Ok(()),
                        }
                    },
                }
            },
            _ => {
                proof {
                    assert(crate::parser::lines_view(out@) =~= crate::parser::lines_view(out@)
                        + Seq::<Seq<char>>::empty());
                }
                Err(EvalError::NotCallable(name.clone()))
            },
        },
    }
}

/// Run a postfix sequence with an operand stack, from element `idx`.
fn eval_arith(
    p: &Vec<crate::ast::arithmetic::Arithmetic>,
    idx: usize,
    stack: Vec<Object>,
    md: &Module,
    out: &mut Vec<String>,
    fuel: u64,
) -> (r: Result<Object, EvalError>)
    requires
        idx <= p@.len(),
    ensures
        ({
            let oc = crate::parser::spec_arith(
                crate::ast::expr::ariths_view(p@),
                idx as nat,
                crate::parser::objs_view(stack@),
                md@,
                fuel as nat,
            );
            &&& crate::parser::lines_view(final(out)@) == crate::parser::lines_view(old(out)@)
                + oc.out
            &&& res_view(r) == oc.result
        }),
    decreases fuel as nat, 4nat,
{
    let ghost pv = crate::ast::expr::ariths_view(p@);
    let ghost sv = crate::parser::objs_view(stack@);
    proof {
        crate::ast::expr::lemma_ariths_view(p@);
        assert(sv.len() == stack@.len());
    }
    if fuel == 0 {
        proof {
            assert(crate::parser::lines_view(out@) =~= crate::parser::lines_view(out@)
                + Seq::<Seq<char>>::empty());
        }
        return Err(EvalError::RecursionLimit);
    }
    if idx >= p.len() {
        proof {
            assert(crate::parser::lines_view(out@) =~= crate::parser::lines_view(out@)
                + Seq::<Seq<char>>::empty());
        }
        let mut s = stack;
        if s.len() == 1 {
            let v = s.pop().unwrap();
            proof {
                assert(object_view(v) == sv[0]);
            }
            return Ok(v);
        }
        return Err(EvalError::MalformedExpression);
    }
    match &p[idx] {
        crate::ast::arithmetic::Arithmetic::Node(e) => {
            match obj_eval(&**e, md, out, fuel - 1) {
                Err(er) => Err(er),
                Ok(v) => {
                    let mut s2 = stack;
                    s2.push(v);
                    proof {
                        assert(crate::parser::objs_view(s2@) =~= sv.push(object_view(
                            s2@.last(),
                        )));
                    }
                    let rr = eval_arith(p, idx + 1, s2, md, out, fuel - 1);
                    proof {
                        let oc = crate::parser::spec_arith(pv, idx as nat, sv, md@, fuel as nat);
                        assert(crate::parser::lines_view(out@) =~= crate::parser::lines_view(
                            old(out)@,
                        ) + oc.out);
                    }
                    rr
                },
            }
        },
        crate::ast::arithmetic::Arithmetic::Op(o) => {
            if stack.len() < 2 {
                proof {
                    assert(crate::parser::lines_view(out@) =~= crate::parser::lines_view(out@)
                        + Seq::<Seq<char>>::empty());
                }
                return Err(EvalError::MalformedExpression);
            }
            let mut s2 = stack;
            let a = s2.pop().unwrap();
            let b = s2.pop().unwrap();
            proof {
                assert(object_view(a) == sv.last());
                assert(object_view(b) == sv[sv.len() - 2]);
            }
            match apply_op(*o, &a, &b) {
                Err(er) => {
                    proof {
                        assert(crate::parser::lines_view(out@) =~= crate::parser::lines_view(
                            out@,
                        ) + Seq::<Seq<char>>::empty());
                    }
                    Err(er)
                },
                Ok(v) => {
                    s2.push(v);
                    proof {
                        assert(crate::parser::objs_view(s2@) =~= sv.drop_last().drop_last().push(
                            object_view(s2@.last()),
                        ));
                    }
                    eval_arith(p, idx + 1, s2, md, out, fuel - 1)
                },
            }
        },
    }
}

/// Evaluate one expression against a frame, printing through `out` and
/// giving up at the fuel bound.  Result and output are exactly what
/// [`crate::parser::spec_eval`] yields.
pub fn obj_eval(e: &crate::ast::expr::Expr, md: &Module, out: &mut Vec<String>, fuel: u64) -> (r:
    Result<Object, EvalError>)
    ensures
        ({
            let oc = crate::parser::spec_eval(crate::ast::expr::expr_view(*e), md@, fuel as nat);
            &&& crate::parser::lines_view(final(out)@) == crate::parser::lines_view(old(out)@)
                + oc.out
            &&& res_view(r) == oc.result
        }),
    decreases fuel as nat, 5nat,
{
    if fuel == 0 {
        proof {
            assert(crate::parser::lines_view(out@) =~= crate::parser::lines_view(out@)
                + Seq::<Seq<char>>::empty());
        }
        return Err(EvalError::RecursionLimit);
    }
    match e {
        crate::ast::expr::Expr::Const(c) => {
            proof {
                assert(crate::parser::lines_view(out@) =~= crate::parser::lines_view(out@)
                    + Seq::<Seq<char>>::empty());
            }
            Ok(Object::Const(c.duplicate()))
        },
        crate::ast::expr::Expr::Var(n) => {
            proof {
                assert(crate::parser::lines_view(out@) =~= crate::parser::lines_view(out@)
                    + Seq::<Seq<char>>::empty());
            }
            match md.get_var(n) {
                Some(o) => Ok(o.duplicate()),
                None => Err(EvalError::UndefinedVariable(n.clone())),
            }
        },
        crate::ast::expr::Expr::Arith(v) => {
            let stack: Vec<Object> = Vec::new();
            proof {
                assert(crate::parser::objs_view(Seq::<Object>::empty())
                    =~= Seq::<ObjectView>::empty());
            }
            eval_arith(v, 0, stack, md, out, fuel - 1)
        },
        crate::ast::expr::Expr::FuncCallSimple { name, args } => eval_call(
            name,
            args,
            md,
            out,
            fuel - 1,
        ),
        crate::ast::expr::Expr::NewConstruct(inner) => obj_eval(&**inner, md, out, fuel - 1),
    }
}

} // verus!
