//! The evaluator: statement sequences executed against scope frames.
//!
//! Execution is defined by a recursive specification interpreter over
//! frame views; every executable function's result, frame mutation and
//! print output is pinned to it.  Evaluation carries a fuel bound that
//! falls with every recursive step, so a program that never returns
//! (unbounded call recursion) is reported as [`obj::EvalError::RecursionLimit`]
//! instead of running forever; the host passes a generous bound.

pub mod classes;
pub mod function;
pub mod module;
pub mod obj;

use crate::ast::expr::constants::ConstView;
use crate::ast::expr::ExprView;
use crate::ast::stmt::{Stmt, StmtView};
use crate::parser::classes::{ClassDView, ClassOView};
use crate::parser::function::{Function, FunctionView};
use crate::parser::module::{module_view, spec_lookup, Module, ModuleView};
use crate::parser::obj::{
    obj_eval, object_view, spec_apply_op, spec_display_obj, spec_print_line, table_view, EvalError,
    EvalErrorView, Object, ObjectView,
};
use vstd::prelude::*;

verus! {

/// What evaluating an expression yields: a value or an error, and the
/// lines printed on the way.
pub struct EvalOutcome {
    pub result: Result<ObjectView, EvalErrorView>,
    pub out: Seq<Seq<char>>,
}

/// What evaluating an argument list yields.
pub struct ArgsOutcome {
    pub result: Result<Seq<ObjectView>, EvalErrorView>,
    pub out: Seq<Seq<char>>,
}

/// What executing statements yields: the frame afterwards, the lines
/// printed, and the error that stopped execution, if one did.
pub struct ExecOutcome {
    pub module: ModuleView,
    pub out: Seq<Seq<char>>,
    pub err: Option<EvalErrorView>,
}

/// The views of printed lines.
pub open spec fn lines_view(s: Seq<String>) -> Seq<Seq<char>> {
    Seq::new(s.len(), |i: int| s[i]@)
}

/// Appending one line extends the line views by its view.
pub proof fn lemma_lines_view_push(old_s: Seq<String>, new_s: Seq<String>, x: String)
    requires
        new_s == old_s.push(x),
    ensures
        lines_view(new_s) == lines_view(old_s).push(x@),
{
    assert(lines_view(new_s) =~= lines_view(old_s).push(x@));
}

/// The views of evaluated values.
pub open spec fn objs_view(s: Seq<Object>) -> Seq<ObjectView> {
    Seq::new(s.len(), |i: int| object_view(s[i]))
}

/// Bind the declared parameter names, in order, to the evaluated
/// argument values; a parameter that is not a bare name, or has no
/// matching argument, binds nothing.
pub open spec fn bind_params(
    params: Seq<ExprView>,
    vals: Seq<ObjectView>,
    j: nat,
    acc: Map<Seq<char>, ObjectView>,
) -> Map<Seq<char>, ObjectView>
    decreases params.len() - j,
{
    if j >= params.len() {
        acc
    } else {
        let acc2 = if params[j as int] matches ExprView::Var(vn) && j < vals.len() {
            acc.insert(params[j as int]->Var_0, vals[j as int])
        } else {
            acc
        };
        bind_params(params, vals, j + 1, acc2)
    }
}

/// The frame a call runs in: parameters bound over `seed`, the body as
/// its statements, and the calling frame as its parent.
pub open spec fn mk_frame(
    params: Seq<ExprView>,
    vals: Seq<ObjectView>,
    seed: Map<Seq<char>, ObjectView>,
    body: Seq<StmtView>,
    parent: ModuleView,
) -> ModuleView {
    ModuleView {
        vtable: bind_params(params, vals, 0, seed),
        stmts: body,
        parent: Some(Box::new(parent)),
        rt: ObjectView::Const(ConstView::Undef),
        got_rt: false,
    }
}

/// The instance fields after a constructor ran: each field takes the
/// constructor frame's final binding for its name, when one exists.
pub open spec fn merge_fields(
    inst: Map<Seq<char>, ObjectView>,
    frame: Map<Seq<char>, ObjectView>,
) -> Map<Seq<char>, ObjectView> {
    Map::new(
        |k: Seq<char>| inst.dom().contains(k),
        |k: Seq<char>|
            if frame.dom().contains(k) {
                frame[k]
            } else {
                inst[k]
            },
    )
}

/// Evaluate one expression against a frame.
pub open spec fn spec_eval(e: ExprView, m: ModuleView, fuel: nat) -> EvalOutcome
    decreases fuel,
{
    if fuel == 0 {
        EvalOutcome { result: Err(EvalErrorView::RecursionLimit), out: Seq::empty() }
    } else {
        match e {
            ExprView::Const(c) => EvalOutcome {
                result: Ok(ObjectView::Const(c)),
                out: Seq::empty(),
            },
            ExprView::Var(n) => match spec_lookup(m, n) {
                Some(o) => EvalOutcome { result: Ok(o), out: Seq::empty() },
                None => EvalOutcome {
                    result: Err(EvalErrorView::UndefinedVariable(n)),
                    out: Seq::empty(),
                },
            },
            ExprView::Arith(p) => spec_arith(p, 0, Seq::empty(), m, (fuel - 1) as nat),
            ExprView::FuncCallSimple { name, args } => spec_call(name, args, m, (fuel - 1) as nat),
            ExprView::NewConstruct(inner) => spec_eval(*inner, m, (fuel - 1) as nat),
        }
    }
}

/// Evaluate an argument list, left to right, from index `idx`.
pub open spec fn spec_eval_args(args: Seq<ExprView>, idx: nat, m: ModuleView, fuel: nat) -> ArgsOutcome
    decreases fuel,
{
    if fuel == 0 {
        ArgsOutcome { result: Err(EvalErrorView::RecursionLimit), out: Seq::empty() }
    } else if idx >= args.len() {
        ArgsOutcome { result: Ok(Seq::empty()), out: Seq::empty() }
    } else {
        let first = spec_eval(args[idx as int], m, (fuel - 1) as nat);
        match first.result {
            Err(e) => ArgsOutcome { result: Err(e), out: first.out },
            Ok(v) => {
                let rest = spec_eval_args(args, idx + 1, m, (fuel - 1) as nat);
                match rest.result {
                    Err(e) => ArgsOutcome { result: Err(e), out: first.out + rest.out },
                    Ok(vs) => ArgsOutcome {
                        result: Ok(seq![v] + vs),
                        out: first.out + rest.out,
                    },
                }
            },
        }
    }
}

/// Run a postfix arithmetic sequence with an operand stack.  Exactly
/// one value must remain at the end; a stack of any other size is a
/// malformed program.
pub open spec fn spec_arith(
    p: Seq<crate::ast::arithmetic::ArithView>,
    idx: nat,
    stack: Seq<ObjectView>,
    m: ModuleView,
    fuel: nat,
) -> EvalOutcome
    decreases fuel,
{
    if fuel == 0 {
        EvalOutcome { result: Err(EvalErrorView::RecursionLimit), out: Seq::empty() }
    } else if idx >= p.len() {
        if stack.len() == 1 {
            EvalOutcome { result: Ok(stack[0]), out: Seq::empty() }
        } else {
            EvalOutcome { result: Err(EvalErrorView::MalformedExpression), out: Seq::empty() }
        }
    } else {
        match p[idx as int] {
            crate::ast::arithmetic::ArithView::Node(n) => {
                let first = spec_eval(*n, m, (fuel - 1) as nat);
                match first.result {
                    Err(e) => EvalOutcome { result: Err(e), out: first.out },
                    Ok(v) => {
                        let rest = spec_arith(p, idx + 1, stack.push(v), m, (fuel - 1) as nat);
                        EvalOutcome { result: rest.result, out: first.out + rest.out }
                    },
                }
            },
            crate::ast::arithmetic::ArithView::Op(o) => {
                if stack.len() < 2 {
                    EvalOutcome {
                        result: Err(EvalErrorView::MalformedExpression),
                        out: Seq::empty(),
                    }
                } else {
                    let a = stack.last();
                    let b = stack[stack.len() - 2];
                    match spec_apply_op(o, a, b) {
                        Err(e) => EvalOutcome { result: Err(e), out: Seq::empty() },
                        Ok(v) => spec_arith(
                            p,
                            idx + 1,
                            stack.drop_last().drop_last().push(v),
                            m,
                            (fuel - 1) as nat,
                        ),
                    }
                }
            },
        }
    }
}

/// Evaluate a call in expression position: natives print and yield
/// `undefined`, user functions run their body in a child frame and
/// yield its return slot, and a user class constructs an instance.
pub open spec fn spec_call(name: Seq<char>, args: Seq<ExprView>, m: ModuleView, fuel: nat) -> EvalOutcome
    decreases fuel,
{
    if fuel == 0 {
        EvalOutcome { result: Err(EvalErrorView::RecursionLimit), out: Seq::empty() }
    } else {
        match spec_lookup(m, name) {
            None => EvalOutcome {
                result: Err(EvalErrorView::UndefinedFunction(name)),
                out: Seq::empty(),
            },
            Some(callee) => match callee {
                ObjectView::Funct(FunctionView::Native { name: nm }) => {
                    let ao = spec_eval_args(args, 0, m, (fuel - 1) as nat);
                    match ao.result {
                        Err(e) => EvalOutcome { result: Err(e), out: ao.out },
                        Ok(vals) => {
                            if nm == "print"@ {
                                EvalOutcome {
                                    result: Ok(ObjectView::Const(ConstView::Undef)),
                                    out: ao.out.push(spec_print_line(vals)),
                                }
                            } else {
                                EvalOutcome {
                                    result: Ok(ObjectView::Const(ConstView::Undef)),
                                    out: ao.out,
                                }
                            }
                        },
                    }
                },
                ObjectView::Funct(FunctionView::Coded { name: _, args: params, body }) => {
                    let ao = spec_eval_args(args, 0, m, (fuel - 1) as nat);
                    match ao.result {
                        Err(e) => EvalOutcome { result: Err(e), out: ao.out },
                        Ok(vals) => {
                            let fmd = mk_frame(params, vals, Map::empty(), body, m);
                            let eo = spec_exec_stmts(fmd, 0, (fuel - 1) as nat);
                            match eo.err {
                                Some(e) => EvalOutcome { result: Err(e), out: ao.out + eo.out },
                                None => EvalOutcome {
                                    result: Ok(eo.module.rt),
                                    out: ao.out + eo.out,
                                },
                            }
                        },
                    }
                },
                ObjectView::Class(ClassDView::Coded { name: cn, vars }) => {
                    let ao = spec_eval_args(args, 0, m, (fuel - 1) as nat);
                    match ao.result {
                        Err(e) => EvalOutcome { result: Err(e), out: ao.out },
                        Ok(vals) => {
                            if vars.dom().contains("constructor"@) && vars["constructor"@]
                                matches ObjectView::Funct(FunctionView::Coded { .. }) {
                                let ctor = vars["constructor"@];
                                let cmod = mk_frame(
                                    ctor->Funct_0->Coded_args,
                                    vals,
                                    vars,
                                    ctor->Funct_0->Coded_body,
                                    m,
                                );
                                let eo = spec_exec_stmts(cmod, 0, (fuel - 1) as nat);
                                match eo.err {
                                    Some(e) => EvalOutcome {
                                        result: Err(e),
                                        out: ao.out + eo.out,
                                    },
                                    None => EvalOutcome {
                                        result: Ok(
                                            ObjectView::ClassObj(
                                                ClassOView {
                                                    name: cn,
                                                    vars: merge_fields(vars, eo.module.vtable),
                                                },
                                            ),
                                        ),
                                        out: ao.out + eo.out,
                                    },
                                }
                            } else {
                                EvalOutcome {
                                    result: Ok(
                                        ObjectView::ClassObj(ClassOView { name: cn, vars }),
                                    ),
                                    out: ao.out,
                                }
                            }
                        },
                    }
                },
                ObjectView::Class(ClassDView::Native { .. }) => EvalOutcome {
                    result: Ok(ObjectView::Const(ConstView::Undef)),
                    out: Seq::empty(),
                },
                _ => EvalOutcome {
                    result: Err(EvalErrorView::NotCallable(name)),
                    out: Seq::empty(),
                },
            },
        }
    }
}

/// Execute a call in statement position: the result is discarded, the
/// calling frame is untouched, and a class is not callable here.
pub open spec fn spec_stmt_call(
    name: Seq<char>,
    args: Seq<ExprView>,
    m: ModuleView,
    fuel: nat,
) -> ExecOutcome
    decreases fuel,
{
    if fuel == 0 {
        ExecOutcome { module: m, out: Seq::empty(), err: Some(EvalErrorView::RecursionLimit) }
    } else {
        match spec_lookup(m, name) {
            None => ExecOutcome {
                module: m,
                out: Seq::empty(),
                err: Some(EvalErrorView::UndefinedFunction(name)),
            },
            Some(callee) => match callee {
                ObjectView::Funct(FunctionView::Native { name: nm }) => {
                    let ao = spec_eval_args(args, 0, m, (fuel - 1) as nat);
                    match ao.result {
                        Err(e) => ExecOutcome { module: m, out: ao.out, err: Some(e) },
                        Ok(vals) => {
                            if nm == "print"@ {
                                ExecOutcome {
                                    module: m,
                                    out: ao.out.push(spec_print_line(vals)),
                                    err: None,
                                }
                            } else {
                                ExecOutcome { module: m, out: ao.out, err: None }
                            }
                        },
                    }
                },
                ObjectView::Funct(FunctionView::Coded { name: _, args: params, body }) => {
                    let ao = spec_eval_args(args, 0, m, (fuel - 1) as nat);
                    match ao.result {
                        Err(e) => ExecOutcome { module: m, out: ao.out, err: Some(e) },
                        Ok(vals) => {
                            let fmd = mk_frame(params, vals, Map::empty(), body, m);
                            let eo = spec_exec_stmts(fmd, 0, (fuel - 1) as nat);
                            ExecOutcome { module: m, out: ao.out + eo.out, err: eo.err }
                        },
                    }
                },
                _ => ExecOutcome {
                    module: m,
                    out: Seq::empty(),
                    err: Some(EvalErrorView::NotCallable(name)),
                },
            },
        }
    }
}

/// Execute one statement against a frame.
pub open spec fn spec_exec_stmt(st: StmtView, m: ModuleView, fuel: nat) -> ExecOutcome
    decreases fuel,
{
    if fuel == 0 {
        ExecOutcome { module: m, out: Seq::empty(), err: Some(EvalErrorView::RecursionLimit) }
    } else {
        match st {
            StmtView::VardeclSimple { name, val, qual } => {
                let eo = spec_eval(val, m, (fuel - 1) as nat);
                match eo.result {
                    Err(e) => ExecOutcome { module: m, out: eo.out, err: Some(e) },
                    Ok(v) => ExecOutcome {
                        module: ModuleView { vtable: m.vtable.insert(name, v), ..m },
                        out: eo.out,
                        err: None,
                    },
                }
            },
            StmtView::Funcdecl { name, args, body } => ExecOutcome {
                module: ModuleView {
                    vtable: m.vtable.insert(
                        name,
                        ObjectView::Funct(FunctionView::Coded { name, args, body }),
                    ),
                    ..m
                },
                out: Seq::empty(),
                err: None,
            },
            StmtView::FunctCallSimple { name, args } => spec_stmt_call(
                name,
                args,
                m,
                (fuel - 1) as nat,
            ),
            StmtView::ReturnStmt(e) => {
                let eo = spec_eval(e, m, (fuel - 1) as nat);
                match eo.result {
                    Err(er) => ExecOutcome { module: m, out: eo.out, err: Some(er) },
                    Ok(v) => ExecOutcome {
                        module: ModuleView { rt: v, got_rt: true, ..m },
                        out: eo.out,
                        err: None,
                    },
                }
            },
            StmtView::ClassDecl { name, vars, fns } => {
                let c0 = ModuleView {
                    vtable: Map::empty(),
                    stmts: vars,
                    parent: None,
                    rt: ObjectView::Const(ConstView::Undef),
                    got_rt: false,
                };
                let e1 = spec_exec_stmts(c0, 0, (fuel - 1) as nat);
                match e1.err {
                    Some(er) => ExecOutcome { module: m, out: e1.out, err: Some(er) },
                    None => {
                        let c2 = ModuleView { stmts: fns, ..e1.module };
                        let e2 = spec_exec_stmts(c2, 0, (fuel - 1) as nat);
                        match e2.err {
                            Some(er) => ExecOutcome {
                                module: m,
                                out: e1.out + e2.out,
                                err: Some(er),
                            },
                            None => ExecOutcome {
                                module: ModuleView {
                                    vtable: m.vtable.insert(
                                        name,
                                        ObjectView::Class(
                                            ClassDView::Coded {
                                                name,
                                                vars: e2.module.vtable,
                                            },
                                        ),
                                    ),
                                    ..m
                                },
                                out: e1.out + e2.out,
                                err: None,
                            },
                        }
                    },
                }
            },
        }
    }
}

/// Execute a frame's statements in order, from index `i`, stopping at
/// the end, at a raised error, or once the return flag is set.
pub open spec fn spec_exec_stmts(m: ModuleView, i: nat, fuel: nat) -> ExecOutcome
    decreases fuel,
{
    if fuel == 0 {
        ExecOutcome { module: m, out: Seq::empty(), err: Some(EvalErrorView::RecursionLimit) }
    } else if i >= m.stmts.len() || m.got_rt {
        ExecOutcome { module: m, out: Seq::empty(), err: None }
    } else {
        let e1 = spec_exec_stmt(m.stmts[i as int], m, (fuel - 1) as nat);
        match e1.err {
            Some(er) => e1,
            None => {
                let e2 = spec_exec_stmts(e1.module, i + 1, (fuel - 1) as nat);
                ExecOutcome { module: e2.module, out: e1.out + e2.out, err: e2.err }
            },
        }
    }
}

/// Execute the frame's statement list against it, printing through
/// `out` and giving up at the fuel bound.  Frame, output and result are
/// exactly what [`spec_exec_stmts`] yields from the initial frame.
pub fn mod_exec(md: &mut Module, out: &mut Vec<String>, fuel: u64) -> (r: Result<(), EvalError>)
    ensures
        ({
            let oc = spec_exec_stmts(old(md)@, 0, fuel as nat);
            &&& final(md)@ == oc.module
            &&& lines_view(final(out)@) == lines_view(old(out)@) + oc.out
            &&& (match r {
                Ok(()) => oc.err is None,
                Err(e) => oc.err == Some(e@),
            })
        }),
    decreases fuel as nat, 1nat,
{
    exec_stmts(md, out, 0, fuel)
}

/// Execute statements from index `i`, as [`spec_exec_stmts`] does.
pub fn exec_stmts(md: &mut Module, out: &mut Vec<String>, i: usize, fuel: u64) -> (r: Result<
    (),
    EvalError,
>)
    ensures
        ({
            let oc = spec_exec_stmts(old(md)@, i as nat, fuel as nat);
            &&& final(md)@ == oc.module
            &&& lines_view(final(out)@) == lines_view(old(out)@) + oc.out
            &&& (match r {
                Ok(()) => oc.err is None,
                Err(e) => oc.err == Some(e@),
            })
        }),
    decreases fuel as nat, 0nat,
{
    if fuel == 0 {
        proof {
            assert(lines_view(out@) =~= lines_view(out@) + Seq::<Seq<char>>::empty());
        }
        return Err(EvalError::RecursionLimit);
    }
    if i >= md.stmts.len() || md.got_rt {
        proof {
            crate::ast::stmt::lemma_stmts_view(md.stmts@);
            assert(lines_view(out@) =~= lines_view(out@) + Seq::<Seq<char>>::empty());
        }
        return Ok(());
    }
    proof {
        crate::ast::stmt::lemma_stmts_view(md.stmts@);
    }
    let st = md.stmts[i].duplicate();
    let ghost mid_out = out@;
    match exec_stmt(md, out, &st, fuel - 1) {
        Err(e) => {
            return Err(e);
        },
        Ok(()) => {},
    }
    let ghost out1 = out@;
    let r = exec_stmts(md, out, i + 1, fuel - 1);
    proof {
        let oc0 = spec_exec_stmts(old(md)@, i as nat, fuel as nat);
        assert(lines_view(out@) =~= lines_view(old(out)@) + oc0.out);
    }
    r
}

/// Execute one statement, as [`spec_exec_stmt`] does.
#[verifier::rlimit(60)]
pub fn exec_stmt(md: &mut Module, out: &mut Vec<String>, st: &Stmt, fuel: u64) -> (r: Result<
    (),
    EvalError,
>)
    ensures
        ({
            let oc = spec_exec_stmt(st@, old(md)@, fuel as nat);
            &&& final(md)@ == oc.module
            &&& lines_view(final(out)@) == lines_view(old(out)@) + oc.out
            &&& (match r {
                Ok(()) => oc.err is None,
                Err(e) => oc.err == Some(e@),
            })
        }),
    decreases fuel as nat, 2nat,
{
    if fuel == 0 {
        proof {
            assert(lines_view(out@) =~= lines_view(out@) + Seq::<Seq<char>>::empty());
        }
        return Err(EvalError::RecursionLimit);
    }
    match st {
        Stmt::VardeclSimple { name, val, .. } => {
            match obj_eval(val, md, out, fuel - 1) {
                Err(e) => Err(e),
                Ok(v) => {
                    md.add_var(name, v);
                    Ok(())
                },
            }
        },
        Stmt::Funcdecl { name, args, body } => {
            let f = Function::Coded {
                name: name.clone(),
                args: crate::ast::stmt::exprs_duplicate(args),
                body: crate::ast::stmt::stmts_duplicate(body),
            };
            md.add_var(name, Object::Funct(f));
            proof {
                assert(lines_view(out@) =~= lines_view(out@) + Seq::<Seq<char>>::empty());
            }
            Ok(())
        },
        Stmt::FunctCallSimple { name, args } => crate::parser::obj::exec_stmt_call(
            md,
            out,
            name,
            args,
            fuel - 1,
        ),
        Stmt::ReturnStmt(e) => {
            match obj_eval(e, md, out, fuel - 1) {
                Err(er) => Err(er),
                Ok(v) => {
                    md.rt = v;
                    md.got_rt = true;
                    Ok(())
                },
            }
        },
        Stmt::ClassDecl { name, vars, fns } => {
            let mut cmd = Module::new();
            cmd.stmts = crate::ast::stmt::stmts_duplicate(vars);
            let ghost c0 = cmd@;
            match exec_stmts(&mut cmd, out, 0, fuel - 1) {
                Err(e) => {
                    return Err(e);
                },
                Ok(()) => {},
            }
            cmd.stmts = crate::ast::stmt::stmts_duplicate(fns);
            let ghost out1 = out@;
            match exec_stmts(&mut cmd, out, 0, fuel - 1) {
                Err(e) => {
                    proof {
                        let oc = spec_exec_stmt(st@, old(md)@, fuel as nat);
                        assert(lines_view(out@) =~= lines_view(old(out)@) + oc.out);
                    }
                    return Err(e);
                },
                Ok(()) => {},
            }
            let cls = Object::Class(
                crate::parser::classes::ClassD::Coded { name: name.clone(), vars: cmd.vtable },
            );
            md.add_var(name, cls);
            proof {
                let oc = spec_exec_stmt(st@, old(md)@, fuel as nat);
                assert(lines_view(out@) =~= lines_view(old(out)@) + oc.out);
            }
            Ok(())
        },
    }
}

} // verus!
