use accent::ast::expr::constants::Const;
use accent::ast::stmt_gen;
use accent::num::Dec;
use accent::parser::function::Function;
use accent::parser::mod_exec;
use accent::parser::module::Module;
use accent::parser::obj::{EvalError, Object, ValueKind};
use accent::parser::obj::obj_eval;
use accent::token::gen_toks;

const FUEL: u64 = 100_000;

fn run(src: &str) -> (Module, Vec<String>, Result<(), EvalError>) {
    let toks = gen_toks(String::from(src)).expect("lexing failed");
    let sts = stmt_gen(&toks).expect("parsing failed");
    let mut md = Module::new();
    md.stmts = sts;
    md.add_var(
        &String::from("print"),
        Object::Funct(Function::Native { name: String::from("print") }),
    );
    let mut out: Vec<String> = Vec::new();
    let r = mod_exec(&mut md, &mut out, FUEL);
    (md, out, r)
}

fn int_binding(md: &Module, name: &str) -> i64 {
    match md.get_var(&String::from(name)) {
        Some(Object::Const(Const::Integer(v))) => *v,
        other => panic!("expected integer binding, found {:?}", other),
    }
}

#[test]
fn it_works() {
    let (md, _, r) = run("function add(a,b){ return a+b; }\nresult = add(2, 2);");
    assert!(r.is_ok());
    let result = int_binding(&md, "result");
    assert_eq!(result, 4);
}

#[test]
fn precedence_products_bind_tighter() {
    let (md, _, r) = run("x = 2+3*4;");
    assert!(r.is_ok());
    assert_eq!(int_binding(&md, "x"), 14);
}

#[test]
fn precedence_other_order() {
    let (md, _, r) = run("x = 2*3+4;");
    assert!(r.is_ok());
    assert_eq!(int_binding(&md, "x"), 10);
}

#[test]
fn subtraction_is_left_associative() {
    let (md, _, r) = run("x = 10-2-3;");
    assert!(r.is_ok());
    assert_eq!(int_binding(&md, "x"), 5);
}

#[test]
fn mixed_precedence_chain() {
    let (md, _, r) = run("x = 1+2*3-4/2;");
    assert!(r.is_ok());
    // 4/2 is decimal division, so the whole chain widens to a decimal.
    match md.get_var(&String::from("x")) {
        Some(Object::Const(Const::Float(d))) => assert_eq!(*d, Dec { mant: 5, scale: 0 }),
        other => panic!("unexpected value {:?}", other),
    }
}

#[test]
fn string_plus_number_coerces() {
    let (md, _, r) = run("x = \"a\" + 1;");
    assert!(r.is_ok());
    match md.get_var(&String::from("x")) {
        Some(Object::Const(Const::Str { v, .. })) => assert_eq!(v.as_str(), "a1"),
        other => panic!("unexpected value {:?}", other),
    }
}

#[test]
fn number_plus_string_coerces() {
    let (md, _, r) = run("x = 1 + \"a\";");
    assert!(r.is_ok());
    match md.get_var(&String::from("x")) {
        Some(Object::Const(Const::Str { v, .. })) => assert_eq!(v.as_str(), "a1"),
        other => panic!("unexpected value {:?}", other),
    }
}

#[test]
fn string_concatenation() {
    let (md, _, r) = run("x = \"ab\" + \"cd\";");
    assert!(r.is_ok());
    match md.get_var(&String::from("x")) {
        Some(Object::Const(Const::Str { v, .. })) => assert_eq!(v.as_str(), "abcd"),
        other => panic!("unexpected value {:?}", other),
    }
}

#[test]
fn division_by_integer_zero_fails() {
    let (_, _, r) = run("x = 1/0;");
    assert_eq!(r, Err(EvalError::DivisionByZero));
}

#[test]
fn division_by_decimal_zero_fails() {
    let (_, _, r) = run("x = 1/0.0;");
    assert_eq!(r, Err(EvalError::DivisionByZero));
}

#[test]
fn division_yields_exact_decimal() {
    let (md, _, r) = run("x = 10/4;");
    assert!(r.is_ok());
    match md.get_var(&String::from("x")) {
        Some(Object::Const(Const::Float(d))) => assert_eq!(*d, Dec { mant: 25, scale: 1 }),
        other => panic!("unexpected value {:?}", other),
    }
}

#[test]
fn division_truncates_at_nine_digits() {
    let (md, _, r) = run("x = 1/3;");
    assert!(r.is_ok());
    match md.get_var(&String::from("x")) {
        Some(Object::Const(Const::Float(d))) => {
            assert_eq!(*d, Dec { mant: 333333333, scale: 9 })
        },
        other => panic!("unexpected value {:?}", other),
    }
}

#[test]
fn parameter_shadows_outer_variable() {
    let (md, _, r) = run("x = 1;\nfunction f(x){ return x + 1; }\ny = f(41);");
    assert!(r.is_ok());
    assert_eq!(int_binding(&md, "y"), 42);
    assert_eq!(int_binding(&md, "x"), 1);
}

#[test]
fn function_round_trip() {
    let (md, _, r) = run("function add(a,b){ return a+b; }\nr = add(2, 3);");
    assert!(r.is_ok());
    assert_eq!(int_binding(&md, "r"), 5);
}

#[test]
fn class_round_trip() {
    let (md, _, r) = run("class P {\n x = 0;\n constructor(v){ x = v; }\n}\np = new P(7);");
    assert!(r.is_ok());
    match md.get_var(&String::from("p")) {
        Some(Object::ClassObj(inst)) => {
            assert_eq!(inst.name.as_str(), "P");
            let mut found = None;
            for (k, v) in inst.vars.iter() {
                if k.as_str() == "x" {
                    found = Some(v);
                }
            }
            match found {
                Some(Object::Const(Const::Integer(v))) => assert_eq!(*v, 7),
                other => panic!("constructor did not set the field: {:?}", other),
            }
        },
        other => panic!("unexpected value {:?}", other),
    }
}

#[test]
fn class_without_constructor_keeps_initializers() {
    let (md, _, r) = run("class P {\n x = 5;\n}\np = new P();");
    assert!(r.is_ok());
    match md.get_var(&String::from("p")) {
        Some(Object::ClassObj(inst)) => {
            let mut found = None;
            for (k, v) in inst.vars.iter() {
                if k.as_str() == "x" {
                    found = Some(v);
                }
            }
            match found {
                Some(Object::Const(Const::Integer(v))) => assert_eq!(*v, 5),
                other => panic!("field initializer lost: {:?}", other),
            }
        },
        other => panic!("unexpected value {:?}", other),
    }
}

#[test]
fn print_formats_arguments() {
    let (_, out, r) = run("print(1, \"a\", true, undefined);");
    assert!(r.is_ok());
    assert_eq!(out, vec![String::from("1 a true undefined ")]);
}

#[test]
fn print_decimal_display() {
    let (_, out, r) = run("x = 5/2;\nprint(x);");
    assert!(r.is_ok());
    assert_eq!(out, vec![String::from("2.5 ")]);
}

#[test]
fn undefined_variable_is_reported() {
    let (_, _, r) = run("x = y;");
    assert_eq!(r, Err(EvalError::UndefinedVariable(String::from("y"))));
}

#[test]
fn undefined_function_is_reported() {
    let (_, _, r) = run("nope();");
    assert_eq!(r, Err(EvalError::UndefinedFunction(String::from("nope"))));
}

#[test]
fn calling_a_number_is_not_callable() {
    let (_, _, r) = run("x = 1;\nx();");
    assert_eq!(r, Err(EvalError::NotCallable(String::from("x"))));
}

#[test]
fn integer_overflow_is_reported() {
    let (_, _, r) = run("x = 9223372036854775807 + 1;");
    assert_eq!(r, Err(EvalError::Overflow));
}

#[test]
fn boolean_arithmetic_is_a_type_error() {
    let (_, _, r) = run("x = true - 1;");
    match r {
        Err(EvalError::TypeMismatch { left, right, .. }) => {
            assert_eq!(left, ValueKind::Bool);
            assert_eq!(right, ValueKind::Integer);
        },
        other => panic!("expected a type mismatch, found {:?}", other),
    }
}

#[test]
fn unbounded_recursion_hits_the_fuel_limit() {
    let toks = gen_toks(String::from("function f(){ return f(); }\nx = f();")).unwrap();
    let sts = stmt_gen(&toks).unwrap();
    let mut md = Module::new();
    md.stmts = sts;
    let mut out: Vec<String> = Vec::new();
    let r = mod_exec(&mut md, &mut out, 2000);
    assert_eq!(r, Err(EvalError::RecursionLimit));
}

#[test]
fn mixed_integer_decimal_addition() {
    let (md, _, r) = run("x = 1 + 0.5;");
    assert!(r.is_ok());
    match md.get_var(&String::from("x")) {
        Some(Object::Const(Const::Float(d))) => assert_eq!(*d, Dec { mant: 15, scale: 1 }),
        other => panic!("unexpected value {:?}", other),
    }
}

#[test]
fn nested_call_in_arithmetic() {
    let (md, _, r) = run("function two(){ return 2; }\nx = two() + 3;");
    assert!(r.is_ok());
    assert_eq!(int_binding(&md, "x"), 5);
}

#[test]
fn lone_operator_is_malformed() {
    let e = accent::ast::expr::Expr::Arith(vec![accent::ast::arithmetic::Arithmetic::Op(
        accent::token::EOperator::Plus,
    )]);
    let md = Module::new();
    let mut out: Vec<String> = Vec::new();
    let r = obj_eval(&e, &md, &mut out, FUEL);
    assert_eq!(r, Err(EvalError::MalformedExpression));
}
