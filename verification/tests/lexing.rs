use accent::ast::{expr_gen, stmt_gen, ParseError};
use accent::ast::stmt::{Stmt, VarQualifier};
use accent::num::Dec;
use accent::token::{gen_toks, EOperator, LexError, Token};

#[test]
fn eg_test() {
    let toks = gen_toks(String::from("a = 20;")).unwrap();
    let _eg = expr_gen(&toks);
}

#[test]
fn keywords_and_symbols() {
    let toks = gen_toks(String::from("let x = 1;")).unwrap();
    assert_eq!(
        toks,
        vec![
            Token::Keyword(String::from("let")),
            Token::Identifier(String::from("x")),
            Token::Operator(EOperator::Eq),
            Token::Integer(1),
            Token::Operator(EOperator::Semicolon),
        ]
    );
}

#[test]
fn longest_operator_wins() {
    let toks = gen_toks(String::from("=== == = != !== ! <= << < >= >> >")).unwrap();
    assert_eq!(
        toks,
        vec![
            Token::Operator(EOperator::Eqeqeq),
            Token::Operator(EOperator::Eqeq),
            Token::Operator(EOperator::Eq),
            Token::Operator(EOperator::Neq),
            Token::Operator(EOperator::Neqeq),
            Token::Operator(EOperator::Not),
            Token::Operator(EOperator::Leq),
            Token::Operator(EOperator::Lshift),
            Token::Operator(EOperator::Le),
            Token::Operator(EOperator::Geq),
            Token::Operator(EOperator::Rshift),
            Token::Operator(EOperator::Ge),
        ]
    );
}

#[test]
fn string_escapes_expand() {
    let toks = gen_toks(String::from("\"a\\nb\\tc\\\\d\"")).unwrap();
    assert_eq!(
        toks,
        vec![Token::Str { v: String::from("a\nb\tc\\d"), is_raw: false, is_fmt: false }]
    );
}

#[test]
fn backtick_marks_template() {
    let toks = gen_toks(String::from("`tpl`")).unwrap();
    assert_eq!(toks, vec![Token::Str { v: String::from("tpl"), is_raw: false, is_fmt: true }]);
}

#[test]
fn unterminated_string_fails() {
    assert_eq!(
        gen_toks(String::from("\"never closed")),
        Err(LexError::UnterminatedString)
    );
}

#[test]
fn booleans_and_undefined() {
    let toks = gen_toks(String::from("true false undefined maybe")).unwrap();
    assert_eq!(
        toks,
        vec![
            Token::Bool(true),
            Token::Bool(false),
            Token::Undef,
            Token::Identifier(String::from("maybe")),
        ]
    );
}

#[test]
fn decimal_literal_is_canonical() {
    let toks = gen_toks(String::from("2.50")).unwrap();
    assert_eq!(toks, vec![Token::Float(Dec { mant: 25, scale: 1 })]);
}

#[test]
fn trailing_point_reads_as_decimal() {
    let toks = gen_toks(String::from("5.")).unwrap();
    assert_eq!(toks, vec![Token::Float(Dec { mant: 5, scale: 0 })]);
}

#[test]
fn oversized_integer_literal_is_dropped() {
    let toks = gen_toks(String::from("99999999999999999999 7")).unwrap();
    assert_eq!(toks, vec![Token::Integer(7)]);
}

#[test]
fn unknown_characters_are_skipped() {
    let toks = gen_toks(String::from("a # b")).unwrap();
    assert_eq!(
        toks,
        vec![Token::Identifier(String::from("a")), Token::Identifier(String::from("b"))]
    );
}

#[test]
fn tokenizing_is_pure() {
    let src = "let x = 1 + 2.5; print(\"hi\");";
    let first = gen_toks(String::from(src)).unwrap();
    let second = gen_toks(String::from(src)).unwrap();
    assert_eq!(first, second);
}

#[test]
fn let_declaration_parses() {
    let toks = gen_toks(String::from("let a = 2;")).unwrap();
    let sts = stmt_gen(&toks).unwrap();
    assert_eq!(sts.len(), 1);
    match &sts[0] {
        Stmt::VardeclSimple { name, qual, .. } => {
            assert_eq!(name.as_str(), "a");
            assert_eq!(*qual, VarQualifier::Let);
        },
        other => panic!("unexpected statement {:?}", other),
    }
}

#[test]
fn const_declaration_keeps_qualifier() {
    let toks = gen_toks(String::from("const a = 2;")).unwrap();
    let sts = stmt_gen(&toks).unwrap();
    match &sts[0] {
        Stmt::VardeclSimple { qual, .. } => assert_eq!(*qual, VarQualifier::Const),
        other => panic!("unexpected statement {:?}", other),
    }
}

#[test]
fn function_declaration_parses() {
    let toks = gen_toks(String::from("function f(a, b) { return a; }")).unwrap();
    let sts = stmt_gen(&toks).unwrap();
    assert_eq!(sts.len(), 1);
    match &sts[0] {
        Stmt::Funcdecl { name, args, body } => {
            assert_eq!(name.as_str(), "f");
            assert_eq!(args.len(), 2);
            assert_eq!(body.len(), 1);
            assert!(matches!(body[0], Stmt::ReturnStmt(..)));
        },
        other => panic!("unexpected statement {:?}", other),
    }
}

#[test]
fn class_declaration_parses() {
    let toks = gen_toks(String::from("class P { x = 0; m(a) { return a; } }")).unwrap();
    let sts = stmt_gen(&toks).unwrap();
    match &sts[0] {
        Stmt::ClassDecl { name, vars, fns } => {
            assert_eq!(name.as_str(), "P");
            assert_eq!(vars.len(), 1);
            assert_eq!(fns.len(), 1);
        },
        other => panic!("unexpected statement {:?}", other),
    }
}

#[test]
fn bare_call_parses() {
    let toks = gen_toks(String::from("f(1, 2);")).unwrap();
    let sts = stmt_gen(&toks).unwrap();
    match &sts[0] {
        Stmt::FunctCallSimple { name, args } => {
            assert_eq!(name.as_str(), "f");
            assert_eq!(args.len(), 2);
        },
        other => panic!("unexpected statement {:?}", other),
    }
}

#[test]
fn assignment_becomes_declaration() {
    let toks = gen_toks(String::from("a = 20;")).unwrap();
    let sts = stmt_gen(&toks).unwrap();
    match &sts[0] {
        Stmt::VardeclSimple { name, qual, .. } => {
            assert_eq!(name.as_str(), "a");
            assert_eq!(*qual, VarQualifier::Let);
        },
        other => panic!("unexpected statement {:?}", other),
    }
}

#[test]
fn declaration_without_equals_fails() {
    let toks = gen_toks(String::from("let x 5;")).unwrap();
    assert_eq!(stmt_gen(&toks), Err(ParseError::ExpectedEquals(2)));
}

#[test]
fn function_without_paren_fails() {
    let toks = gen_toks(String::from("function f { }")).unwrap();
    assert_eq!(stmt_gen(&toks), Err(ParseError::ExpectedLParen(2)));
}

#[test]
fn unclosed_function_body_fails() {
    let toks = gen_toks(String::from("function f() {")).unwrap();
    assert!(matches!(stmt_gen(&toks), Err(ParseError::UnclosedDelimiter(..))));
}

#[test]
fn return_without_semicolon_fails() {
    let toks = gen_toks(String::from("return 1")).unwrap();
    assert!(matches!(stmt_gen(&toks), Err(ParseError::MissingSemicolon(..))));
}

#[test]
fn multi_name_assignment_fails() {
    let toks = gen_toks(String::from("a b = 1;")).unwrap();
    assert!(matches!(stmt_gen(&toks), Err(ParseError::UnsupportedAssignment(..))));
}

#[test]
fn class_without_brace_fails() {
    let toks = gen_toks(String::from("class P x")).unwrap();
    assert!(matches!(stmt_gen(&toks), Err(ParseError::ExpectedLBrace(..))));
}

#[test]
fn function_without_name_fails() {
    let toks = gen_toks(String::from("function (a) { }")).unwrap();
    assert!(matches!(stmt_gen(&toks), Err(ParseError::ExpectedLParen(..))));
}

#[test]
fn function_with_numeric_name_fails() {
    let toks = gen_toks(String::from("function 5(a) { }")).unwrap();
    assert!(matches!(stmt_gen(&toks), Err(ParseError::ExpectedIdentifier(..))));
}
