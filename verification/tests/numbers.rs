use accent::ast::expr::constants::Const;
use accent::num::{canonize, dec_add, dec_div, dec_mul, dec_sub, int_add, to_dec, Dec};
use accent::parser::obj::Object;

#[test]
fn canonical_form_strips_trailing_zeros() {
    assert_eq!(canonize(Dec { mant: 2500, scale: 3 }), Dec { mant: 25, scale: 1 });
    assert_eq!(canonize(Dec { mant: 0, scale: 5 }), Dec { mant: 0, scale: 0 });
    assert_eq!(canonize(Dec { mant: -300, scale: 2 }), Dec { mant: -3, scale: 0 });
}

#[test]
fn decimal_addition_is_exact() {
    let a = Dec { mant: 15, scale: 1 };
    let b = Dec { mant: 25, scale: 1 };
    assert_eq!(dec_add(a, b), Some(Dec { mant: 4, scale: 0 }));
}

#[test]
fn decimal_subtraction_crosses_zero() {
    let a = Dec { mant: 1, scale: 1 };
    let b = Dec { mant: 3, scale: 1 };
    assert_eq!(dec_sub(a, b), Some(Dec { mant: -2, scale: 1 }));
}

#[test]
fn decimal_multiplication_is_exact() {
    let a = Dec { mant: 5, scale: 1 };
    let b = Dec { mant: 5, scale: 1 };
    assert_eq!(dec_mul(a, b), Some(Dec { mant: 25, scale: 2 }));
}

#[test]
fn decimal_division_truncates_toward_zero() {
    let one = to_dec(1);
    let three = to_dec(3);
    assert_eq!(dec_div(one, three), Some(Dec { mant: 333333333, scale: 9 }));
    let minus_one = to_dec(-1);
    assert_eq!(dec_div(minus_one, three), Some(Dec { mant: -333333333, scale: 9 }));
}

#[test]
fn integer_addition_reports_overflow() {
    assert_eq!(int_add(i64::MAX, 1), None);
    assert_eq!(int_add(2, 3), Some(5));
}

#[test]
fn integer_display_text() {
    assert_eq!(Const::Integer(0).display_text(), "0");
    assert_eq!(Const::Integer(-5).display_text(), "-5");
    assert_eq!(Const::Integer(1234).display_text(), "1234");
    assert_eq!(Const::Integer(i64::MIN).display_text(), "-9223372036854775808");
}

#[test]
fn decimal_display_text() {
    assert_eq!(Const::Float(Dec { mant: 25, scale: 1 }).display_text(), "2.5");
    assert_eq!(Const::Float(Dec { mant: 5, scale: 3 }).display_text(), "0.005");
    assert_eq!(Const::Float(Dec { mant: -25, scale: 1 }).display_text(), "-2.5");
    assert_eq!(Const::Float(Dec { mant: 2, scale: 0 }).display_text(), "2");
}

#[test]
fn other_display_forms() {
    assert_eq!(Const::Bool(true).display_text(), "true");
    assert_eq!(Const::Undef.display_text(), "undefined");
    assert_eq!(
        Object::Funct(accent::parser::function::Function::Native {
            name: String::from("print")
        })
        .display_text(),
        "<function>"
    );
}
