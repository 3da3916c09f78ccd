use py0::ast_nodes::OpKind;
use py0::value::{
    binop_plan, char_at, compare_plan, concat_text, index_in, int_arith, int_negate, int_to_text,
    plain_text, str_compare, text_byte_len, unary_plan, ArithError, BinopPlan,
    ComparePlan, IndexError, PyType, UnaryPlan,
};

#[test]
fn integer_arithmetic() {
    assert_eq!(int_arith(OpKind::Add, 2, 3), Ok(5));
    assert_eq!(int_arith(OpKind::Sub, 2, 3), Ok(-1));
    assert_eq!(int_arith(OpKind::Mul, -4, 3), Ok(-12));
    assert_eq!(int_arith(OpKind::Mod, 7, 3), Ok(1));
}

#[test]
fn remainder_has_the_sign_of_the_dividend() {
    assert_eq!(int_arith(OpKind::Mod, -7, 3), Ok(-1));
    assert_eq!(int_arith(OpKind::Mod, 7, -3), Ok(1));
    assert_eq!(int_arith(OpKind::Mod, -7, -3), Ok(-1));
    assert_eq!(int_arith(OpKind::Mod, 0, 5), Ok(0));
}

#[test]
fn integer_arithmetic_errors() {
    assert_eq!(int_arith(OpKind::Add, i64::MAX, 1), Err(ArithError::Overflow));
    assert_eq!(int_arith(OpKind::Sub, i64::MIN, 1), Err(ArithError::Overflow));
    assert_eq!(int_arith(OpKind::Mul, i64::MAX, 2), Err(ArithError::Overflow));
    assert_eq!(int_arith(OpKind::Mod, 5, 0), Err(ArithError::ZeroDivisor));
    assert_eq!(int_arith(OpKind::Mod, i64::MIN, -1), Err(ArithError::Overflow));
    assert_eq!(int_arith(OpKind::Div, 6, 3), Err(ArithError::NotIntegral));
    assert_eq!(int_arith(OpKind::Lt, 6, 3), Err(ArithError::NotIntegral));
}

#[test]
fn negation() {
    assert_eq!(int_negate(5), Some(-5));
    assert_eq!(int_negate(i64::MAX), Some(-i64::MAX));
    assert_eq!(int_negate(i64::MIN), None);
}

#[test]
fn string_comparison() {
    assert_eq!(str_compare(OpKind::Lt, "ab", "b"), Some(true));
    assert_eq!(str_compare(OpKind::Lt, "ab", "abc"), Some(true));
    assert_eq!(str_compare(OpKind::Gt, "ab", "abc"), Some(false));
    assert_eq!(str_compare(OpKind::Eq, "abc", "abc"), Some(true));
    assert_eq!(str_compare(OpKind::Ne, "abc", "abd"), Some(true));
    assert_eq!(str_compare(OpKind::Le, "x", "x"), Some(true));
    assert_eq!(str_compare(OpKind::Ge, "a", "B"), Some(true));
    assert_eq!(str_compare(OpKind::Lt, "", ""), Some(false));
    assert_eq!(str_compare(OpKind::Lt, "z", "é"), Some(true));
    assert_eq!(str_compare(OpKind::Add, "a", "b"), None);
}

#[test]
fn string_order_laws_on_examples() {
    let words = ["", "a", "ab", "b", "ba", "é"];
    for a in words {
        assert_eq!(str_compare(OpKind::Lt, a, a), Some(false));
        for b in words {
            let lt = str_compare(OpKind::Lt, a, b).unwrap();
            let gt = str_compare(OpKind::Gt, a, b).unwrap();
            let eq = str_compare(OpKind::Eq, a, b).unwrap();
            assert_eq!((lt as u8) + (gt as u8) + (eq as u8), 1);
            assert_eq!(lt, str_compare(OpKind::Gt, b, a).unwrap());
            assert_eq!(lt, a < b);
        }
    }
}

#[test]
fn concatenation() {
    assert_eq!(concat_text("foo", "bar"), "foobar");
    assert_eq!(concat_text("", ""), "");
}

#[test]
fn decimal_text() {
    assert_eq!(int_to_text(0), "0");
    assert_eq!(int_to_text(42), "42");
    assert_eq!(int_to_text(-42), "-42");
    assert_eq!(int_to_text(i64::MAX), i64::MAX.to_string());
    assert_eq!(int_to_text(i64::MIN), i64::MIN.to_string());
}

#[test]
fn decimal_text_reads_back() {
    for v in [0i64, 7, 10, 120, -3, 1234567890123, i64::MAX, i64::MIN] {
        assert_eq!(int_to_text(v).parse::<i64>().unwrap(), v);
    }
}

#[test]
fn subscript_positions() {
    assert_eq!(index_in(3, 0), Some(0));
    assert_eq!(index_in(3, 2), Some(2));
    assert_eq!(index_in(3, 3), None);
    assert_eq!(index_in(3, -1), None);
    assert_eq!(index_in(0, 0), None);
}

#[test]
fn characters_by_position() {
    assert_eq!(char_at("abc", 1), Ok("b".to_string()));
    assert_eq!(char_at("abc", 3), Err(IndexError::OutOfRange));
    assert_eq!(char_at("abc", -1), Err(IndexError::OutOfRange));
    // "é" is two bytes and one character
    assert_eq!(char_at("é", 0), Ok("é".to_string()));
    assert_eq!(char_at("é", 1), Err(IndexError::NoCharacter));
    assert_eq!(text_byte_len("é"), 2);
    assert_eq!(text_byte_len("abc"), 3);
}

#[test]
fn binop_plans() {
    assert_eq!(binop_plan(OpKind::Add, PyType::Str, PyType::Str), BinopPlan::Concat);
    assert_eq!(binop_plan(OpKind::Sub, PyType::Str, PyType::Str), BinopPlan::NotANumber);
    assert_eq!(binop_plan(OpKind::Mul, PyType::Int, PyType::Int), BinopPlan::Integer);
    assert_eq!(binop_plan(OpKind::Mod, PyType::Int, PyType::Int), BinopPlan::Integer);
    assert_eq!(binop_plan(OpKind::Div, PyType::Int, PyType::Int), BinopPlan::Float);
    assert_eq!(binop_plan(OpKind::Add, PyType::Bool, PyType::Bool), BinopPlan::Float);
    assert_eq!(binop_plan(OpKind::Add, PyType::Int, PyType::Float), BinopPlan::Float);
    assert_eq!(binop_plan(OpKind::Add, PyType::Int, PyType::Str), BinopPlan::NotANumber);
    assert_eq!(binop_plan(OpKind::Eq, PyType::Int, PyType::Int), BinopPlan::Unsupported);
}

#[test]
fn compare_plans() {
    assert_eq!(compare_plan(OpKind::Lt, PyType::Str, PyType::Str), ComparePlan::Text);
    assert_eq!(compare_plan(OpKind::Lt, PyType::Int, PyType::Float), ComparePlan::Numeric);
    assert_eq!(compare_plan(OpKind::Eq, PyType::Str, PyType::Int), ComparePlan::NotANumber);
    assert_eq!(compare_plan(OpKind::Eq, PyType::NoneType, PyType::NoneType), ComparePlan::NotANumber);
    assert_eq!(compare_plan(OpKind::Add, PyType::Int, PyType::Int), ComparePlan::Unsupported);
    assert_eq!(compare_plan(OpKind::Add, PyType::Str, PyType::Str), ComparePlan::NotANumber);
}

#[test]
fn unary_plans() {
    assert_eq!(unary_plan(OpKind::Neg, PyType::Int), UnaryPlan::IntegerNegate);
    assert_eq!(unary_plan(OpKind::Neg, PyType::Float), UnaryPlan::FloatNegate);
    assert_eq!(unary_plan(OpKind::Neg, PyType::Bool), UnaryPlan::FloatNegate);
    assert_eq!(unary_plan(OpKind::Neg, PyType::Str), UnaryPlan::NotANumber);
    assert_eq!(unary_plan(OpKind::Add, PyType::Int), UnaryPlan::Unsupported);
}

#[test]
fn printed_forms() {
    assert_eq!(plain_text(PyType::NoneType, false, 0), Some("None".to_string()));
    assert_eq!(plain_text(PyType::Bool, true, 0), Some("True".to_string()));
    assert_eq!(plain_text(PyType::Bool, false, 0), Some("False".to_string()));
    assert_eq!(plain_text(PyType::Int, false, -120), Some("-120".to_string()));
    assert_eq!(plain_text(PyType::List, false, 0), Some("<list>".to_string()));
    assert_eq!(plain_text(PyType::Sys, false, 0), Some("<sys>".to_string()));
    assert_eq!(plain_text(PyType::Function, false, 0), Some("<function>".to_string()));
    assert_eq!(
        plain_text(PyType::BuiltinFunction, false, 0),
        Some("<builtin-function>".to_string())
    );
    assert_eq!(plain_text(PyType::Float, false, 0), None);
    assert_eq!(plain_text(PyType::Str, false, 0), None);
}
