use vstd::prelude::*;
use crate::ast_nodes::OpKind;
use crate::exception::RuntimeError;
use crate::host::PyHost;
use crate::value::{
    ArithError, BinopPlan, ComparePlan, PyValue, UnaryPlan, binop_plan, binop_plan_spec,
    compare_plan, compare_plan_spec, concat_text, exact_in_float, int_arith, int_arith_spec,
    int_compare, int_compare_spec, int_negate,
    is_number, plain_text, plain_text_spec, str_compare, text_compare_spec, unary_plan,
    unary_plan_spec, value_type,
};

verus! {

/// The boolean of a value (false for a value that is no boolean).
pub open spec fn flag_of<F>(v: PyValue<F>) -> bool {
    match v {
        PyValue::Bool(b) => b,
        _ => false,
    }
}

/// The integer of a value (0 for a value that is no integer).
pub open spec fn int_of<F>(v: PyValue<F>) -> i64 {
    match v {
        PyValue::Int(i) => i,
        _ => 0,
    }
}

/// The text of a value (empty for a value that is no string).
pub open spec fn text_of<F>(v: PyValue<F>) -> Seq<char> {
    match v {
        PyValue::Str(s) => s@,
        _ => Seq::empty(),
    }
}

/// The truth of a value that is no float; `None` for a float.
pub open spec fn value_truth<F>(v: PyValue<F>) -> Option<bool> {
    match v {
        PyValue::NoneValue => Some(false),
        PyValue::Bool(b) => Some(b),
        PyValue::Int(i) => Some(i != 0),
        PyValue::Float(_) => None,
        PyValue::Str(s) => Some(s@.len() != 0),
        PyValue::List(l) => Some(l.items@.len() != 0),
        _ => Some(true),
    }
}

/// A value as a float, for arithmetic: an integer or a boolean is
/// converted by the host, a float is taken as it is.
pub fn py_as_number<F: Copy, H: PyHost<F>>(host: &mut H, value: &PyValue<F>) -> (r: Result<F, RuntimeError>)
    ensures
        is_number(value_type(*value)) <==> r is Ok,
        !is_number(value_type(*value)) ==> r == Err::<F, RuntimeError>(RuntimeError::ExpectedNumber),
        value matches PyValue::Float(f) ==> r == Ok::<F, RuntimeError>(*f),
{
    match value {
        PyValue::Int(i) => Ok(host.float_of_int(*i)),
        PyValue::Float(f) => Ok(*f),
        PyValue::Bool(b) => Ok(host.float_of_int(if *b { 1 } else { 0 })),
        _ => Err(RuntimeError::ExpectedNumber),
    }
}

/// Whether a value counts as true in a condition.
pub fn py_is_truthy<F: Copy, H: PyHost<F>>(host: &mut H, value: &PyValue<F>) -> (r: bool)
    ensures
        value_truth(*value) matches Some(b) ==> r == b,
{
    match value {
        PyValue::NoneValue => false,
        PyValue::Bool(b) => *b,
        PyValue::Int(i) => *i != 0,
        PyValue::Float(f) => !host.float_is_zero(*f),
        PyValue::Str(s) => !s.as_str().is_empty(),
        PyValue::List(l) => l.items.len() != 0,
        _ => true,
    }
}

/// The printed form of a value.
pub fn py_to_string<F: Copy, H: PyHost<F>>(host: &mut H, value: &PyValue<F>) -> (r: String)
    ensures
        value matches PyValue::Str(s) ==> r@ == s@,
        plain_text_spec(value_type(*value), flag_of(*value), int_of(*value)) matches Some(t) ==> r@
            == t,
{
    match value {
        PyValue::Str(s) => s.clone(),
        PyValue::Float(f) => host.float_text(*f),
        _ => {
            let (flag, int_value) = match value {
                PyValue::Bool(b) => (*b, 0i64),
                PyValue::Int(i) => (false, *i),
                _ => (false, 0i64),
            };
            match plain_text(value.py_type(), flag, int_value) {
                Some(t) => t,
                None => String::new(),
            }
        },
    }
}

/// Applies a binary arithmetic operator.
pub fn py_apply_binop<F: Copy, H: PyHost<F>>(host: &mut H, op: OpKind, left: &PyValue<F>, right: &PyValue<F>) -> (r: Result<
    PyValue<F>,
    RuntimeError,
>)
    ensures
        match binop_plan_spec(op, value_type(*left), value_type(*right)) {
            BinopPlan::Concat => r matches Ok(PyValue::Str(s)) && s@ == text_of(*left) + text_of(
                *right,
            ),
            BinopPlan::Integer => match int_arith_spec(op, int_of(*left) as int, int_of(*right) as int) {
                Ok(x) => r matches Ok(PyValue::Int(y)) && y == x,
                Err(ArithError::ZeroDivisor) => r == Err::<PyValue<F>, RuntimeError>(RuntimeError::ZeroDivisor),
                Err(_) => r == Err::<PyValue<F>, RuntimeError>(RuntimeError::IntegerOverflow),
            },
            BinopPlan::Float => r matches Ok(PyValue::Float(_)) || (op == OpKind::Mod && (r
                == Err::<PyValue<F>, RuntimeError>(RuntimeError::ZeroDivisor) || r == Err::<
                PyValue<F>,
                RuntimeError,
            >(RuntimeError::IntegerOverflow))),
            BinopPlan::NotANumber => r == Err::<PyValue<F>, RuntimeError>(RuntimeError::ExpectedNumber),
            BinopPlan::Unsupported => r == Err::<PyValue<F>, RuntimeError>(
                RuntimeError::UnsupportedBinaryOperator,
            ),
        },
{
    match binop_plan(op, left.py_type(), right.py_type()) {
        BinopPlan::Concat => match (left, right) {
            (PyValue::Str(a), PyValue::Str(b)) => Ok(PyValue::Str(concat_text(a.as_str(), b.as_str()))),
            _ => Err(RuntimeError::ExpectedNumber),
        },
        BinopPlan::Integer => match (left, right) {
            (PyValue::Int(a), PyValue::Int(b)) => match int_arith(op, *a, *b) {
                Ok(x) => Ok(PyValue::Int(x)),
                Err(ArithError::ZeroDivisor) => Err(RuntimeError::ZeroDivisor),
                Err(_) => Err(RuntimeError::IntegerOverflow),
            },
            _ => Err(RuntimeError::ExpectedNumber),
        },
        BinopPlan::NotANumber => Err(RuntimeError::ExpectedNumber),
        BinopPlan::Unsupported => Err(RuntimeError::UnsupportedBinaryOperator),
        BinopPlan::Float => {
            let a = match py_as_number(host, left) {
                Ok(x) => x,
                Err(e) => return Err(e),
            };
            let b = match py_as_number(host, right) {
                Ok(x) => x,
                Err(e) => return Err(e),
            };
            if op == OpKind::Mod {
                let ai = host.float_to_int(a);
                let bi = host.float_to_int(b);
                match int_arith(OpKind::Mod, ai, bi) {
                    Ok(x) => Ok(PyValue::Float(host.float_of_int(x))),
                    Err(ArithError::ZeroDivisor) => Err(RuntimeError::ZeroDivisor),
                    Err(_) => Err(RuntimeError::IntegerOverflow),
                }
            } else {
                Ok(PyValue::Float(host.float_arith(op, a, b)))
            }
        },
    }
}

/// The integer a value counts as in a comparison when doubles represent
/// it exactly: an integer of magnitude at most 2^53, or a boolean as 0 or
/// 1; `None` otherwise.
pub open spec fn exact_number<F>(v: PyValue<F>) -> Option<int> {
    match v {
        PyValue::Int(i) => if exact_in_float(i as int) {
            Some(i as int)
        } else {
            None
        },
        PyValue::Bool(b) => Some(if b { 1int } else { 0int }),
        _ => None,
    }
}

fn exact_number_of<F>(v: &PyValue<F>) -> (r: Option<i64>)
    ensures
        match exact_number(*v) {
            Some(x) => r == Some(x as i64) && x == r.unwrap() as int,
            None => r is None,
        },
{
    match v {
        PyValue::Int(i) => if -0x20_0000_0000_0000i64 <= *i && *i <= 0x20_0000_0000_0000i64 {
            Some(*i)
        } else {
            None
        },
        PyValue::Bool(b) => Some(if *b { 1 } else { 0 }),
        _ => None,
    }
}

/// Applies a comparison operator.
pub fn py_apply_compare<F: Copy, H: PyHost<F>>(host: &mut H, op: OpKind, left: &PyValue<F>, right: &PyValue<F>) -> (r: Result<
    PyValue<F>,
    RuntimeError,
>)
    ensures
        match compare_plan_spec(op, value_type(*left), value_type(*right)) {
            ComparePlan::Text => match text_compare_spec(op, text_of(*left), text_of(*right)) {
                Some(b) => r == Ok::<PyValue<F>, RuntimeError>(PyValue::Bool(b)),
                None => false,
            },
            ComparePlan::Numeric => match (exact_number(*left), exact_number(*right), int_compare_spec(op, 0, 0)) {
                (Some(a), Some(b), Some(_)) => r == Ok::<PyValue<F>, RuntimeError>(
                    PyValue::Bool(int_compare_spec(op, a, b).unwrap()),
                ),
                _ => r matches Ok(PyValue::Bool(_)),
            },
            ComparePlan::NotANumber => r == Err::<PyValue<F>, RuntimeError>(RuntimeError::ExpectedNumber),
            ComparePlan::Unsupported => r == Err::<PyValue<F>, RuntimeError>(
                RuntimeError::UnsupportedComparisonOperator,
            ),
        },
{
    match compare_plan(op, left.py_type(), right.py_type()) {
        ComparePlan::Text => match (left, right) {
            (PyValue::Str(a), PyValue::Str(b)) => match str_compare(op, a.as_str(), b.as_str()) {
                Some(x) => Ok(PyValue::Bool(x)),
                None => Err(RuntimeError::UnsupportedComparisonOperator),
            },
            _ => Err(RuntimeError::ExpectedNumber),
        },
        ComparePlan::NotANumber => Err(RuntimeError::ExpectedNumber),
        ComparePlan::Unsupported => Err(RuntimeError::UnsupportedComparisonOperator),
        ComparePlan::Numeric => {
            match (exact_number_of(left), exact_number_of(right)) {
                (Some(x), Some(y)) => match int_compare(op, x, y) {
                    Some(b) => {
                        return Ok(PyValue::Bool(b));
                    },
                    None => {},
                },
                _ => {},
            }
            let a = match py_as_number(host, left) {
                Ok(x) => x,
                Err(e) => return Err(e),
            };
            let b = match py_as_number(host, right) {
                Ok(x) => x,
                Err(e) => return Err(e),
            };
            Ok(PyValue::Bool(host.float_compare(op, a, b)))
        },
    }
}

/// Applies a unary operator.
pub fn py_apply_unary<F: Copy, H: PyHost<F>>(host: &mut H, op: OpKind, value: &PyValue<F>) -> (r: Result<
    PyValue<F>,
    RuntimeError,
>)
    ensures
        match unary_plan_spec(op, value_type(*value)) {
            UnaryPlan::IntegerNegate => if int_of(*value) == i64::MIN {
                r == Err::<PyValue<F>, RuntimeError>(RuntimeError::IntegerOverflow)
            } else {
                r matches Ok(PyValue::Int(y)) && y == -int_of(*value)
            },
            UnaryPlan::FloatNegate => r matches Ok(PyValue::Float(_)),
            UnaryPlan::NotANumber => r == Err::<PyValue<F>, RuntimeError>(RuntimeError::ExpectedNumber),
            UnaryPlan::Unsupported => r == Err::<PyValue<F>, RuntimeError>(
                RuntimeError::UnsupportedUnaryOperator,
            ),
        },
{
    match unary_plan(op, value.py_type()) {
        UnaryPlan::IntegerNegate => match value {
            PyValue::Int(i) => match int_negate(*i) {
                Some(x) => Ok(PyValue::Int(x)),
                None => Err(RuntimeError::IntegerOverflow),
            },
            _ => Err(RuntimeError::ExpectedNumber),
        },
        UnaryPlan::FloatNegate => match py_as_number(host, value) {
            Ok(x) => Ok(PyValue::Float(host.float_negate(x))),
            Err(e) => Err(e),
        },
        UnaryPlan::NotANumber => Err(RuntimeError::ExpectedNumber),
        UnaryPlan::Unsupported => Err(RuntimeError::UnsupportedUnaryOperator),
    }
}

} // verus!
