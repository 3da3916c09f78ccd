use vstd::prelude::*;
use crate::ast_nodes::AstNode;
use crate::value::{PyFunction, PyValue, ValueView, function_view, value_view};

verus! {

/// A function value: its name, parameters, definition node, and the index
/// of the scope it closes over.
pub fn py_make_function<F>(
    name: String,
    params: Vec<String>,
    param_count: usize,
    body: AstNode,
    closure: usize,
) -> (v: PyValue<F>)
    ensures
        value_view(v) == ValueView::<F>::Function(
            function_view(PyFunction { name, params, param_count, body, closure }),
        ),
{
    PyValue::new_function(PyFunction { name, params, param_count, body, closure })
}

} // verus!
