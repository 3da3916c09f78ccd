use vstd::prelude::*;
use vstd::map::Map;
use vstd::string::StringExecFns;
use crate::ast::{SourceError, parse_source};
use crate::ast_nodes::{
    AstKind, AstNode, CallData, Node, OpKind, Tree, WhileStmtData, lemma_nodes_view_index, node_view, nodes_view,
};
use crate::env::{
    PyEnv, assign_frames, bind_in, chain_rebound, defining_frame, item_rebound, lemma_map_frames_assign, lemma_map_frames_bind,
    lemma_map_frames_lookup, map_frames, param_frame,
};
use crate::exception::{ErrorView, ExecResult, RuntimeError, RuntimeErrorOf, error_view};
use crate::function::py_make_function;
use crate::host::PyHost;
use crate::lexer::lex;
use crate::operator::{
    exact_number, flag_of, int_of, py_apply_binop, py_apply_compare, py_apply_unary, py_as_number,
    py_is_truthy, py_to_string, text_of, value_truth,
};
use crate::parser::p_module;
use crate::semantics::{
    Flow, RunOutcome, ScopeState, ValueOutcome, args_out, block_out, builtin_out, call_out, expr_out,
    bool_out, float_out, shows_as, import_out, int_out, joined_text, len_out, returned_value, run_path_frames,
    shown_text, stmt_out, str_out, view_exact_number, view_flag, view_int, view_text, view_truth, while_out,
};
use crate::util::PtrVec;
use crate::value::{
    Builtin, IndexError, PyList, PyRuntime, PyValue, ValueView, char_at, copy_scope,
    copy_value, frame_matches, frames_match, function_view, index_in, lemma_values_view_index,
    lemma_values_view_len, lemma_values_view_push, str_compare, text_byte_len, value_type,
    value_view, values_view, view_type, output_frame, lemma_frame_same, lemma_frame_then,
};

verus! {

/// The frames of the innermost live scope.
pub open spec fn top_frames<F>(rt: PyRuntime<F>) -> Seq<Map<Seq<char>, PyValue<F>>> {
    rt.scopes@.last().frames()
}

/// A scope chain with every bound value taken by its view.
pub open spec fn frames_view<F>(frames: Seq<Map<Seq<char>, PyValue<F>>>) -> Seq<Map<Seq<char>, ValueView<F>>> {
    map_frames(frames, |v: PyValue<F>| value_view(v))
}

/// The scopes a runtime runs code in, by the views of their values.
pub open spec fn state_of<F>(rt: PyRuntime<F>) -> ScopeState<F> {
    ScopeState {
        outer: rt.scopes@.drop_last().map_values(|e: PyEnv<PyValue<F>>| frames_view(e.frames())),
        top: frames_view(top_frames(rt)),
        sys: value_view(rt.sys_value),
    }
}

/// Running code left every scope but the innermost, and the `sys` value,
/// as they were.
pub open spec fn keeps_outer<F>(before: PyRuntime<F>, after: PyRuntime<F>) -> bool {
    &&& after.scopes@.len() == before.scopes@.len()
    &&& after.scopes@.drop_last() == before.scopes@.drop_last()
    &&& after.sys_value == before.sys_value
}

/// The result `r` of an evaluation agrees with the outcome `expected`,
/// where that names one.
pub open spec fn outcome_matches<F>(r: Result<PyValue<F>, RuntimeError>, expected: Option<ValueOutcome<F>>) -> bool {
    match expected {
        None => true,
        Some(Ok(w)) => r matches Ok(v) && value_view(v) == w,
        Some(Err(e)) => r matches Err(x) && error_view(x) == e,
    }
}

/// The result `r` of running statements agrees with the outcome `res`.
pub open spec fn flow_matches<F>(r: Result<ExecResult<PyValue<F>>, RuntimeError>, res: Result<Flow<F>, ErrorView>) -> bool {
    match res {
        Ok(Flow::Normal) => r matches Ok(x) && !x.has_return && x.value is None,
        Ok(Flow::Returned(w)) => r matches Ok(x) && x.has_return && (x.value matches Some(v) && value_view(v) == w),
        Err(e) => r matches Err(x) && error_view(x) == e,
    }
}

/// A result of running statements carries a value exactly when a `return`
/// ran.
pub open spec fn result_shaped<F>(r: Result<ExecResult<PyValue<F>>, RuntimeError>) -> bool {
    r matches Ok(x) ==> (x.has_return <==> x.value is Some)
}

/// Running statements with result `r`, ending in runtime `after`, agrees
/// with the outcome `expected`, where that names one.
pub open spec fn run_matches<F>(r: Result<ExecResult<PyValue<F>>, RuntimeError>, expected: Option<RunOutcome<F>>, after: PyRuntime<F>) -> bool {
    match expected {
        None => true,
        Some((res, f2)) => flow_matches(r, res) && (r is Ok ==> frames_view(top_frames(after)) == f2),
    }
}

/// Matching scope chains have the same view.
pub proof fn lemma_frames_match_view<F>(a: Seq<Map<Seq<char>, PyValue<F>>>, b: Seq<Map<Seq<char>, PyValue<F>>>)
    requires
        frames_match(a, b),
    ensures
        frames_view(a) == frames_view(b),
{
    assert forall|i: int| 0 <= i < a.len() implies #[trigger] frames_view(a)[i] == frames_view(b)[i] by {
        assert(frame_matches(a[i], b[i]));
        assert(frames_view(a)[i] =~= frames_view(b)[i]);
    }
    assert(frames_view(a) =~= frames_view(b));
}

proof fn lemma_state_keeps<F>(before: PyRuntime<F>, after: PyRuntime<F>)
    requires
        before.wf(),
        keeps_outer(before, after),
    ensures
        state_of(after) == (ScopeState { top: frames_view(top_frames(after)), ..state_of(before) }),
{
    assert(state_of(after).outer =~= state_of(before).outer);
}

proof fn lemma_view_accessors<F>(v: PyValue<F>)
    ensures
        view_type(value_view(v)) == value_type(v),
        view_text(value_view(v)) == text_of(v),
        view_int(value_view(v)) == int_of(v) as int,
        view_flag(value_view(v)) == flag_of(v),
        view_exact_number(value_view(v)) == exact_number(v),
        view_truth(value_view(v)) == value_truth(v),
{
    match v {
        PyValue::List(l) => lemma_values_view_len(l.items@),
        _ => {},
    }
}

proof fn lemma_values_view_drop_last<F>(s: Seq<PyValue<F>>)
    requires
        s.len() > 0,
    ensures
        values_view(s.drop_last()) == values_view(s).drop_last(),
        values_view(s).last() == value_view(s.last()),
{
    lemma_values_view_len(s);
    lemma_values_view_len(s.drop_last());
    assert forall|i: int| 0 <= i < s.len() - 1 implies #[trigger] values_view(s.drop_last())[i]
        == values_view(s).drop_last()[i] by {
        lemma_values_view_index(s.drop_last(), i);
        lemma_values_view_index(s, i);
    }
    assert(values_view(s.drop_last()) =~= values_view(s).drop_last());
    lemma_values_view_index(s, s.len() - 1);
}

proof fn lemma_param_frame_view<F>(names: Seq<Seq<char>>, args: Seq<PyValue<F>>)
    requires
        names.len() == args.len(),
    ensures
        param_frame(names, args).map_values(|v: PyValue<F>| value_view(v)) == param_frame(
            names,
            values_view(args),
        ),
    decreases names.len(),
{
    lemma_values_view_len(args);
    if names.len() > 0 {
        lemma_param_frame_view(names.drop_last(), args.drop_last());
        lemma_values_view_drop_last(args);
        assert(param_frame(names, args).map_values(|v: PyValue<F>| value_view(v)) =~= param_frame(
            names,
            values_view(args),
        ));
    } else {
        assert(param_frame(names, args).map_values(|v: PyValue<F>| value_view(v)) =~= param_frame(
            names,
            values_view(args),
        ));
    }
}

/// The outcomes of arguments, with the values of those before them put in
/// front.
pub open spec fn args_after<F>(done: Seq<ValueView<F>>, rest: Option<Result<Seq<ValueView<F>>, ErrorView>>) -> Option<
    Result<Seq<ValueView<F>>, ErrorView>,
> {
    match rest {
        Some(Ok(vs)) => Some(Ok(done + vs)),
        other => other,
    }
}

/// Evaluates an expression in the innermost scope, with `fuel` steps left
/// for calls. An expression changes no binding of any scope.
#[verifier::spinoff_prover]
#[verifier::rlimit(60)]
pub fn eval_expr<F: Copy, H: PyHost<F>>(rt: &mut PyRuntime<F>, host: &mut H, node: &AstNode, fuel: u64) -> (r: Result<
    PyValue<F>,
    RuntimeError,
>)
    requires
        old(rt).wf(),
    ensures
        final(rt).scopes@ == old(rt).scopes@,
        final(rt).sys_value == old(rt).sys_value,
        outcome_matches(r, expr_out(state_of(*old(rt)), node_view(*node), fuel as nat)),
        node_view(*node).tree is Float ==> (r matches Ok(PyValue::Float(_))),
        output_frame(*old(rt), *final(rt)),
    decreases fuel, *node,
{
    proof {
        lemma_frame_same(*old(rt), *old(rt));
    }
    proof {
        reveal(node_view);
        reveal(nodes_view);
    }
    match node.kind {
        AstKind::Name => match &node.as_name {
            Some(n) => {
                let top = rt.scopes.len() - 1;
                proof {
                    lemma_map_frames_lookup(top_frames(*rt), |v: PyValue<F>| value_view(v), n.name@);
                }
                match rt.scopes[top].env_get(n.name.as_str()) {
                    Some(v) => Ok(copy_value(v)),
                    None => Err(RuntimeError::NameNotDefined(n.name.clone())),
                }
            },
            None => Err(RuntimeError::UnsupportedExpression(node.kind)),
        },
        AstKind::Constant => match &node.as_constant {
            Some(c) => {
                if c.is_string {
                    match &c.str_value {
                        Some(s) => Ok(PyValue::Str(s.clone())),
                        None => Err(RuntimeError::UnsupportedExpression(node.kind)),
                    }
                } else if c.is_float {
                    Ok(PyValue::Float(host.float_of_literal(c.float_text.as_str())))
                } else {
                    Ok(PyValue::Int(c.int_value))
                }
            },
            None => Err(RuntimeError::UnsupportedExpression(node.kind)),
        },
        AstKind::BinOp => match &node.as_binop {
            Some(b) => {
                let left = eval_expr(rt, host, &b.left, fuel)?;
                let ghost mid = *rt;
                let right = eval_expr(rt, host, &b.right, fuel);
                proof {
                    lemma_frame_then(*old(rt), mid, *rt);
                }
                let right = right?;
                proof {
                    lemma_view_accessors(left);
                    lemma_view_accessors(right);
                }
                py_apply_binop(host, b.op, &left, &right)
            },
            None => Err(RuntimeError::UnsupportedExpression(node.kind)),
        },
        AstKind::UnaryOp => match &node.as_unaryop {
            Some(u) => {
                let value = eval_expr(rt, host, &u.operand, fuel)?;
                proof {
                    lemma_view_accessors(value);
                }
                py_apply_unary(host, u.op, &value)
            },
            None => Err(RuntimeError::UnsupportedExpression(node.kind)),
        },
        AstKind::Compare => match &node.as_compare {
            Some(c) => {
                let left = eval_expr(rt, host, &c.left, fuel)?;
                let ghost mid = *rt;
                let right = eval_expr(rt, host, &c.right, fuel);
                proof {
                    lemma_frame_then(*old(rt), mid, *rt);
                }
                let right = right?;
                proof {
                    lemma_view_accessors(left);
                    lemma_view_accessors(right);
                }
                py_apply_compare(host, c.op, &left, &right)
            },
            None => Err(RuntimeError::UnsupportedExpression(node.kind)),
        },
        AstKind::Call => match &node.as_call {
            Some(c) => eval_call(rt, host, node, c, fuel),
            None => Err(RuntimeError::UnsupportedExpression(node.kind)),
        },
        AstKind::Attribute => match &node.as_attribute {
            Some(a) => {
                let value = eval_expr(rt, host, &a.value, fuel)?;
                let is_argv = str_compare(OpKind::Eq, a.attr.as_str(), "argv");
                match (&value, is_argv) {
                    (PyValue::Sys(s), Some(true)) => Ok(copy_value(&s.argv)),
                    _ => Err(RuntimeError::UnsupportedAttribute(a.attr.clone())),
                }
            },
            None => Err(RuntimeError::UnsupportedExpression(node.kind)),
        },
        AstKind::Subscript => match &node.as_subscript {
            Some(s) => {
                let value = eval_expr(rt, host, &s.value, fuel)?;
                let ghost mid = *rt;
                let index = eval_expr(rt, host, &s.index, fuel);
                proof {
                    lemma_frame_then(*old(rt), mid, *rt);
                }
                let index = index?;
                let i = match index {
                    PyValue::Int(i) => i,
                    _ => {
                        return Err(RuntimeError::IndexNotInt);
                    },
                };
                match &value {
                    PyValue::List(l) => match index_in(l.items.len(), i) {
                        Some(k) => {
                            proof {
                                lemma_values_view_index(l.items@, k as int);
                            }
                            Ok(copy_value(&l.items[k]))
                        },
                        None => {
                            proof {
                                lemma_values_view_len(l.items@);
                            }
                            Err(RuntimeError::ListIndexOutOfRange)
                        },
                    },
                    PyValue::Str(t) => match char_at(t.as_str(), i) {
                        Ok(ch) => Ok(PyValue::Str(ch)),
                        Err(IndexError::OutOfRange) => Err(RuntimeError::StringIndexOutOfRange),
                        Err(IndexError::NoCharacter) => Err(RuntimeError::StringIndexNoCharacter),
                    },
                    _ => Err(RuntimeError::UnsupportedSubscript),
                }
            },
            None => Err(RuntimeError::UnsupportedExpression(node.kind)),
        },
        _ => Err(RuntimeError::UnsupportedExpression(node.kind)),
    }
}

/// Evaluates a call: the function, then the arguments left to right, then
/// the call itself with one step less.
fn eval_call<F: Copy, H: PyHost<F>>(
    rt: &mut PyRuntime<F>,
    host: &mut H,
    node: &AstNode,
    c: &CallData,
    fuel: u64,
) -> (r: Result<PyValue<F>, RuntimeError>)
    requires
        old(rt).wf(),
        node.kind == AstKind::Call,
        node.as_call == Some(*c),
    ensures
        final(rt).scopes@ == old(rt).scopes@,
        final(rt).sys_value == old(rt).sys_value,
        outcome_matches(r, expr_out(state_of(*old(rt)), node_view(*node), fuel as nat)),
        output_frame(*old(rt), *final(rt)),
    decreases fuel, *c,
{
    proof {
        lemma_frame_same(*old(rt), *old(rt));
    }
    let ghost st = state_of(*rt);
    let ghost all = nodes_view(c.args@);
    let ghost n = c.args@.len() as int;
    proof {
        reveal(node_view);
        reveal(nodes_view);
        lemma_nodes_view_index(c.args@);
        assert(decreases_to!(*c => c.func));
    }
    let func = eval_expr(rt, host, &c.func, fuel)?;
    let ghost fo = expr_out(st, node_view(*c.func), fuel as nat);
    let mut args: Vec<PyValue<F>> = Vec::new();
    proof {
        assert(node_view(*node).tree == Tree::Call(Box::new(node_view(*c.func)), all));
        lemma_values_view_len(args@);
        assert(values_view(args@) =~= Seq::<ValueView<F>>::empty());
        assert(all.subrange(0, n) =~= all);
    }
    let mut i: usize = 0;
    while i < c.args.items.len()
        invariant
            rt.wf(),
            rt.scopes@ == old(rt).scopes@,
            rt.sys_value == old(rt).sys_value,
            output_frame(*old(rt), *rt),
            st == state_of(*old(rt)),
            node_view(*node).tree == Tree::Call(Box::new(node_view(*c.func)), all),
            fo == expr_out(st, node_view(*c.func), fuel as nat),
            fo is None || fo == Some(Ok::<ValueView<F>, ErrorView>(value_view(func))),
            i <= n,
            n == c.args@.len(),
            all == nodes_view(c.args@),
            all.len() == n,
            forall|k: int| 0 <= k < n ==> #[trigger] all[k] == node_view(c.args@[k]),
            args_out(st, all, fuel as nat) is Some ==> args_out(st, all, fuel as nat) == args_after(
                values_view(args@),
                args_out(st, all.subrange(i as int, n), fuel as nat),
            ),
        decreases n - i,
    {
        proof {
            assert(decreases_to!(*c => c.args));
            assert(decreases_to!(c.args => c.args.items));
            assert(decreases_to!(c.args.items => c.args.items@));
            assert(decreases_to!(c.args.items@ => c.args.items@[i as int]));
            let rest = all.subrange(i as int, n);
            assert(rest[0] == all[i as int]);
            assert(rest.subrange(1, rest.len() as int) =~= all.subrange(i + 1, n));
        }
        let ghost mid = *rt;
        let v = eval_expr(rt, host, &c.args.items[i], fuel);
        proof {
            lemma_frame_then(*old(rt), mid, *rt);
        }
        let v = v?;
        proof {
            lemma_values_view_push(args@, v);
            assert(values_view(args@.push(v)) == values_view(args@).push(value_view(v)));
            match args_out(st, all.subrange(i + 1, n), fuel as nat) {
                Some(Ok(vs)) => {
                    assert(values_view(args@) + (seq![value_view(v)] + vs) =~= values_view(args@).push(
                        value_view(v),
                    ) + vs);
                },
                _ => {},
            }
        }
        args.push(v);
        i += 1;
    }
    proof {
        assert(all.subrange(n, n) =~= Seq::<Node>::empty());
        assert(values_view(args@) + Seq::<ValueView<F>>::empty() =~= values_view(args@));
    }
    if fuel == 0 {
        return Err(RuntimeError::OutOfFuel);
    }
    let ghost mid = *rt;
    let r = py_call(rt, host, &func, args, fuel - 1);
    proof {
        lemma_frame_then(*old(rt), mid, *rt);
    }
    r
}

/// Runs the statements of a block in the innermost scope, up to the first
/// that returns, with `fuel` steps left.
pub fn exec_block<F: Copy, H: PyHost<F>>(rt: &mut PyRuntime<F>, host: &mut H, body: &PtrVec<AstNode>, fuel: u64) -> (r: Result<
    ExecResult<PyValue<F>>,
    RuntimeError,
>)
    requires
        old(rt).wf(),
    ensures
        final(rt).wf(),
        keeps_outer(*old(rt), *final(rt)),
        result_shaped(r),
        body@.len() == 0 ==> (r matches Ok(x) && !x.has_return && final(rt).scopes@ == old(rt).scopes@),
        run_matches(r, block_out(state_of(*old(rt)), nodes_view(body@), fuel as nat), *final(rt)),
        output_frame(*old(rt), *final(rt)),
    decreases fuel, *body,
{
    proof {
        lemma_frame_same(*old(rt), *old(rt));
    }
    let mut result: ExecResult<PyValue<F>> = ExecResult::new();
    let ghost st0 = state_of(*rt);
    let ghost all = nodes_view(body@);
    let ghost n = body@.len() as int;
    proof {
        lemma_nodes_view_index(body@);
        assert(all.subrange(0, n) =~= all);
    }
    let mut i: usize = 0;
    while i < body.items.len()
        invariant
            rt.wf(),
            keeps_outer(*old(rt), *rt),
            output_frame(*old(rt), *rt),
            i <= n,
            n == body@.len(),
            st0 == state_of(*old(rt)),
            all == nodes_view(body@),
            all.len() == n,
            forall|k: int| 0 <= k < n ==> #[trigger] all[k] == node_view(body@[k]),
            body@.len() == 0 ==> rt.scopes@ == old(rt).scopes@,
            !result.has_return,
            result.value is None,
            block_out(st0, all, fuel as nat) is Some ==> block_out(st0, all, fuel as nat) == block_out(
                state_of(*rt),
                all.subrange(i as int, n),
                fuel as nat,
            ),
        decreases n - i,
    {
        proof {
            assert(decreases_to!(*body => body.items));
            assert(decreases_to!(body.items => body.items@));
            assert(decreases_to!(body.items@ => body.items@[i as int]));
            let rest = all.subrange(i as int, n);
            assert(rest[0] == all[i as int]);
            assert(rest.subrange(1, rest.len() as int) =~= all.subrange(i + 1, n));
        }
        let ghost before = *rt;
        let step = exec_stmt(rt, host, &body.items[i], fuel);
        proof {
            lemma_frame_then(*old(rt), before, *rt);
        }
        let step = step?;
        proof {
            lemma_state_keeps(before, *rt);
            lemma_state_keeps(*old(rt), *rt);
        }
        if step.has_return {
            return Ok(step);
        }
        result = step;
        i += 1;
    }
    proof {
        assert(all.subrange(n, n) =~= Seq::<Node>::empty());
    }
    Ok(result)
}

/// Runs a `while` loop: the body runs while the test holds, each time
/// with one step less.
fn exec_while<F: Copy, H: PyHost<F>>(
    rt: &mut PyRuntime<F>,
    host: &mut H,
    node: &AstNode,
    w: &WhileStmtData,
    fuel: u64,
) -> (r: Result<ExecResult<PyValue<F>>, RuntimeError>)
    requires
        old(rt).wf(),
        node.kind == AstKind::While,
        node.as_while_stmt == Some(*w),
    ensures
        final(rt).wf(),
        keeps_outer(*old(rt), *final(rt)),
        result_shaped(r),
        run_matches(r, stmt_out(state_of(*old(rt)), node_view(*node), fuel as nat), *final(rt)),
        (r matches Ok(x) && !x.has_return) ==> exists|c: PyValue<F>|
            {
                &&& outcome_matches(Ok(c), expr_out(state_of(*final(rt)), node_view(*w.test), fuel as nat))
                &&& value_truth(c) != Some(true)
            },
        output_frame(*old(rt), *final(rt)),
    decreases fuel, *w,
{
    proof {
        lemma_frame_same(*old(rt), *old(rt));
    }
    let ghost st = state_of(*rt);
    proof {
        reveal(node_view);
        reveal(nodes_view);
    }
    let mut result: ExecResult<PyValue<F>> = ExecResult::new();
    let mut budget = fuel;
    let ghost wn = node_view(*node);
    assert(wn.tree == Tree::While(Box::new(node_view(*w.test)), nodes_view(w.body@)));
    assert(stmt_out(st, wn, fuel as nat) == while_out(st, wn, fuel as nat, fuel as nat));
    loop
        invariant
            rt.wf(),
            keeps_outer(*old(rt), *rt),
            output_frame(*old(rt), *rt),
            budget <= fuel,
            node.kind == AstKind::While,
            node.as_while_stmt == Some(*w),
            st == state_of(*old(rt)),
            wn == node_view(*node),
            wn.tree == Tree::While(Box::new(node_view(*w.test)), nodes_view(w.body@)),
            !result.has_return,
            result.value is None,
            stmt_out(st, wn, fuel as nat) is Some ==> stmt_out(st, wn, fuel as nat) == while_out(
                state_of(*rt),
                wn,
                fuel as nat,
                budget as nat,
            ),
        ensures
            rt.wf(),
            keeps_outer(*old(rt), *rt),
            output_frame(*old(rt), *rt),
            !result.has_return,
            result.value is None,
            stmt_out(st, wn, fuel as nat) is Some ==> stmt_out(st, wn, fuel as nat) == Some(
                (Ok::<Flow<F>, ErrorView>(Flow::Normal), frames_view(top_frames(*rt))),
            ),
            exists|c: PyValue<F>|
                {
                    &&& outcome_matches(Ok(c), expr_out(state_of(*rt), node_view(*w.test), fuel as nat))
                    &&& value_truth(c) != Some(true)
                },
        decreases budget,
    {
        proof {
            assert(decreases_to!(*w => w.test));
            lemma_state_keeps(*old(rt), *rt);
        }
        let ghost before_test = *rt;
        let cond = eval_expr(rt, host, &w.test, fuel);
        proof {
            lemma_frame_then(*old(rt), before_test, *rt);
        }
        let cond = cond?;
        proof {
            lemma_view_accessors(cond);
            assert(state_of(*rt) == state_of(before_test));
        }
        if !py_is_truthy(host, &cond) {
            break;
        }
        if budget == 0 {
            return Err(RuntimeError::OutOfFuel);
        }
        budget = budget - 1;
        let ghost before = *rt;
        let res = exec_block(rt, host, &w.body, budget);
        proof {
            lemma_frame_then(*old(rt), before, *rt);
        }
        result = res?;
        proof {
            lemma_state_keeps(before, *rt);
        }
        if result.has_return {
            return Ok(result);
        }
    }
    Ok(result)
}

/// Runs one statement in the innermost scope, with `fuel` steps left: only
/// that scope can change.
#[verifier::spinoff_prover]
#[verifier::rlimit(100)]
pub fn exec_stmt<F: Copy, H: PyHost<F>>(rt: &mut PyRuntime<F>, host: &mut H, node: &AstNode, fuel: u64) -> (r: Result<
    ExecResult<PyValue<F>>,
    RuntimeError,
>)
    requires
        old(rt).wf(),
    ensures
        final(rt).wf(),
        keeps_outer(*old(rt), *final(rt)),
        result_shaped(r),
        run_matches(r, stmt_out(state_of(*old(rt)), node_view(*node), fuel as nat), *final(rt)),
        node.kind == AstKind::Pass ==> (r matches Ok(x) && !x.has_return && final(rt).scopes@ == old(
            rt,
        ).scopes@),
        node.kind == AstKind::ExprStmt ==> final(rt).scopes@ == old(rt).scopes@,
        node.kind == AstKind::Return ==> final(rt).scopes@ == old(rt).scopes@ && (r is Ok ==> r->Ok_0.has_return),
        node.kind == AstKind::Return && node.as_return_stmt is Some
            && node.as_return_stmt.unwrap().value is None ==> r
            == Ok::<ExecResult<PyValue<F>>, RuntimeError>(
            ExecResult { has_return: true, value: Some(PyValue::NoneValue) },
        ),
        node.kind == AstKind::Assign && node.as_assign is Some ==> (r is Ok ==> exists|v: PyValue<F>|
            {
                &&& outcome_matches(
                    Ok(v),
                    expr_out(state_of(*old(rt)), node_view(*node.as_assign.unwrap().value), fuel as nat),
                )
                &&& final(rt).scopes@.last().frames() == assign_frames(
                    old(rt).scopes@.last().frames(),
                    node.as_assign.unwrap().name@,
                    v,
                )
                &&& defining_frame(old(rt).scopes@.last().frames(), node.as_assign.unwrap().name@) is Some
                    ==> chain_rebound(old(rt).scopes@.last(), final(rt).scopes@.last(), node.as_assign.unwrap().name@, v)
                &&& defining_frame(old(rt).scopes@.last().frames(), node.as_assign.unwrap().name@) is None
                    ==> final(rt).scopes@.last().parent == old(rt).scopes@.last().parent && item_rebound(
                    old(rt).scopes@.last().items@,
                    final(rt).scopes@.last().items@,
                    node.as_assign.unwrap().name@,
                    v,
                )
            }),
        node.kind == AstKind::Return && node.as_return_stmt is Some ==> (r is Ok ==> exists|v: PyValue<F>|
            {
                &&& r->Ok_0.value == Some(v)
                &&& match node.as_return_stmt.unwrap().value {
                    Some(e) => outcome_matches(Ok(v), expr_out(state_of(*old(rt)), node_view(*e), fuel as nat)),
                    None => v is NoneValue,
                }
            }),
        node.kind == AstKind::While && node.as_while_stmt is Some && (r matches Ok(x) && !x.has_return)
            ==> exists|c: PyValue<F>|
            {
                &&& outcome_matches(
                    Ok(c),
                    expr_out(state_of(*final(rt)), node_view(*node.as_while_stmt.unwrap().test), fuel as nat),
                )
                &&& value_truth(c) != Some(true)
            },
        output_frame(*old(rt), *final(rt)),
    decreases fuel, *node,
{
    proof {
        lemma_frame_same(*old(rt), *old(rt));
    }
    proof {
        reveal(node_view);
        reveal(nodes_view);
    }
    match node.kind {
        AstKind::ExprStmt => match &node.as_expr_stmt {
            Some(e) => {
                eval_expr(rt, host, &e.expr, fuel)?;
                Ok(ExecResult::new())
            },
            None => Err(RuntimeError::UnsupportedStatement(node.kind)),
        },
        AstKind::Assign => match &node.as_assign {
            Some(a) => {
                let value = eval_expr(rt, host, &a.value, fuel)?;
                let ghost mid = *rt;
                let ghost before = rt.scopes@;
                let ghost v = value;
                let mut env = rt.scopes.pop().unwrap();
                env.env_assign(a.name.as_str(), value);
                rt.scopes.push(env);
                proof {
                    lemma_frame_same(mid, *rt);
                    lemma_frame_then(*old(rt), mid, *rt);
                }
                assert(rt.scopes@.drop_last() =~= before.drop_last());
                assert(rt.scopes@.last().frames() == assign_frames(before.last().frames(), a.name@, v));
                proof {
                    lemma_map_frames_assign(before.last().frames(), |x: PyValue<F>| value_view(x), a.name@, v);
                }
                Ok(ExecResult::new())
            },
            None => Err(RuntimeError::UnsupportedStatement(node.kind)),
        },
        AstKind::If => match &node.as_if_stmt {
            Some(i) => {
                let cond = eval_expr(rt, host, &i.test, fuel)?;
                let ghost mid = *rt;
                proof {
                    lemma_view_accessors(cond);
                }
                let r = if py_is_truthy(host, &cond) {
                    exec_block(rt, host, &i.body, fuel)
                } else {
                    exec_block(rt, host, &i.orelse, fuel)
                };
                proof {
                    lemma_frame_then(*old(rt), mid, *rt);
                }
                r
            },
            None => Err(RuntimeError::UnsupportedStatement(node.kind)),
        },
        AstKind::While => match &node.as_while_stmt {
            Some(w) => {
                proof {
                    assert(decreases_to!(*node => node.as_while_stmt));
                    assert(decreases_to!(node.as_while_stmt => node.as_while_stmt.unwrap()));
                }
                exec_while(rt, host, node, w, fuel)
            },
            None => Err(RuntimeError::UnsupportedStatement(node.kind)),
        },
        AstKind::FunctionDef => match &node.as_function_def {
            Some(f) => {
                let closure = rt.scopes.len() - 1;
                let func = py_make_function(
                    f.name.clone(),
                    crate::ast_nodes::copy_strings(&f.params),
                    f.param_count,
                    node.clone(),
                    closure,
                );
                let ghost before = rt.scopes@;
                let ghost v = func;
                let mut env = rt.scopes.pop().unwrap();
                env.env_set(f.name.as_str(), func);
                rt.scopes.push(env);
                proof {
                    lemma_frame_same(*old(rt), *rt);
                }
                assert(rt.scopes@.drop_last() =~= before.drop_last());
                assert(rt.scopes@.last().frames() == bind_in(before.last().frames(), 0, f.name@, v));
                proof {
                    before.last().lemma_frames();
                    lemma_map_frames_bind(before.last().frames(), |x: PyValue<F>| value_view(x), 0, f.name@, v);
                }
                Ok(ExecResult::new())
            },
            None => Err(RuntimeError::UnsupportedStatement(node.kind)),
        },
        AstKind::Return => match &node.as_return_stmt {
            Some(ret) => {
                let value = match &ret.value {
                    Some(v) => eval_expr(rt, host, v, fuel)?,
                    None => PyValue::NoneValue,
                };
                Ok(ExecResult { has_return: true, value: Some(value) })
            },
            None => Err(RuntimeError::UnsupportedStatement(node.kind)),
        },
        AstKind::Pass => Ok(ExecResult::new()),
        _ => Err(RuntimeError::UnsupportedStatement(node.kind)),
    }
}

/// Runs the statements of a module in the innermost scope.
pub fn exec_module<F: Copy, H: PyHost<F>>(rt: &mut PyRuntime<F>, host: &mut H, module: &AstNode, fuel: u64) -> (r: Result<
    ExecResult<PyValue<F>>,
    RuntimeError,
>)
    requires
        old(rt).wf(),
    ensures
        final(rt).wf(),
        keeps_outer(*old(rt), *final(rt)),
        result_shaped(r),
        !(node_view(*module).tree is Module) ==> r == Err::<ExecResult<PyValue<F>>, RuntimeError>(
            RuntimeError::ExpectedModule,
        ) && final(rt).scopes@ == old(rt).scopes@,
        node_view(*module).tree matches Tree::Module(stmts) ==> run_matches(
            r,
            block_out(state_of(*old(rt)), stmts, fuel as nat),
            *final(rt),
        ),
        output_frame(*old(rt), *final(rt)),
    decreases fuel, *module,
{
    proof {
        lemma_frame_same(*old(rt), *old(rt));
    }
    proof {
        reveal(node_view);
        reveal(nodes_view);
    }
    if module.kind != AstKind::Module {
        return Err(RuntimeError::ExpectedModule);
    }
    match &module.as_module {
        Some(m) => exec_block(rt, host, &m.body, fuel),
        None => Err(RuntimeError::ExpectedModule),
    }
}

/// Runs the body of a function definition in the innermost scope.
pub fn exec_function_body<F: Copy, H: PyHost<F>>(
    rt: &mut PyRuntime<F>,
    host: &mut H,
    function_def: &AstNode,
    fuel: u64,
) -> (r: Result<ExecResult<PyValue<F>>, RuntimeError>)
    requires
        old(rt).wf(),
    ensures
        final(rt).wf(),
        keeps_outer(*old(rt), *final(rt)),
        result_shaped(r),
        function_def.kind != AstKind::FunctionDef || function_def.as_function_def is None ==> r == Err::<
            ExecResult<PyValue<F>>,
            RuntimeError,
        >(RuntimeError::ExpectedFunctionDefinition) && final(rt).scopes@ == old(rt).scopes@,
        node_view(*function_def).tree matches Tree::FunctionDef(_, _, stmts) ==> run_matches(
            r,
            block_out(state_of(*old(rt)), stmts, fuel as nat),
            *final(rt),
        ),
        output_frame(*old(rt), *final(rt)),
    decreases fuel, *function_def,
{
    proof {
        lemma_frame_same(*old(rt), *old(rt));
    }
    proof {
        reveal(node_view);
        reveal(nodes_view);
    }
    if function_def.kind != AstKind::FunctionDef {
        return Err(RuntimeError::ExpectedFunctionDefinition);
    }
    match &function_def.as_function_def {
        Some(f) => exec_block(rt, host, &f.body, fuel),
        None => Err(RuntimeError::ExpectedFunctionDefinition),
    }
}

/// Calls a function with the given arguments. A defined function runs in
/// a fresh scope nested in a copy of the scope it was defined in, so a call
/// changes no binding of any live scope.
pub fn py_call<F: Copy, H: PyHost<F>>(
    rt: &mut PyRuntime<F>,
    host: &mut H,
    callable: &PyValue<F>,
    args: Vec<PyValue<F>>,
    fuel: u64,
) -> (r: Result<PyValue<F>, RuntimeError>)
    requires
        old(rt).wf(),
    ensures
        final(rt).scopes@ == old(rt).scopes@,
        final(rt).sys_value == old(rt).sys_value,
        !(callable is Function || callable is BuiltinFunction) ==> r == Err::<PyValue<F>, RuntimeError>(
            RuntimeError::NotCallable,
        ),
        callable matches PyValue::Function(f) ==> args@.len() != f.param_count ==> r == Err::<
            PyValue<F>,
            RuntimeError,
        >(
            RuntimeError::ArgumentCount {
                name: f.name,
                expected: f.param_count,
                got: args@.len() as usize,
            },
        ),
        outcome_matches(r, call_out(state_of(*old(rt)), value_view(*callable), values_view(args@), fuel as nat)),
        callable matches PyValue::BuiltinFunction(b) ==> if fuel == 0 {
            r == Err::<PyValue<F>, RuntimeError>(RuntimeError::OutOfFuel)
        } else {
            builtin_called(*old(rt), *final(rt), b.builtin, args@, (fuel - 1) as u64, r)
        },
        output_frame(*old(rt), *final(rt)),
    decreases fuel, *callable,
{
    proof {
        lemma_frame_same(*old(rt), *old(rt));
    }
    let ghost st = state_of(*rt);
    let ghost argv = args@;
    let ghost expected = call_out(st, value_view(*callable), values_view(argv), fuel as nat);
    proof {
        lemma_values_view_len(args@);
    }
    match callable {
        PyValue::BuiltinFunction(b) => {
            if fuel == 0 {
                return Err(RuntimeError::OutOfFuel);
            }
            call_builtin(rt, host, b.builtin, args, fuel - 1)
        },
        PyValue::Function(f) => {
            let ghost fv = function_view(**f);
            if args.len() != f.param_count {
                let r = Err(
                    RuntimeError::ArgumentCount {
                        name: f.name.clone(),
                        expected: f.param_count,
                        got: args.len(),
                    },
                );
                assert(outcome_matches(r, expected));
                return r;
            }
            if f.closure >= rt.scopes.len() {
                assert(outcome_matches(Err(RuntimeError::ClosureScopeGone), expected));
                return Err(RuntimeError::ClosureScopeGone);
            }
            let parent = copy_scope(&rt.scopes[f.closure]);
            let ghost pframes = parent.frames();
            let ghost cframes = rt.scopes@[f.closure as int].frames();
            let ghost names = f.params@.map_values(|p: String| p@);
            let ghost pf = param_frame(names, argv);
            let argc = args.len();
            let local = match PyEnv::bind_params(parent, &f.params, args) {
                Ok(e) => e,
                Err(_) => {
                    let r = Err(
                        RuntimeError::ArgumentCount {
                            name: f.name.clone(),
                            expected: f.param_count,
                            got: argc,
                        },
                    );
                    assert(outcome_matches(r, expected));
                    return r;
                },
            };
            if fuel == 0 {
                assert(outcome_matches(Err(RuntimeError::OutOfFuel), expected));
                return Err(RuntimeError::OutOfFuel);
            }
            let ghost closure_frames = if (f.closure as int) < st.outer.len() {
                st.outer[f.closure as int]
            } else {
                st.top
            };
            let ghost inner = ScopeState {
                outer: st.outer.push(st.top),
                top: seq![param_frame(fv.params, values_view(argv))] + closure_frames,
                sys: st.sys,
            };
            proof {
                assert(names == fv.params);
                lemma_param_frame_view(names, argv);
                lemma_frames_match_view(pframes, cframes);
                assert(frames_view(cframes) == closure_frames);
                let a = frames_view(seq![pf] + pframes);
                assert forall|k: int| 0 <= k < a.len() implies #[trigger] a[k] == inner.top[k] by {
                    if k > 0 {
                        assert((seq![pf] + pframes)[k] == pframes[k - 1]);
                        assert(frames_view(pframes)[k - 1] == frames_view(cframes)[k - 1]);
                    }
                }
                assert(a =~= inner.top);
            }
            let ghost before = *rt;
            rt.scopes.push(local);
            let ghost pushed = *rt;
            proof {
                lemma_frame_same(*old(rt), pushed);
            }
            proof {
                assert(rt.scopes@.drop_last() =~= before.scopes@);
                assert(before.scopes@ =~= before.scopes@.drop_last().push(before.scopes@.last()));
                assert(state_of(*rt).outer =~= inner.outer);
                assert(state_of(*rt) == inner);
            }
            let result = exec_function_body(rt, host, &f.body, fuel - 1);
            let ghost ran = *rt;
            proof {
                reveal(node_view);
                reveal(nodes_view);
            }
            let _ = rt.scopes.pop();
            assert(rt.scopes@ =~= before.scopes@);
            proof {
                lemma_frame_same(ran, *rt);
                lemma_frame_then(*old(rt), pushed, ran);
                lemma_frame_then(*old(rt), ran, *rt);
            }
            let r = match result {
                Ok(x) => {
                    if x.has_return {
                        match x.value {
                            Some(v) => Ok(v),
                            None => Ok(PyValue::NoneValue),
                        }
                    } else {
                        Ok(PyValue::NoneValue)
                    }
                },
                Err(e) => Err(e),
            };
            assert(outcome_matches(r, expected));
            r
        },
        _ => Err(RuntimeError::NotCallable),
    }
}


/// The line `print` writes for its arguments: their texts joined by
/// single spaces, each the text `shown_text` gives where the host plays no
/// part in it.
pub fn print_line<F: Copy, H: PyHost<F>>(host: &mut H, args: &Vec<PyValue<F>>) -> (line: String)
    ensures
        (exists|texts: Seq<Seq<char>>| shows_as(texts, values_view(args@)) && line@ == joined_text(texts)),
{
    let mut line = String::new();
    let ghost mut texts: Seq<Seq<char>> = Seq::empty();
    let mut i: usize = 0;
    proof {
        reveal_strlit(" ");
        lemma_values_view_len(args@);
    }
    while i < args.len()
        invariant
            i <= args@.len(),
            texts.len() == i,
            line@ == joined_text(texts),
            " "@ == seq![' '],
            args@.len() == values_view(args@).len(),
            forall|k: int|
                0 <= k < i ==> (shown_text(#[trigger] values_view(args@)[k]) matches Some(t) ==> texts[k]
                    == t),
        decreases args@.len() - i,
    {
        let text = py_to_string(host, &args[i]);
        proof {
            lemma_view_accessors(args@[i as int]);
            lemma_values_view_index(args@, i as int);
        }
        if i > 0 {
            line.append(" ");
        }
        line.append(text.as_str());
        proof {
            let next = texts.push(text@);
            assert(next.drop_last() =~= texts);
            if i == 0 {
                assert(line@ =~= joined_text(next));
            } else {
                assert(line@ =~= joined_text(next));
            }
            texts = next;
        }
        i += 1;
    }
    line
}

/// The text the runtime was given for `path`: the first entry of
/// `sources` for that path (`Some(None)` when the file cannot be opened),
/// or `None` when it was not given one.
pub open spec fn source_of(sources: Seq<(String, Option<String>)>, path: Seq<char>) -> Option<Option<Seq<char>>>
    decreases sources.len(),
{
    if sources.len() == 0 {
        None
    } else if sources[0].0@ == path {
        Some(
            match sources[0].1 {
                Some(t) => Some(t@),
                None => None,
            },
        )
    } else {
        source_of(sources.drop_first(), path)
    }
}

/// Looks up the text the runtime was given for `path`.
pub fn find_source(sources: &Vec<(String, Option<String>)>, path: &str) -> (r: Option<Option<String>>)
    ensures
        match r {
            None => source_of(sources@, path@) is None,
            Some(None) => source_of(sources@, path@) == Some(None::<Seq<char>>),
            Some(Some(t)) => source_of(sources@, path@) == Some(Some(t@)),
        },
{
    let mut i: usize = 0;
    assert(sources@.skip(0) =~= sources@);
    while i < sources.len()
        invariant
            i <= sources@.len(),
            source_of(sources@, path@) == source_of(sources@.skip(i as int), path@),
        decreases sources@.len() - i,
    {
        assert(sources@.skip(i as int).drop_first() =~= sources@.skip(i + 1));
        assert(sources@.skip(i as int)[0] == sources@[i as int]);
        if str_compare(OpKind::Eq, sources[i].0.as_str(), path) == Some(true) {
            return match &sources[i].1 {
                Some(t) => Some(Some(t.clone())),
                None => Some(None),
            };
        }
        i += 1;
    }
    assert(sources@.skip(i as int).len() == 0);
    None
}

/// What a call of `run_path` on `path` with `fuel` steps left did, from
/// runtime `before` to `after` with result `r`: with no step left it ran
/// out; for a file the runtime was not given it stopped with
/// `SourceNotLoaded`; otherwise it gave the outcome of running the text it
/// was given, leaving the scopes and `sys` as they were.
pub open spec fn run_path_called<F>(
    before: PyRuntime<F>,
    after: PyRuntime<F>,
    path: Seq<char>,
    fuel: u64,
    r: Result<PyValue<F>, RuntimeError>,
) -> bool {
    if fuel == 0 {
        r == Err::<PyValue<F>, RuntimeError>(RuntimeError::OutOfFuel) && after == before
    } else {
        run_path_done(before, after, path, (fuel - 1) as u64, r)
    }
}

/// What `builtin_run_path_impl` did on `path` with `fuel` steps left.
pub open spec fn run_path_done<F>(
    before: PyRuntime<F>,
    after: PyRuntime<F>,
    path: Seq<char>,
    fuel: u64,
    r: Result<PyValue<F>, RuntimeError>,
) -> bool {
    match source_of(before.sources@, path) {
        None => (r matches Err(RuntimeError::SourceNotLoaded(p)) && p@ == path) && after == before,
        Some(text) => {
            &&& after.scopes@ == before.scopes@
            &&& after.sys_value == before.sys_value
            &&& outcome_matches(r, run_path_out(before, path, text, fuel as nat))
        },
    }
}

/// What a call of the runtime's function `b` on `args` with `fuel` steps
/// left did, from runtime `before` to `after` with result `r`.
pub open spec fn builtin_called<F>(
    before: PyRuntime<F>,
    after: PyRuntime<F>,
    b: Builtin,
    args: Seq<PyValue<F>>,
    fuel: u64,
    r: Result<PyValue<F>, RuntimeError>,
) -> bool {
    &&& after.scopes@ == before.scopes@
    &&& after.sys_value == before.sys_value
    &&& outcome_matches(r, builtin_out(state_of(before), b, values_view(args)))
    &&& b == Builtin::Print ==> {
        &&& r == Ok::<PyValue<F>, RuntimeError>(PyValue::NoneValue)
        &&& after.sources == before.sources
        &&& printed_line(before.output@, after.output@, values_view(args))
    }
    &&& b != Builtin::Print && b != Builtin::RunPath ==> after == before
    &&& b == Builtin::Int && args.len() == 1 && args[0] is Float ==> (r matches Ok(PyValue::Int(_)))
    &&& b == Builtin::Float && args.len() == 1 && (args[0] is Int || args[0] is Bool) ==> (r matches Ok(
        PyValue::Float(_),
    ))
    &&& b == Builtin::Str && args.len() == 1 ==> (r matches Ok(PyValue::Str(_)))
    &&& b == Builtin::Bool && args.len() == 1 ==> (r matches Ok(PyValue::Bool(_)))
    &&& b == Builtin::RunPath && args.len() == 1 ==> match args[0] {
        PyValue::Str(p) => run_path_called(before, after, p@, fuel, r),
        _ => true,
    }
}

/// `after` is the output `before` with one more line: the texts `print`
/// shows for `args`, joined by single spaces.
pub open spec fn printed_line<F>(before: Seq<String>, after: Seq<String>, args: Seq<ValueView<F>>) -> bool {
    &&& after.len() == before.len() + 1
    &&& after.drop_last() == before
    &&& exists|texts: Seq<Seq<char>>| shows_as(texts, args) && after.last()@ == joined_text(texts)
}

/// `print`: writes the line of its arguments to the output.
fn builtin_print<F: Copy, H: PyHost<F>>(rt: &mut PyRuntime<F>, host: &mut H, args: &Vec<PyValue<F>>) -> (r: PyValue<F>)
    ensures
        r is NoneValue,
        final(rt).scopes == old(rt).scopes,
        final(rt).sys_value == old(rt).sys_value,
        final(rt).sources == old(rt).sources,
        printed_line(old(rt).output@, final(rt).output@, values_view(args@)),
        final(rt).printed@ == old(rt).printed@.push(final(rt).output@.last()),
        output_frame(*old(rt), *final(rt)),
{
    let line = print_line(host, args);
    let ghost text = line;
    rt.output.push(line);
    proof {
        rt.printed@ = rt.printed@.push(text);
        reveal(output_frame);
        assert(rt.printed@.subrange(0, old(rt).printed@.len() as int) =~= old(rt).printed@);
        assert(rt.printed@.skip(old(rt).printed@.len() as int) =~= seq![text]);
        assert(rt.output@ =~= old(rt).output@ + seq![text]);
    }
    assert(rt.output@.drop_last() =~= old(rt).output@);
    PyValue::NoneValue
}

/// `len`: the length in bytes of a string, or the length of a list.
fn builtin_len<F: Copy>(args: &Vec<PyValue<F>>) -> (r: Result<PyValue<F>, RuntimeError>)
    ensures
        outcome_matches(r, len_out(values_view(args@))),
{
    proof {
        lemma_values_view_len(args@);
    }
    if args.len() != 1 {
        return Err(RuntimeError::BuiltinArgumentCount(Builtin::Len));
    }
    proof {
        lemma_values_view_index(args@, 0);
    }
    match &args[0] {
        PyValue::Str(s) => Ok(PyValue::Int(text_byte_len(s.as_str()) as i64)),
        PyValue::List(l) => {
            proof {
                lemma_values_view_len(l.items@);
            }
            Ok(PyValue::Int(l.items.len() as i64))
        },
        _ => Err(RuntimeError::LenUnsupported),
    }
}

/// `int`: an integer, a boolean as 0 or 1, or a float converted by the
/// host.
fn builtin_int<F: Copy, H: PyHost<F>>(host: &mut H, args: &Vec<PyValue<F>>) -> (r: Result<PyValue<F>, RuntimeError>)
    ensures
        outcome_matches(r, int_out(values_view(args@))),
        args@.len() == 1 && args@[0] is Float ==> r matches Ok(PyValue::Int(_)),
{
    proof {
        lemma_values_view_len(args@);
    }
    if args.len() != 1 {
        return Err(RuntimeError::BuiltinArgumentCount(Builtin::Int));
    }
    proof {
        lemma_values_view_index(args@, 0);
    }
    match &args[0] {
        PyValue::Int(i) => Ok(PyValue::Int(*i)),
        PyValue::Float(f) => Ok(PyValue::Int(host.float_to_int(*f))),
        PyValue::Bool(b) => Ok(PyValue::Int(if *b { 1 } else { 0 })),
        _ => Err(RuntimeError::IntUnsupported),
    }
}

/// `float`: a float, or a number converted by the host.
fn builtin_float<F: Copy, H: PyHost<F>>(host: &mut H, args: &Vec<PyValue<F>>) -> (r: Result<PyValue<F>, RuntimeError>)
    ensures
        outcome_matches(r, float_out(values_view(args@))),
        args@.len() == 1 && (args@[0] is Int || args@[0] is Bool) ==> r matches Ok(PyValue::Float(_)),
{
    proof {
        lemma_values_view_len(args@);
    }
    if args.len() != 1 {
        return Err(RuntimeError::BuiltinArgumentCount(Builtin::Float));
    }
    proof {
        lemma_values_view_index(args@, 0);
    }
    match py_as_number(host, &args[0]) {
        Ok(x) => Ok(PyValue::Float(x)),
        Err(e) => Err(e),
    }
}

/// `str`: the printed form of a value.
fn builtin_str<F: Copy, H: PyHost<F>>(host: &mut H, args: &Vec<PyValue<F>>) -> (r: Result<PyValue<F>, RuntimeError>)
    ensures
        outcome_matches(r, str_out(values_view(args@))),
        args@.len() == 1 ==> r matches Ok(PyValue::Str(_)),
{
    proof {
        lemma_values_view_len(args@);
    }
    if args.len() != 1 {
        return Err(RuntimeError::BuiltinArgumentCount(Builtin::Str));
    }
    proof {
        lemma_values_view_index(args@, 0);
        lemma_view_accessors(args@[0]);
    }
    Ok(PyValue::Str(py_to_string(host, &args[0])))
}

/// `bool`: the truth of a value.
fn builtin_bool<F: Copy, H: PyHost<F>>(host: &mut H, args: &Vec<PyValue<F>>) -> (r: Result<PyValue<F>, RuntimeError>)
    ensures
        outcome_matches(r, bool_out(values_view(args@))),
        args@.len() == 1 ==> r matches Ok(PyValue::Bool(_)),
{
    proof {
        lemma_values_view_len(args@);
    }
    if args.len() != 1 {
        return Err(RuntimeError::BuiltinArgumentCount(Builtin::Bool));
    }
    proof {
        lemma_values_view_index(args@, 0);
        lemma_view_accessors(args@[0]);
    }
    Ok(PyValue::Bool(py_is_truthy(host, &args[0])))
}

/// `__import__`: the `sys` module, the only one there is.
fn builtin_import<F: Copy>(rt: &PyRuntime<F>, args: &Vec<PyValue<F>>) -> (r: Result<PyValue<F>, RuntimeError>)
    ensures
        outcome_matches(r, import_out(value_view(rt.sys_value), values_view(args@))),
{
    proof {
        lemma_values_view_len(args@);
    }
    if args.len() != 1 {
        return Err(RuntimeError::ImportExpectsString);
    }
    proof {
        lemma_values_view_index(args@, 0);
    }
    match &args[0] {
        PyValue::Str(s) => {
            if str_compare(OpKind::Eq, s.as_str(), "sys") == Some(true) {
                Ok(copy_value(&rt.sys_value))
            } else {
                Err(RuntimeError::UnsupportedImport(s.clone()))
            }
        },
        _ => Err(RuntimeError::ImportExpectsString),
    }
}

/// `run_path`: runs the source file its one argument names, with one step
/// less.
fn builtin_run_path<F: Copy, H: PyHost<F>>(
    rt: &mut PyRuntime<F>,
    host: &mut H,
    args: &Vec<PyValue<F>>,
    fuel: u64,
) -> (r: Result<PyValue<F>, RuntimeError>)
    requires
        old(rt).wf(),
    ensures
        final(rt).scopes@ == old(rt).scopes@,
        final(rt).sys_value == old(rt).sys_value,
        !(args@.len() == 1 && args@[0] is Str) ==> r == Err::<PyValue<F>, RuntimeError>(
            RuntimeError::RunPathExpectsString,
        ),
        args@.len() == 1 ==> match args@[0] {
            PyValue::Str(p) => run_path_called(*old(rt), *final(rt), p@, fuel, r),
            _ => true,
        },
        output_frame(*old(rt), *final(rt)),
    decreases fuel, old(rt).sys_value,
{
    proof {
        lemma_frame_same(*old(rt), *old(rt));
    }
    if args.len() != 1 {
        return Err(RuntimeError::RunPathExpectsString);
    }
    match &args[0] {
        PyValue::Str(path) => {
            if fuel == 0 {
                return Err(RuntimeError::OutOfFuel);
            }
            builtin_run_path_impl(rt, host, path.as_str(), fuel - 1)
        },
        _ => Err(RuntimeError::RunPathExpectsString),
    }
}

/// Calls a function of the runtime.
pub fn call_builtin<F: Copy, H: PyHost<F>>(
    rt: &mut PyRuntime<F>,
    host: &mut H,
    builtin: Builtin,
    args: Vec<PyValue<F>>,
    fuel: u64,
) -> (r: Result<PyValue<F>, RuntimeError>)
    requires
        old(rt).wf(),
    ensures
        builtin_called(*old(rt), *final(rt), builtin, args@, fuel, r),
        output_frame(*old(rt), *final(rt)),
    decreases fuel, *old(rt),
{
    proof {
        lemma_frame_same(*old(rt), *old(rt));
    }
    proof {
        lemma_values_view_len(args@);
        if args@.len() > 0 {
            lemma_values_view_index(args@, 0);
        }
    }
    match builtin {
        Builtin::Print => Ok(builtin_print(rt, host, &args)),
        Builtin::Len => builtin_len(&args),
        Builtin::Int => builtin_int(host, &args),
        Builtin::Float => builtin_float(host, &args),
        Builtin::Str => builtin_str(host, &args),
        Builtin::Bool => builtin_bool(host, &args),
        Builtin::Import => builtin_import(rt, &args),
        Builtin::RunPath => {
            proof {
                assert(decreases_to!(*rt => rt.sys_value));
            }
            builtin_run_path(rt, host, &args, fuel)
        },
    }
}

/// The items of a list after the first.
pub open spec fn tail_view<F>(items: Seq<PyValue<F>>) -> Seq<ValueView<F>> {
    if items.len() <= 1 {
        Seq::empty()
    } else {
        values_view(items.subrange(1, items.len() as int))
    }
}

/// The argument list a module run by `run_path` sees: the current one
/// without its first item.
pub open spec fn shifted_argv<F>(argv: PyValue<F>) -> ValueView<F> {
    ValueView::Sys(
        Box::new(
            ValueView::List(
                match argv {
                    PyValue::List(l) => tail_view(l.items@),
                    _ => Seq::empty(),
                },
            ),
        ),
    )
}

/// The scope a module run by `run_path` starts in: a frame binding
/// `__name__` and `__file__`, an empty frame, then a copy of the global
/// scope chain.
pub open spec fn run_scope<F>(env: PyEnv<PyValue<F>>, globals: PyEnv<PyValue<F>>, path: Seq<char>) -> bool {
    let fr = env.frames();
    &&& fr.len() == globals.frames().len() + 2
    &&& fr[0].dom() == set!["__name__"@, "__file__"@]
    &&& value_view(fr[0]["__name__"@]) == ValueView::<F>::Str("__main__"@)
    &&& value_view(fr[0]["__file__"@]) == ValueView::<F>::Str(path)
    &&& fr[1] == Map::<Seq<char>, PyValue<F>>::empty()
    &&& frames_match(fr.skip(2), globals.frames())
}

/// What `run_path` prepares from the text of the source file (`None` when
/// it could not be read): the parsed module, the scope to run it in, and
/// the `sys` value it sees.
pub fn run_path_setup<F: Copy>(rt: &PyRuntime<F>, path: &str, source: Option<String>) -> (r: Result<
    (AstNode, PyEnv<PyValue<F>>, PyValue<F>),
    RuntimeError,
>)
    requires
        rt.wf(),
    ensures
        source is None ==> (r matches Err(RuntimeError::CannotOpen(p)) && p@ == path@),
        source matches Some(t) ==> t@.len() >= usize::MAX ==> (r matches Err(RuntimeError::CannotOpen(p)) && p@ == path@),
        source matches Some(t) ==> t@.len() < usize::MAX ==> match lex(t@) {
            Err(e) => r == Err::<(AstNode, PyEnv<PyValue<F>>, PyValue<F>), RuntimeError>(
                RuntimeError::Source(SourceError::Lex(e)),
            ),
            Ok(toks) => match p_module(toks, 0) {
                Err(e) => r == Err::<(AstNode, PyEnv<PyValue<F>>, PyValue<F>), RuntimeError>(
                    RuntimeError::Source(SourceError::Parse(e)),
                ),
                Ok((n, _)) => match rt.sys_value {
                    PyValue::Sys(s) => r matches Ok((m, env, sys)) && {
                        &&& node_view(m) == n
                        &&& run_scope(env, rt.scopes@[0], path@)
                        &&& value_view(sys) == shifted_argv(s.argv)
                    },
                    _ => r == Err::<(AstNode, PyEnv<PyValue<F>>, PyValue<F>), RuntimeError>(
                        RuntimeError::NoSysModule,
                    ),
                },
            },
        },
{
    let source = match source {
        Some(s) => s,
        None => {
            return Err(RuntimeError::CannotOpen(String::from_str(path)));
        },
    };
    if source.as_str().unicode_len() == usize::MAX {
        return Err(RuntimeError::CannotOpen(String::from_str(path)));
    }
    let module = match parse_source(source.as_str(), path) {
        Ok(m) => m,
        Err(e) => {
            return Err(RuntimeError::Source(e));
        },
    };
    let new_items = match &rt.sys_value {
        PyValue::Sys(s) => match &s.argv {
            PyValue::List(l) => {
                let mut items: Vec<PyValue<F>> = Vec::new();
                let mut i: usize = 1;
                proof {
                    lemma_values_view_len(items@);
                }
                while i < l.items.len()
                    invariant
                        1 <= i,
                        i < l.items@.len() ==> values_view(items@) == values_view(
                            l.items@.subrange(1, i as int),
                        ),
                        i >= l.items@.len() ==> values_view(items@) == tail_view(l.items@),
                        i == 1 ==> items@.len() == 0,
                    decreases l.items@.len() - i,
                {
                    let c = copy_value(&l.items[i]);
                    proof {
                        lemma_values_view_push(items@, c);
                        lemma_values_view_push(l.items@.subrange(1, i as int), l.items@[i as int]);
                        assert(l.items@.subrange(1, i as int).push(l.items@[i as int]) =~= l.items@.subrange(
                            1,
                            i + 1,
                        ));
                        if i == 1 {
                            assert(l.items@.subrange(1, 1) =~= Seq::<PyValue<F>>::empty());
                            assert(items@ =~= Seq::<PyValue<F>>::empty());
                        }
                    }
                    items.push(c);
                    i += 1;
                }
                proof {
                    if l.items@.len() <= 1 {
                        assert(values_view(items@) =~= Seq::<ValueView<F>>::empty());
                    }
                }
                items
            },
            _ => {
                let items: Vec<PyValue<F>> = Vec::new();
                assert(values_view(items@) =~= Seq::<ValueView<F>>::empty());
                items
            },
        },
        _ => {
            return Err(RuntimeError::NoSysModule);
        },
    };
    let sys = PyValue::new_sys(PyValue::List(PyList { items: new_items }));
    let globals = copy_scope(&rt.scopes[0]);
    let ghost gf = globals.frames();
    let inner = PyEnv::new(Some(globals));
    let mut env = PyEnv::new(Some(inner));
    let name_value = PyValue::Str(String::from_str("__main__"));
    let file_value = PyValue::Str(String::from_str(path));
    let ghost nv = name_value;
    let ghost fv = file_value;
    env.set("__name__", name_value);
    env.set("__file__", file_value);
    proof {
        reveal_strlit("__name__");
        reveal_strlit("__file__");
        reveal_strlit("__main__");
        assert("__name__"@.len() == 8 && "__file__"@.len() == 8);
        assert("__name__"@[2] != "__file__"@[2]);
        let fr = env.frames();
        assert(fr[0] == Map::<Seq<char>, PyValue<F>>::empty().insert("__name__"@, nv).insert("__file__"@, fv));
        assert(fr[0].dom() =~= set!["__name__"@, "__file__"@]);
        assert(fr.skip(2) =~= gf);
        assert forall|k: int| 0 <= k < fr.skip(2).len() implies frame_matches(
            #[trigger] fr.skip(2)[k],
            rt.scopes@[0].frames()[k],
        ) by {
            assert(fr.skip(2)[k] == gf[k]);
        }
    }
    Ok((module, env, sys))
}

/// A scope prepared by `run_path_setup` has the frames `run_path` starts a
/// module in.
proof fn lemma_run_scope_view<F>(env: PyEnv<PyValue<F>>, globals: PyEnv<PyValue<F>>, path: Seq<char>)
    requires
        run_scope(env, globals, path),
    ensures
        frames_view(env.frames()) == run_path_frames(frames_view(globals.frames()), path),
{
    reveal_strlit("__name__");
    reveal_strlit("__file__");
    reveal_strlit("__main__");
    let fr = env.frames();
    let g = globals.frames();
    lemma_frames_match_view(fr.skip(2), g);
    let a = frames_view(fr);
    let b = run_path_frames(frames_view(g), path);
    assert("__name__"@[2] != "__file__"@[2]);
    assert(a[0] =~= b[0]);
    assert(a[1] =~= b[1]);
    assert forall|k: int| 2 <= k < a.len() implies #[trigger] a[k] == b[k] by {
        assert(fr.skip(2)[k - 2] == fr[k]);
        assert(frames_view(fr.skip(2))[k - 2] == frames_view(g)[k - 2]);
    }
    assert(a =~= b);
}

/// The outcome of running `source`, the text read from `path` (`None` when
/// it could not be read), as a module of its own the way `run_path` does,
/// with `fuel` steps left; `None` where it rests on the host.
pub open spec fn run_path_out<F>(rt: PyRuntime<F>, path: Seq<char>, source: Option<Seq<char>>, fuel: nat) -> Option<
    ValueOutcome<F>,
> {
    match source {
        None => Some(Err(RuntimeErrorOf::CannotOpen(path))),
        Some(t) => if t.len() >= usize::MAX {
            Some(Err(RuntimeErrorOf::CannotOpen(path)))
        } else {
            match lex(t) {
                Err(e) => Some(Err(RuntimeErrorOf::Source(SourceError::Lex(e)))),
                Ok(toks) => match p_module(toks, 0) {
                    Err(e) => Some(Err(RuntimeErrorOf::Source(SourceError::Parse(e)))),
                    Ok((n, _)) => match rt.sys_value {
                        PyValue::Sys(s) => if fuel == 0 {
                            Some(Err(RuntimeErrorOf::OutOfFuel))
                        } else {
                            match n.tree {
                                Tree::Module(stmts) => returned_value(
                                    block_out(
                                        ScopeState {
                                            outer: state_of(rt).outer.push(state_of(rt).top),
                                            top: run_path_frames(frames_view(rt.scopes@[0].frames()), path),
                                            sys: shifted_argv(s.argv),
                                        },
                                        stmts,
                                        (fuel - 1) as nat,
                                    ),
                                ),
                                _ => Some(Err(RuntimeErrorOf::ExpectedModule)),
                            }
                        },
                        _ => Some(Err(RuntimeErrorOf::NoSysModule)),
                    },
                },
            }
        },
    }
}

/// Runs `source`, the text read from `path` (`None` when it could not be
/// read), as a module of its own, nested in a copy of the global scope,
/// with the argument list shifted by one; gives the value the module
/// returns, or `None`. Every live scope and the `sys` value stay as they
/// were.
pub fn run_path_source<F: Copy, H: PyHost<F>>(
    rt: &mut PyRuntime<F>,
    host: &mut H,
    path: &str,
    source: Option<String>,
    fuel: u64,
) -> (r: Result<PyValue<F>, RuntimeError>)
    requires
        old(rt).wf(),
    ensures
        final(rt).scopes@ == old(rt).scopes@,
        final(rt).sys_value == old(rt).sys_value,
        outcome_matches(
            r,
            run_path_out(
                *old(rt),
                path@,
                match source {
                    Some(t) => Some(t@),
                    None => None,
                },
                fuel as nat,
            ),
        ),
        output_frame(*old(rt), *final(rt)),
    decreases fuel, old(rt).sys_value,
{
    let ghost st = state_of(*rt);
    let ghost r0 = *rt;
    proof {
        lemma_frame_same(r0, r0);
    }
    let (module, env, sys) = match run_path_setup(rt, path, source) {
        Ok(x) => x,
        Err(e) => {
            return Err(e);
        },
    };
    if fuel == 0 {
        return Err(RuntimeError::OutOfFuel);
    }
    proof {
        lemma_run_scope_view(env, rt.scopes@[0], path@);
    }
    let mut saved = sys;
    std::mem::swap(&mut saved, &mut rt.sys_value);
    let ghost before = *rt;
    rt.scopes.push(env);
    let ghost pushed = *rt;
    proof {
        lemma_frame_same(r0, pushed);
    }
    proof {
        assert(rt.scopes@.drop_last() =~= before.scopes@);
        assert(before.scopes@ =~= before.scopes@.drop_last().push(before.scopes@.last()));
        assert(state_of(*rt).outer =~= st.outer.push(st.top));
    }
    let result = exec_module(rt, host, &module, fuel - 1);
    let ghost ran = *rt;
    let _ = rt.scopes.pop();
    assert(rt.scopes@ =~= before.scopes@);
    std::mem::swap(&mut saved, &mut rt.sys_value);
    proof {
        lemma_frame_same(ran, *rt);
        lemma_frame_then(r0, pushed, ran);
        lemma_frame_then(r0, ran, *rt);
    }
    match result {
        Ok(x) => {
            if x.has_return {
                match x.value {
                    Some(v) => Ok(v),
                    None => Ok(PyValue::NoneValue),
                }
            } else {
                Ok(PyValue::NoneValue)
            }
        },
        Err(e) => Err(e),
    }
}

/// Runs the source file at `path` as a module of its own, nested in a copy
/// of the global scope, with the argument list shifted by one; gives the
/// value the module returns, or `None`. The text is the one the runtime
/// was given for `path` (see `PyRuntime::sources`); for a path it was not
/// given, the run stops with `SourceNotLoaded`, so that the caller can
/// read the file and run again. Every live scope stays as it was, and the
/// `sys` module is put back as it was before the run.
pub fn builtin_run_path_impl<F: Copy, H: PyHost<F>>(
    rt: &mut PyRuntime<F>,
    host: &mut H,
    path: &str,
    fuel: u64,
) -> (r: Result<PyValue<F>, RuntimeError>)
    requires
        old(rt).wf(),
    ensures
        run_path_done(*old(rt), *final(rt), path@, fuel, r),
        output_frame(*old(rt), *final(rt)),
    decreases fuel, *old(rt),
{
    proof {
        lemma_frame_same(*old(rt), *old(rt));
    }
    match find_source(&rt.sources, path) {
        None => Err(RuntimeError::SourceNotLoaded(String::from_str(path))),
        Some(source) => {
            proof {
                assert(decreases_to!(*rt => rt.sys_value));
            }
            run_path_source(rt, host, path, source, fuel)
        },
    }
}

} // verus!
