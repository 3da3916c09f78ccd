use vstd::prelude::*;
use vstd::map::Map;
use vstd::utf8::encode_utf8;
use crate::ast_nodes::{AstKind, Node, OpKind, Tree};
use crate::env::{assign_frames, bind_in, chain_lookup, param_frame};
use crate::exception::{ErrorView, RuntimeErrorOf};
use crate::value::{
    ArithError, BinopPlan, Builtin, ComparePlan, FunctionView, UnaryPlan, ValueView,
    binop_plan_spec, compare_plan_spec, exact_in_float, int_arith_spec, int_compare_spec,
    plain_text_spec, text_compare_spec, unary_plan_spec, view_type,
};

verus! {

/// The scopes a piece of code runs in, by the views of their values: the
/// frames of every live scope but the innermost, the frames of the
/// innermost, and the `sys` module.
pub struct ScopeState<F> {
    pub outer: Seq<Seq<Map<Seq<char>, ValueView<F>>>>,
    pub top: Seq<Map<Seq<char>, ValueView<F>>>,
    pub sys: ValueView<F>,
}

/// How a statement or block ended: normally, or by a `return` with a value.
pub enum Flow<F> {
    Normal,
    Returned(ValueView<F>),
}

/// The outcome of evaluating an expression.
pub type ValueOutcome<F> = Result<ValueView<F>, ErrorView>;

/// The outcome of running statements, and the innermost frames after them.
pub type RunOutcome<F> = (Result<Flow<F>, ErrorView>, Seq<Map<Seq<char>, ValueView<F>>>);

/// The kind of node a tree is.
pub open spec fn tree_kind(t: Tree) -> AstKind {
    match t {
        Tree::Module(_) => AstKind::Module,
        Tree::ExprStmt(_) => AstKind::ExprStmt,
        Tree::Assign(_, _) => AstKind::Assign,
        Tree::If(_, _, _) => AstKind::If,
        Tree::While(_, _) => AstKind::While,
        Tree::FunctionDef(_, _, _) => AstKind::FunctionDef,
        Tree::Return(_) => AstKind::Return,
        Tree::Pass => AstKind::Pass,
        Tree::Name(_) => AstKind::Name,
        Tree::Int(_) | Tree::Float(_) | Tree::Str(_) => AstKind::Constant,
        Tree::BinOp(_, _, _) => AstKind::BinOp,
        Tree::UnaryOp(_, _) => AstKind::UnaryOp,
        Tree::Compare(_, _, _) => AstKind::Compare,
        Tree::Call(_, _) => AstKind::Call,
        Tree::Attribute(_, _) => AstKind::Attribute,
        Tree::Subscript(_, _) => AstKind::Subscript,
        Tree::Malformed => AstKind::Pass,
    }
}

// ---------------------------------------------------------------------
// Operators on value views
// ---------------------------------------------------------------------

/// The text of a string value (empty for other values).
pub open spec fn view_text<F>(v: ValueView<F>) -> Seq<char> {
    match v {
        ValueView::Str(s) => s,
        _ => Seq::empty(),
    }
}

/// The integer of an integer value (0 for other values).
pub open spec fn view_int<F>(v: ValueView<F>) -> int {
    match v {
        ValueView::Int(i) => i,
        _ => 0,
    }
}

/// The boolean of a boolean value (false for other values).
pub open spec fn view_flag<F>(v: ValueView<F>) -> bool {
    match v {
        ValueView::Bool(b) => b,
        _ => false,
    }
}

/// The integer a value counts as in a comparison when doubles represent
/// it exactly: an integer of magnitude at most 2^53, or a boolean as 0 or 1.
pub open spec fn view_exact_number<F>(v: ValueView<F>) -> Option<int> {
    match v {
        ValueView::Int(i) => if exact_in_float(i) {
            Some(i)
        } else {
            None
        },
        ValueView::Bool(b) => Some(if b { 1int } else { 0int }),
        _ => None,
    }
}

/// The truth of a value; `None` for a float.
pub open spec fn view_truth<F>(v: ValueView<F>) -> Option<bool> {
    match v {
        ValueView::NoneValue => Some(false),
        ValueView::Bool(b) => Some(b),
        ValueView::Int(i) => Some(i != 0),
        ValueView::Float(_) => None,
        ValueView::Str(s) => Some(s.len() != 0),
        ValueView::List(items) => Some(items.len() != 0),
        _ => Some(true),
    }
}

/// What a binary arithmetic operator gives on two values; `None` when a
/// float is involved, which the host computes.
pub open spec fn binop_value<F>(op: OpKind, l: ValueView<F>, r: ValueView<F>) -> Option<ValueOutcome<F>> {
    match binop_plan_spec(op, view_type(l), view_type(r)) {
        BinopPlan::Concat => Some(Ok(ValueView::Str(view_text(l) + view_text(r)))),
        BinopPlan::Integer => Some(
            match int_arith_spec(op, view_int(l), view_int(r)) {
                Ok(x) => Ok(ValueView::Int(x)),
                Err(ArithError::ZeroDivisor) => Err(RuntimeErrorOf::ZeroDivisor),
                Err(_) => Err(RuntimeErrorOf::IntegerOverflow),
            },
        ),
        BinopPlan::Float => None,
        BinopPlan::NotANumber => Some(Err(RuntimeErrorOf::ExpectedNumber)),
        BinopPlan::Unsupported => Some(Err(RuntimeErrorOf::UnsupportedBinaryOperator)),
    }
}

/// What a comparison gives on two values; `None` for numbers that the
/// host compares as floats.
pub open spec fn compare_value<F>(op: OpKind, l: ValueView<F>, r: ValueView<F>) -> Option<ValueOutcome<F>> {
    match compare_plan_spec(op, view_type(l), view_type(r)) {
        ComparePlan::Text => match text_compare_spec(op, view_text(l), view_text(r)) {
            Some(b) => Some(Ok(ValueView::Bool(b))),
            None => Some(Err(RuntimeErrorOf::UnsupportedComparisonOperator)),
        },
        ComparePlan::Numeric => match (view_exact_number(l), view_exact_number(r), int_compare_spec(op, 0, 0)) {
            (Some(a), Some(b), Some(_)) => Some(Ok(ValueView::Bool(int_compare_spec(op, a, b).unwrap()))),
            _ => None,
        },
        ComparePlan::NotANumber => Some(Err(RuntimeErrorOf::ExpectedNumber)),
        ComparePlan::Unsupported => Some(Err(RuntimeErrorOf::UnsupportedComparisonOperator)),
    }
}

/// What a unary operator gives on a value; `None` for a float negation.
pub open spec fn unary_value<F>(op: OpKind, v: ValueView<F>) -> Option<ValueOutcome<F>> {
    match unary_plan_spec(op, view_type(v)) {
        UnaryPlan::IntegerNegate => Some(
            if view_int(v) == i64::MIN {
                Err(RuntimeErrorOf::IntegerOverflow)
            } else {
                Ok(ValueView::Int(-view_int(v)))
            },
        ),
        UnaryPlan::FloatNegate => None,
        UnaryPlan::NotANumber => Some(Err(RuntimeErrorOf::ExpectedNumber)),
        UnaryPlan::Unsupported => Some(Err(RuntimeErrorOf::UnsupportedUnaryOperator)),
    }
}

/// What `v.attr` gives.
pub open spec fn attribute_value<F>(v: ValueView<F>, attr: Seq<char>) -> ValueOutcome<F> {
    match v {
        ValueView::Sys(argv) => if attr == "argv"@ {
            Ok(*argv)
        } else {
            Err(RuntimeErrorOf::UnsupportedAttribute(attr))
        },
        _ => Err(RuntimeErrorOf::UnsupportedAttribute(attr)),
    }
}

/// What `v[i]` gives: a list by position, a string by character (the range
/// check going by its length in bytes).
pub open spec fn subscript_value<F>(v: ValueView<F>, i: ValueView<F>) -> ValueOutcome<F> {
    match i {
        ValueView::Int(k) => match v {
            ValueView::List(items) => if 0 <= k < items.len() {
                Ok(items[k])
            } else {
                Err(RuntimeErrorOf::ListIndexOutOfRange)
            },
            ValueView::Str(s) => if k < 0 || k >= (encode_utf8(s).len() as usize) {
                Err(RuntimeErrorOf::StringIndexOutOfRange)
            } else if k >= s.len() {
                Err(RuntimeErrorOf::StringIndexNoCharacter)
            } else {
                Ok(ValueView::Str(seq![s[k]]))
            },
            _ => Err(RuntimeErrorOf::UnsupportedSubscript),
        },
        _ => Err(RuntimeErrorOf::IndexNotInt),
    }
}

/// Applies `f` to the outcomes of two operands evaluated left to right:
/// the first error stops, an unknown outcome stays unknown.
pub open spec fn both<F>(
    a: Option<ValueOutcome<F>>,
    b: Option<ValueOutcome<F>>,
    f: spec_fn(ValueView<F>, ValueView<F>) -> Option<ValueOutcome<F>>,
) -> Option<ValueOutcome<F>> {
    match a {
        None => None,
        Some(Err(e)) => Some(Err(e)),
        Some(Ok(x)) => match b {
            None => None,
            Some(Err(e)) => Some(Err(e)),
            Some(Ok(y)) => f(x, y),
        },
    }
}

/// The text `print` and `str` show for a value; `None` for a float, whose
/// text the host gives.
pub open spec fn shown_text<F>(v: ValueView<F>) -> Option<Seq<char>> {
    match v {
        ValueView::Str(s) => Some(s),
        ValueView::Float(_) => None,
        _ => plain_text_spec(view_type(v), view_flag(v), view_int(v) as i64),
    }
}

/// `texts` are the texts `print` shows for `args`, one for one, where the
/// host plays no part in them.
pub open spec fn shows_as<F>(texts: Seq<Seq<char>>, args: Seq<ValueView<F>>) -> bool {
    &&& texts.len() == args.len()
    &&& forall|k: int| 0 <= k < texts.len() ==> (shown_text(#[trigger] args[k]) matches Some(t) ==> texts[k] == t)
}

/// Texts joined by single spaces, as `print` writes its arguments.
pub open spec fn joined_text(texts: Seq<Seq<char>>) -> Seq<char>
    decreases texts.len(),
{
    if texts.len() == 0 {
        Seq::empty()
    } else if texts.len() == 1 {
        texts[0]
    } else {
        joined_text(texts.drop_last()) + seq![' '] + texts.last()
    }
}

/// What `len` gives: the length in bytes of a string, the length of a list.
pub open spec fn len_out<F>(args: Seq<ValueView<F>>) -> Option<ValueOutcome<F>> {
    if args.len() != 1 {
        Some(Err(RuntimeErrorOf::BuiltinArgumentCount(Builtin::Len)))
    } else {
        match args[0] {
            ValueView::Str(s) => Some(Ok(ValueView::Int(((encode_utf8(s).len() as usize) as i64) as int))),
            ValueView::List(items) => Some(Ok(ValueView::Int((items.len() as i64) as int))),
            _ => Some(Err(RuntimeErrorOf::LenUnsupported)),
        }
    }
}

/// What `int` gives; `None` for a float, which the host converts.
pub open spec fn int_out<F>(args: Seq<ValueView<F>>) -> Option<ValueOutcome<F>> {
    if args.len() != 1 {
        Some(Err(RuntimeErrorOf::BuiltinArgumentCount(Builtin::Int)))
    } else {
        match args[0] {
            ValueView::Int(i) => Some(Ok(ValueView::Int(i))),
            ValueView::Bool(x) => Some(Ok(ValueView::Int(if x { 1int } else { 0int }))),
            ValueView::Float(_) => None,
            _ => Some(Err(RuntimeErrorOf::IntUnsupported)),
        }
    }
}

/// What `float` gives; `None` for an integer or a boolean, which the host
/// converts.
pub open spec fn float_out<F>(args: Seq<ValueView<F>>) -> Option<ValueOutcome<F>> {
    if args.len() != 1 {
        Some(Err(RuntimeErrorOf::BuiltinArgumentCount(Builtin::Float)))
    } else {
        match args[0] {
            ValueView::Float(f) => Some(Ok(ValueView::Float(f))),
            ValueView::Int(_) | ValueView::Bool(_) => None,
            _ => Some(Err(RuntimeErrorOf::ExpectedNumber)),
        }
    }
}

/// What `str` gives; `None` for a float, whose text the host gives.
pub open spec fn str_out<F>(args: Seq<ValueView<F>>) -> Option<ValueOutcome<F>> {
    if args.len() != 1 {
        Some(Err(RuntimeErrorOf::BuiltinArgumentCount(Builtin::Str)))
    } else {
        match shown_text(args[0]) {
            Some(t) => Some(Ok(ValueView::Str(t))),
            None => None,
        }
    }
}

/// What `bool` gives; `None` for a float, which the host tests.
pub open spec fn bool_out<F>(args: Seq<ValueView<F>>) -> Option<ValueOutcome<F>> {
    if args.len() != 1 {
        Some(Err(RuntimeErrorOf::BuiltinArgumentCount(Builtin::Bool)))
    } else {
        match view_truth(args[0]) {
            Some(x) => Some(Ok(ValueView::Bool(x))),
            None => None,
        }
    }
}

/// What `__import__` gives, where `sys` is the `sys` module.
pub open spec fn import_out<F>(sys: ValueView<F>, args: Seq<ValueView<F>>) -> Option<ValueOutcome<F>> {
    if args.len() != 1 {
        Some(Err(RuntimeErrorOf::ImportExpectsString))
    } else {
        match args[0] {
            ValueView::Str(s) => if s == "sys"@ {
                Some(Ok(sys))
            } else {
                Some(Err(RuntimeErrorOf::UnsupportedImport(s)))
            },
            _ => Some(Err(RuntimeErrorOf::ImportExpectsString)),
        }
    }
}

/// What a function of the runtime gives on arguments; `None` where the
/// host decides (floats) and for a `run_path` with a string argument,
/// whose outcome `builtin_run_path_impl` states.
pub open spec fn builtin_out<F>(st: ScopeState<F>, b: Builtin, args: Seq<ValueView<F>>) -> Option<ValueOutcome<F>> {
    match b {
        Builtin::Print => Some(Ok(ValueView::NoneValue)),
        Builtin::Len => len_out(args),
        Builtin::Int => int_out(args),
        Builtin::Float => float_out(args),
        Builtin::Str => str_out(args),
        Builtin::Bool => bool_out(args),
        Builtin::Import => import_out(st.sys, args),
        Builtin::RunPath => if args.len() != 1 || !(args[0] is Str) {
            Some(Err(RuntimeErrorOf::RunPathExpectsString))
        } else {
            None
        },
    }
}

/// The value a call, or a module run by `run_path`, gives for the outcome
/// of its body: the value it returned, `None` when it ended without
/// returning, or its error.
pub open spec fn returned_value<F>(o: Option<RunOutcome<F>>) -> Option<ValueOutcome<F>> {
    match o {
        None => None,
        Some((Ok(Flow::Returned(w)), _)) => Some(Ok(w)),
        Some((Ok(Flow::Normal), _)) => Some(Ok(ValueView::NoneValue)),
        Some((Err(err), _)) => Some(Err(err)),
    }
}

/// The scope chain a module run by `run_path` starts in: a frame that
/// binds `__name__` and `__file__`, an empty frame, then the global frames.
pub open spec fn run_path_frames<F>(globals: Seq<Map<Seq<char>, ValueView<F>>>, path: Seq<char>) -> Seq<
    Map<Seq<char>, ValueView<F>>,
> {
    seq![
        Map::<Seq<char>, ValueView<F>>::empty().insert("__name__"@, ValueView::Str("__main__"@)).insert(
            "__file__"@,
            ValueView::Str(path),
        ),
        Map::<Seq<char>, ValueView<F>>::empty(),
    ] + globals
}

// ---------------------------------------------------------------------
// Expressions, calls and statements
// ---------------------------------------------------------------------

/// The outcome of evaluating expression `e` with `fuel` steps left;
/// `None` where it rests on the host or on a `run_path`.
pub open spec fn expr_out<F>(st: ScopeState<F>, e: Node, fuel: nat) -> Option<ValueOutcome<F>>
    decreases fuel, e, 0nat,
{
    match e.tree {
        Tree::Name(n) => Some(
            match chain_lookup(st.top, n) {
                Some(w) => Ok(w),
                None => Err(RuntimeErrorOf::NameNotDefined(n)),
            },
        ),
        Tree::Int(i) => Some(Ok(ValueView::Int(i))),
        Tree::Str(t) => Some(Ok(ValueView::Str(t))),
        Tree::Float(_) => None,
        Tree::BinOp(op, l, r) => both(
            expr_out(st, *l, fuel),
            expr_out(st, *r, fuel),
            |a: ValueView<F>, b: ValueView<F>| binop_value(op, a, b),
        ),
        Tree::Compare(op, l, r) => both(
            expr_out(st, *l, fuel),
            expr_out(st, *r, fuel),
            |a: ValueView<F>, b: ValueView<F>| compare_value(op, a, b),
        ),
        Tree::UnaryOp(op, x) => match expr_out(st, *x, fuel) {
            None => None,
            Some(Err(err)) => Some(Err(err)),
            Some(Ok(v)) => unary_value(op, v),
        },
        Tree::Call(f, args) => match expr_out(st, *f, fuel) {
            None => None,
            Some(Err(err)) => Some(Err(err)),
            Some(Ok(callee)) => match args_out(st, args, fuel) {
                None => None,
                Some(Err(err)) => Some(Err(err)),
                Some(Ok(vs)) => if fuel == 0 {
                    Some(Err(RuntimeErrorOf::OutOfFuel))
                } else {
                    call_out(st, callee, vs, (fuel - 1) as nat)
                },
            },
        },
        Tree::Attribute(x, attr) => match expr_out(st, *x, fuel) {
            None => None,
            Some(Err(err)) => Some(Err(err)),
            Some(Ok(v)) => Some(attribute_value(v, attr)),
        },
        Tree::Subscript(x, i) => both(
            expr_out(st, *x, fuel),
            expr_out(st, *i, fuel),
            |v: ValueView<F>, k: ValueView<F>| Some(subscript_value(v, k)),
        ),
        Tree::Malformed => None,
        _ => Some(Err(RuntimeErrorOf::UnsupportedExpression(tree_kind(e.tree)))),
    }
}

/// The outcomes of evaluating arguments left to right.
pub open spec fn args_out<F>(st: ScopeState<F>, args: Seq<Node>, fuel: nat) -> Option<
    Result<Seq<ValueView<F>>, ErrorView>,
>
    decreases fuel, args, 0nat,
{
    if args.len() == 0 {
        Some(Ok(Seq::empty()))
    } else {
        match expr_out(st, args[0], fuel) {
            None => None,
            Some(Err(err)) => Some(Err(err)),
            Some(Ok(v)) => match args_out(st, args.subrange(1, args.len() as int), fuel) {
                None => None,
                Some(Err(err)) => Some(Err(err)),
                Some(Ok(vs)) => Some(Ok(seq![v] + vs)),
            },
        }
    }
}

/// The outcome of calling `callee` on `args` with `fuel` steps left.
pub open spec fn call_out<F>(st: ScopeState<F>, callee: ValueView<F>, args: Seq<ValueView<F>>, fuel: nat) -> Option<
    ValueOutcome<F>,
>
    decreases fuel, callee, 0nat,
{
    match callee {
        ValueView::BuiltinFunction(_, b) => if fuel == 0 {
            Some(Err(RuntimeErrorOf::OutOfFuel))
        } else {
            builtin_out(st, b, args)
        },
        ValueView::Function(f) => {
            let count_error = Some(
                Err(
                    RuntimeErrorOf::ArgumentCount {
                        name: f.name,
                        expected: f.param_count as usize,
                        got: args.len() as usize,
                    },
                ),
            );
            if args.len() != f.param_count {
                count_error
            } else if f.closure < 0 || f.closure > st.outer.len() {
                Some(Err(RuntimeErrorOf::ClosureScopeGone))
            } else if f.params.len() != f.param_count {
                count_error
            } else if fuel == 0 {
                Some(Err(RuntimeErrorOf::OutOfFuel))
            } else {
                let closure_frames = if f.closure < st.outer.len() {
                    st.outer[f.closure]
                } else {
                    st.top
                };
                let inner = ScopeState {
                    outer: st.outer.push(st.top),
                    top: seq![param_frame(f.params, args)] + closure_frames,
                    sys: st.sys,
                };
                match f.body.tree {
                    Tree::FunctionDef(_, _, stmts) => returned_value(block_out(inner, stmts, (fuel - 1) as nat)),
                    Tree::Malformed => None,
                    _ => Some(Err(RuntimeErrorOf::ExpectedFunctionDefinition)),
                }
            }
        },
        _ => Some(Err(RuntimeErrorOf::NotCallable)),
    }
}

/// The outcome of running statement `s` with `fuel` steps left; `None`
/// where it rests on the host or on a `run_path`.
pub open spec fn stmt_out<F>(st: ScopeState<F>, s: Node, fuel: nat) -> Option<RunOutcome<F>>
    decreases fuel, s, fuel + 1,
{
    match s.tree {
        Tree::Pass => Some((Ok(Flow::Normal), st.top)),
        Tree::ExprStmt(e) => match expr_out(st, *e, fuel) {
            None => None,
            Some(Err(err)) => Some((Err(err), st.top)),
            Some(Ok(_)) => Some((Ok(Flow::Normal), st.top)),
        },
        Tree::Assign(n, e) => match expr_out(st, *e, fuel) {
            None => None,
            Some(Err(err)) => Some((Err(err), st.top)),
            Some(Ok(w)) => Some((Ok(Flow::Normal), assign_frames(st.top, n, w))),
        },
        Tree::Return(value) => match value {
            None => Some((Ok(Flow::Returned(ValueView::NoneValue)), st.top)),
            Some(e) => match expr_out(st, *e, fuel) {
                None => None,
                Some(Err(err)) => Some((Err(err), st.top)),
                Some(Ok(w)) => Some((Ok(Flow::Returned(w)), st.top)),
            },
        },
        Tree::If(test, body, orelse) => match expr_out(st, *test, fuel) {
            None => None,
            Some(Err(err)) => Some((Err(err), st.top)),
            Some(Ok(c)) => match view_truth(c) {
                None => None,
                Some(true) => block_out(st, body, fuel),
                Some(false) => block_out(st, orelse, fuel),
            },
        },
        Tree::While(_, _) => while_out(st, s, fuel, fuel),
        Tree::FunctionDef(name, params, _) => Some(
            (
                Ok(Flow::Normal),
                bind_in(
                    st.top,
                    0,
                    name,
                    ValueView::Function(
                        FunctionView {
                            name,
                            params,
                            param_count: params.len() as int,
                            body: s,
                            closure: st.outer.len() as int,
                        },
                    ),
                ),
            ),
        ),
        Tree::Malformed => None,
        _ => Some((Err(RuntimeErrorOf::UnsupportedStatement(tree_kind(s.tree))), st.top)),
    }
}

/// The outcome of a loop `w` with `budget` iterations left.
pub open spec fn while_out<F>(st: ScopeState<F>, w: Node, fuel: nat, budget: nat) -> Option<RunOutcome<F>>
    decreases fuel, w, budget,
{
    match w.tree {
        Tree::While(test, body) => if budget > fuel {
            None
        } else {
            match expr_out(st, *test, fuel) {
                None => None,
                Some(Err(err)) => Some((Err(err), st.top)),
                Some(Ok(c)) => match view_truth(c) {
                    None => None,
                    Some(false) => Some((Ok(Flow::Normal), st.top)),
                    Some(true) => if budget == 0 {
                        Some((Err(RuntimeErrorOf::OutOfFuel), st.top))
                    } else {
                        match block_out(st, body, (budget - 1) as nat) {
                            None => None,
                            Some((Ok(Flow::Normal), f2)) => while_out(
                                ScopeState { top: f2, ..st },
                                w,
                                fuel,
                                (budget - 1) as nat,
                            ),
                            other => other,
                        }
                    },
                },
            }
        },
        _ => None,
    }
}

/// The outcome of a block: its statements in order, up to the first that
/// returns or fails.
pub open spec fn block_out<F>(st: ScopeState<F>, stmts: Seq<Node>, fuel: nat) -> Option<RunOutcome<F>>
    decreases fuel, stmts, 0nat,
{
    if stmts.len() == 0 {
        Some((Ok(Flow::Normal), st.top))
    } else {
        match stmt_out(st, stmts[0], fuel) {
            None => None,
            Some((Ok(Flow::Normal), f2)) => block_out(
                ScopeState { top: f2, ..st },
                stmts.subrange(1, stmts.len() as int),
                fuel,
            ),
            other => other,
        }
    }
}

// ---------------------------------------------------------------------
// Steps only cut a run short
// ---------------------------------------------------------------------

/// An outcome that is known and is not running out of steps.
pub open spec fn settled<F>(o: Option<ValueOutcome<F>>) -> bool {
    o matches Some(x) && x != Err::<ValueView<F>, ErrorView>(RuntimeErrorOf::OutOfFuel)
}

/// Outcomes of arguments that are known and did not run out of steps.
pub open spec fn settled_args<F>(o: Option<Result<Seq<ValueView<F>>, ErrorView>>) -> bool {
    o matches Some(x) && x != Err::<Seq<ValueView<F>>, ErrorView>(RuntimeErrorOf::OutOfFuel)
}

/// The outcome of running statements that is known and did not run out of
/// steps.
pub open spec fn settled_run<F>(o: Option<RunOutcome<F>>) -> bool {
    o matches Some((res, _)) && res != Err::<Flow<F>, ErrorView>(RuntimeErrorOf::OutOfFuel)
}

/// Steps only cut an evaluation short: an expression whose outcome with
/// `fuel` steps is known and does not run out has that outcome with any
/// number of steps above.
pub proof fn law_more_fuel_same_value<F>(st: ScopeState<F>, e: Node, fuel: nat, more: nat)
    requires
        fuel <= more,
        settled(expr_out(st, e, fuel)),
    ensures
        expr_out(st, e, more) == expr_out(st, e, fuel),
    decreases fuel, e, 0nat,
{
    match e.tree {
        Tree::BinOp(_, l, r) | Tree::Compare(_, l, r) | Tree::Subscript(l, r) => {
            if settled(expr_out(st, *l, fuel)) {
                law_more_fuel_same_value(st, *l, fuel, more);
            }
            if settled(expr_out(st, *r, fuel)) {
                law_more_fuel_same_value(st, *r, fuel, more);
            }
        },
        Tree::UnaryOp(_, x) | Tree::Attribute(x, _) => {
            law_more_fuel_same_value(st, *x, fuel, more);
        },
        Tree::Call(f, args) => {
            law_more_fuel_same_value(st, *f, fuel, more);
            if settled_args(args_out(st, args, fuel)) {
                lemma_args_more_fuel(st, args, fuel, more);
            }
            match (expr_out(st, *f, fuel), args_out(st, args, fuel)) {
                (Some(Ok(callee)), Some(Ok(vs))) => {
                    if fuel > 0 {
                        lemma_call_more_fuel(st, callee, vs, (fuel - 1) as nat, (more - 1) as nat);
                    }
                },
                _ => {},
            }
        },
        _ => {},
    }
}

proof fn lemma_args_more_fuel<F>(st: ScopeState<F>, args: Seq<Node>, fuel: nat, more: nat)
    requires
        fuel <= more,
        settled_args(args_out(st, args, fuel)),
    ensures
        args_out(st, args, more) == args_out(st, args, fuel),
    decreases fuel, args, 0nat,
{
    if args.len() > 0 {
        law_more_fuel_same_value(st, args[0], fuel, more);
        match expr_out(st, args[0], fuel) {
            Some(Ok(_)) => lemma_args_more_fuel(st, args.subrange(1, args.len() as int), fuel, more),
            _ => {},
        }
    }
}

proof fn lemma_call_more_fuel<F>(st: ScopeState<F>, callee: ValueView<F>, args: Seq<ValueView<F>>, fuel: nat, more: nat)
    requires
        fuel <= more,
        settled(call_out(st, callee, args, fuel)),
    ensures
        call_out(st, callee, args, more) == call_out(st, callee, args, fuel),
    decreases fuel, callee, 0nat,
{
    match callee {
        ValueView::Function(f) => {
            if args.len() == f.param_count && 0 <= f.closure <= st.outer.len() && f.params.len()
                == f.param_count && fuel > 0 {
                let closure_frames = if f.closure < st.outer.len() {
                    st.outer[f.closure]
                } else {
                    st.top
                };
                let inner = ScopeState {
                    outer: st.outer.push(st.top),
                    top: seq![param_frame(f.params, args)] + closure_frames,
                    sys: st.sys,
                };
                match f.body.tree {
                    Tree::FunctionDef(_, _, stmts) => {
                        law_more_fuel_same_run(inner, stmts, (fuel - 1) as nat, (more - 1) as nat);
                    },
                    _ => {},
                }
            }
        },
        _ => {},
    }
}

proof fn lemma_stmt_more_fuel<F>(st: ScopeState<F>, s: Node, fuel: nat, more: nat)
    requires
        fuel <= more,
        settled_run(stmt_out(st, s, fuel)),
    ensures
        stmt_out(st, s, more) == stmt_out(st, s, fuel),
    decreases fuel, s, fuel + 1,
{
    match s.tree {
        Tree::ExprStmt(e) | Tree::Assign(_, e) => {
            law_more_fuel_same_value(st, *e, fuel, more);
        },
        Tree::Return(value) => {
            match value {
                Some(e) => law_more_fuel_same_value(st, *e, fuel, more),
                None => {},
            }
        },
        Tree::If(test, body, orelse) => {
            law_more_fuel_same_value(st, *test, fuel, more);
            match expr_out(st, *test, fuel) {
                Some(Ok(c)) => {
                    if view_truth(c) == Some(true) {
                        law_more_fuel_same_run(st, body, fuel, more);
                    } else if view_truth(c) == Some(false) {
                        law_more_fuel_same_run(st, orelse, fuel, more);
                    }
                },
                _ => {},
            }
        },
        Tree::While(_, _) => {
            lemma_while_more_fuel(st, s, fuel, more, fuel, more);
        },
        _ => {},
    }
}

proof fn lemma_while_more_fuel<F>(st: ScopeState<F>, w: Node, fuel: nat, more: nat, budget: nat, more_budget: nat)
    requires
        fuel <= more,
        budget <= more_budget,
        budget <= fuel,
        more_budget <= more,
        settled_run(while_out(st, w, fuel, budget)),
    ensures
        while_out(st, w, more, more_budget) == while_out(st, w, fuel, budget),
    decreases fuel, w, budget,
{
    match w.tree {
        Tree::While(test, body) => {
            law_more_fuel_same_value(st, *test, fuel, more);
            match expr_out(st, *test, fuel) {
                Some(Ok(c)) => {
                    if view_truth(c) == Some(true) && budget > 0 {
                        law_more_fuel_same_run(st, body, (budget - 1) as nat, (more_budget - 1) as nat);
                        match block_out(st, body, (budget - 1) as nat) {
                            Some((Ok(Flow::Normal), f2)) => {
                                lemma_while_more_fuel(
                                    ScopeState { top: f2, ..st },
                                    w,
                                    fuel,
                                    more,
                                    (budget - 1) as nat,
                                    (more_budget - 1) as nat,
                                );
                            },
                            _ => {},
                        }
                    }
                },
                _ => {},
            }
        },
        _ => {},
    }
}

/// Steps only cut a run short: statements whose outcome with `fuel` steps
/// is known and does not run out have that outcome, and leave the same
/// frames, with any number of steps above.
pub proof fn law_more_fuel_same_run<F>(st: ScopeState<F>, stmts: Seq<Node>, fuel: nat, more: nat)
    requires
        fuel <= more,
        settled_run(block_out(st, stmts, fuel)),
    ensures
        block_out(st, stmts, more) == block_out(st, stmts, fuel),
    decreases fuel, stmts, 0nat,
{
    if stmts.len() > 0 {
        lemma_stmt_more_fuel(st, stmts[0], fuel, more);
        match stmt_out(st, stmts[0], fuel) {
            Some((Ok(Flow::Normal), f2)) => {
                law_more_fuel_same_run(
                    ScopeState { top: f2, ..st },
                    stmts.subrange(1, stmts.len() as int),
                    fuel,
                    more,
                );
            },
            _ => {},
        }
    }
}

} // verus!
