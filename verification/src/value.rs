use vstd::prelude::*;
use vstd::string::StringExecFns;
use vstd::string::StringSliceAdditionalSpecFns;
use crate::ast_nodes::{AstNode, Node, OpKind, copy_strings, node_view, strings_view};
use crate::lexer::push_char;
use crate::util::chars_of;
use crate::env::{PyEnv, items_map};
use crate::parser::{all_digits, digit_value, digits_value, int_literal};
use crate::lexer::is_digit;

verus! {

/// The type tag of a runtime value.
#[derive(Clone, Copy, PartialEq, Eq, Structural, Debug)]
pub enum PyType {
    /// The type of `None`.
    NoneType,
    Bool,
    Int,
    Float,
    Str,
    List,
    Sys,
    Function,
    BuiltinFunction,
}

// ---------------------------------------------------------------------
// Runtime values
// ---------------------------------------------------------------------

/// The functions the runtime provides by name.
#[derive(Clone, Copy, PartialEq, Eq, Structural, Debug)]
pub enum Builtin {
    Print,
    Len,
    Int,
    Float,
    Str,
    Bool,
    Import,
    RunPath,
}

/// A function defined by the program: its name, its parameters, its
/// definition node, and the scope it was defined in (an index into the
/// runtime's stack of live scopes).
pub struct PyFunction {
    pub name: String,
    pub params: Vec<String>,
    pub param_count: usize,
    pub body: AstNode,
    pub closure: usize,
}

/// A function provided by the runtime.
pub struct PyBuiltinFunction {
    pub name: String,
    pub builtin: Builtin,
}

/// A list of values.
pub struct PyList<F> {
    pub items: Vec<PyValue<F>>,
}

/// The `sys` module: the argument list.
pub struct PySys<F> {
    pub argv: PyValue<F>,
}

/// A runtime value. A float is held as `F`, a value the library only moves
/// around; what floats mean is up to the host.
pub enum PyValue<F> {
    NoneValue,
    Bool(bool),
    Int(i64),
    Float(F),
    Str(String),
    List(PyList<F>),
    Sys(Box<PySys<F>>),
    Function(Box<PyFunction>),
    BuiltinFunction(PyBuiltinFunction),
}

/// A defined function, as a mathematical value.
pub struct FunctionView {
    pub name: Seq<char>,
    pub params: Seq<Seq<char>>,
    pub param_count: int,
    pub body: Node,
    pub closure: int,
}

/// A runtime value, as a mathematical value.
pub enum ValueView<F> {
    NoneValue,
    Bool(bool),
    Int(int),
    Float(F),
    Str(Seq<char>),
    List(Seq<ValueView<F>>),
    Sys(Box<ValueView<F>>),
    Function(FunctionView),
    BuiltinFunction(Seq<char>, Builtin),
}

pub open spec fn function_view(f: PyFunction) -> FunctionView {
    FunctionView {
        name: f.name@,
        params: strings_view(f.params@),
        param_count: f.param_count as int,
        body: node_view(f.body),
        closure: f.closure as int,
    }
}

/// What a runtime value stands for.
pub open spec fn value_view<F>(v: PyValue<F>) -> ValueView<F>
    decreases v,
{
    match v {
        PyValue::NoneValue => ValueView::NoneValue,
        PyValue::Bool(b) => ValueView::Bool(b),
        PyValue::Int(i) => ValueView::Int(i as int),
        PyValue::Float(f) => ValueView::Float(f),
        PyValue::Str(s) => ValueView::Str(s@),
        PyValue::List(l) => ValueView::List(values_view(l.items@)),
        PyValue::Sys(s) => ValueView::Sys(Box::new(value_view(s.argv))),
        PyValue::Function(f) => ValueView::Function(function_view(*f)),
        PyValue::BuiltinFunction(b) => ValueView::BuiltinFunction(b.name@, b.builtin),
    }
}

/// What a sequence of runtime values stands for.
pub open spec fn values_view<F>(s: Seq<PyValue<F>>) -> Seq<ValueView<F>>
    decreases s,
{
    if s.len() == 0 {
        Seq::empty()
    } else {
        seq![value_view(s[0])] + values_view(s.subrange(1, s.len() as int))
    }
}

pub proof fn lemma_values_view_push<F>(s: Seq<PyValue<F>>, x: PyValue<F>)
    ensures
        values_view(s.push(x)) == values_view(s).push(value_view(x)),
    decreases s.len(),
{
    if s.len() == 0 {
        assert(s.push(x).subrange(1, 1) =~= Seq::<PyValue<F>>::empty());
        assert(s =~= Seq::<PyValue<F>>::empty());
        assert(values_view(Seq::<PyValue<F>>::empty()) =~= Seq::<ValueView<F>>::empty());
        assert(s.push(x)[0] == x);
        assert(values_view(s.push(x)) =~= values_view(s).push(value_view(x)));
    } else {
        lemma_values_view_push(s.subrange(1, s.len() as int), x);
        assert(s.push(x).subrange(1, s.len() + 1int) =~= s.subrange(1, s.len() as int).push(x));
        assert(values_view(s.push(x)) =~= values_view(s).push(value_view(x)));
    }
}

/// The type tag of a value's view.
pub open spec fn view_type<F>(v: ValueView<F>) -> PyType {
    match v {
        ValueView::NoneValue => PyType::NoneType,
        ValueView::Bool(_) => PyType::Bool,
        ValueView::Int(_) => PyType::Int,
        ValueView::Float(_) => PyType::Float,
        ValueView::Str(_) => PyType::Str,
        ValueView::List(_) => PyType::List,
        ValueView::Sys(_) => PyType::Sys,
        ValueView::Function(_) => PyType::Function,
        ValueView::BuiltinFunction(_, _) => PyType::BuiltinFunction,
    }
}

pub proof fn lemma_values_view_index<F>(s: Seq<PyValue<F>>, i: int)
    requires
        0 <= i < s.len(),
    ensures
        values_view(s).len() == s.len(),
        values_view(s)[i] == value_view(s[i]),
    decreases s.len(),
{
    lemma_values_view_len(s);
    if i > 0 {
        lemma_values_view_index(s.subrange(1, s.len() as int), i - 1);
    }
}

pub proof fn lemma_values_view_len<F>(s: Seq<PyValue<F>>)
    ensures
        values_view(s).len() == s.len(),
    decreases s.len(),
{
    if s.len() > 0 {
        lemma_values_view_len(s.subrange(1, s.len() as int));
    }
}

/// A copy of a list of values.
pub fn copy_values<F: Copy>(v: &Vec<PyValue<F>>) -> (r: Vec<PyValue<F>>)
    ensures
        values_view(r@) == values_view(v@),
    decreases *v, 0nat,
{
    let mut out: Vec<PyValue<F>> = Vec::new();
    assert(v@.subrange(0, 0) =~= Seq::<PyValue<F>>::empty());
    let mut i: usize = 0;
    while i < v.len()
        invariant
            i <= v@.len(),
            values_view(out@) == values_view(v@.subrange(0, i as int)),
        decreases v@.len() - i,
    {
        proof {
            assert(decreases_to!(*v => v@));
            assert(decreases_to!(v@ => v@[i as int]));
        }
        let c = copy_value(&v[i]);
        proof {
            lemma_values_view_push(out@, c);
            lemma_values_view_push(v@.subrange(0, i as int), v@[i as int]);
            assert(v@.subrange(0, i as int).push(v@[i as int]) =~= v@.subrange(0, i + 1));
        }
        out.push(c);
        i += 1;
    }
    assert(v@.subrange(0, v@.len() as int) =~= v@);
    out
}

/// A copy of a value.
pub fn copy_value<F: Copy>(v: &PyValue<F>) -> (r: PyValue<F>)
    ensures
        value_view(r) == value_view(*v),
    decreases *v, 1nat,
{
    match v {
        PyValue::NoneValue => PyValue::NoneValue,
        PyValue::Bool(b) => PyValue::Bool(*b),
        PyValue::Int(i) => PyValue::Int(*i),
        PyValue::Float(f) => PyValue::Float(*f),
        PyValue::Str(s) => PyValue::Str(s.clone()),
        PyValue::List(l) => PyValue::List(PyList { items: copy_values(&l.items) }),
        PyValue::Sys(s) => PyValue::Sys(Box::new(PySys { argv: copy_value(&s.argv) })),
        PyValue::Function(f) => PyValue::Function(
            Box::new(
                PyFunction {
                    name: f.name.clone(),
                    params: copy_strings(&f.params),
                    param_count: f.param_count,
                    body: f.body.clone(),
                    closure: f.closure,
                },
            ),
        ),
        PyValue::BuiltinFunction(b) => PyValue::BuiltinFunction(
            PyBuiltinFunction { name: b.name.clone(), builtin: b.builtin },
        ),
    }
}

/// The type tag of a value.
pub open spec fn value_type<F>(v: PyValue<F>) -> PyType {
    match v {
        PyValue::NoneValue => PyType::NoneType,
        PyValue::Bool(_) => PyType::Bool,
        PyValue::Int(_) => PyType::Int,
        PyValue::Float(_) => PyType::Float,
        PyValue::Str(_) => PyType::Str,
        PyValue::List(_) => PyType::List,
        PyValue::Sys(_) => PyType::Sys,
        PyValue::Function(_) => PyType::Function,
        PyValue::BuiltinFunction(_) => PyType::BuiltinFunction,
    }
}

impl<F> PyValue<F> {
    /// The type tag of the value.
    pub fn py_type(&self) -> (t: PyType)
        ensures
            t == value_type(*self),
    {
        match self {
            PyValue::NoneValue => PyType::NoneType,
            PyValue::Bool(_) => PyType::Bool,
            PyValue::Int(_) => PyType::Int,
            PyValue::Float(_) => PyType::Float,
            PyValue::Str(_) => PyType::Str,
            PyValue::List(_) => PyType::List,
            PyValue::Sys(_) => PyType::Sys,
            PyValue::Function(_) => PyType::Function,
            PyValue::BuiltinFunction(_) => PyType::BuiltinFunction,
        }
    }

    /// `None`.
    pub fn new_none() -> (v: Self)
        ensures
            v is NoneValue,
    {
        PyValue::NoneValue
    }

    /// A boolean.
    pub fn new_bool(value: bool) -> (v: Self)
        ensures
            v == PyValue::<F>::Bool(value),
    {
        PyValue::Bool(value)
    }

    /// An integer.
    pub fn new_int(value: i64) -> (v: Self)
        ensures
            v == PyValue::<F>::Int(value),
    {
        PyValue::Int(value)
    }

    /// A float.
    pub fn new_float(value: F) -> (v: Self)
        ensures
            v == PyValue::<F>::Float(value),
    {
        PyValue::Float(value)
    }

    /// A string.
    pub fn new_string(value: String) -> (v: Self)
        ensures
            v == PyValue::<F>::Str(value),
    {
        PyValue::Str(value)
    }

    /// An empty list.
    pub fn new_list() -> (v: Self)
        ensures
            value_view(v) == ValueView::<F>::List(Seq::empty()),
    {
        assert(values_view(Seq::<PyValue<F>>::empty()) =~= Seq::<ValueView<F>>::empty());
        PyValue::List(PyList { items: Vec::new() })
    }

    /// The `sys` module with the given argument list.
    pub fn new_sys(argv_list: PyValue<F>) -> (v: Self)
        ensures
            value_view(v) == ValueView::<F>::Sys(Box::new(value_view(argv_list))),
    {
        PyValue::Sys(Box::new(PySys { argv: argv_list }))
    }

    /// A defined function.
    pub fn new_function(func: PyFunction) -> (v: Self)
        ensures
            value_view(v) == ValueView::<F>::Function(function_view(func)),
    {
        PyValue::Function(Box::new(func))
    }

    /// A function of the runtime.
    pub fn new_builtin(name: String, builtin: Builtin) -> (v: Self)
        ensures
            value_view(v) == ValueView::<F>::BuiltinFunction(name@, builtin),
    {
        PyValue::BuiltinFunction(PyBuiltinFunction { name, builtin })
    }
}

/// Two frames bind the same names to values that stand for the same.
pub open spec fn frame_matches<F>(a: Map<Seq<char>, PyValue<F>>, b: Map<Seq<char>, PyValue<F>>) -> bool {
    &&& a.dom() == b.dom()
    &&& forall|k: Seq<char>| #[trigger] a.contains_key(k) ==> value_view(a[k]) == value_view(b[k])
}

/// Two scope chains have matching frames, one for one.
pub open spec fn frames_match<F>(a: Seq<Map<Seq<char>, PyValue<F>>>, b: Seq<Map<Seq<char>, PyValue<F>>>) -> bool {
    &&& a.len() == b.len()
    &&& forall|i: int| 0 <= i < a.len() ==> frame_matches(#[trigger] a[i], b[i])
}

proof fn lemma_items_match<F>(a: Seq<(String, PyValue<F>)>, b: Seq<(String, PyValue<F>)>)
    requires
        a.len() == b.len(),
        forall|j: int| 0 <= j < a.len() ==> (#[trigger] a[j]).0 == b[j].0 && value_view(a[j].1)
            == value_view(b[j].1),
    ensures
        frame_matches(items_map(a), items_map(b)),
    decreases a.len(),
{
    if a.len() > 0 {
        let a1 = a.drop_first();
        let b1 = b.drop_first();
        assert forall|j: int| 0 <= j < a1.len() implies (#[trigger] a1[j]).0 == b1[j].0 && value_view(
            a1[j].1,
        ) == value_view(b1[j].1) by {
            assert(a1[j] == a[j + 1]);
            assert(b1[j] == b[j + 1]);
        }
        lemma_items_match(a1, b1);
        assert(a[0].0 == b[0].0);
        assert(items_map(a).dom() =~= items_map(b).dom());
    } else {
        assert(items_map(a).dom() =~= items_map(b).dom());
    }
}

/// A copy of a scope chain: every frame binds the same names to copies of
/// the same values.
pub fn copy_scope<F: Copy>(e: &PyEnv<PyValue<F>>) -> (r: PyEnv<PyValue<F>>)
    ensures
        frames_match(r.frames(), e.frames()),
    decreases *e,
{
    let mut items: Vec<(String, PyValue<F>)> = Vec::new();
    let mut i: usize = 0;
    while i < e.items.len()
        invariant
            i <= e.items@.len(),
            items@.len() == i,
            forall|j: int| 0 <= j < i ==> (#[trigger] items@[j]).0 == e.items@[j].0 && value_view(
                items@[j].1,
            ) == value_view(e.items@[j].1),
        decreases e.items@.len() - i,
    {
        let name = e.items[i].0.clone();
        let value = copy_value(&e.items[i].1);
        items.push((name, value));
        i += 1;
    }
    proof {
        lemma_items_match(items@, e.items@);
    }
    let parent = match &e.parent {
        Some(p) => Some(Box::new(copy_scope(&**p))),
        None => None,
    };
    let r = PyEnv { parent, items };
    proof {
        r.lemma_frames();
        e.lemma_frames();
        if e.parent is Some {
            {
                assert forall|k: int| 0 <= k < r.frames().len() implies frame_matches(
                    #[trigger] r.frames()[k],
                    e.frames()[k],
                ) by {
                    if k > 0 {
                        assert(r.frames()[k] == r.frames().drop_first()[k - 1]);
                        assert(e.frames()[k] == e.frames().drop_first()[k - 1]);
                    }
                }
            }
        }
    }
    r
}

/// The state of a run: the stack of live scopes (the global scope first,
/// the scope code runs in last), the `sys` module, the lines `print` has
/// written, and the source files `run_path` can run.
pub struct PyRuntime<F> {
    pub scopes: Vec<PyEnv<PyValue<F>>>,
    pub sys_value: PyValue<F>,
    /// The lines `print` has written, in order.
    pub output: Vec<String>,
    /// Every line `print` has written since the runtime was made, in
    /// order; the evaluator only ever adds to `output` what it adds here.
    pub printed: Ghost<Seq<String>>,
    /// The source files the runtime has been given: a path with its text,
    /// or `None` when the file cannot be opened. `run_path` reads these.
    pub sources: Vec<(String, Option<String>)>,
}

/// From runtime `before` to `after`, the output only grew, and by exactly
/// the lines `print` wrote in between, in order: `printed` grew by some
/// lines, and `output` is what it was followed by those lines.
#[verifier::opaque]
pub open spec fn output_frame<F>(before: PyRuntime<F>, after: PyRuntime<F>) -> bool {
    &&& before.printed@.len() <= after.printed@.len()
    &&& after.printed@.subrange(0, before.printed@.len() as int) == before.printed@
    &&& after.output@ == before.output@ + after.printed@.skip(before.printed@.len() as int)
}

/// A runtime whose output and printed lines are those of `before` is no
/// further along.
pub proof fn lemma_frame_same<F>(before: PyRuntime<F>, after: PyRuntime<F>)
    requires
        after.output@ == before.output@,
        after.printed@ == before.printed@,
    ensures
        output_frame(before, after),
{
    reveal(output_frame);
    assert(after.printed@.subrange(0, before.printed@.len() as int) =~= before.printed@);
    assert(before.output@ + after.printed@.skip(before.printed@.len() as int) =~= before.output@);
}

/// Output frames compose.
pub proof fn lemma_frame_then<F>(a: PyRuntime<F>, b: PyRuntime<F>, c: PyRuntime<F>)
    requires
        output_frame(a, b),
        output_frame(b, c),
    ensures
        output_frame(a, c),
{
    reveal(output_frame);
    let pa = a.printed@;
    let pb = b.printed@;
    let pc = c.printed@;
    assert(pc.subrange(0, pa.len() as int) =~= pb.subrange(0, pa.len() as int)) by {
        assert forall|k: int| 0 <= k < pa.len() implies pc.subrange(0, pa.len() as int)[k] == pb.subrange(
            0,
            pa.len() as int,
        )[k] by {
            assert(pc.subrange(0, pb.len() as int)[k] == pc[k]);
        }
    }
    assert(pb.skip(pa.len() as int) =~= pc.subrange(pa.len() as int, pb.len() as int)) by {
        assert forall|k: int| 0 <= k < pb.len() - pa.len() implies pb.skip(pa.len() as int)[k] == pc.subrange(
            pa.len() as int,
            pb.len() as int,
        )[k] by {
            assert(pc.subrange(0, pb.len() as int)[pa.len() + k] == pc[pa.len() + k]);
        }
    }
    assert(pc.skip(pa.len() as int) =~= pc.subrange(pa.len() as int, pb.len() as int) + pc.skip(
        pb.len() as int,
    ));
    assert(c.output@ =~= a.output@ + pc.skip(pa.len() as int));
}

/// Output only grows: what a runtime had written stays at the front of its
/// output, and each line added after it is a line `print` wrote.
pub proof fn law_output_only_grows<F>(before: PyRuntime<F>, after: PyRuntime<F>)
    requires
        output_frame(before, after),
    ensures
        before.output@.len() <= after.output@.len(),
        after.output@.subrange(0, before.output@.len() as int) == before.output@,
        forall|i: int|
            before.output@.len() <= i < after.output@.len() ==> after.printed@.contains(#[trigger] after.output@[i]),
{
    reveal(output_frame);
    assert(after.output@.subrange(0, before.output@.len() as int) =~= before.output@);
    assert forall|i: int| before.output@.len() <= i < after.output@.len() implies after.printed@.contains(
        #[trigger] after.output@[i],
    ) by {
        let j = before.printed@.len() + (i - before.output@.len());
        assert(after.printed@[j] == after.output@[i]);
    }
}

impl<F> PyRuntime<F> {
    /// There is a scope to run code in.
    pub open spec fn wf(&self) -> bool {
        self.scopes@.len() >= 1
    }

    /// A runtime whose only scope is the global one, holding the functions
    /// of the runtime; `sys` is not set yet.
    pub fn new() -> (rt: Self)
        ensures
            rt.wf(),
            rt.scopes@.len() == 1,
            rt.scopes@[0].parent is None,
            builtins_bound(items_map(rt.scopes@[0].items@)),
            rt.sys_value is NoneValue,
            rt.output@.len() == 0,
            rt.printed@.len() == 0,
            rt.sources@.len() == 0,
    {
        let mut rt = PyRuntime {
            scopes: Vec::new(),
            sys_value: PyValue::NoneValue,
            output: Vec::new(),
            printed: Ghost(Seq::empty()),
            sources: Vec::new(),
        };
        rt.scopes.push(PyEnv { parent: None, items: Vec::new() });
        rt.init_builtins();
        rt
    }

    /// Binds the functions of the runtime in the global scope.
    pub fn init_builtins(&mut self)
        requires
            old(self).wf(),
        ensures
            final(self).wf(),
            final(self).scopes@.len() == old(self).scopes@.len(),
            final(self).scopes@.drop_first() == old(self).scopes@.drop_first(),
            final(self).sys_value == old(self).sys_value,
            final(self).output == old(self).output,
            final(self).printed == old(self).printed,
            final(self).sources == old(self).sources,
            final(self).scopes@[0].parent == old(self).scopes@[0].parent,
            builtins_bound(items_map(final(self).scopes@[0].items@)),
    {
        let ghost rest = self.scopes@.drop_first();
        let mut g = self.scopes.remove(0);
        g.set("print", PyValue::new_builtin(String::from_str("print"), Builtin::Print));
        g.set("len", PyValue::new_builtin(String::from_str("len"), Builtin::Len));
        g.set("int", PyValue::new_builtin(String::from_str("int"), Builtin::Int));
        g.set("float", PyValue::new_builtin(String::from_str("float"), Builtin::Float));
        g.set("str", PyValue::new_builtin(String::from_str("str"), Builtin::Str));
        g.set("bool", PyValue::new_builtin(String::from_str("bool"), Builtin::Bool));
        g.set("__import__", PyValue::new_builtin(String::from_str("__import__"), Builtin::Import));
        g.set("run_path", PyValue::new_builtin(String::from_str("run_path"), Builtin::RunPath));
        proof {
            reveal_strlit("print");
            reveal_strlit("len");
            reveal_strlit("int");
            reveal_strlit("float");
            reveal_strlit("str");
            reveal_strlit("bool");
            reveal_strlit("__import__");
            reveal_strlit("run_path");
            assert("print"@.len() == 5 && "float"@.len() == 5);
            assert("len"@.len() == 3 && "int"@.len() == 3 && "str"@.len() == 3);
            assert("bool"@.len() == 4 && "__import__"@.len() == 10 && "run_path"@.len() == 8);
            assert("print"@[0] != "float"@[0]);
            assert("len"@[0] != "int"@[0] && "len"@[0] != "str"@[0] && "int"@[0] != "str"@[0]);
            assert(builtins_bound(items_map(g.items@)));
        }
        self.scopes.insert(0, g);
        assert(self.scopes@.drop_first() =~= rest);
    }
}

impl<F> Default for PyRuntime<F> {
    fn default() -> (rt: Self)
        ensures
            rt.wf(),
            rt.scopes@.len() == 1,
            rt.scopes@[0].parent is None,
            builtins_bound(items_map(rt.scopes@[0].items@)),
            rt.sys_value is NoneValue,
    {
        Self::new()
    }
}

/// The global frame binds each function of the runtime under its name.
pub open spec fn builtins_bound<F>(frame: Map<Seq<char>, PyValue<F>>) -> bool {
    &&& builtin_at(frame, "print"@, Builtin::Print)
    &&& builtin_at(frame, "len"@, Builtin::Len)
    &&& builtin_at(frame, "int"@, Builtin::Int)
    &&& builtin_at(frame, "float"@, Builtin::Float)
    &&& builtin_at(frame, "str"@, Builtin::Str)
    &&& builtin_at(frame, "bool"@, Builtin::Bool)
    &&& builtin_at(frame, "__import__"@, Builtin::Import)
    &&& builtin_at(frame, "run_path"@, Builtin::RunPath)
}

/// `frame` binds `name` to the function `b` of the runtime.
pub open spec fn builtin_at<F>(frame: Map<Seq<char>, PyValue<F>>, name: Seq<char>, b: Builtin) -> bool {
    frame.contains_key(name) && value_view(frame[name]) == ValueView::<F>::BuiltinFunction(name, b)
}

impl<F: Copy> PyRuntime<F> {
    /// Sets the argument list of `sys` and binds `sys` in the global scope.
    pub fn set_argv(&mut self, _argc: usize, argv: &[&str])
        requires
            old(self).wf(),
        ensures
            final(self).wf(),
            final(self).scopes@.len() == old(self).scopes@.len(),
            final(self).scopes@.drop_first() == old(self).scopes@.drop_first(),
            value_view(final(self).sys_value) == ValueView::<F>::Sys(
                Box::new(ValueView::List(argv@.map_values(|a: &str| ValueView::<F>::Str(a@)))),
            ),
            items_map(final(self).scopes@[0].items@) == items_map(old(self).scopes@[0].items@).insert(
                "sys"@,
                items_map(final(self).scopes@[0].items@)["sys"@],
            ),
            value_view(items_map(final(self).scopes@[0].items@)["sys"@]) == value_view(
                final(self).sys_value,
            ),
    {
        let mut items: Vec<PyValue<F>> = Vec::new();
        let mut i: usize = 0;
        assert(values_view(items@) =~= Seq::<ValueView<F>>::empty());
        while i < argv.len()
            invariant
                i <= argv@.len(),
                values_view(items@) == argv@.subrange(0, i as int).map_values(
                    |a: &str| ValueView::<F>::Str(a@),
                ),
            decreases argv@.len() - i,
        {
            let v = PyValue::Str(String::from_str(argv[i]));
            proof {
                lemma_values_view_push(items@, v);
            }
            items.push(v);
            i += 1;
            assert(values_view(items@) =~= argv@.subrange(0, i as int).map_values(
                |a: &str| ValueView::<F>::Str(a@),
            ));
        }
        assert(argv@.subrange(0, i as int) =~= argv@);
        self.sys_value = PyValue::new_sys(PyValue::List(PyList { items }));
        let copy = copy_value(&self.sys_value);
        let ghost rest = self.scopes@.drop_first();
        let ghost cv = copy;
        let mut g = self.scopes.remove(0);
        g.set("sys", copy);
        proof {
            reveal_strlit("sys");
        }
        self.scopes.insert(0, g);
        assert(self.scopes@.drop_first() =~= rest);
        assert(items_map(self.scopes@[0].items@)["sys"@] == cv);
    }
}

// ---------------------------------------------------------------------
// Integer operators
// ---------------------------------------------------------------------

/// Why an operator on two integers gives no integer.
#[derive(Clone, Copy, PartialEq, Eq, Structural, Debug)]
pub enum ArithError {
    /// The exact result does not fit in `i64`.
    Overflow,
    /// The right operand of `%` is zero.
    ZeroDivisor,
    /// The operator does not map two integers to an integer (`/` gives a
    /// float; comparisons and negation are not binary arithmetic).
    NotIntegral,
}

pub open spec fn abs(x: int) -> int {
    if x < 0 { -x } else { x }
}

/// The remainder of the division that truncates toward zero: it has the
/// sign of `a` and a magnitude below that of `b`.
pub open spec fn trunc_rem(a: int, b: int) -> int {
    if a >= 0 { a % abs(b) } else { -((-a) % abs(b)) }
}

pub open spec fn fits_i64(x: int) -> bool {
    i64::MIN <= x <= i64::MAX
}

/// What `+`, `-`, `*` and `%` give on two integers.
pub open spec fn int_arith_spec(op: OpKind, a: int, b: int) -> Result<int, ArithError> {
    match op {
        OpKind::Add => if fits_i64(a + b) { Ok(a + b) } else { Err(ArithError::Overflow) },
        OpKind::Sub => if fits_i64(a - b) { Ok(a - b) } else { Err(ArithError::Overflow) },
        OpKind::Mul => if fits_i64(a * b) { Ok(a * b) } else { Err(ArithError::Overflow) },
        OpKind::Mod => if b == 0 {
            Err(ArithError::ZeroDivisor)
        } else if a == i64::MIN && b == -1 {
            Err(ArithError::Overflow)
        } else {
            Ok(trunc_rem(a, b))
        },
        _ => Err(ArithError::NotIntegral),
    }
}

/// Applies an arithmetic operator to two integers.
pub fn int_arith(op: OpKind, a: i64, b: i64) -> (r: Result<i64, ArithError>)
    ensures
        match (r, int_arith_spec(op, a as int, b as int)) {
            (Ok(x), Ok(y)) => x as int == y,
            (Err(e1), Err(e2)) => e1 == e2,
            _ => false,
        },
{
    match op {
        OpKind::Add => match a.checked_add(b) {
            Some(x) => Ok(x),
            None => Err(ArithError::Overflow),
        },
        OpKind::Sub => match a.checked_sub(b) {
            Some(x) => Ok(x),
            None => Err(ArithError::Overflow),
        },
        OpKind::Mul => match a.checked_mul(b) {
            Some(x) => Ok(x),
            None => Err(ArithError::Overflow),
        },
        OpKind::Mod => {
            if b == 0 {
                Err(ArithError::ZeroDivisor)
            } else if a == i64::MIN && b == -1 {
                Err(ArithError::Overflow)
            } else {
                match a.checked_rem(b) {
                    Some(x) => Ok(x),
                    None => Err(ArithError::Overflow),
                }
            }
        },
        _ => Err(ArithError::NotIntegral),
    }
}

/// Negates an integer; `None` when the result does not fit.
pub fn int_negate(a: i64) -> (r: Option<i64>)
    ensures
        r == (if fits_i64(-a) { Some((-a) as i64) } else { None::<i64> }),
{
    if a == i64::MIN {
        None
    } else {
        Some(-a)
    }
}

// ---------------------------------------------------------------------
// Comparisons of integers
// ---------------------------------------------------------------------

/// Integers of magnitude at most 2^53: each is exactly a double, so two of
/// them compared as floats compare as the integers do.
pub open spec fn exact_in_float(x: int) -> bool {
    -0x20_0000_0000_0000 <= x <= 0x20_0000_0000_0000
}

/// What a comparison operator says of two integers; `None` for an operator
/// that is no comparison.
pub open spec fn int_compare_spec(op: OpKind, a: int, b: int) -> Option<bool> {
    match op {
        OpKind::Eq => Some(a == b),
        OpKind::Ne => Some(a != b),
        OpKind::Lt => Some(a < b),
        OpKind::Le => Some(a <= b),
        OpKind::Gt => Some(a > b),
        OpKind::Ge => Some(a >= b),
        _ => None,
    }
}

/// Compares two integers with a comparison operator.
pub fn int_compare(op: OpKind, a: i64, b: i64) -> (r: Option<bool>)
    ensures
        r == int_compare_spec(op, a as int, b as int),
{
    match op {
        OpKind::Eq => Some(a == b),
        OpKind::Ne => Some(a != b),
        OpKind::Lt => Some(a < b),
        OpKind::Le => Some(a <= b),
        OpKind::Gt => Some(a > b),
        OpKind::Ge => Some(a >= b),
        _ => None,
    }
}

// ---------------------------------------------------------------------
// Strings
// ---------------------------------------------------------------------

/// Whether `a` comes before `b` in the order of their characters' code
/// points (the order of their UTF-8 bytes).
pub open spec fn text_less(a: Seq<char>, b: Seq<char>) -> bool
    decreases a.len(),
{
    if a.len() == 0 {
        b.len() > 0
    } else if b.len() == 0 {
        false
    } else if a[0] != b[0] {
        a[0] < b[0]
    } else {
        text_less(a.drop_first(), b.drop_first())
    }
}

/// What a comparison operator says of two strings; `None` for an operator
/// that is no comparison.
pub open spec fn text_compare_spec(op: OpKind, a: Seq<char>, b: Seq<char>) -> Option<bool> {
    match op {
        OpKind::Eq => Some(a == b),
        OpKind::Ne => Some(a != b),
        OpKind::Lt => Some(text_less(a, b)),
        OpKind::Le => Some(text_less(a, b) || a == b),
        OpKind::Gt => Some(text_less(b, a)),
        OpKind::Ge => Some(text_less(b, a) || a == b),
        _ => None,
    }
}

proof fn lemma_text_less_step(a: Seq<char>, b: Seq<char>, i: int)
    requires
        0 <= i < a.len(),
        i < b.len(),
        a[i] == b[i],
    ensures
        text_less(a.skip(i), b.skip(i)) == text_less(a.skip(i + 1), b.skip(i + 1)),
        text_less(b.skip(i), a.skip(i)) == text_less(b.skip(i + 1), a.skip(i + 1)),
{
    assert(a.skip(i).drop_first() =~= a.skip(i + 1));
    assert(b.skip(i).drop_first() =~= b.skip(i + 1));
}

/// Compares two strings with a comparison operator.
pub fn str_compare(op: OpKind, a: &str, b: &str) -> (r: Option<bool>)
    ensures
        r == text_compare_spec(op, a@, b@),
{
    let x = chars_of(a);
    let y = chars_of(b);
    let mut i: usize = 0;
    assert(x@.skip(0) =~= x@);
    assert(y@.skip(0) =~= y@);
    while i < x.len() && i < y.len() && x[i] == y[i]
        invariant
            x@ == a@,
            y@ == b@,
            i <= x@.len(),
            i <= y@.len(),
            forall|j: int| 0 <= j < i ==> x@[j] == y@[j],
            text_less(a@, b@) == text_less(a@.skip(i as int), b@.skip(i as int)),
            text_less(b@, a@) == text_less(b@.skip(i as int), a@.skip(i as int)),
        decreases x.len() - i,
    {
        proof {
            lemma_text_less_step(a@, b@, i as int);
        }
        i += 1;
    }
    let at_end_a = i == x.len();
    let at_end_b = i == y.len();
    let equal = at_end_a && at_end_b;
    let less = if at_end_a {
        !at_end_b
    } else if at_end_b {
        false
    } else {
        x[i] < y[i]
    };
    let greater = if at_end_b {
        !at_end_a
    } else if at_end_a {
        false
    } else {
        y[i] < x[i]
    };
    proof {
        if equal {
            assert(a@ =~= b@);
        } else if i < x@.len() && i < y@.len() {
            assert(a@[i as int] != b@[i as int]);
            assert(a@ != b@);
        } else {
            assert(a@.len() != b@.len());
        }
        assert(a@.skip(i as int).len() == a@.len() - i);
        assert(b@.skip(i as int).len() == b@.len() - i);
        if i < x@.len() && i < y@.len() {
            assert(a@.skip(i as int)[0] == a@[i as int]);
            assert(b@.skip(i as int)[0] == b@[i as int]);
        }
    }
    match op {
        OpKind::Eq => Some(equal),
        OpKind::Ne => Some(!equal),
        OpKind::Lt => Some(less),
        OpKind::Le => Some(less || equal),
        OpKind::Gt => Some(greater),
        OpKind::Ge => Some(greater || equal),
        _ => None,
    }
}

/// `a` followed by `b`.
pub fn concat_text(a: &str, b: &str) -> (r: String)
    ensures
        r@ == a@ + b@,
{
    let mut buf = String::new();
    buf.append(a);
    buf.append(b);
    buf
}

// ---------------------------------------------------------------------
// Decimal text of integers
// ---------------------------------------------------------------------

pub open spec fn digit_char(d: int) -> char {
    (('0' as int) + d) as char
}

/// The decimal digits of `n`, most significant first, with no leading zero.
pub open spec fn nat_digits(n: nat) -> Seq<char>
    decreases n,
{
    if n < 10 {
        seq![digit_char(n as int)]
    } else {
        nat_digits(n / 10).push(digit_char((n % 10) as int))
    }
}

/// The decimal text of `v`: a minus sign for a negative number, then the
/// digits of its magnitude.
pub open spec fn int_text(v: int) -> Seq<char> {
    if v < 0 {
        seq!['-'] + nat_digits((-v) as nat)
    } else {
        nat_digits(v as nat)
    }
}

fn push_digits(n: u64, out: &mut String)
    ensures
        final(out)@ == old(out)@ + nat_digits(n as nat),
    decreases n,
{
    if n >= 10 {
        push_digits(n / 10, out);
    }
    let d: u8 = (n % 10) as u8;
    let c = (48u8 + d) as char;
    assert(c == digit_char((n % 10) as int));
    push_char(out, c);
    proof {
        if n < 10 {
            assert(old(out)@ + nat_digits(n as nat) =~= old(out)@.push(c));
        } else {
            assert(old(out)@ + nat_digits(n as nat) =~= (old(out)@ + nat_digits((n / 10) as nat)).push(c));
        }
    }
}

/// The decimal text of an integer.
pub fn int_to_text(v: i64) -> (r: String)
    ensures
        r@ == int_text(v as int),
{
    let mut out = String::new();
    if v < 0 {
        push_char(&mut out, '-');
        let m: u64 = if v == i64::MIN { 0x8000_0000_0000_0000u64 } else { (-v) as u64 };
        push_digits(m, &mut out);
        assert(out@ =~= seq!['-'] + nat_digits((-v) as nat));
    } else {
        push_digits(v as u64, &mut out);
        assert(out@ =~= nat_digits(v as nat));
    }
    out
}

// ---------------------------------------------------------------------
// Subscripts
// ---------------------------------------------------------------------

/// The position that the integer subscript `i` selects in a sequence of
/// `len` items; `None` when it is out of range (a negative subscript
/// counts as out of range).
pub fn index_in(len: usize, i: i64) -> (r: Option<usize>)
    ensures
        r == (if 0 <= i < len { Some(i as usize) } else { None::<usize> }),
{
    if i >= 0 && (i as u64) < (len as u64) {
        Some(i as usize)
    } else {
        None
    }
}



// ---------------------------------------------------------------------
// How operators treat the types of their operands
// ---------------------------------------------------------------------

/// Whether a value of type `t` takes part in arithmetic as a number (a
/// boolean counts as 0 or 1).
pub open spec fn is_number(t: PyType) -> bool {
    t == PyType::Int || t == PyType::Float || t == PyType::Bool
}

pub open spec fn is_arith_op(op: OpKind) -> bool {
    op == OpKind::Add || op == OpKind::Sub || op == OpKind::Mul || op == OpKind::Div || op
        == OpKind::Mod
}

pub open spec fn is_compare_op(op: OpKind) -> bool {
    op == OpKind::Eq || op == OpKind::Ne || op == OpKind::Lt || op == OpKind::Le || op
        == OpKind::Gt || op == OpKind::Ge
}

fn number_type(t: PyType) -> (r: bool)
    ensures
        r == is_number(t),
{
    match t {
        PyType::Int | PyType::Float | PyType::Bool => true,
        _ => false,
    }
}

fn arith_op(op: OpKind) -> (r: bool)
    ensures
        r == is_arith_op(op),
{
    match op {
        OpKind::Add | OpKind::Sub | OpKind::Mul | OpKind::Div | OpKind::Mod => true,
        _ => false,
    }
}

fn compare_op(op: OpKind) -> (r: bool)
    ensures
        r == is_compare_op(op),
{
    match op {
        OpKind::Eq | OpKind::Ne | OpKind::Lt | OpKind::Le | OpKind::Gt | OpKind::Ge => true,
        _ => false,
    }
}

/// How a binary arithmetic operator is carried out on two operands.
#[derive(Clone, Copy, PartialEq, Eq, Structural, Debug)]
pub enum BinopPlan {
    /// Both operands are strings and the operator is `+`: the result is
    /// their concatenation.
    Concat,
    /// Both are integers and the operator is `+`, `-`, `*` or `%`: the
    /// result is the integer that `int_arith` gives.
    Integer,
    /// Both are numbers: each is taken as a float and the result is a float.
    Float,
    /// An operand is no number.
    NotANumber,
    /// The operator is no arithmetic operator.
    Unsupported,
}

pub open spec fn binop_plan_spec(op: OpKind, left: PyType, right: PyType) -> BinopPlan {
    if op == OpKind::Add && left == PyType::Str && right == PyType::Str {
        BinopPlan::Concat
    } else if left == PyType::Int && right == PyType::Int && is_arith_op(op) && op != OpKind::Div {
        BinopPlan::Integer
    } else if !is_number(left) || !is_number(right) {
        BinopPlan::NotANumber
    } else if is_arith_op(op) {
        BinopPlan::Float
    } else {
        BinopPlan::Unsupported
    }
}

/// Decides how `left op right` is computed from the operands' types.
pub fn binop_plan(op: OpKind, left: PyType, right: PyType) -> (r: BinopPlan)
    ensures
        r == binop_plan_spec(op, left, right),
{
    if op == OpKind::Add && left == PyType::Str && right == PyType::Str {
        BinopPlan::Concat
    } else if left == PyType::Int && right == PyType::Int && arith_op(op) && op != OpKind::Div {
        BinopPlan::Integer
    } else if !number_type(left) || !number_type(right) {
        BinopPlan::NotANumber
    } else if arith_op(op) {
        BinopPlan::Float
    } else {
        BinopPlan::Unsupported
    }
}

/// How a comparison is carried out on two operands.
#[derive(Clone, Copy, PartialEq, Eq, Structural, Debug)]
pub enum ComparePlan {
    /// Both are strings: they are compared by `str_compare`.
    Text,
    /// Both are numbers: they are compared as floats.
    Numeric,
    /// An operand is no number (and the two are not both strings).
    NotANumber,
    /// The operator is no comparison.
    Unsupported,
}

pub open spec fn compare_plan_spec(op: OpKind, left: PyType, right: PyType) -> ComparePlan {
    if left == PyType::Str && right == PyType::Str && is_compare_op(op) {
        ComparePlan::Text
    } else if !is_number(left) || !is_number(right) {
        ComparePlan::NotANumber
    } else if is_compare_op(op) {
        ComparePlan::Numeric
    } else {
        ComparePlan::Unsupported
    }
}

/// Decides how `left op right` is compared from the operands' types.
pub fn compare_plan(op: OpKind, left: PyType, right: PyType) -> (r: ComparePlan)
    ensures
        r == compare_plan_spec(op, left, right),
{
    if left == PyType::Str && right == PyType::Str && compare_op(op) {
        ComparePlan::Text
    } else if !number_type(left) || !number_type(right) {
        ComparePlan::NotANumber
    } else if compare_op(op) {
        ComparePlan::Numeric
    } else {
        ComparePlan::Unsupported
    }
}

/// How a unary operator is carried out on its operand.
#[derive(Clone, Copy, PartialEq, Eq, Structural, Debug)]
pub enum UnaryPlan {
    /// Negation of an integer, by `int_negate`.
    IntegerNegate,
    /// Negation of another number, taken as a float.
    FloatNegate,
    /// The operand is no number.
    NotANumber,
    /// The operator is no unary operator.
    Unsupported,
}

pub open spec fn unary_plan_spec(op: OpKind, operand: PyType) -> UnaryPlan {
    if op != OpKind::Neg {
        UnaryPlan::Unsupported
    } else if operand == PyType::Int {
        UnaryPlan::IntegerNegate
    } else if is_number(operand) {
        UnaryPlan::FloatNegate
    } else {
        UnaryPlan::NotANumber
    }
}

/// Decides how `op operand` is computed from the operand's type.
pub fn unary_plan(op: OpKind, operand: PyType) -> (r: UnaryPlan)
    ensures
        r == unary_plan_spec(op, operand),
{
    if op != OpKind::Neg {
        UnaryPlan::Unsupported
    } else if operand == PyType::Int {
        UnaryPlan::IntegerNegate
    } else if number_type(operand) {
        UnaryPlan::FloatNegate
    } else {
        UnaryPlan::NotANumber
    }
}

// ---------------------------------------------------------------------
// Text of values
// ---------------------------------------------------------------------

/// The printed form of a value that is neither a float nor a string.
pub open spec fn plain_text_spec(t: PyType, flag: bool, int_value: i64) -> Option<Seq<char>> {
    match t {
        PyType::NoneType => Some(seq!['N', 'o', 'n', 'e']),
        PyType::Bool => Some(
            if flag {
                seq!['T', 'r', 'u', 'e']
            } else {
                seq!['F', 'a', 'l', 's', 'e']
            },
        ),
        PyType::Int => Some(int_text(int_value as int)),
        PyType::List => Some(seq!['<', 'l', 'i', 's', 't', '>']),
        PyType::Sys => Some(seq!['<', 's', 'y', 's', '>']),
        PyType::Function => Some(seq!['<', 'f', 'u', 'n', 'c', 't', 'i', 'o', 'n', '>']),
        PyType::BuiltinFunction => Some(
            seq![
                '<', 'b', 'u', 'i', 'l', 't', 'i', 'n', '-', 'f', 'u', 'n', 'c', 't', 'i', 'o', 'n', '>',
            ],
        ),
        PyType::Float | PyType::Str => None,
    }
}

/// The printed form of a value from its type, its boolean and its
/// integer; `None` for a float or a string, whose text is their own.
pub fn plain_text(t: PyType, flag: bool, int_value: i64) -> (r: Option<String>)
    ensures
        match (r, plain_text_spec(t, flag, int_value)) {
            (Some(a), Some(b)) => a@ == b,
            (None, None) => true,
            _ => false,
        },
{
    let text: &str = match t {
        PyType::NoneType => "None",
        PyType::Bool => if flag {
            "True"
        } else {
            "False"
        },
        PyType::Int => {
            return Some(int_to_text(int_value));
        },
        PyType::List => "<list>",
        PyType::Sys => "<sys>",
        PyType::Function => "<function>",
        PyType::BuiltinFunction => "<builtin-function>",
        PyType::Float | PyType::Str => {
            return None;
        },
    };
    proof {
        reveal_strlit("None");
        reveal_strlit("True");
        reveal_strlit("False");
        reveal_strlit("<list>");
        reveal_strlit("<sys>");
        reveal_strlit("<function>");
        reveal_strlit("<builtin-function>");
    }
    let out = String::from_str(text);
    assert(Some(out@) == plain_text_spec(t, flag, int_value));
    Some(out)
}

// ---------------------------------------------------------------------
// Strings by position
// ---------------------------------------------------------------------

/// The length of a string in UTF-8 bytes (what `len` gives of a string).
pub fn text_byte_len(s: &str) -> (n: usize)
    ensures
        n == s.spec_bytes().len() as usize,
{
    s.len()
}

/// Why a subscript of a string selects no character.
#[derive(Clone, Copy, PartialEq, Eq, Structural, Debug)]
pub enum IndexError {
    /// The subscript is negative or not below the length in bytes.
    OutOfRange,
    /// The subscript is below the length in bytes but not below the number
    /// of characters.
    NoCharacter,
}

/// The one-character string at character position `i` of `s`. The range
/// check goes by the length in bytes (as `str::len` gives it), the
/// selection by characters.
pub fn char_at(s: &str, i: i64) -> (r: Result<String, IndexError>)
    ensures
        i < 0 || i >= (s.spec_bytes().len() as usize) ==> r == Err::<String, IndexError>(
            IndexError::OutOfRange,
        ),
        0 <= i < (s.spec_bytes().len() as usize) && i >= s@.len() ==> r == Err::<String, IndexError>(
            IndexError::NoCharacter,
        ),
        0 <= i < (s.spec_bytes().len() as usize) && i < s@.len() ==> (r matches Ok(c) && c@ == seq![
            s@[i as int],
        ]),
{
    let n = s.len();
    if i < 0 || (i as u64) >= (n as u64) {
        return Err(IndexError::OutOfRange);
    }
    let cs = chars_of(s);
    let k = i as usize;
    if k >= cs.len() {
        return Err(IndexError::NoCharacter);
    }
    let mut out = String::new();
    push_char(&mut out, cs[k]);
    assert(out@ =~= seq![s@[i as int]]);
    Ok(out)
}

// ---------------------------------------------------------------------
// Laws
// ---------------------------------------------------------------------

proof fn lemma_nat_digits(n: nat)
    ensures
        nat_digits(n).len() >= 1,
        forall|i: int| 0 <= i < nat_digits(n).len() ==> is_digit(#[trigger] nat_digits(n)[i]),
        digits_value(nat_digits(n)) == n,
    decreases n,
{
    let k = (n % 10) as int;
    assert(digit_char(k) as int == 48 + k);
    if n < 10 {
        assert(nat_digits(n).drop_last() =~= Seq::<char>::empty());
        assert(digits_value(Seq::<char>::empty()) == 0);
        assert(digits_value(nat_digits(n)) == digits_value(nat_digits(n).drop_last()) * 10 + digit_value(nat_digits(n).last()));
    } else {
        lemma_nat_digits(n / 10);
        let d = nat_digits(n);
        assert(d.drop_last() =~= nat_digits(n / 10));
        assert(d.last() == digit_char(k));
        assert(digits_value(d) == digits_value(d.drop_last()) * 10 + digit_value(d.last()));
        assert(n == (n / 10) * 10 + k);
        assert forall|i: int| 0 <= i < d.len() implies is_digit(#[trigger] d[i]) by {
            if i < d.len() - 1 {
                assert(d[i] == nat_digits(n / 10)[i]);
            }
        }
    }
}

/// Writing an integer in decimal and reading the text back as an integer
/// literal gives the integer again.
pub proof fn law_int_text_round_trip(v: i64)
    ensures
        int_literal(int_text(v as int)) == v,
{
    let s = int_text(v as int);
    if v < 0 {
        let m = (-v) as nat;
        lemma_nat_digits(m);
        assert(s.skip(1) =~= nat_digits(m));
        assert(s[0] == '-');
        assert(all_digits(s.skip(1)));
    } else {
        lemma_nat_digits(v as nat);
        assert(s[0] != '-' && s[0] != '+');
        assert(all_digits(s));
    }
}

/// The order of strings is strict: no string comes before itself.
pub proof fn law_text_less_irreflexive(a: Seq<char>)
    ensures
        !text_less(a, a),
    decreases a.len(),
{
    if a.len() > 0 {
        law_text_less_irreflexive(a.drop_first());
    }
}

/// The order of strings is total: of two strings, either they are equal or
/// exactly one comes before the other.
pub proof fn law_text_less_trichotomy(a: Seq<char>, b: Seq<char>)
    ensures
        a == b || text_less(a, b) || text_less(b, a),
        !(text_less(a, b) && text_less(b, a)),
    decreases a.len(),
{
    if a.len() > 0 && b.len() > 0 && a[0] == b[0] {
        law_text_less_trichotomy(a.drop_first(), b.drop_first());
        if a.drop_first() == b.drop_first() {
            assert forall|i: int| 0 <= i < a.len() implies a[i] == b[i] by {
                if i > 0 {
                    assert(a[i] == a.drop_first()[i - 1]);
                    assert(b[i] == b.drop_first()[i - 1]);
                }
            }
            assert(a =~= b);
        }
    } else if a.len() == 0 && b.len() == 0 {
        assert(a =~= b);
    }
}

/// The order of strings is transitive.
pub proof fn law_text_less_transitive(a: Seq<char>, b: Seq<char>, c: Seq<char>)
    requires
        text_less(a, b),
        text_less(b, c),
    ensures
        text_less(a, c),
    decreases a.len(),
{
    if a.len() > 0 && b.len() > 0 && c.len() > 0 && a[0] == b[0] && b[0] == c[0] {
        law_text_less_transitive(a.drop_first(), b.drop_first(), c.drop_first());
    }
}

/// Comparing with `<` is comparing the swapped strings with `>`, and `<=`
/// is `>=` swapped.
pub proof fn law_compare_swapped(a: Seq<char>, b: Seq<char>)
    ensures
        text_compare_spec(OpKind::Lt, a, b) == text_compare_spec(OpKind::Gt, b, a),
        text_compare_spec(OpKind::Le, a, b) == text_compare_spec(OpKind::Ge, b, a),
        text_compare_spec(OpKind::Eq, a, b) == text_compare_spec(OpKind::Eq, b, a),
{
}

/// The remainder of `%` has the sign of the left operand (or is zero) and
/// a magnitude below that of the right operand, and the difference of the
/// left operand and the remainder is a multiple of the right operand.
pub proof fn law_remainder_bounds(a: int, b: int)
    requires
        b != 0,
    ensures
        abs(trunc_rem(a, b)) < abs(b),
        a >= 0 ==> trunc_rem(a, b) >= 0,
        a < 0 ==> trunc_rem(a, b) <= 0,
        (a - trunc_rem(a, b)) % abs(b) == 0,
{
    let m = abs(b);
    if a >= 0 {
        assert((a - a % m) % m == 0) by {
            vstd::arithmetic::div_mod::lemma_fundamental_div_mod(a, m);
            vstd::arithmetic::div_mod::lemma_mod_multiples_basic(a / m, m);
        }
    } else {
        assert((a + (-a) % m) % m == 0) by {
            vstd::arithmetic::div_mod::lemma_fundamental_div_mod(-a, m);
            vstd::arithmetic::div_mod::lemma_mod_multiples_basic(-((-a) / m), m);
            assert(a + (-a) % m == -((-a) / m) * m) by (nonlinear_arith)
                requires -a == m * ((-a) / m) + (-a) % m;
        }
    }
}

} // verus!
