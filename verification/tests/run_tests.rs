use py0::ast::{parse_source, SourceError};
use py0::lexer::LexError;
use py0::parser::ParseError;
use py0::ast_nodes::{AstKind, AstNode, OpKind};
use py0::eval::{builtin_run_path_impl, call_builtin, eval_expr, exec_module, print_line, py_call, run_path_setup, run_path_source};
use py0::exception::RuntimeError;
use py0::host::PyHost;
use py0::value::{Builtin, PyRuntime, PyValue};

struct TestHost {
    out: Vec<String>,
    files: Vec<(String, String)>,
}

impl PyHost<f64> for TestHost {
    fn float_of_literal(&mut self, text: &str) -> f64 {
        text.parse().unwrap_or(0.0)
    }
    fn float_of_int(&mut self, value: i64) -> f64 {
        value as f64
    }
    fn float_arith(&mut self, op: OpKind, a: f64, b: f64) -> f64 {
        match op {
            OpKind::Add => a + b,
            OpKind::Sub => a - b,
            OpKind::Mul => a * b,
            _ => a / b,
        }
    }
    fn float_compare(&mut self, op: OpKind, a: f64, b: f64) -> bool {
        match op {
            OpKind::Eq => (a - b).abs() < f64::EPSILON,
            OpKind::Ne => (a - b).abs() >= f64::EPSILON,
            OpKind::Lt => a < b,
            OpKind::Le => a <= b,
            OpKind::Gt => a > b,
            _ => a >= b,
        }
    }
    fn float_negate(&mut self, a: f64) -> f64 {
        -a
    }
    fn float_is_zero(&mut self, a: f64) -> bool {
        a == 0.0
    }
    fn float_to_int(&mut self, a: f64) -> i64 {
        a as i64
    }
    fn float_text(&mut self, a: f64) -> String {
        a.to_string()
    }
}

fn host() -> TestHost {
    TestHost { out: Vec::new(), files: Vec::new() }
}

fn run_with(h: &mut TestHost, src: &str, fuel: u64) -> Result<(), RuntimeError> {
    let mut rt: PyRuntime<f64> = PyRuntime::new();
    rt.set_argv(2, &["prog.py", "lib.py"]);
    let module = parse_source(src, "prog.py").unwrap();
    rt.scopes[0].set("__name__", PyValue::new_string("__main__".to_string()));
    rt.scopes[0].set("__file__", PyValue::new_string("prog.py".to_string()));
    rt.sources = h.files.iter().map(|(p, t)| (p.clone(), Some(t.clone()))).collect();
    let r = exec_module(&mut rt, h, &module, fuel).map(|_| ());
    h.out = rt.output.clone();
    r
}

fn run(src: &str) -> (Vec<String>, Result<(), RuntimeError>) {
    let mut h = host();
    let r = run_with(&mut h, src, u64::MAX);
    (h.out, r)
}

fn output(src: &str) -> Vec<String> {
    let (out, r) = run(src);
    assert_eq!(r, Ok(()));
    out
}

#[test]
fn hello_world() {
    assert_eq!(output("print('hello, world')\n"), vec!["hello, world"]);
}

#[test]
fn factorial_by_recursion() {
    let src = "def fact(n):\n    if n <= 1:\n        return 1\n    return n * fact(n - 1)\n\nprint(fact(5))\nprint(fact(20))\n";
    assert_eq!(output(src), vec!["120", "2432902008176640000"]);
}

#[test]
fn while_loop_sums() {
    let src = "i = 0\ns = 0\nwhile i < 5:\n    s = s + i\n    i = i + 1\nprint(s, i)\n";
    assert_eq!(output(src), vec!["10 5"]);
}

#[test]
fn if_with_else_on_the_same_line() {
    let src = "x = 0\nif x:\n    print('yes')\nelse: print('no')\n";
    assert_eq!(output(src), vec!["no"]);
}

#[test]
fn function_sees_globals_at_call_time() {
    let src = "def f():\n    return x\nx = 3\nprint(f())\nx = 4\nprint(f())\n";
    assert_eq!(output(src), vec!["3", "4"]);
}

#[test]
fn assignment_in_a_function_does_not_reach_the_caller() {
    let src = "c = 1\ndef g():\n    c = 5\n    return c\nprint(g())\nprint(c)\n";
    assert_eq!(output(src), vec!["5", "1"]);
}

#[test]
fn strings_and_len() {
    let src = "print('a' + 'b', len('h\u{e9}llo'), 'abc'[1])\n";
    assert_eq!(output(src), vec!["ab 6 b"]);
}

#[test]
fn floats_and_conversions() {
    let src = "print(7 / 2, 1.5 + 1, int(3.9), float(2), -2.5, (1 < 2) + (1 < 2))\n";
    assert_eq!(output(src), vec!["3.5 2.5 3 2 -2.5 2"]);
}

#[test]
fn float_remainder_goes_through_integers() {
    assert_eq!(output("print(7.5 % 2)\n"), vec!["1"]);
    let (_, r) = run("print(1.5 % 0.5)\n");
    assert_eq!(r, Err(RuntimeError::ZeroDivisor));
}

#[test]
fn comparisons() {
    let src = "print(1 < 2, 'a' < 'b', 2 == 2, 3 != 3, 'x' >= 'y')\n";
    assert_eq!(output(src), vec!["True True True False False"]);
}

#[test]
fn integer_remainder_and_negation() {
    assert_eq!(output("print(-7 % 3, 7 % -3, -(4))\n"), vec!["-1 1 -4"]);
}

#[test]
fn truth_of_values() {
    let src = "print(bool(0), bool(''), bool('a'), bool(0.0), bool(2.5), bool(print))\n";
    assert_eq!(output(src), vec!["False False True False True True"]);
}

#[test]
fn str_of_values() {
    let src = "print(str(12), str(None), str(len), str(sys))\n";
    // `None` is no name in this language
    let (_, r) = run(src);
    assert_eq!(r, Err(RuntimeError::NameNotDefined("None".to_string())));
    assert_eq!(output("print(str(12) + '!', str(len), str(sys), str(sys.argv))\n"), vec!["12! <builtin-function> <sys> <list>"]);
}

#[test]
fn sys_argv_and_import() {
    let src = "print(sys.argv[0], __import__('sys').argv[1], len(sys.argv))\n";
    assert_eq!(output(src), vec!["prog.py lib.py 2"]);
}

#[test]
fn print_of_a_function_and_none() {
    let src = "def f():\n    pass\nprint(f, f())\n";
    assert_eq!(output(src), vec!["<function> None"]);
}

#[test]
fn run_path_runs_a_module_with_shifted_arguments() {
    let mut h = host();
    // the module sees the shifted list through `__import__`; the global `sys`
    // it inherits is the one bound when the arguments were set
    h.files.push((
        "lib.py".to_string(),
        "s = __import__('sys')\nprint('in lib', s.argv[0], len(s.argv), sys.argv[0])\nreturn 42\n".to_string(),
    ));
    let r = run_with(&mut h, "v = run_path('lib.py')\nprint(v, __import__('sys').argv[0])\n", u64::MAX);
    assert_eq!(r, Ok(()));
    assert_eq!(h.out, vec!["in lib lib.py 1 prog.py", "42 prog.py"]);
}

#[test]
fn run_path_errors() {
    let (_, r) = run("run_path('missing.py')\n");
    assert_eq!(r, Err(RuntimeError::SourceNotLoaded("missing.py".to_string())));
    let (_, r) = run("run_path(1)\n");
    assert_eq!(r, Err(RuntimeError::RunPathExpectsString));
    let mut h = host();
    h.files.push(("lib.py".to_string(), "x = 'open\n".to_string()));
    let r = run_with(&mut h, "run_path('lib.py')\n", u64::MAX);
    assert!(matches!(r, Err(RuntimeError::Source(_))));
}

#[test]
fn runtime_errors() {
    assert_eq!(run("print(undefined)\n").1, Err(RuntimeError::NameNotDefined("undefined".to_string())));
    assert_eq!(
        run("def f(a):\n    return a\nf(1, 2)\n").1,
        Err(RuntimeError::ArgumentCount { name: "f".to_string(), expected: 1, got: 2 })
    );
    assert_eq!(run("x = 1 % 0\n").1, Err(RuntimeError::ZeroDivisor));
    assert_eq!(run("x = 'a' - 'b'\n").1, Err(RuntimeError::ExpectedNumber));
    assert_eq!(run("x = len(1)\n").1, Err(RuntimeError::LenUnsupported));
    assert_eq!(run("x = len(1, 2)\n").1, Err(RuntimeError::BuiltinArgumentCount(Builtin::Len)));
    assert_eq!(run("x = int('3')\n").1, Err(RuntimeError::IntUnsupported));
    assert_eq!(run("x = __import__('os')\n").1, Err(RuntimeError::UnsupportedImport("os".to_string())));
    assert_eq!(run("x = __import__(1)\n").1, Err(RuntimeError::ImportExpectsString));
    assert_eq!(run("x = 9223372036854775807 + 1\n").1, Err(RuntimeError::IntegerOverflow));
    assert_eq!(run("x = 3\nx()\n").1, Err(RuntimeError::NotCallable));
    assert_eq!(run("x = sys.path\n").1, Err(RuntimeError::UnsupportedAttribute("path".to_string())));
    assert_eq!(run("x = sys.argv['a']\n").1, Err(RuntimeError::IndexNotInt));
    assert_eq!(run("x = sys.argv[5]\n").1, Err(RuntimeError::ListIndexOutOfRange));
    assert_eq!(run("x = 'ab'[2]\n").1, Err(RuntimeError::StringIndexOutOfRange));
    assert_eq!(run("x = '\u{e9}'[1]\n").1, Err(RuntimeError::StringIndexNoCharacter));
    assert_eq!(run("x = 3[0]\n").1, Err(RuntimeError::UnsupportedSubscript));
    assert_eq!(run("x = 'a' * 2\n").1, Err(RuntimeError::ExpectedNumber));
}

#[test]
fn step_budget_runs_out() {
    let mut h = host();
    let r = run_with(&mut h, "while 1:\n    pass\n", 50);
    assert_eq!(r, Err(RuntimeError::OutOfFuel));
}

#[test]
fn expression_evaluation_keeps_bindings() {
    let mut h = host();
    let mut rt: PyRuntime<f64> = PyRuntime::new();
    let module = parse_source("c = 1\ndef g():\n    c = 5\n    return c\n", "t.py").unwrap();
    exec_module(&mut rt, &mut h, &module, 100).unwrap();
    let call = parse_source("g()\n", "t.py").unwrap();
    let stmt = &call.as_module.as_ref().unwrap().body.items[0];
    let expr = &stmt.as_expr_stmt.as_ref().unwrap().expr;
    let v = eval_expr(&mut rt, &mut h, expr, 100).unwrap();
    assert!(matches!(v, PyValue::Int(5)));
    assert!(matches!(rt.scopes[0].env_get("c"), Some(PyValue::Int(1))));
    assert_eq!(rt.scopes.len(), 1);
}

#[test]
fn calling_values_directly() {
    let mut h = host();
    let mut rt: PyRuntime<f64> = PyRuntime::new();
    let r = py_call(&mut rt, &mut h, &PyValue::new_int(1), vec![], 10);
    assert_eq!(r.err(), Some(RuntimeError::NotCallable));
    let r = call_builtin(&mut rt, &mut h, Builtin::Print, vec![PyValue::new_int(1), PyValue::new_string("x".to_string())], 10);
    assert!(matches!(r, Ok(PyValue::NoneValue)));
    assert_eq!(rt.output, vec!["1 x"]);
}

#[test]
fn module_and_function_kinds_are_checked() {
    let mut h = host();
    let mut rt: PyRuntime<f64> = PyRuntime::new();
    let m = parse_source("x = 1\n", "t.py").unwrap();
    let stmt = &m.as_module.as_ref().unwrap().body.items[0];
    assert_eq!(exec_module(&mut rt, &mut h, stmt, 10).err(), Some(RuntimeError::ExpectedModule));
    assert_eq!(
        py0::eval::exec_function_body(&mut rt, &mut h, &m, 10).err(),
        Some(RuntimeError::ExpectedFunctionDefinition)
    );
}

#[test]
fn run_path_setup_prepares_module_scope_and_arguments() {
    let mut rt: PyRuntime<f64> = PyRuntime::new();
    rt.set_argv(3, &["a.py", "b.py", "c"]);
    let (m, env, sys) = run_path_setup(&rt, "b.py", Some("x = 1\n".to_string())).unwrap();
    assert_eq!(m.as_module.as_ref().unwrap().body.len(), 1);
    assert!(matches!(env.env_get("__name__"), Some(PyValue::Str(s)) if s == "__main__"));
    assert!(matches!(env.env_get("__file__"), Some(PyValue::Str(s)) if s == "b.py"));
    assert!(matches!(env.env_get("print"), Some(PyValue::BuiltinFunction(_))));
    assert!(env.parent.as_ref().unwrap().items.is_empty());
    match sys {
        PyValue::Sys(s) => match &s.argv {
            PyValue::List(l) => {
                assert_eq!(l.items.len(), 2);
                assert!(matches!(&l.items[0], PyValue::Str(t) if t == "b.py"));
                assert!(matches!(&l.items[1], PyValue::Str(t) if t == "c"));
            }
            _ => panic!("argv is no list"),
        },
        _ => panic!("no sys"),
    }
}

#[test]
fn run_path_setup_errors() {
    let mut rt: PyRuntime<f64> = PyRuntime::new();
    assert_eq!(
        run_path_setup(&rt, "m.py", Some("x = 1\n".to_string())).err(),
        Some(RuntimeError::NoSysModule)
    );
    rt.set_argv(1, &["m.py"]);
    assert_eq!(run_path_setup(&rt, "m.py", None).err(), Some(RuntimeError::CannotOpen("m.py".to_string())));
    assert_eq!(
        run_path_setup(&rt, "m.py", Some("x = 'a\n".to_string())).err(),
        Some(RuntimeError::Source(SourceError::Lex(LexError::UnterminatedString)))
    );
    assert_eq!(
        run_path_setup(&rt, "m.py", Some("x = )\n".to_string())).err(),
        Some(RuntimeError::Source(SourceError::Parse(ParseError::ExpectedExpression)))
    );
    let (_, _, sys) = run_path_setup(&rt, "m.py", Some("pass\n".to_string())).unwrap();
    match sys {
        PyValue::Sys(s) => assert!(matches!(&s.argv, PyValue::List(l) if l.items.is_empty())),
        _ => panic!("no sys"),
    }
}

#[test]
fn run_path_source_runs_the_given_text() {
    let mut h = host();
    let mut rt: PyRuntime<f64> = PyRuntime::new();
    rt.set_argv(3, &["a.py", "b.py", "c"]);
    let src = "x = 2\nprint(__name__, __file__, __import__('sys').argv[1])\nreturn x * 3\n";
    let r = run_path_source(&mut rt, &mut h, "b.py", Some(src.to_string()), 100);
    assert!(matches!(r, Ok(PyValue::Int(6))));
    assert_eq!(rt.output, vec!["__main__ b.py c"]);
    assert!(rt.scopes[0].env_get("x").is_none());
    assert_eq!(rt.scopes.len(), 1);
    let r = run_path_source(&mut rt, &mut h, "b.py", Some("x = 1\n".to_string()), 100);
    assert!(matches!(r, Ok(PyValue::NoneValue)));
    let r = run_path_source(&mut rt, &mut h, "b.py", None, 100);
    assert_eq!(r.err(), Some(RuntimeError::CannotOpen("b.py".to_string())));
    let r = run_path_source(&mut rt, &mut h, "b.py", Some("x = 1\n".to_string()), 0);
    assert_eq!(r.err(), Some(RuntimeError::OutOfFuel));
}

#[test]
fn print_line_joins_texts_with_spaces() {
    let mut h = host();
    let args = vec![
        PyValue::new_int(-12),
        PyValue::new_string("a b".to_string()),
        PyValue::new_bool(true),
        PyValue::new_none(),
        PyValue::new_float(1.5),
    ];
    assert_eq!(print_line(&mut h, &args), "-12 a b True None 1.5");
    assert_eq!(print_line(&mut h, &vec![]), "");
}

#[test]
fn a_function_returned_from_its_scope_cannot_be_called() {
    let src = "def outer():\n    def inner():\n        return 1\n    return inner\nf = outer()\nf()\n";
    assert_eq!(run(src).1, Err(RuntimeError::ClosureScopeGone));
}

#[test]
fn operators_and_nodes_the_grammar_never_builds() {
    let mut h = host();
    let mut rt: PyRuntime<f64> = PyRuntime::new();
    let one = || Box::new(AstNode::new_int(1, 1));
    let lt_as_binop = AstNode::new_binop(OpKind::Lt, one(), one(), 1);
    assert_eq!(eval_expr(&mut rt, &mut h, &lt_as_binop, 10).err(), Some(RuntimeError::UnsupportedBinaryOperator));
    let add_as_compare = AstNode::new_compare(OpKind::Add, one(), one(), 1);
    assert_eq!(eval_expr(&mut rt, &mut h, &add_as_compare, 10).err(), Some(RuntimeError::UnsupportedComparisonOperator));
    let not_as_unary = AstNode::new_unaryop(OpKind::Add, one(), 1);
    assert_eq!(eval_expr(&mut rt, &mut h, &not_as_unary, 10).err(), Some(RuntimeError::UnsupportedUnaryOperator));
    let pass = AstNode::new_pass(1);
    assert_eq!(eval_expr(&mut rt, &mut h, &pass, 10).err(), Some(RuntimeError::UnsupportedExpression(AstKind::Pass)));
    let name = AstNode::new_name("x".to_string(), 1);
    assert_eq!(
        py0::eval::exec_stmt(&mut rt, &mut h, &name, 10).err(),
        Some(RuntimeError::UnsupportedStatement(AstKind::Name))
    );
}

#[test]
fn more_steps_give_the_same_result() {
    let src = "def fact(n):\n    if n <= 1:\n        return 1\n    return n * fact(n - 1)\nprint(fact(5))\n";
    let mut few = host();
    assert_eq!(run_with(&mut few, src, 20), Ok(()));
    let mut many = host();
    assert_eq!(run_with(&mut many, src, u64::MAX), Ok(()));
    assert_eq!(few.out, vec!["120"]);
    assert_eq!(few.out, many.out);
    let mut too_few = host();
    assert_eq!(run_with(&mut too_few, src, 3), Err(RuntimeError::OutOfFuel));
}

#[test]
fn run_path_reads_only_the_files_it_was_given() {
    let mut h = host();
    let mut rt: PyRuntime<f64> = PyRuntime::new();
    rt.set_argv(2, &["a.py", "b.py"]);
    let r = builtin_run_path_impl(&mut rt, &mut h, "b.py", 100);
    assert_eq!(r.err(), Some(RuntimeError::SourceNotLoaded("b.py".to_string())));
    rt.sources.push(("gone.py".to_string(), None));
    rt.sources.push(("b.py".to_string(), Some("print('in b')\nreturn 7\n".to_string())));
    let r = builtin_run_path_impl(&mut rt, &mut h, "b.py", 100);
    assert!(matches!(r, Ok(PyValue::Int(7))));
    assert_eq!(rt.output, vec!["in b"]);
    let r = builtin_run_path_impl(&mut rt, &mut h, "gone.py", 100);
    assert_eq!(r.err(), Some(RuntimeError::CannotOpen("gone.py".to_string())));
}
