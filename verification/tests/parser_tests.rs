use py0::ast::{parse_source, SourceError};
use py0::ast_nodes::{AstKind, AstNode, OpKind};
use py0::lexer::{LexError, Lexer};
use py0::parser::{ParseError, Parser};

fn module_body(src: &str) -> Vec<AstNode> {
    let m = parse_source(src, "test.py").unwrap();
    assert_eq!(m.kind, AstKind::Module);
    m.as_module.unwrap().body.items
}

fn name_of(n: &AstNode) -> String {
    assert_eq!(n.kind, AstKind::Name);
    n.as_name.as_ref().unwrap().name.clone()
}

fn int_of(n: &AstNode) -> i64 {
    assert_eq!(n.kind, AstKind::Constant);
    let c = n.as_constant.as_ref().unwrap();
    assert!(!c.is_string && !c.is_float);
    c.int_value
}

#[test]
fn assignment_with_precedence() {
    let body = module_body("x = 1 + 2 * 3\n");
    assert_eq!(body.len(), 1);
    let a = body[0].as_assign.as_ref().unwrap();
    assert_eq!(body[0].kind, AstKind::Assign);
    assert_eq!(a.name, "x");
    let sum = a.value.as_binop.as_ref().unwrap();
    assert_eq!(sum.op, OpKind::Add);
    assert_eq!(int_of(&sum.left), 1);
    let prod = sum.right.as_binop.as_ref().unwrap();
    assert_eq!(prod.op, OpKind::Mul);
    assert_eq!(int_of(&prod.left), 2);
    assert_eq!(int_of(&prod.right), 3);
}

#[test]
fn operators_associate_to_the_left() {
    let body = module_body("a - b - c\n");
    let e = body[0].as_expr_stmt.as_ref().unwrap();
    let outer = e.expr.as_binop.as_ref().unwrap();
    assert_eq!(outer.op, OpKind::Sub);
    assert_eq!(name_of(&outer.right), "c");
    let inner = outer.left.as_binop.as_ref().unwrap();
    assert_eq!(name_of(&inner.left), "a");
    assert_eq!(name_of(&inner.right), "b");
}

#[test]
fn comparison_binds_loosest() {
    let body = module_body("n <= 1 + 1\n");
    let e = body[0].as_expr_stmt.as_ref().unwrap();
    assert_eq!(e.expr.kind, AstKind::Compare);
    let c = e.expr.as_compare.as_ref().unwrap();
    assert_eq!(c.op, OpKind::Le);
    assert_eq!(c.right.kind, AstKind::BinOp);
}

#[test]
fn unary_minus_and_parentheses() {
    let body = module_body("-(a + 1)\n");
    let e = body[0].as_expr_stmt.as_ref().unwrap();
    let u = e.expr.as_unaryop.as_ref().unwrap();
    assert_eq!(u.op, OpKind::Neg);
    assert_eq!(u.operand.kind, AstKind::BinOp);
}

#[test]
fn calls_attributes_and_subscripts() {
    let body = module_body("print(sys.argv[1], 'x')\n");
    let e = body[0].as_expr_stmt.as_ref().unwrap();
    let call = e.expr.as_call.as_ref().unwrap();
    assert_eq!(name_of(&call.func), "print");
    assert_eq!(call.args.len(), 2);
    let sub = call.args.items[0].as_subscript.as_ref().unwrap();
    assert_eq!(int_of(&sub.index), 1);
    let attr = sub.value.as_attribute.as_ref().unwrap();
    assert_eq!(attr.attr, "argv");
    assert_eq!(name_of(&attr.value), "sys");
    let s = call.args.items[1].as_constant.as_ref().unwrap();
    assert!(s.is_string);
    assert_eq!(s.str_value.as_deref(), Some("x"));
}

#[test]
fn float_literal_keeps_its_text() {
    let body = module_body("y = 2.50\n");
    let a = body[0].as_assign.as_ref().unwrap();
    let c = a.value.as_constant.as_ref().unwrap();
    assert!(c.is_float);
    assert_eq!(c.float_text, "2.50");
}

#[test]
fn integer_literal_too_large_reads_as_zero() {
    let body = module_body("z = 99999999999999999999\n");
    let a = body[0].as_assign.as_ref().unwrap();
    assert_eq!(int_of(&a.value), 0);
    let body = module_body("z = 9223372036854775807\n");
    let a = body[0].as_assign.as_ref().unwrap();
    assert_eq!(int_of(&a.value), i64::MAX);
}

#[test]
fn function_definition_with_body() {
    let src = "def fact(n):\n    if n <= 1:\n        return 1\n    return n * fact(n - 1)\n\nprint(fact(5))\n";
    let body = module_body(src);
    assert_eq!(body.len(), 2);
    assert_eq!(body[0].kind, AstKind::FunctionDef);
    let f = body[0].as_function_def.as_ref().unwrap();
    assert_eq!(f.name, "fact");
    assert_eq!(f.params, vec!["n".to_string()]);
    assert_eq!(f.param_count, 1);
    assert_eq!(f.body.len(), 2);
    assert_eq!(f.body.items[0].kind, AstKind::If);
    assert_eq!(f.body.items[1].kind, AstKind::Return);
    let i = f.body.items[0].as_if_stmt.as_ref().unwrap();
    assert_eq!(i.body.len(), 1);
    assert_eq!(i.orelse.len(), 0);
    assert_eq!(body[1].kind, AstKind::ExprStmt);
    assert_eq!(body[0].line, 1);
    assert_eq!(body[1].line, 6);
}

#[test]
fn while_loop_and_pass() {
    let body = module_body("while i < 3:\n    i = i + 1\n    pass\n");
    assert_eq!(body[0].kind, AstKind::While);
    let w = body[0].as_while_stmt.as_ref().unwrap();
    assert_eq!(w.test.kind, AstKind::Compare);
    assert_eq!(w.body.len(), 2);
    assert_eq!(w.body.items[1].kind, AstKind::Pass);
}

#[test]
fn return_without_value() {
    let body = module_body("def f():\n    return\n");
    let f = body[0].as_function_def.as_ref().unwrap();
    assert!(f.params.is_empty());
    let r = f.body.items[0].as_return_stmt.as_ref().unwrap();
    assert!(r.value.is_none());
}

#[test]
fn else_on_the_same_line_takes_the_rest() {
    let body = module_body("if x:\n    a = 1\nelse: a = 2\nprint(a)\n");
    assert_eq!(body.len(), 1);
    let i = body[0].as_if_stmt.as_ref().unwrap();
    assert_eq!(i.body.len(), 1);
    assert_eq!(i.orelse.len(), 2);
    assert_eq!(i.orelse.items[1].kind, AstKind::ExprStmt);
}

#[test]
fn else_block_on_its_own_lines_is_refused() {
    let r = parse_source("if x:\n    a = 1\nelse:\n    a = 2\n", "t.py");
    assert_eq!(r.err(), Some(SourceError::Parse(ParseError::ExpectedExpression)));
}

#[test]
fn invalid_assignment_target() {
    let r = parse_source("1 = x\n", "t.py");
    let e = r.err().unwrap();
    assert_eq!(e, SourceError::Parse(ParseError::InvalidAssignmentTarget));
    assert_eq!(e.message(), "invalid assignment target");
}

#[test]
fn missing_colon_is_expected_token() {
    let r = parse_source("while x\n    y\n", "t.py");
    let e = r.err().unwrap();
    assert_eq!(e, SourceError::Parse(ParseError::ExpectedToken));
    assert_eq!(e.message(), "expected token");
}

#[test]
fn missing_expression() {
    let r = parse_source("x = )\n", "t.py");
    let e = r.err().unwrap();
    assert_eq!(e, SourceError::Parse(ParseError::ExpectedExpression));
    assert_eq!(e.message(), "expected expression");
}

#[test]
fn scan_errors_come_first() {
    let r = parse_source("x = 'oops\n", "t.py");
    assert_eq!(r.err(), Some(SourceError::Lex(LexError::UnterminatedString)));
}

#[test]
fn parser_stops_at_eof() {
    let mut lexer = Lexer::new("a = 1\n\n\nb = 2\n");
    lexer.scan_tokens().unwrap();
    let tokens = lexer.get_tokens();
    let n = tokens.len();
    let mut parser = Parser::new(tokens);
    let m = parser.parse().unwrap();
    assert_eq!(m.as_module.as_ref().unwrap().body.len(), 2);
    assert_eq!(n, 11);
}

#[test]
fn empty_source_is_an_empty_module() {
    let body = module_body("");
    assert!(body.is_empty());
    let body = module_body("\n\n# only a comment\n");
    assert!(body.is_empty());
}

#[test]
fn copy_of_a_tree_is_equal() {
    let m = parse_source("def g(a, b):\n    return a % b\n", "t.py").unwrap();
    let c = m.clone();
    let f1 = &m.as_module.as_ref().unwrap().body.items[0];
    let f2 = &c.as_module.as_ref().unwrap().body.items[0];
    assert_eq!(f1.kind, f2.kind);
    let d1 = f1.as_function_def.as_ref().unwrap();
    let d2 = f2.as_function_def.as_ref().unwrap();
    assert_eq!(d1.name, d2.name);
    assert_eq!(d1.params, d2.params);
    let r2 = d2.body.items[0].as_return_stmt.as_ref().unwrap();
    let b2 = r2.value.as_ref().unwrap().as_binop.as_ref().unwrap();
    assert_eq!(b2.op, OpKind::Mod);
    assert_eq!(name_of(&b2.left), "a");
    assert_eq!(name_of(&b2.right), "b");
}

#[test]
fn decimal_text_parses_back_as_a_literal() {
    for v in [0i64, 5, 42, 1000, 123456789, i64::MAX] {
        let text = py0::value::int_to_text(v);
        let body = module_body(&format!("x = {}\n", text));
        let a = body[0].as_assign.as_ref().unwrap();
        assert_eq!(int_of(&a.value), v);
    }
}

#[test]
fn new_function_def_fills_only_its_own_data() {
    let n = py0::ast_nodes::AstNode::new_function_def("f".to_string(), vec!["a".to_string(), "b".to_string()], 3);
    assert_eq!(n.kind, py0::ast_nodes::AstKind::FunctionDef);
    assert_eq!(n.line, 3);
    let d = n.as_function_def.as_ref().unwrap();
    assert_eq!(d.name, "f");
    assert_eq!(d.param_count, 2);
    assert_eq!(d.body.len(), 0);
    assert!(n.as_module.is_none() && n.as_name.is_none() && n.as_call.is_none() && n.as_constant.is_none());
}
