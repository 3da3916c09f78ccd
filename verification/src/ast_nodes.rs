use vstd::prelude::*;
use crate::util::PtrVec;

verus! {

/// Operators of expressions.
#[derive(Clone, Copy, PartialEq, Eq, Structural, Debug)]
pub enum OpKind {
    Add,
    Sub,
    Mul,
    Div,
    Mod,
    Eq,
    Ne,
    Lt,
    Le,
    Gt,
    Ge,
    Neg,
}

/// The kinds of syntax tree nodes.
#[derive(Clone, Copy, PartialEq, Eq, Structural, Debug)]
pub enum AstKind {
    Module,
    ExprStmt,
    Assign,
    If,
    While,
    FunctionDef,
    Return,
    Pass,
    Name,
    Constant,
    BinOp,
    UnaryOp,
    Compare,
    Call,
    Attribute,
    Subscript,
}

/// A syntax tree node: its kind, its line, and the data of its kind (the
/// field that matches `kind` is set, the others are empty).
pub struct AstNode {
    pub kind: AstKind,
    pub line: usize,
    pub as_module: Option<ModuleData>,
    pub as_expr_stmt: Option<ExprStmtData>,
    pub as_assign: Option<AssignData>,
    pub as_if_stmt: Option<IfStmtData>,
    pub as_while_stmt: Option<WhileStmtData>,
    pub as_function_def: Option<FunctionDefData>,
    pub as_return_stmt: Option<ReturnStmtData>,
    pub as_name: Option<NameData>,
    pub as_constant: Option<ConstantData>,
    pub as_binop: Option<BinOpData>,
    pub as_unaryop: Option<UnaryOpData>,
    pub as_compare: Option<CompareData>,
    pub as_call: Option<CallData>,
    pub as_attribute: Option<AttributeData>,
    pub as_subscript: Option<SubscriptData>,
}

pub struct ModuleData {
    pub body: PtrVec<AstNode>,
}

pub struct ExprStmtData {
    pub expr: Box<AstNode>,
}

pub struct AssignData {
    pub name: String,
    pub value: Box<AstNode>,
}

pub struct IfStmtData {
    pub test: Box<AstNode>,
    pub body: PtrVec<AstNode>,
    pub orelse: PtrVec<AstNode>,
}

pub struct WhileStmtData {
    pub test: Box<AstNode>,
    pub body: PtrVec<AstNode>,
}

pub struct FunctionDefData {
    pub name: String,
    pub params: Vec<String>,
    pub param_count: usize,
    pub body: PtrVec<AstNode>,
}

pub struct ReturnStmtData {
    pub value: Option<Box<AstNode>>,
}

pub struct NameData {
    pub name: String,
}

/// A literal: a string when `is_string`, else a float (kept as the text of
/// the literal) when `is_float`, else an integer.
pub struct ConstantData {
    pub is_float: bool,
    pub int_value: i64,
    pub float_text: String,
    pub str_value: Option<String>,
    pub is_string: bool,
}

pub struct BinOpData {
    pub op: OpKind,
    pub left: Box<AstNode>,
    pub right: Box<AstNode>,
}

pub struct UnaryOpData {
    pub op: OpKind,
    pub operand: Box<AstNode>,
}

pub struct CompareData {
    pub op: OpKind,
    pub left: Box<AstNode>,
    pub right: Box<AstNode>,
}

pub struct CallData {
    pub func: Box<AstNode>,
    pub args: PtrVec<AstNode>,
}

pub struct AttributeData {
    pub value: Box<AstNode>,
    pub attr: String,
}

pub struct SubscriptData {
    pub value: Box<AstNode>,
    pub index: Box<AstNode>,
}

/// The shape of a syntax tree, as a mathematical value.
pub enum Tree {
    Module(Seq<Node>),
    ExprStmt(Box<Node>),
    Assign(Seq<char>, Box<Node>),
    If(Box<Node>, Seq<Node>, Seq<Node>),
    While(Box<Node>, Seq<Node>),
    FunctionDef(Seq<char>, Seq<Seq<char>>, Seq<Node>),
    Return(Option<Box<Node>>),
    Pass,
    Name(Seq<char>),
    Int(int),
    Float(Seq<char>),
    Str(Seq<char>),
    BinOp(OpKind, Box<Node>, Box<Node>),
    UnaryOp(OpKind, Box<Node>),
    Compare(OpKind, Box<Node>, Box<Node>),
    Call(Box<Node>, Seq<Node>),
    Attribute(Box<Node>, Seq<char>),
    Subscript(Box<Node>, Box<Node>),
    /// A node whose data does not match its kind.
    Malformed,
}

/// A syntax tree with the line of its root.
pub struct Node {
    pub line: int,
    pub tree: Tree,
}

/// The texts of a vector of strings.
pub open spec fn strings_view(v: Seq<String>) -> Seq<Seq<char>> {
    v.map_values(|s: String| s@)
}

/// The tree a node stands for.
#[verifier::opaque]
pub open spec fn node_view(n: AstNode) -> Node
    decreases n,
{
    let tree = match n.kind {
        AstKind::Module => match n.as_module {
            Some(m) => {
                Tree::Module(nodes_view(m.body@))
            },
            None => Tree::Malformed,
        },
        AstKind::ExprStmt => match n.as_expr_stmt {
            Some(e) => Tree::ExprStmt(Box::new(node_view(*e.expr))),
            None => Tree::Malformed,
        },
        AstKind::Assign => match n.as_assign {
            Some(a) => Tree::Assign(a.name@, Box::new(node_view(*a.value))),
            None => Tree::Malformed,
        },
        AstKind::If => match n.as_if_stmt {
            Some(i) => {
                Tree::If(Box::new(node_view(*i.test)), nodes_view(i.body@), nodes_view(i.orelse@))
            },
            None => Tree::Malformed,
        },
        AstKind::While => match n.as_while_stmt {
            Some(w) => {
                Tree::While(Box::new(node_view(*w.test)), nodes_view(w.body@))
            },
            None => Tree::Malformed,
        },
        AstKind::FunctionDef => match n.as_function_def {
            Some(f) => {
                if f.param_count == f.params@.len() {
                    Tree::FunctionDef(f.name@, strings_view(f.params@), nodes_view(f.body@))
                } else {
                    Tree::Malformed
                }
            },
            None => Tree::Malformed,
        },
        AstKind::Return => match n.as_return_stmt {
            Some(r) => Tree::Return(
                match r.value {
                    Some(v) => Some(Box::new(node_view(*v))),
                    None => None,
                },
            ),
            None => Tree::Malformed,
        },
        AstKind::Pass => Tree::Pass,
        AstKind::Name => match n.as_name {
            Some(x) => Tree::Name(x.name@),
            None => Tree::Malformed,
        },
        AstKind::Constant => match n.as_constant {
            Some(c) => if c.is_string {
                match c.str_value {
                    Some(v) => Tree::Str(v@),
                    None => Tree::Malformed,
                }
            } else if c.is_float {
                Tree::Float(c.float_text@)
            } else {
                Tree::Int(c.int_value as int)
            },
            None => Tree::Malformed,
        },
        AstKind::BinOp => match n.as_binop {
            Some(b) => Tree::BinOp(b.op, Box::new(node_view(*b.left)), Box::new(node_view(*b.right))),
            None => Tree::Malformed,
        },
        AstKind::UnaryOp => match n.as_unaryop {
            Some(u) => Tree::UnaryOp(u.op, Box::new(node_view(*u.operand))),
            None => Tree::Malformed,
        },
        AstKind::Compare => match n.as_compare {
            Some(c) => Tree::Compare(c.op, Box::new(node_view(*c.left)), Box::new(node_view(*c.right))),
            None => Tree::Malformed,
        },
        AstKind::Call => match n.as_call {
            Some(c) => {
                Tree::Call(Box::new(node_view(*c.func)), nodes_view(c.args@))
            },
            None => Tree::Malformed,
        },
        AstKind::Attribute => match n.as_attribute {
            Some(a) => Tree::Attribute(Box::new(node_view(*a.value)), a.attr@),
            None => Tree::Malformed,
        },
        AstKind::Subscript => match n.as_subscript {
            Some(s) => Tree::Subscript(Box::new(node_view(*s.value)), Box::new(node_view(*s.index))),
            None => Tree::Malformed,
        },
    };
    Node { line: n.line as int, tree }
}

/// The trees a sequence of nodes stands for.
#[verifier::opaque]
pub open spec fn nodes_view(s: Seq<AstNode>) -> Seq<Node>
    decreases s,
{
    if s.len() == 0 {
        Seq::empty()
    } else {
        seq![node_view(s[0])] + nodes_view(s.subrange(1, s.len() as int))
    }
}

/// No nodes stand for no trees.
pub proof fn lemma_nodes_view_empty()
    ensures
        nodes_view(Seq::<AstNode>::empty()) == Seq::<Node>::empty(),
{
    reveal(nodes_view);
    reveal(node_view);
}

/// The trees of a sequence with one more node are the trees of the
/// sequence and the tree of that node.
pub proof fn lemma_nodes_view_push(s: Seq<AstNode>, x: AstNode)
    ensures
        nodes_view(s.push(x)) == nodes_view(s).push(node_view(x)),
    decreases s.len(),
{
    reveal(nodes_view);
    reveal(node_view);
    if s.len() == 0 {
        assert(s.push(x).subrange(1, 1) =~= Seq::<AstNode>::empty());
        assert(s =~= Seq::<AstNode>::empty());
        assert(nodes_view(Seq::<AstNode>::empty()) =~= Seq::<Node>::empty());
        assert(s.push(x)[0] == x);
        assert(nodes_view(s.push(x)) =~= nodes_view(s).push(node_view(x)));
    } else {
        lemma_nodes_view_push(s.subrange(1, s.len() as int), x);
        assert(s.push(x).subrange(1, s.len() + 1int) =~= s.subrange(1, s.len() as int).push(x));
        assert(nodes_view(s.push(x)) =~= nodes_view(s).push(node_view(x)));
    }
}

/// Adds statements at the end of the body of a module, definition,
/// conditional or loop.
pub open spec fn append_body(n: Node, body: Seq<Node>) -> Node {
    Node {
        line: n.line,
        tree: match n.tree {
            Tree::If(test, b, orelse) => Tree::If(test, b + body, orelse),
            Tree::While(test, b) => Tree::While(test, b + body),
            Tree::FunctionDef(name, params, b) => Tree::FunctionDef(name, params, b + body),
            Tree::Module(b) => Tree::Module(b + body),
            other => other,
        },
    }
}

/// Adds statements at the end of the second branch of a conditional.
pub open spec fn append_orelse(n: Node, orelse: Seq<Node>) -> Node {
    Node {
        line: n.line,
        tree: match n.tree {
            Tree::If(test, b, o) => Tree::If(test, b, o + orelse),
            other => other,
        },
    }
}

/// The trees of a sequence of nodes, one for one.
pub proof fn lemma_nodes_view_index(s: Seq<AstNode>)
    ensures
        nodes_view(s).len() == s.len(),
        forall|i: int| 0 <= i < s.len() ==> #[trigger] nodes_view(s)[i] == node_view(s[i]),
    decreases s.len(),
{
    reveal(nodes_view);
    reveal(node_view);
    if s.len() > 0 {
        let t = s.subrange(1, s.len() as int);
        lemma_nodes_view_index(t);
        assert forall|i: int| 0 <= i < s.len() implies #[trigger] nodes_view(s)[i] == node_view(s[i]) by {
            if i > 0 {
                assert(nodes_view(s)[i] == nodes_view(t)[i - 1]);
                assert(t[i - 1] == s[i]);
            }
        }
    }
}

/// The trees of two sequences in a row are the trees of each in a row.
pub proof fn lemma_nodes_view_concat(a: Seq<AstNode>, b: Seq<AstNode>)
    ensures
        nodes_view(a + b) == nodes_view(a) + nodes_view(b),
    decreases b.len(),
{
    if b.len() == 0 {
        assert(a + b =~= a);
        lemma_nodes_view_empty();
        assert(b =~= Seq::<AstNode>::empty());
        assert(nodes_view(a) + nodes_view(b) =~= nodes_view(a));
    } else {
        let c = b.drop_last();
        lemma_nodes_view_concat(a, c);
        assert(a + b =~= (a + c).push(b.last()));
        assert(b =~= c.push(b.last()));
        lemma_nodes_view_push(a + c, b.last());
        lemma_nodes_view_push(c, b.last());
        assert(nodes_view(a + b) =~= nodes_view(a) + nodes_view(b));
    }
}

/// A node's tree is on the node's line.
pub proof fn lemma_node_line(n: AstNode)
    ensures
        node_view(n).line == n.line as int,
{
    reveal(node_view);
}

/// A node stands for a name exactly when it is a name node with its data.
pub proof fn lemma_name_node(n: AstNode)
    ensures
        (node_view(n).tree is Name) == (n.kind == AstKind::Name && n.as_name is Some),
        n.kind == AstKind::Name && n.as_name is Some ==> node_view(n).tree == Tree::Name(
            n.as_name.unwrap().name@,
        ),
{
    reveal(node_view);
}

/// Appends statements to the body of a module, definition, conditional or
/// loop; other nodes stay as they are.
pub(crate) fn append_block(n: &mut AstNode, stmts: PtrVec<AstNode>)
    ensures
        node_view(*final(n)) == append_body(node_view(*old(n)), nodes_view(stmts@)),
{
    reveal(node_view);
    reveal(nodes_view);
    let mut stmts = stmts;
    match n.kind {
        AstKind::Module => match n.as_module.take() {
            Some(mut d) => {
                proof {
                    lemma_nodes_view_concat(d.body@, stmts@);
                }
                d.body.items.append(&mut stmts.items);
                n.as_module = Some(d);
            },
            None => {},
        },
        AstKind::If => match n.as_if_stmt.take() {
            Some(mut d) => {
                proof {
                    lemma_nodes_view_concat(d.body@, stmts@);
                }
                d.body.items.append(&mut stmts.items);
                n.as_if_stmt = Some(d);
            },
            None => {},
        },
        AstKind::While => match n.as_while_stmt.take() {
            Some(mut d) => {
                proof {
                    lemma_nodes_view_concat(d.body@, stmts@);
                }
                d.body.items.append(&mut stmts.items);
                n.as_while_stmt = Some(d);
            },
            None => {},
        },
        AstKind::FunctionDef => match n.as_function_def.take() {
            Some(mut d) => {
                proof {
                    lemma_nodes_view_concat(d.body@, stmts@);
                }
                d.body.items.append(&mut stmts.items);
                n.as_function_def = Some(d);
            },
            None => {},
        },
        _ => {},
    }
}

/// Appends statements to the second branch of a conditional; other nodes
/// stay as they are.
pub(crate) fn append_else(n: &mut AstNode, stmts: PtrVec<AstNode>)
    ensures
        node_view(*final(n)) == append_orelse(node_view(*old(n)), nodes_view(stmts@)),
{
    reveal(node_view);
    reveal(nodes_view);
    let mut stmts = stmts;
    if n.kind == AstKind::If {
        match n.as_if_stmt.take() {
            Some(mut d) => {
                proof {
                    lemma_nodes_view_concat(d.orelse@, stmts@);
                }
                d.orelse.items.append(&mut stmts.items);
                n.as_if_stmt = Some(d);
            },
            None => {},
        }
    }
}

/// Replaces the arguments of a call node.
pub(crate) fn set_call_args(n: &mut AstNode, args: PtrVec<AstNode>)
    requires
        node_view(*old(n)).tree is Call,
    ensures
        match node_view(*old(n)).tree {
            Tree::Call(f, _) => node_view(*final(n)) == (Node {
                line: node_view(*old(n)).line,
                tree: Tree::Call(f, nodes_view(args@)),
            }),
            _ => true,
        },
{
    reveal(node_view);
    reveal(nodes_view);
    match n.as_call.take() {
        Some(c) => {
            n.as_call = Some(CallData { func: c.func, args });
        },
        None => {},
    }
}

/// Every data field of `n` but the one its kind uses is empty.
pub open spec fn data_only_for_kind(n: AstNode) -> bool {
    &&& n.kind != AstKind::Module ==> n.as_module is None
    &&& n.kind != AstKind::ExprStmt ==> n.as_expr_stmt is None
    &&& n.kind != AstKind::Assign ==> n.as_assign is None
    &&& n.kind != AstKind::If ==> n.as_if_stmt is None
    &&& n.kind != AstKind::While ==> n.as_while_stmt is None
    &&& n.kind != AstKind::FunctionDef ==> n.as_function_def is None
    &&& n.kind != AstKind::Return ==> n.as_return_stmt is None
    &&& n.kind != AstKind::Name ==> n.as_name is None
    &&& n.kind != AstKind::Constant ==> n.as_constant is None
    &&& n.kind != AstKind::BinOp ==> n.as_binop is None
    &&& n.kind != AstKind::UnaryOp ==> n.as_unaryop is None
    &&& n.kind != AstKind::Compare ==> n.as_compare is None
    &&& n.kind != AstKind::Call ==> n.as_call is None
    &&& n.kind != AstKind::Attribute ==> n.as_attribute is None
    &&& n.kind != AstKind::Subscript ==> n.as_subscript is None
}

impl AstNode {
    /// An empty module on line 1.
    pub fn new_module() -> (n: AstNode)
        ensures
            n.kind == AstKind::Module,
            n.line == 1,
            data_only_for_kind(n),
            (n.as_module matches Some(m) && m.body@.len() == 0),
            node_view(n) == (Node { line: 1, tree: Tree::Module(Seq::empty()) }),
    {
        reveal(node_view);
        reveal(nodes_view);
        proof {
            lemma_nodes_view_empty();
        }
        AstNode {
            kind: AstKind::Module,
            line: 1,
            as_module: Some(ModuleData { body: PtrVec::new() }),
            as_expr_stmt: None,
            as_assign: None,
            as_if_stmt: None,
            as_while_stmt: None,
            as_function_def: None,
            as_return_stmt: None,
            as_name: None,
            as_constant: None,
            as_binop: None,
            as_unaryop: None,
            as_compare: None,
            as_call: None,
            as_attribute: None,
            as_subscript: None,
        }
    }

    /// A statement that evaluates `expr`.
    pub fn new_expr_stmt(expr: Box<AstNode>, line: usize) -> (n: AstNode)
        ensures
            n.kind == AstKind::ExprStmt,
            n.line == line,
            data_only_for_kind(n),
            n.as_expr_stmt == Some(ExprStmtData { expr }),
            node_view(n) == (Node { line: line as int, tree: Tree::ExprStmt(Box::new(node_view(*expr))) }),
    {
        reveal(node_view);
        reveal(nodes_view);
        AstNode {
            kind: AstKind::ExprStmt,
            line,
            as_module: None,
            as_expr_stmt: Some(ExprStmtData { expr }),
            as_assign: None,
            as_if_stmt: None,
            as_while_stmt: None,
            as_function_def: None,
            as_return_stmt: None,
            as_name: None,
            as_constant: None,
            as_binop: None,
            as_unaryop: None,
            as_compare: None,
            as_call: None,
            as_attribute: None,
            as_subscript: None,
        }
    }

    /// An assignment of `value` to `name`.
    pub fn new_assign(name: String, value: Box<AstNode>, line: usize) -> (n: AstNode)
        ensures
            n.kind == AstKind::Assign,
            n.line == line,
            data_only_for_kind(n),
            n.as_assign == Some(AssignData { name, value }),
            node_view(n) == (Node { line: line as int, tree: Tree::Assign(name@, Box::new(node_view(*value))) }),
    {
        reveal(node_view);
        reveal(nodes_view);
        AstNode {
            kind: AstKind::Assign,
            line,
            as_module: None,
            as_expr_stmt: None,
            as_assign: Some(AssignData { name, value }),
            as_if_stmt: None,
            as_while_stmt: None,
            as_function_def: None,
            as_return_stmt: None,
            as_name: None,
            as_constant: None,
            as_binop: None,
            as_unaryop: None,
            as_compare: None,
            as_call: None,
            as_attribute: None,
            as_subscript: None,
        }
    }

    /// A conditional on `test` with empty branches.
    pub fn new_if(test: Box<AstNode>, line: usize) -> (n: AstNode)
        ensures
            n.kind == AstKind::If,
            n.line == line,
            data_only_for_kind(n),
            (n.as_if_stmt matches Some(d) && d.test == test && d.body@.len() == 0 && d.orelse@.len() == 0),
            node_view(n) == (Node { line: line as int, tree: Tree::If(Box::new(node_view(*test)), Seq::empty(), Seq::empty()) }),
    {
        reveal(node_view);
        reveal(nodes_view);
        proof {
            lemma_nodes_view_empty();
        }
        AstNode {
            kind: AstKind::If,
            line,
            as_module: None,
            as_expr_stmt: None,
            as_assign: None,
            as_if_stmt: Some(IfStmtData { test, body: PtrVec::new(), orelse: PtrVec::new() }),
            as_while_stmt: None,
            as_function_def: None,
            as_return_stmt: None,
            as_name: None,
            as_constant: None,
            as_binop: None,
            as_unaryop: None,
            as_compare: None,
            as_call: None,
            as_attribute: None,
            as_subscript: None,
        }
    }

    /// A loop on `test` with an empty body.
    pub fn new_while(test: Box<AstNode>, line: usize) -> (n: AstNode)
        ensures
            n.kind == AstKind::While,
            n.line == line,
            data_only_for_kind(n),
            (n.as_while_stmt matches Some(d) && d.test == test && d.body@.len() == 0),
            node_view(n) == (Node { line: line as int, tree: Tree::While(Box::new(node_view(*test)), Seq::empty()) }),
    {
        reveal(node_view);
        reveal(nodes_view);
        proof {
            lemma_nodes_view_empty();
        }
        AstNode {
            kind: AstKind::While,
            line,
            as_module: None,
            as_expr_stmt: None,
            as_assign: None,
            as_if_stmt: None,
            as_while_stmt: Some(WhileStmtData { test, body: PtrVec::new() }),
            as_function_def: None,
            as_return_stmt: None,
            as_name: None,
            as_constant: None,
            as_binop: None,
            as_unaryop: None,
            as_compare: None,
            as_call: None,
            as_attribute: None,
            as_subscript: None,
        }
    }

    /// A return, with or without a value.
    pub fn new_return(value: Option<Box<AstNode>>, line: usize) -> (n: AstNode)
        ensures
            n.kind == AstKind::Return,
            n.line == line,
            data_only_for_kind(n),
            n.as_return_stmt == Some(ReturnStmtData { value }),
            node_view(n) == (Node { line: line as int, tree: Tree::Return(match value { Some(v) => Some(Box::new(node_view(*v))), None => None }) }),
    {
        reveal(node_view);
        reveal(nodes_view);
        AstNode {
            kind: AstKind::Return,
            line,
            as_module: None,
            as_expr_stmt: None,
            as_assign: None,
            as_if_stmt: None,
            as_while_stmt: None,
            as_function_def: None,
            as_return_stmt: Some(ReturnStmtData { value }),
            as_name: None,
            as_constant: None,
            as_binop: None,
            as_unaryop: None,
            as_compare: None,
            as_call: None,
            as_attribute: None,
            as_subscript: None,
        }
    }

    /// A statement that does nothing.
    pub fn new_pass(line: usize) -> (n: AstNode)
        ensures
            n.kind == AstKind::Pass,
            n.line == line,
            data_only_for_kind(n),
            node_view(n) == (Node { line: line as int, tree: Tree::Pass }),
    {
        reveal(node_view);
        reveal(nodes_view);
        AstNode {
            kind: AstKind::Pass,
            line,
            as_module: None,
            as_expr_stmt: None,
            as_assign: None,
            as_if_stmt: None,
            as_while_stmt: None,
            as_function_def: None,
            as_return_stmt: None,
            as_name: None,
            as_constant: None,
            as_binop: None,
            as_unaryop: None,
            as_compare: None,
            as_call: None,
            as_attribute: None,
            as_subscript: None,
        }
    }

    /// A reference to `name`.
    pub fn new_name(name: String, line: usize) -> (n: AstNode)
        ensures
            n.kind == AstKind::Name,
            n.line == line,
            data_only_for_kind(n),
            n.as_name == Some(NameData { name }),
            node_view(n) == (Node { line: line as int, tree: Tree::Name(name@) }),
    {
        reveal(node_view);
        reveal(nodes_view);
        AstNode {
            kind: AstKind::Name,
            line,
            as_module: None,
            as_expr_stmt: None,
            as_assign: None,
            as_if_stmt: None,
            as_while_stmt: None,
            as_function_def: None,
            as_return_stmt: None,
            as_name: Some(NameData { name }),
            as_constant: None,
            as_binop: None,
            as_unaryop: None,
            as_compare: None,
            as_call: None,
            as_attribute: None,
            as_subscript: None,
        }
    }

    /// An integer literal.
    pub fn new_int(value: i64, line: usize) -> (n: AstNode)
        ensures
            n.kind == AstKind::Constant,
            n.line == line,
            data_only_for_kind(n),
            (n.as_constant matches Some(c) && !c.is_string && !c.is_float && c.int_value == value && c.str_value is None && c.float_text@.len() == 0),
            node_view(n) == (Node { line: line as int, tree: Tree::Int(value as int) }),
    {
        reveal(node_view);
        reveal(nodes_view);
        AstNode {
            kind: AstKind::Constant,
            line,
            as_module: None,
            as_expr_stmt: None,
            as_assign: None,
            as_if_stmt: None,
            as_while_stmt: None,
            as_function_def: None,
            as_return_stmt: None,
            as_name: None,
            as_constant: Some(ConstantData { is_float: false, int_value: value, float_text: String::new(), str_value: None, is_string: false }),
            as_binop: None,
            as_unaryop: None,
            as_compare: None,
            as_call: None,
            as_attribute: None,
            as_subscript: None,
        }
    }

    /// A floating-point literal, kept as its source text.
    pub fn new_float(text: String, line: usize) -> (n: AstNode)
        ensures
            n.kind == AstKind::Constant,
            n.line == line,
            data_only_for_kind(n),
            (n.as_constant matches Some(c) && !c.is_string && c.is_float && c.int_value == 0 && c.str_value is None && c.float_text == text),
            node_view(n) == (Node { line: line as int, tree: Tree::Float(text@) }),
    {
        reveal(node_view);
        reveal(nodes_view);
        AstNode {
            kind: AstKind::Constant,
            line,
            as_module: None,
            as_expr_stmt: None,
            as_assign: None,
            as_if_stmt: None,
            as_while_stmt: None,
            as_function_def: None,
            as_return_stmt: None,
            as_name: None,
            as_constant: Some(ConstantData { is_float: true, int_value: 0, float_text: text, str_value: None, is_string: false }),
            as_binop: None,
            as_unaryop: None,
            as_compare: None,
            as_call: None,
            as_attribute: None,
            as_subscript: None,
        }
    }

    /// A string literal.
    pub fn new_string(value: String, line: usize) -> (n: AstNode)
        ensures
            n.kind == AstKind::Constant,
            n.line == line,
            data_only_for_kind(n),
            (n.as_constant matches Some(c) && c.is_string && !c.is_float && c.int_value == 0 && c.str_value == Some(value) && c.float_text@.len() == 0),
            node_view(n) == (Node { line: line as int, tree: Tree::Str(value@) }),
    {
        reveal(node_view);
        reveal(nodes_view);
        AstNode {
            kind: AstKind::Constant,
            line,
            as_module: None,
            as_expr_stmt: None,
            as_assign: None,
            as_if_stmt: None,
            as_while_stmt: None,
            as_function_def: None,
            as_return_stmt: None,
            as_name: None,
            as_constant: Some(ConstantData { is_float: false, int_value: 0, float_text: String::new(), str_value: Some(value), is_string: true }),
            as_binop: None,
            as_unaryop: None,
            as_compare: None,
            as_call: None,
            as_attribute: None,
            as_subscript: None,
        }
    }

    /// An arithmetic operation.
    pub fn new_binop(op: OpKind, left: Box<AstNode>, right: Box<AstNode>, line: usize) -> (n: AstNode)
        ensures
            n.kind == AstKind::BinOp,
            n.line == line,
            data_only_for_kind(n),
            n.as_binop == Some(BinOpData { op, left, right }),
            node_view(n) == (Node { line: line as int, tree: Tree::BinOp(op, Box::new(node_view(*left)), Box::new(node_view(*right))) }),
    {
        reveal(node_view);
        reveal(nodes_view);
        AstNode {
            kind: AstKind::BinOp,
            line,
            as_module: None,
            as_expr_stmt: None,
            as_assign: None,
            as_if_stmt: None,
            as_while_stmt: None,
            as_function_def: None,
            as_return_stmt: None,
            as_name: None,
            as_constant: None,
            as_binop: Some(BinOpData { op, left, right }),
            as_unaryop: None,
            as_compare: None,
            as_call: None,
            as_attribute: None,
            as_subscript: None,
        }
    }

    /// A prefix operation.
    pub fn new_unaryop(op: OpKind, operand: Box<AstNode>, line: usize) -> (n: AstNode)
        ensures
            n.kind == AstKind::UnaryOp,
            n.line == line,
            data_only_for_kind(n),
            n.as_unaryop == Some(UnaryOpData { op, operand }),
            node_view(n) == (Node { line: line as int, tree: Tree::UnaryOp(op, Box::new(node_view(*operand))) }),
    {
        reveal(node_view);
        reveal(nodes_view);
        AstNode {
            kind: AstKind::UnaryOp,
            line,
            as_module: None,
            as_expr_stmt: None,
            as_assign: None,
            as_if_stmt: None,
            as_while_stmt: None,
            as_function_def: None,
            as_return_stmt: None,
            as_name: None,
            as_constant: None,
            as_binop: None,
            as_unaryop: Some(UnaryOpData { op, operand }),
            as_compare: None,
            as_call: None,
            as_attribute: None,
            as_subscript: None,
        }
    }

    /// A comparison.
    pub fn new_compare(op: OpKind, left: Box<AstNode>, right: Box<AstNode>, line: usize) -> (n: AstNode)
        ensures
            n.kind == AstKind::Compare,
            n.line == line,
            data_only_for_kind(n),
            n.as_compare == Some(CompareData { op, left, right }),
            node_view(n) == (Node { line: line as int, tree: Tree::Compare(op, Box::new(node_view(*left)), Box::new(node_view(*right))) }),
    {
        reveal(node_view);
        reveal(nodes_view);
        AstNode {
            kind: AstKind::Compare,
            line,
            as_module: None,
            as_expr_stmt: None,
            as_assign: None,
            as_if_stmt: None,
            as_while_stmt: None,
            as_function_def: None,
            as_return_stmt: None,
            as_name: None,
            as_constant: None,
            as_binop: None,
            as_unaryop: None,
            as_compare: Some(CompareData { op, left, right }),
            as_call: None,
            as_attribute: None,
            as_subscript: None,
        }
    }

    /// A call of `func` with no arguments yet.
    pub fn new_call(func: Box<AstNode>, line: usize) -> (n: AstNode)
        ensures
            n.kind == AstKind::Call,
            n.line == line,
            data_only_for_kind(n),
            (n.as_call matches Some(d) && d.func == func && d.args@.len() == 0),
            node_view(n) == (Node { line: line as int, tree: Tree::Call(Box::new(node_view(*func)), Seq::empty()) }),
    {
        reveal(node_view);
        reveal(nodes_view);
        proof {
            lemma_nodes_view_empty();
        }
        AstNode {
            kind: AstKind::Call,
            line,
            as_module: None,
            as_expr_stmt: None,
            as_assign: None,
            as_if_stmt: None,
            as_while_stmt: None,
            as_function_def: None,
            as_return_stmt: None,
            as_name: None,
            as_constant: None,
            as_binop: None,
            as_unaryop: None,
            as_compare: None,
            as_call: Some(CallData { func, args: PtrVec::new() }),
            as_attribute: None,
            as_subscript: None,
        }
    }

    /// An attribute access `value.attr`.
    pub fn new_attribute(value: Box<AstNode>, attr: String, line: usize) -> (n: AstNode)
        ensures
            n.kind == AstKind::Attribute,
            n.line == line,
            data_only_for_kind(n),
            n.as_attribute == Some(AttributeData { value, attr }),
            node_view(n) == (Node { line: line as int, tree: Tree::Attribute(Box::new(node_view(*value)), attr@) }),
    {
        reveal(node_view);
        reveal(nodes_view);
        AstNode {
            kind: AstKind::Attribute,
            line,
            as_module: None,
            as_expr_stmt: None,
            as_assign: None,
            as_if_stmt: None,
            as_while_stmt: None,
            as_function_def: None,
            as_return_stmt: None,
            as_name: None,
            as_constant: None,
            as_binop: None,
            as_unaryop: None,
            as_compare: None,
            as_call: None,
            as_attribute: Some(AttributeData { value, attr }),
            as_subscript: None,
        }
    }

    /// An index `value[index]`.
    pub fn new_subscript(value: Box<AstNode>, index: Box<AstNode>, line: usize) -> (n: AstNode)
        ensures
            n.kind == AstKind::Subscript,
            n.line == line,
            data_only_for_kind(n),
            n.as_subscript == Some(SubscriptData { value, index }),
            node_view(n) == (Node { line: line as int, tree: Tree::Subscript(Box::new(node_view(*value)), Box::new(node_view(*index))) }),
    {
        reveal(node_view);
        reveal(nodes_view);
        AstNode {
            kind: AstKind::Subscript,
            line,
            as_module: None,
            as_expr_stmt: None,
            as_assign: None,
            as_if_stmt: None,
            as_while_stmt: None,
            as_function_def: None,
            as_return_stmt: None,
            as_name: None,
            as_constant: None,
            as_binop: None,
            as_unaryop: None,
            as_compare: None,
            as_call: None,
            as_attribute: None,
            as_subscript: Some(SubscriptData { value, index }),
        }
    }

    /// A function definition with the given parameters and an empty body.
    pub fn new_function_def(name: String, params: Vec<String>, line: usize) -> (n: AstNode)
        ensures
            n.kind == AstKind::FunctionDef,
            n.line == line,
            data_only_for_kind(n),
            (n.as_function_def matches Some(d) && d.name == name && d.params == params && d.param_count == params@.len() && d.body@.len() == 0),
            node_view(n) == (Node {
                line: line as int,
                tree: Tree::FunctionDef(name@, strings_view(params@), Seq::empty()),
            }),
    {
        reveal(node_view);
        reveal(nodes_view);
        proof {
            lemma_nodes_view_empty();
        }
        let param_count = params.len();
        AstNode {
            kind: AstKind::FunctionDef,
            line,
            as_module: None,
            as_expr_stmt: None,
            as_assign: None,
            as_if_stmt: None,
            as_while_stmt: None,
            as_function_def: Some(FunctionDefData { name, params, param_count, body: PtrVec::new() }),
            as_return_stmt: None,
            as_name: None,
            as_constant: None,
            as_binop: None,
            as_unaryop: None,
            as_compare: None,
            as_call: None,
            as_attribute: None,
            as_subscript: None,
        }
    }
}


// ---------------------------------------------------------------------
// Copies
// ---------------------------------------------------------------------

pub(crate) fn copy_strings(v: &Vec<String>) -> (r: Vec<String>)
    ensures
        r@.len() == v@.len(),
        strings_view(r@) == strings_view(v@),
{
    let mut out: Vec<String> = Vec::new();
    let mut i: usize = 0;
    while i < v.len()
        invariant
            i <= v@.len(),
            out@.len() == i,
            forall|j: int| 0 <= j < i ==> (#[trigger] out@[j])@ == v@[j]@,
        decreases v.len() - i,
    {
        out.push(v[i].clone());
        i += 1;
    }
    assert(strings_view(out@) =~= strings_view(v@));
    out
}

fn empty_node(kind: AstKind, line: usize) -> (n: AstNode)
    ensures
        n.kind == kind,
        n.line == line,
        n.as_module is None && n.as_expr_stmt is None && n.as_assign is None && n.as_if_stmt is None
            && n.as_while_stmt is None && n.as_function_def is None && n.as_return_stmt is None
            && n.as_name is None && n.as_constant is None && n.as_binop is None && n.as_unaryop
            is None && n.as_compare is None && n.as_call is None && n.as_attribute is None
            && n.as_subscript is None,
{
    AstNode {
        kind,
        line,
        as_module: None,
        as_expr_stmt: None,
        as_assign: None,
        as_if_stmt: None,
        as_while_stmt: None,
        as_function_def: None,
        as_return_stmt: None,
        as_name: None,
        as_constant: None,
        as_binop: None,
        as_unaryop: None,
        as_compare: None,
        as_call: None,
        as_attribute: None,
        as_subscript: None,
    }
}

/// A copy of a sequence of trees.
pub fn copy_nodes(v: &PtrVec<AstNode>) -> (r: PtrVec<AstNode>)
    ensures
        nodes_view(r@) == nodes_view(v@),
    decreases *v, 0nat,
{
    let mut out: PtrVec<AstNode> = PtrVec::new();
    proof {
        lemma_nodes_view_empty();
        assert(v@.subrange(0, 0) =~= Seq::<AstNode>::empty());
    }
    let mut i: usize = 0;
    while i < v.items.len()
        invariant
            i <= v@.len(),
            nodes_view(out@) == nodes_view(v@.subrange(0, i as int)),
        decreases v@.len() - i,
    {
        proof {
            assert(decreases_to!(*v => v.items));
            assert(decreases_to!(v.items => v.items@));
            assert(decreases_to!(v.items@ => v.items@[i as int]));
        }
        let c = copy_node(&v.items[i]);
        proof {
            lemma_nodes_view_push(out@, c);
            lemma_nodes_view_push(v@.subrange(0, i as int), v@[i as int]);
            assert(v@.subrange(0, i as int).push(v@[i as int]) =~= v@.subrange(0, i + 1));
        }
        out.push(c);
        i += 1;
    }
    assert(v@.subrange(0, v@.len() as int) =~= v@);
    out
}

/// A copy of a tree.
pub fn copy_node(n: &AstNode) -> (r: AstNode)
    ensures
        node_view(r) == node_view(*n),
    decreases *n, 2nat,
{
    reveal(node_view);
    reveal(nodes_view);
    let mut r = empty_node(n.kind, n.line);
    match n.kind {
        AstKind::Module => match &n.as_module {
            Some(m) => {
                r.as_module = Some(ModuleData { body: copy_nodes(&m.body) });
            },
            None => {},
        },
        AstKind::ExprStmt => match &n.as_expr_stmt {
            Some(e) => {
                r.as_expr_stmt = Some(ExprStmtData { expr: Box::new(copy_node(&e.expr)) });
            },
            None => {},
        },
        AstKind::Assign => match &n.as_assign {
            Some(a) => {
                r.as_assign = Some(AssignData { name: a.name.clone(), value: Box::new(copy_node(&a.value)) });
            },
            None => {},
        },
        AstKind::If => match &n.as_if_stmt {
            Some(i) => {
                r.as_if_stmt = Some(
                    IfStmtData {
                        test: Box::new(copy_node(&i.test)),
                        body: copy_nodes(&i.body),
                        orelse: copy_nodes(&i.orelse),
                    },
                );
            },
            None => {},
        },
        AstKind::While => match &n.as_while_stmt {
            Some(w) => {
                r.as_while_stmt = Some(WhileStmtData { test: Box::new(copy_node(&w.test)), body: copy_nodes(&w.body) });
            },
            None => {},
        },
        AstKind::FunctionDef => match &n.as_function_def {
            Some(f) => {
                r.as_function_def = Some(
                    FunctionDefData {
                        name: f.name.clone(),
                        params: copy_strings(&f.params),
                        param_count: f.param_count,
                        body: copy_nodes(&f.body),
                    },
                );
            },
            None => {},
        },
        AstKind::Return => match &n.as_return_stmt {
            Some(x) => {
                let value = match &x.value {
                    Some(v) => Some(Box::new(copy_node(v))),
                    None => None,
                };
                r.as_return_stmt = Some(ReturnStmtData { value });
            },
            None => {},
        },
        AstKind::Pass => {},
        AstKind::Name => match &n.as_name {
            Some(x) => {
                r.as_name = Some(NameData { name: x.name.clone() });
            },
            None => {},
        },
        AstKind::Constant => match &n.as_constant {
            Some(c) => {
                let str_value = match &c.str_value {
                    Some(v) => Some(v.clone()),
                    None => None,
                };
                r.as_constant = Some(
                    ConstantData {
                        is_float: c.is_float,
                        int_value: c.int_value,
                        float_text: c.float_text.clone(),
                        str_value,
                        is_string: c.is_string,
                    },
                );
            },
            None => {},
        },
        AstKind::BinOp => match &n.as_binop {
            Some(b) => {
                r.as_binop = Some(BinOpData { op: b.op, left: Box::new(copy_node(&b.left)), right: Box::new(copy_node(&b.right)) });
            },
            None => {},
        },
        AstKind::UnaryOp => match &n.as_unaryop {
            Some(u) => {
                r.as_unaryop = Some(UnaryOpData { op: u.op, operand: Box::new(copy_node(&u.operand)) });
            },
            None => {},
        },
        AstKind::Compare => match &n.as_compare {
            Some(c) => {
                r.as_compare = Some(CompareData { op: c.op, left: Box::new(copy_node(&c.left)), right: Box::new(copy_node(&c.right)) });
            },
            None => {},
        },
        AstKind::Call => match &n.as_call {
            Some(c) => {
                r.as_call = Some(CallData { func: Box::new(copy_node(&c.func)), args: copy_nodes(&c.args) });
            },
            None => {},
        },
        AstKind::Attribute => match &n.as_attribute {
            Some(a) => {
                r.as_attribute = Some(AttributeData { value: Box::new(copy_node(&a.value)), attr: a.attr.clone() });
            },
            None => {},
        },
        AstKind::Subscript => match &n.as_subscript {
            Some(x) => {
                r.as_subscript = Some(SubscriptData { value: Box::new(copy_node(&x.value)), index: Box::new(copy_node(&x.index)) });
            },
            None => {},
        },
    }
    r
}


impl Clone for AstNode {
    /// A copy of the whole tree.
    fn clone(&self) -> (r: Self)
        ensures
            node_view(r) == node_view(*self),
    {
        copy_node(self)
    }
}

} // verus!
