use vstd::prelude::*;
use vstd::string::StringExecFns;
use crate::ast_nodes::{
    AstKind, AstNode, Node, OpKind, Tree, lemma_nodes_view_empty,
    lemma_name_node, lemma_node_line, lemma_nodes_view_push, node_view, nodes_view, set_call_args,
    append_block, append_else, append_body, strings_view,
};
use crate::lexer::{SpecToken, Token, TokenKind, is_digit, tokens_view, lex, law_scan_shape, compare_symbol};
use crate::value::int_compare_spec;
use crate::util::{PtrVec, chars_of};

verus! {

/// Why parsing stopped.
#[derive(Clone, Copy, PartialEq, Eq, Structural, Debug)]
pub enum ParseError {
    /// A required token (a name, a bracket, a colon, a line break, an
    /// indentation change) is missing.
    ExpectedToken,
    /// The left side of `=` is not a name.
    InvalidAssignmentTarget,
    /// No expression starts at this token.
    ExpectedExpression,
}

impl ParseError {
    /// The text of the error, as the parser reports it.
    pub fn message(&self) -> (r: String)
        ensures
            match *self {
                ParseError::ExpectedToken => r@ == "expected token"@,
                ParseError::InvalidAssignmentTarget => r@ == "invalid assignment target"@,
                ParseError::ExpectedExpression => r@ == "expected expression"@,
            },
    {
        match self {
            ParseError::ExpectedToken => String::from_str("expected token"),
            ParseError::InvalidAssignmentTarget => String::from_str("invalid assignment target"),
            ParseError::ExpectedExpression => String::from_str("expected expression"),
        }
    }
}

/// A parsed tree and the position after it, or why parsing stopped.
pub type ParseResult = Result<(Node, int), ParseError>;

/// Parsed trees and the position after them, or why parsing stopped.
pub type ParseSeqResult = Result<(Seq<Node>, int), ParseError>;

// ---------------------------------------------------------------------
// Token tests
// ---------------------------------------------------------------------

/// Past the tokens, or at an `Eof` token.
pub open spec fn at_end(t: Seq<SpecToken>, i: int) -> bool {
    i < 0 || i >= t.len() || t[i].kind == TokenKind::Eof
}

/// The token at `i` exists, is not `Eof`, and has kind `k`.
pub open spec fn check(t: Seq<SpecToken>, i: int, k: TokenKind) -> bool {
    !at_end(t, i) && t[i].kind == k
}

/// The first position at or after `i` that does not hold a line break.
pub open spec fn skip_newlines(t: Seq<SpecToken>, i: int) -> int
    decreases t.len() - i,
{
    if 0 <= i < t.len() && t[i].kind == TokenKind::Newline {
        skip_newlines(t, i + 1)
    } else {
        i
    }
}

pub proof fn lemma_skip_newlines(t: Seq<SpecToken>, i: int)
    requires
        0 <= i <= t.len(),
    ensures
        i <= skip_newlines(t, i) <= t.len(),
    decreases t.len() - i,
{
    if i < t.len() && t[i].kind == TokenKind::Newline {
        lemma_skip_newlines(t, i + 1);
    }
}

pub open spec fn is_compare_kind(k: TokenKind) -> bool {
    k == TokenKind::EqEq || k == TokenKind::Ne || k == TokenKind::Lt || k == TokenKind::Le || k
        == TokenKind::Gt || k == TokenKind::Ge
}

pub open spec fn is_term_kind(k: TokenKind) -> bool {
    k == TokenKind::Plus || k == TokenKind::Minus
}

pub open spec fn is_factor_kind(k: TokenKind) -> bool {
    k == TokenKind::Star || k == TokenKind::Slash || k == TokenKind::Percent
}

/// The operator a token stands for (`Add` for a token that is none).
pub open spec fn op_of(k: TokenKind) -> OpKind {
    match k {
        TokenKind::Plus => OpKind::Add,
        TokenKind::Minus => OpKind::Sub,
        TokenKind::Star => OpKind::Mul,
        TokenKind::Slash => OpKind::Div,
        TokenKind::Percent => OpKind::Mod,
        TokenKind::EqEq => OpKind::Eq,
        TokenKind::Ne => OpKind::Ne,
        TokenKind::Lt => OpKind::Lt,
        TokenKind::Le => OpKind::Le,
        TokenKind::Gt => OpKind::Gt,
        TokenKind::Ge => OpKind::Ge,
        _ => OpKind::Add,
    }
}

/// Whether a token kind is one of the six comparison tokens.
pub open spec fn is_compare_token(k: TokenKind) -> bool {
    k == TokenKind::EqEq || k == TokenKind::Ne || k == TokenKind::Lt || k == TokenKind::Le
        || k == TokenKind::Gt || k == TokenKind::Ge
}

/// What the source text of a comparison says of two integers: `==`, `!=`,
/// `<`, `<=`, `>` and `>=` in their usual sense.
pub open spec fn text_says(text: Seq<char>, a: int, b: int) -> bool {
    if text == seq!['=', '='] {
        a == b
    } else if text == seq!['!', '='] {
        a != b
    } else if text == seq!['<'] {
        a < b
    } else if text == seq!['<', '='] {
        a <= b
    } else if text == seq!['>'] {
        a > b
    } else {
        text == seq!['>', '='] && a >= b
    }
}

/// Each comparison token gives its own operator, and that operator
/// compares integers as the token's text says: for every scan of any
/// source, every comparison token in it, and all integers `a`, `b`, the
/// parsed operator holds of `a` and `b` exactly when the text does. In
/// particular no two comparison tokens give the same operator.
pub proof fn law_comparison_operators(s: Seq<char>, k1: TokenKind, k2: TokenKind, a: int, b: int)
    ensures
        lex(s) matches Ok(t) ==> forall|i: int|
            0 <= i < t.len() && is_compare_token(#[trigger] t[i].kind) ==> int_compare_spec(op_of(t[i].kind), a, b)
                == Some(text_says(t[i].lexeme, a, b)),
        is_compare_token(k1) && is_compare_token(k2) && op_of(k1) == op_of(k2) ==> k1 == k2,
{
    law_scan_shape(s);
    match lex(s) {
        Ok(t) => {
            assert forall|i: int|
                0 <= i < t.len() && is_compare_token(#[trigger] t[i].kind) implies int_compare_spec(
                op_of(t[i].kind),
                a,
                b,
            ) == Some(text_says(t[i].lexeme, a, b)) by {
                assert(compare_symbol(t[i].kind) is Some);
                let x = t[i].lexeme;
                assert(seq!['=', '='][0] != seq!['!', '='][0]);
                if t[i].kind == TokenKind::EqEq {
                    assert(x =~= seq!['=', '=']);
                } else if t[i].kind == TokenKind::Ne {
                    assert(x =~= seq!['!', '=']);
                    assert(x != seq!['=', '=']);
                } else if t[i].kind == TokenKind::Lt {
                    assert(x =~= seq!['<']);
                    assert(x != seq!['=', '='] && x != seq!['!', '=']);
                } else if t[i].kind == TokenKind::Le {
                    assert(x =~= seq!['<', '=']);
                    assert(x[0] == '<');
                    assert(x != seq!['=', '='] && x != seq!['!', '='] && x != seq!['<']);
                } else if t[i].kind == TokenKind::Gt {
                    assert(x =~= seq!['>']);
                    assert(x[0] == '>');
                    assert(x != seq!['=', '='] && x != seq!['!', '='] && x != seq!['<'] && x != seq!['<', '=']);
                } else {
                    assert(x =~= seq!['>', '=']);
                    assert(x[0] == '>' && x.len() == 2);
                    assert(x != seq!['=', '='] && x != seq!['!', '='] && x != seq!['<'] && x != seq!['<', '=']
                        && x != seq!['>']);
                }
            }
        },
        Err(_) => {},
    }
}

// ---------------------------------------------------------------------
// Integer literals
// ---------------------------------------------------------------------

pub open spec fn digit_value(c: char) -> int {
    c as int - '0' as int
}

/// The value of a string of decimal digits.
pub open spec fn digits_value(d: Seq<char>) -> int
    decreases d.len(),
{
    if d.len() == 0 {
        0
    } else {
        digits_value(d.drop_last()) * 10 + digit_value(d.last())
    }
}

pub open spec fn all_digits(d: Seq<char>) -> bool {
    d.len() > 0 && forall|i: int| 0 <= i < d.len() ==> is_digit(#[trigger] d[i])
}

/// The value of an optional sign and decimal digits, as `i64` parsing
/// reads it; `None` when the text is no such number or does not fit.
pub open spec fn i64_text_value(s: Seq<char>) -> Option<int> {
    let signed = s.len() > 0 && (s[0] == '+' || s[0] == '-');
    let d = if signed { s.skip(1) } else { s };
    let v = if signed && s[0] == '-' { -digits_value(d) } else { digits_value(d) };
    if all_digits(d) && i64::MIN <= v <= i64::MAX {
        Some(v)
    } else {
        None
    }
}

/// The value of an integer literal; 0 when its text is no `i64`.
pub open spec fn int_literal(s: Seq<char>) -> int {
    match i64_text_value(s) {
        Some(v) => v,
        None => 0,
    }
}

pub proof fn lemma_digits_value_prefix(d: Seq<char>, k: int)
    requires
        0 <= k <= d.len(),
        forall|i: int| 0 <= i < d.len() ==> is_digit(#[trigger] d[i]),
    ensures
        0 <= digits_value(d.subrange(0, k)) <= digits_value(d),
    decreases d.len(),
{
    if d.len() > 0 {
        if k == d.len() {
            assert(d.subrange(0, k) =~= d);
            lemma_digits_value_prefix(d.drop_last(), d.len() - 1);
            assert(d.drop_last().subrange(0, d.len() - 1) =~= d.drop_last());
        } else {
            lemma_digits_value_prefix(d.drop_last(), k);
            assert(d.drop_last().subrange(0, k) =~= d.subrange(0, k));
            lemma_digits_value_prefix(d.drop_last(), d.len() - 1);
            assert(d.drop_last().subrange(0, d.len() - 1) =~= d.drop_last());
        }
    } else {
        assert(d.subrange(0, k) =~= d);
    }
}

/// Reads an integer literal as `i64` parsing does, 0 when it fails.
fn parse_int_literal(text: &String) -> (v: i64)
    ensures
        v == int_literal(text@),
{
    let cs = chars_of(text.as_str());
    let ghost s = cs@;
    assert(s == text@);
    let n = cs.len();
    if n == 0 {
        return 0;
    }
    let neg = cs[0] == '-';
    let start: usize = if cs[0] == '+' || cs[0] == '-' {
        1
    } else {
        0
    };
    let ghost d = s.subrange(start as int, n as int);
    assert(d =~= if start == 1 { s.skip(1) } else { s });
    if start == n {
        assert(d.len() == 0);
        return 0;
    }
    let mut acc: i64 = 0;
    let mut i: usize = start;
    while i < n
        invariant
            cs@ == s,
            n == s.len(),
            start <= i <= n,
            d == s.subrange(start as int, n as int),
            start == (if s.len() > 0 && (s[0] == '+' || s[0] == '-') { 1int } else { 0int }),
            d == (if start == 1 { s.skip(1) } else { s }),
            neg == (s[0] == '-'),
            forall|j: int| start <= j < i ==> is_digit(#[trigger] s[j]),
            acc == -digits_value(s.subrange(start as int, i as int)),
            acc <= 0,
            s == text@,
        decreases n - i,
    {
        let c = cs[i];
        if !('0' <= c && c <= '9') {
            assert(d[i - start] == c);
            return 0;
        }
        let dv = (c as u32 - '0' as u32) as i64;
        assert(dv == digit_value(c));
        assert(s.subrange(start as int, i + 1).drop_last() =~= s.subrange(start as int, i as int));
        assert(digits_value(s.subrange(start as int, i + 1)) == digits_value(
            s.subrange(start as int, i as int),
        ) * 10 + digit_value(c));
        let ghost prefix = s.subrange(start as int, i + 1);
        match acc.checked_mul(10) {
            None => {
                proof {
                    lemma_i64_overflow(s, start as int, i as int + 1, n as int);
                }
                return 0;
            },
            Some(m) => match m.checked_sub(dv) {
                None => {
                    proof {
                        lemma_i64_overflow(s, start as int, i as int + 1, n as int);
                    }
                    return 0;
                },
                Some(x) => {
                    acc = x;
                },
            },
        }
        i += 1;
    }
    assert(s.subrange(start as int, n as int) =~= d);
    if neg {
        acc
    } else {
        if acc == i64::MIN {
            0
        } else {
            -acc
        }
    }
}

/// Once a prefix of the digits exceeds 2^63, the whole number fits no `i64`.
proof fn lemma_i64_overflow(s: Seq<char>, start: int, k: int, n: int)
    requires
        0 <= start < k <= n == s.len(),
        start == (if s.len() > 0 && (s[0] == '+' || s[0] == '-') { 1int } else { 0int }),
        forall|j: int| start <= j < k - 1 ==> is_digit(#[trigger] s[j]),
        is_digit(s[k - 1]),
        digits_value(s.subrange(start, k)) > 0x8000_0000_0000_0000,
    ensures
        i64_text_value(s) is None,
{
    let signed = s.len() > 0 && (s[0] == '+' || s[0] == '-');
    let d = if signed { s.skip(1) } else { s };
    if all_digits(d) {
        assert(d =~= s.subrange(start, n));
        assert(d.subrange(0, k - start) =~= s.subrange(start, k));
        lemma_digits_value_prefix(d, k - start);
    }
}

// ---------------------------------------------------------------------
// The grammar
// ---------------------------------------------------------------------

/// A binary node.
pub open spec fn binary(line: int, op: OpKind, left: Node, right: Node, compare: bool) -> Node {
    Node {
        line,
        tree: if compare {
            Tree::Compare(op, Box::new(left), Box::new(right))
        } else {
            Tree::BinOp(op, Box::new(left), Box::new(right))
        },
    }
}

/// An expression: a comparison chain.
#[verifier::opaque]
pub open spec fn p_expression(t: Seq<SpecToken>, i: int) -> ParseResult
    decreases t.len() - i, 21nat,
{
    p_comparison(t, i)
}

/// Terms joined left to right by comparison operators.
#[verifier::opaque]
pub open spec fn p_comparison(t: Seq<SpecToken>, i: int) -> ParseResult
    decreases t.len() - i, 20nat,
{
    match p_term(t, i) {
        Err(e) => Err(e),
        Ok((left, j)) => if i <= j <= t.len() {
            comparison_rest(t, left, j)
        } else {
            Ok((left, j))
        },
    }
}

#[verifier::opaque]
pub open spec fn comparison_rest(t: Seq<SpecToken>, left: Node, i: int) -> ParseResult
    decreases t.len() - i, 19nat,
{
    if !at_end(t, i) && is_compare_kind(t[i].kind) {
        match p_term(t, i + 1) {
            Err(e) => Err(e),
            Ok((right, j)) => if i < j <= t.len() {
                comparison_rest(t, binary(t[j - 1].line, op_of(t[i].kind), left, right, true), j)
            } else {
                Ok((left, i))
            },
        }
    } else {
        Ok((left, i))
    }
}

/// Factors joined left to right by `+` and `-`.
#[verifier::opaque]
pub open spec fn p_term(t: Seq<SpecToken>, i: int) -> ParseResult
    decreases t.len() - i, 18nat,
{
    match p_factor(t, i) {
        Err(e) => Err(e),
        Ok((left, j)) => if i <= j <= t.len() {
            term_rest(t, left, j)
        } else {
            Ok((left, j))
        },
    }
}

#[verifier::opaque]
pub open spec fn term_rest(t: Seq<SpecToken>, left: Node, i: int) -> ParseResult
    decreases t.len() - i, 17nat,
{
    if !at_end(t, i) && is_term_kind(t[i].kind) {
        match p_factor(t, i + 1) {
            Err(e) => Err(e),
            Ok((right, j)) => if i < j <= t.len() {
                term_rest(t, binary(t[j - 1].line, op_of(t[i].kind), left, right, false), j)
            } else {
                Ok((left, i))
            },
        }
    } else {
        Ok((left, i))
    }
}

/// Unary expressions joined left to right by `*`, `/` and `%`.
#[verifier::opaque]
pub open spec fn p_factor(t: Seq<SpecToken>, i: int) -> ParseResult
    decreases t.len() - i, 16nat,
{
    match p_unary(t, i) {
        Err(e) => Err(e),
        Ok((left, j)) => if i <= j <= t.len() {
            factor_rest(t, left, j)
        } else {
            Ok((left, j))
        },
    }
}

#[verifier::opaque]
pub open spec fn factor_rest(t: Seq<SpecToken>, left: Node, i: int) -> ParseResult
    decreases t.len() - i, 15nat,
{
    if !at_end(t, i) && is_factor_kind(t[i].kind) {
        match p_unary(t, i + 1) {
            Err(e) => Err(e),
            Ok((right, j)) => if i < j <= t.len() {
                factor_rest(t, binary(t[j - 1].line, op_of(t[i].kind), left, right, false), j)
            } else {
                Ok((left, i))
            },
        }
    } else {
        Ok((left, i))
    }
}

/// Any number of `-` before a postfix expression.
#[verifier::opaque]
pub open spec fn p_unary(t: Seq<SpecToken>, i: int) -> ParseResult
    decreases t.len() - i, 14nat,
{
    if check(t, i, TokenKind::Minus) {
        match p_unary(t, i + 1) {
            Err(e) => Err(e),
            Ok((operand, j)) => Ok(
                (Node { line: t[j - 1].line, tree: Tree::UnaryOp(OpKind::Neg, Box::new(operand)) }, j),
            ),
        }
    } else {
        p_postfix(t, i)
    }
}

/// A primary followed by calls, attribute accesses and indexes.
#[verifier::opaque]
pub open spec fn p_postfix(t: Seq<SpecToken>, i: int) -> ParseResult
    decreases t.len() - i, 13nat,
{
    match p_primary(t, i) {
        Err(e) => Err(e),
        Ok((e, j)) => if i <= j <= t.len() {
            postfix_rest(t, e, j)
        } else {
            Ok((e, j))
        },
    }
}

#[verifier::opaque]
pub open spec fn postfix_rest(t: Seq<SpecToken>, e: Node, i: int) -> ParseResult
    decreases t.len() - i, 12nat,
{
    if check(t, i, TokenKind::Lparen) {
        match p_finish_call(t, e, i + 1) {
            Err(err) => Err(err),
            Ok((c, j)) => if i < j <= t.len() {
                postfix_rest(t, c, j)
            } else {
                Ok((e, i))
            },
        }
    } else if check(t, i, TokenKind::Dot) {
        if check(t, i + 1, TokenKind::Name) {
            postfix_rest(
                t,
                Node { line: t[i + 1].line, tree: Tree::Attribute(Box::new(e), t[i + 1].lexeme) },
                i + 2,
            )
        } else {
            Err(ParseError::ExpectedToken)
        }
    } else if check(t, i, TokenKind::Lbracket) {
        match p_expression(t, i + 1) {
            Err(err) => Err(err),
            Ok((index, j)) => if check(t, j, TokenKind::Rbracket) {
                if i < j + 1 <= t.len() {
                    postfix_rest(
                        t,
                        Node { line: t[j].line, tree: Tree::Subscript(Box::new(e), Box::new(index)) },
                        j + 1,
                    )
                } else {
                    Ok((e, i))
                }
            } else {
                Err(ParseError::ExpectedToken)
            },
        }
    } else {
        Ok((e, i))
    }
}

/// The arguments of a call after its `(`, and the `)`.
#[verifier::opaque]
pub open spec fn p_finish_call(t: Seq<SpecToken>, func: Node, i: int) -> ParseResult
    decreases t.len() - i, 22nat,
{
    let line = t[i - 1].line;
    if check(t, i, TokenKind::Rparen) {
        Ok((Node { line, tree: Tree::Call(Box::new(func), Seq::empty()) }, i + 1))
    } else {
        match p_expression(t, i) {
            Err(e) => Err(e),
            Ok((first, j)) => if i <= j <= t.len() {
                match args_rest(t, seq![first], j) {
                    Err(e) => Err(e),
                    Ok((args, k)) => if check(t, k, TokenKind::Rparen) {
                        Ok((Node { line, tree: Tree::Call(Box::new(func), args) }, k + 1))
                    } else {
                        Err(ParseError::ExpectedToken)
                    },
                }
            } else {
                Ok((func, i))
            },
        }
    }
}

/// Further arguments, each after a `,`.
#[verifier::opaque]
pub open spec fn args_rest(t: Seq<SpecToken>, acc: Seq<Node>, i: int) -> ParseSeqResult
    decreases t.len() - i, 10nat,
{
    if check(t, i, TokenKind::Comma) {
        match p_expression(t, i + 1) {
            Err(e) => Err(e),
            Ok((a, j)) => if i < j <= t.len() {
                args_rest(t, acc.push(a), j)
            } else {
                Ok((acc, i))
            },
        }
    } else {
        Ok((acc, i))
    }
}

/// A name, a literal, or a parenthesized expression.
#[verifier::opaque]
pub open spec fn p_primary(t: Seq<SpecToken>, i: int) -> ParseResult
    decreases t.len() - i, 11nat,
{
    if check(t, i, TokenKind::Name) {
        Ok((Node { line: t[i].line, tree: Tree::Name(t[i].lexeme) }, i + 1))
    } else if check(t, i, TokenKind::Int) {
        Ok((Node { line: t[i].line, tree: Tree::Int(int_literal(t[i].lexeme)) }, i + 1))
    } else if check(t, i, TokenKind::Float) {
        Ok((Node { line: t[i].line, tree: Tree::Float(t[i].lexeme) }, i + 1))
    } else if check(t, i, TokenKind::String) {
        Ok((Node { line: t[i].line, tree: Tree::Str(t[i].lexeme) }, i + 1))
    } else if check(t, i, TokenKind::Lparen) {
        match p_expression(t, i + 1) {
            Err(e) => Err(e),
            Ok((e, j)) => if check(t, j, TokenKind::Rparen) {
                Ok((e, j + 1))
            } else {
                Err(ParseError::ExpectedToken)
            },
        }
    } else {
        Err(ParseError::ExpectedExpression)
    }
}

/// Parameter names after the `(` of a definition, separated by `,`.
#[verifier::opaque]
pub open spec fn p_params(t: Seq<SpecToken>, i: int) -> Result<(Seq<Seq<char>>, int), ParseError> {
    if check(t, i, TokenKind::Rparen) {
        Ok((Seq::empty(), i))
    } else if check(t, i, TokenKind::Name) {
        params_rest(t, seq![t[i].lexeme], i + 1)
    } else {
        Err(ParseError::ExpectedToken)
    }
}

#[verifier::opaque]
pub open spec fn params_rest(t: Seq<SpecToken>, acc: Seq<Seq<char>>, i: int) -> Result<(Seq<Seq<char>>, int), ParseError>
    decreases t.len() - i,
{
    if check(t, i, TokenKind::Comma) {
        if check(t, i + 1, TokenKind::Name) {
            params_rest(t, acc.push(t[i + 1].lexeme), i + 2)
        } else {
            Err(ParseError::ExpectedToken)
        }
    } else {
        Ok((acc, i))
    }
}

/// A statement: a definition, a conditional, a loop, a return, `pass`, an
/// assignment, or an expression.
#[verifier::opaque]
pub open spec fn p_statement(t: Seq<SpecToken>, i: int) -> ParseResult
    decreases t.len() - i, 40nat,
{
    if check(t, i, TokenKind::Def) {
        p_function_def(t, i + 1)
    } else if check(t, i, TokenKind::If) {
        p_if(t, i + 1)
    } else if check(t, i, TokenKind::While) {
        p_while(t, i + 1)
    } else if check(t, i, TokenKind::Return) {
        p_return(t, i + 1)
    } else if check(t, i, TokenKind::Pass) {
        Ok((Node { line: t[i].line, tree: Tree::Pass }, i + 1))
    } else {
        p_expr_or_assign(t, i)
    }
}

/// `def name(params):` and a block, after the `def`.
#[verifier::opaque]
pub open spec fn p_function_def(t: Seq<SpecToken>, i: int) -> ParseResult
    decreases t.len() - i, 38nat,
{
    let line = t[i - 1].line;
    if !check(t, i, TokenKind::Name) || !check(t, i + 1, TokenKind::Lparen) {
        Err(ParseError::ExpectedToken)
    } else {
        match p_params(t, i + 2) {
            Err(e) => Err(e),
            Ok((params, j)) => if !check(t, j, TokenKind::Rparen) || !check(t, j + 1, TokenKind::Colon) {
                Err(ParseError::ExpectedToken)
            } else if i < j + 2 <= t.len() {
                match p_block(t, j + 2) {
                    Err(e) => Err(e),
                    Ok((body, k)) => Ok(
                        (Node { line, tree: Tree::FunctionDef(t[i].lexeme, params, body) }, k),
                    ),
                }
            } else {
                Err(ParseError::ExpectedToken)
            },
        }
    }
}

/// `if test:` and a block, then `else:` and statements up to the end of
/// the enclosing block, after the `if`.
#[verifier::opaque]
pub open spec fn p_if(t: Seq<SpecToken>, i: int) -> ParseResult
    decreases t.len() - i, 38nat,
{
    let line = t[i - 1].line;
    match p_expression(t, i) {
        Err(e) => Err(e),
        Ok((test, j)) => if !check(t, j, TokenKind::Colon) {
            Err(ParseError::ExpectedToken)
        } else if i <= j {
            match p_block(t, j + 1) {
                Err(e) => Err(e),
                Ok((body, k)) => if check(t, k, TokenKind::Else) {
                    if !check(t, k + 1, TokenKind::Colon) {
                        Err(ParseError::ExpectedToken)
                    } else if i < k + 2 <= t.len() {
                        match dedent_loop(t, k + 2, Seq::empty()) {
                            Err(e) => Err(e),
                            Ok((orelse, m)) => Ok(
                                (Node { line, tree: Tree::If(Box::new(test), body, orelse) }, m),
                            ),
                        }
                    } else {
                        Err(ParseError::ExpectedToken)
                    }
                } else {
                    Ok((Node { line, tree: Tree::If(Box::new(test), body, Seq::empty()) }, k))
                },
            }
        } else {
            Err(ParseError::ExpectedToken)
        },
    }
}

/// `while test:` and a block, after the `while`.
#[verifier::opaque]
pub open spec fn p_while(t: Seq<SpecToken>, i: int) -> ParseResult
    decreases t.len() - i, 38nat,
{
    let line = t[i - 1].line;
    match p_expression(t, i) {
        Err(e) => Err(e),
        Ok((test, j)) => if !check(t, j, TokenKind::Colon) {
            Err(ParseError::ExpectedToken)
        } else if i <= j {
            match p_block(t, j + 1) {
                Err(e) => Err(e),
                Ok((body, k)) => Ok((Node { line, tree: Tree::While(Box::new(test), body) }, k)),
            }
        } else {
            Err(ParseError::ExpectedToken)
        },
    }
}

/// `return` with an optional value, after the `return`.
#[verifier::opaque]
pub open spec fn p_return(t: Seq<SpecToken>, i: int) -> ParseResult {
    let line = t[i - 1].line;
    if check(t, i, TokenKind::Newline) || at_end(t, i) {
        Ok((Node { line, tree: Tree::Return(None) }, i))
    } else {
        match p_expression(t, i) {
            Err(e) => Err(e),
            Ok((v, j)) => Ok((Node { line, tree: Tree::Return(Some(Box::new(v))) }, j)),
        }
    }
}

/// An expression statement, or `name = value`.
#[verifier::opaque]
pub open spec fn p_expr_or_assign(t: Seq<SpecToken>, i: int) -> ParseResult {
    match p_expression(t, i) {
        Err(e) => Err(e),
        Ok((expr, j)) => if check(t, j, TokenKind::Equal) {
            match expr.tree {
                Tree::Name(name) => match p_expression(t, j + 1) {
                    Err(e) => Err(e),
                    Ok((value, k)) => Ok(
                        (Node { line: expr.line, tree: Tree::Assign(name, Box::new(value)) }, k),
                    ),
                },
                _ => Err(ParseError::InvalidAssignmentTarget),
            }
        } else {
            Ok((Node { line: expr.line, tree: Tree::ExprStmt(Box::new(expr)) }, j))
        },
    }
}

/// A line break, an indentation, statements, and the matching dedent.
#[verifier::opaque]
pub open spec fn p_block(t: Seq<SpecToken>, i: int) -> ParseSeqResult
    decreases t.len() - i, 37nat,
{
    if !check(t, i, TokenKind::Newline) || !check(t, i + 1, TokenKind::Indent) {
        Err(ParseError::ExpectedToken)
    } else {
        match dedent_loop(t, i + 2, Seq::empty()) {
            Err(e) => Err(e),
            Ok((body, j)) => if check(t, j, TokenKind::Dedent) {
                Ok((body, j + 1))
            } else {
                Err(ParseError::ExpectedToken)
            },
        }
    }
}

/// Statements, with blank lines between them, up to a dedent or the end.
#[verifier::opaque]
pub open spec fn dedent_loop(t: Seq<SpecToken>, i: int, acc: Seq<Node>) -> ParseSeqResult
    decreases t.len() - i, 41nat,
{
    if check(t, i, TokenKind::Dedent) || at_end(t, i) {
        Ok((acc, i))
    } else {
        let k = skip_newlines(t, i);
        if check(t, k, TokenKind::Dedent) || at_end(t, k) {
            Ok((acc, k))
        } else {
            proof {
                lemma_skip_newlines(t, i);
            }
            match p_statement(t, k) {
                Err(e) => Err(e),
                Ok((s, j)) => {
                    let m = skip_newlines(t, j);
                    if i < m <= t.len() {
                        dedent_loop(t, m, acc.push(s))
                    } else {
                        Ok((acc, i))
                    }
                },
            }
        }
    }
}

/// The statements of a module, with blank lines between them.
#[verifier::opaque]
pub open spec fn module_loop(t: Seq<SpecToken>, i: int, acc: Seq<Node>) -> ParseSeqResult
    decreases t.len() - i,
{
    if at_end(t, i) {
        Ok((acc, i))
    } else {
        match p_statement(t, i) {
            Err(e) => Err(e),
            Ok((s, j)) => {
                let m = skip_newlines(t, j);
                if i < m <= t.len() {
                    module_loop(t, m, acc.push(s))
                } else {
                    Ok((acc, i))
                }
            },
        }
    }
}

/// A module: leading blank lines, then statements to the end.
#[verifier::opaque]
pub open spec fn p_module(t: Seq<SpecToken>, i: int) -> ParseResult {
    match module_loop(t, skip_newlines(t, i), Seq::empty()) {
        Err(e) => Err(e),
        Ok((body, j)) => Ok((Node { line: 1, tree: Tree::Module(body) }, j)),
    }
}


/// One step of `p_expression`.
pub proof fn lemma_unfold_p_expression(t: Seq<SpecToken>, i: int)
    ensures
        p_expression(t, i) == ({
        p_comparison(t, i)
        }),
{
    reveal(p_expression);
    reveal(p_comparison);
}

/// One step of `p_comparison`.
pub proof fn lemma_unfold_p_comparison(t: Seq<SpecToken>, i: int)
    ensures
        p_comparison(t, i) == ({
        match p_term(t, i) {
            Err(e) => Err(e),
            Ok((left, j)) => if i <= j <= t.len() {
                comparison_rest(t, left, j)
            } else {
                Ok((left, j))
            },
        }
        }),
{
    reveal(p_comparison);
    reveal(comparison_rest);
    reveal(p_term);
}

/// One step of `comparison_rest`.
pub proof fn lemma_unfold_comparison_rest(t: Seq<SpecToken>, left: Node, i: int)
    ensures
        comparison_rest(t, left, i) == ({
        if !at_end(t, i) && is_compare_kind(t[i].kind) {
            match p_term(t, i + 1) {
                Err(e) => Err(e),
                Ok((right, j)) => if i < j <= t.len() {
                    comparison_rest(t, binary(t[j - 1].line, op_of(t[i].kind), left, right, true), j)
                } else {
                    Ok((left, i))
                },
            }
        } else {
            Ok((left, i))
        }
        }),
{
    reveal(comparison_rest);
    reveal(p_term);
}

/// One step of `p_term`.
pub proof fn lemma_unfold_p_term(t: Seq<SpecToken>, i: int)
    ensures
        p_term(t, i) == ({
        match p_factor(t, i) {
            Err(e) => Err(e),
            Ok((left, j)) => if i <= j <= t.len() {
                term_rest(t, left, j)
            } else {
                Ok((left, j))
            },
        }
        }),
{
    reveal(p_term);
    reveal(term_rest);
    reveal(p_factor);
}

/// One step of `term_rest`.
pub proof fn lemma_unfold_term_rest(t: Seq<SpecToken>, left: Node, i: int)
    ensures
        term_rest(t, left, i) == ({
        if !at_end(t, i) && is_term_kind(t[i].kind) {
            match p_factor(t, i + 1) {
                Err(e) => Err(e),
                Ok((right, j)) => if i < j <= t.len() {
                    term_rest(t, binary(t[j - 1].line, op_of(t[i].kind), left, right, false), j)
                } else {
                    Ok((left, i))
                },
            }
        } else {
            Ok((left, i))
        }
        }),
{
    reveal(term_rest);
    reveal(p_factor);
}

/// One step of `p_factor`.
pub proof fn lemma_unfold_p_factor(t: Seq<SpecToken>, i: int)
    ensures
        p_factor(t, i) == ({
        match p_unary(t, i) {
            Err(e) => Err(e),
            Ok((left, j)) => if i <= j <= t.len() {
                factor_rest(t, left, j)
            } else {
                Ok((left, j))
            },
        }
        }),
{
    reveal(p_factor);
    reveal(factor_rest);
    reveal(p_unary);
}

/// One step of `factor_rest`.
pub proof fn lemma_unfold_factor_rest(t: Seq<SpecToken>, left: Node, i: int)
    ensures
        factor_rest(t, left, i) == ({
        if !at_end(t, i) && is_factor_kind(t[i].kind) {
            match p_unary(t, i + 1) {
                Err(e) => Err(e),
                Ok((right, j)) => if i < j <= t.len() {
                    factor_rest(t, binary(t[j - 1].line, op_of(t[i].kind), left, right, false), j)
                } else {
                    Ok((left, i))
                },
            }
        } else {
            Ok((left, i))
        }
        }),
{
    reveal(factor_rest);
    reveal(p_unary);
}

/// One step of `p_unary`.
pub proof fn lemma_unfold_p_unary(t: Seq<SpecToken>, i: int)
    ensures
        p_unary(t, i) == ({
        if check(t, i, TokenKind::Minus) {
            match p_unary(t, i + 1) {
                Err(e) => Err(e),
                Ok((operand, j)) => Ok(
                    (Node { line: t[j - 1].line, tree: Tree::UnaryOp(OpKind::Neg, Box::new(operand)) }, j),
                ),
            }
        } else {
            p_postfix(t, i)
        }
        }),
{
    reveal(p_unary);
    reveal(p_postfix);
}

/// One step of `p_postfix`.
pub proof fn lemma_unfold_p_postfix(t: Seq<SpecToken>, i: int)
    ensures
        p_postfix(t, i) == ({
        match p_primary(t, i) {
            Err(e) => Err(e),
            Ok((e, j)) => if i <= j <= t.len() {
                postfix_rest(t, e, j)
            } else {
                Ok((e, j))
            },
        }
        }),
{
    reveal(p_postfix);
    reveal(postfix_rest);
    reveal(p_primary);
}

/// One step of `postfix_rest`.
pub proof fn lemma_unfold_postfix_rest(t: Seq<SpecToken>, e: Node, i: int)
    ensures
        postfix_rest(t, e, i) == ({
        if check(t, i, TokenKind::Lparen) {
            match p_finish_call(t, e, i + 1) {
                Err(err) => Err(err),
                Ok((c, j)) => if i < j <= t.len() {
                    postfix_rest(t, c, j)
                } else {
                    Ok((e, i))
                },
            }
        } else if check(t, i, TokenKind::Dot) {
            if check(t, i + 1, TokenKind::Name) {
                postfix_rest(
                    t,
                    Node { line: t[i + 1].line, tree: Tree::Attribute(Box::new(e), t[i + 1].lexeme) },
                    i + 2,
                )
            } else {
                Err(ParseError::ExpectedToken)
            }
        } else if check(t, i, TokenKind::Lbracket) {
            match p_expression(t, i + 1) {
                Err(err) => Err(err),
                Ok((index, j)) => if check(t, j, TokenKind::Rbracket) {
                    if i < j + 1 <= t.len() {
                        postfix_rest(
                            t,
                            Node { line: t[j].line, tree: Tree::Subscript(Box::new(e), Box::new(index)) },
                            j + 1,
                        )
                    } else {
                        Ok((e, i))
                    }
                } else {
                    Err(ParseError::ExpectedToken)
                },
            }
        } else {
            Ok((e, i))
        }
        }),
{
    reveal(postfix_rest);
    reveal(p_expression);
    reveal(p_finish_call);
}

/// One step of `p_finish_call`.
pub proof fn lemma_unfold_p_finish_call(t: Seq<SpecToken>, func: Node, i: int)
    ensures
        p_finish_call(t, func, i) == ({
        let line = t[i - 1].line;
        if check(t, i, TokenKind::Rparen) {
            Ok((Node { line, tree: Tree::Call(Box::new(func), Seq::empty()) }, i + 1))
        } else {
            match p_expression(t, i) {
                Err(e) => Err(e),
                Ok((first, j)) => if i <= j <= t.len() {
                    match args_rest(t, seq![first], j) {
                        Err(e) => Err(e),
                        Ok((args, k)) => if check(t, k, TokenKind::Rparen) {
                            Ok((Node { line, tree: Tree::Call(Box::new(func), args) }, k + 1))
                        } else {
                            Err(ParseError::ExpectedToken)
                        },
                    }
                } else {
                    Ok((func, i))
                },
            }
        }
        }),
{
    reveal(p_finish_call);
    reveal(p_expression);
    reveal(args_rest);
}

/// One step of `args_rest`.
pub proof fn lemma_unfold_args_rest(t: Seq<SpecToken>, acc: Seq<Node>, i: int)
    ensures
        args_rest(t, acc, i) == ({
        if check(t, i, TokenKind::Comma) {
            match p_expression(t, i + 1) {
                Err(e) => Err(e),
                Ok((a, j)) => if i < j <= t.len() {
                    args_rest(t, acc.push(a), j)
                } else {
                    Ok((acc, i))
                },
            }
        } else {
            Ok((acc, i))
        }
        }),
{
    reveal(args_rest);
    reveal(p_expression);
}

/// One step of `p_primary`.
pub proof fn lemma_unfold_p_primary(t: Seq<SpecToken>, i: int)
    ensures
        p_primary(t, i) == ({
        if check(t, i, TokenKind::Name) {
            Ok((Node { line: t[i].line, tree: Tree::Name(t[i].lexeme) }, i + 1))
        } else if check(t, i, TokenKind::Int) {
            Ok((Node { line: t[i].line, tree: Tree::Int(int_literal(t[i].lexeme)) }, i + 1))
        } else if check(t, i, TokenKind::Float) {
            Ok((Node { line: t[i].line, tree: Tree::Float(t[i].lexeme) }, i + 1))
        } else if check(t, i, TokenKind::String) {
            Ok((Node { line: t[i].line, tree: Tree::Str(t[i].lexeme) }, i + 1))
        } else if check(t, i, TokenKind::Lparen) {
            match p_expression(t, i + 1) {
                Err(e) => Err(e),
                Ok((e, j)) => if check(t, j, TokenKind::Rparen) {
                    Ok((e, j + 1))
                } else {
                    Err(ParseError::ExpectedToken)
                },
            }
        } else {
            Err(ParseError::ExpectedExpression)
        }
        }),
{
    reveal(p_primary);
    reveal(p_expression);
}

/// One step of `p_params`.
pub proof fn lemma_unfold_p_params(t: Seq<SpecToken>, i: int)
    ensures
        p_params(t, i) == ({
        if check(t, i, TokenKind::Rparen) {
            Ok((Seq::empty(), i))
        } else if check(t, i, TokenKind::Name) {
            params_rest(t, seq![t[i].lexeme], i + 1)
        } else {
            Err(ParseError::ExpectedToken)
        }
        }),
{
    reveal(p_params);
    reveal(params_rest);
}

/// One step of `params_rest`.
pub proof fn lemma_unfold_params_rest(t: Seq<SpecToken>, acc: Seq<Seq<char>>, i: int)
    ensures
        params_rest(t, acc, i) == ({
        if check(t, i, TokenKind::Comma) {
            if check(t, i + 1, TokenKind::Name) {
                params_rest(t, acc.push(t[i + 1].lexeme), i + 2)
            } else {
                Err(ParseError::ExpectedToken)
            }
        } else {
            Ok((acc, i))
        }
        }),
{
    reveal(params_rest);
}

/// One step of `p_statement`.
pub proof fn lemma_unfold_p_statement(t: Seq<SpecToken>, i: int)
    ensures
        p_statement(t, i) == ({
        if check(t, i, TokenKind::Def) {
            p_function_def(t, i + 1)
        } else if check(t, i, TokenKind::If) {
            p_if(t, i + 1)
        } else if check(t, i, TokenKind::While) {
            p_while(t, i + 1)
        } else if check(t, i, TokenKind::Return) {
            p_return(t, i + 1)
        } else if check(t, i, TokenKind::Pass) {
            Ok((Node { line: t[i].line, tree: Tree::Pass }, i + 1))
        } else {
            p_expr_or_assign(t, i)
        }
        }),
{
    reveal(p_statement);
    reveal(p_function_def);
    reveal(p_if);
    reveal(p_while);
    reveal(p_return);
    reveal(p_expr_or_assign);
}

/// One step of `p_function_def`.
pub proof fn lemma_unfold_p_function_def(t: Seq<SpecToken>, i: int)
    ensures
        p_function_def(t, i) == ({
        let line = t[i - 1].line;
        if !check(t, i, TokenKind::Name) || !check(t, i + 1, TokenKind::Lparen) {
            Err(ParseError::ExpectedToken)
        } else {
            match p_params(t, i + 2) {
                Err(e) => Err(e),
                Ok((params, j)) => if !check(t, j, TokenKind::Rparen) || !check(t, j + 1, TokenKind::Colon) {
                    Err(ParseError::ExpectedToken)
                } else if i < j + 2 <= t.len() {
                    match p_block(t, j + 2) {
                        Err(e) => Err(e),
                        Ok((body, k)) => Ok(
                            (Node { line, tree: Tree::FunctionDef(t[i].lexeme, params, body) }, k),
                        ),
                    }
                } else {
                    Err(ParseError::ExpectedToken)
                },
            }
        }
        }),
{
    reveal(p_function_def);
    reveal(p_params);
    reveal(p_block);
}

/// One step of `p_if`.
pub proof fn lemma_unfold_p_if(t: Seq<SpecToken>, i: int)
    ensures
        p_if(t, i) == ({
        let line = t[i - 1].line;
        match p_expression(t, i) {
            Err(e) => Err(e),
            Ok((test, j)) => if !check(t, j, TokenKind::Colon) {
                Err(ParseError::ExpectedToken)
            } else if i <= j {
                match p_block(t, j + 1) {
                    Err(e) => Err(e),
                    Ok((body, k)) => if check(t, k, TokenKind::Else) {
                        if !check(t, k + 1, TokenKind::Colon) {
                            Err(ParseError::ExpectedToken)
                        } else if i < k + 2 <= t.len() {
                            match dedent_loop(t, k + 2, Seq::empty()) {
                                Err(e) => Err(e),
                                Ok((orelse, m)) => Ok(
                                    (Node { line, tree: Tree::If(Box::new(test), body, orelse) }, m),
                                ),
                            }
                        } else {
                            Err(ParseError::ExpectedToken)
                        }
                    } else {
                        Ok((Node { line, tree: Tree::If(Box::new(test), body, Seq::empty()) }, k))
                    },
                }
            } else {
                Err(ParseError::ExpectedToken)
            },
        }
        }),
{
    reveal(p_if);
    reveal(p_expression);
    reveal(p_block);
    reveal(dedent_loop);
}

/// One step of `p_while`.
pub proof fn lemma_unfold_p_while(t: Seq<SpecToken>, i: int)
    ensures
        p_while(t, i) == ({
        let line = t[i - 1].line;
        match p_expression(t, i) {
            Err(e) => Err(e),
            Ok((test, j)) => if !check(t, j, TokenKind::Colon) {
                Err(ParseError::ExpectedToken)
            } else if i <= j {
                match p_block(t, j + 1) {
                    Err(e) => Err(e),
                    Ok((body, k)) => Ok((Node { line, tree: Tree::While(Box::new(test), body) }, k)),
                }
            } else {
                Err(ParseError::ExpectedToken)
            },
        }
        }),
{
    reveal(p_while);
    reveal(p_expression);
    reveal(p_block);
}

/// One step of `p_return`.
pub proof fn lemma_unfold_p_return(t: Seq<SpecToken>, i: int)
    ensures
        p_return(t, i) == ({
        let line = t[i - 1].line;
        if check(t, i, TokenKind::Newline) || at_end(t, i) {
            Ok((Node { line, tree: Tree::Return(None) }, i))
        } else {
            match p_expression(t, i) {
                Err(e) => Err(e),
                Ok((v, j)) => Ok((Node { line, tree: Tree::Return(Some(Box::new(v))) }, j)),
            }
        }
        }),
{
    reveal(p_return);
    reveal(p_expression);
}

/// One step of `p_expr_or_assign`.
pub proof fn lemma_unfold_p_expr_or_assign(t: Seq<SpecToken>, i: int)
    ensures
        p_expr_or_assign(t, i) == ({
        match p_expression(t, i) {
            Err(e) => Err(e),
            Ok((expr, j)) => if check(t, j, TokenKind::Equal) {
                match expr.tree {
                    Tree::Name(name) => match p_expression(t, j + 1) {
                        Err(e) => Err(e),
                        Ok((value, k)) => Ok(
                            (Node { line: expr.line, tree: Tree::Assign(name, Box::new(value)) }, k),
                        ),
                    },
                    _ => Err(ParseError::InvalidAssignmentTarget),
                }
            } else {
                Ok((Node { line: expr.line, tree: Tree::ExprStmt(Box::new(expr)) }, j))
            },
        }
        }),
{
    reveal(p_expr_or_assign);
    reveal(p_expression);
}

/// One step of `p_block`.
pub proof fn lemma_unfold_p_block(t: Seq<SpecToken>, i: int)
    ensures
        p_block(t, i) == ({
        if !check(t, i, TokenKind::Newline) || !check(t, i + 1, TokenKind::Indent) {
            Err(ParseError::ExpectedToken)
        } else {
            match dedent_loop(t, i + 2, Seq::empty()) {
                Err(e) => Err(e),
                Ok((body, j)) => if check(t, j, TokenKind::Dedent) {
                    Ok((body, j + 1))
                } else {
                    Err(ParseError::ExpectedToken)
                },
            }
        }
        }),
{
    reveal(p_block);
    reveal(dedent_loop);
}

/// One step of `dedent_loop`.
pub proof fn lemma_unfold_dedent_loop(t: Seq<SpecToken>, i: int, acc: Seq<Node>)
    ensures
        dedent_loop(t, i, acc) == ({
        if check(t, i, TokenKind::Dedent) || at_end(t, i) {
            Ok((acc, i))
        } else {
            let k = skip_newlines(t, i);
            if check(t, k, TokenKind::Dedent) || at_end(t, k) {
                Ok((acc, k))
            } else {
                match p_statement(t, k) {
                    Err(e) => Err(e),
                    Ok((s, j)) => {
                        let m = skip_newlines(t, j);
                        if i < m <= t.len() {
                            dedent_loop(t, m, acc.push(s))
                        } else {
                            Ok((acc, i))
                        }
                    },
                }
            }
        }
        }),
{
    reveal(dedent_loop);
    reveal(p_statement);
}

/// One step of `module_loop`.
pub proof fn lemma_unfold_module_loop(t: Seq<SpecToken>, i: int, acc: Seq<Node>)
    ensures
        module_loop(t, i, acc) == ({
        if at_end(t, i) {
            Ok((acc, i))
        } else {
            match p_statement(t, i) {
                Err(e) => Err(e),
                Ok((s, j)) => {
                    let m = skip_newlines(t, j);
                    if i < m <= t.len() {
                        module_loop(t, m, acc.push(s))
                    } else {
                        Ok((acc, i))
                    }
                },
            }
        }
        }),
{
    reveal(module_loop);
    reveal(p_statement);
}

/// One step of `p_module`.
pub proof fn lemma_unfold_p_module(t: Seq<SpecToken>, i: int)
    ensures
        p_module(t, i) == ({
        match module_loop(t, skip_newlines(t, i), Seq::empty()) {
            Err(e) => Err(e),
            Ok((body, j)) => Ok((Node { line: 1, tree: Tree::Module(body) }, j)),
        }
        }),
{
    reveal(p_module);
    reveal(module_loop);
}

/// An expression parse ended as the grammar says: the same error, or the
/// same tree with the cursor after it, having consumed at least one token.
pub open spec fn boxed_outcome(
    r: Result<Box<AstNode>, ParseError>,
    s: ParseResult,
    start: int,
    end: int,
    len: int,
) -> bool {
    match s {
        Ok((n, j)) => match r {
            Ok(b) => node_view(*b) == n && end == j && start < j <= len,
            Err(_) => false,
        },
        Err(e) => r == Err::<Box<AstNode>, ParseError>(e),
    }
}

/// A statement parse ended as the grammar says.
pub open spec fn node_outcome(r: Result<AstNode, ParseError>, s: ParseResult, start: int, end: int, len: int) -> bool {
    match s {
        Ok((n, j)) => match r {
            Ok(b) => node_view(b) == n && end == j && start <= j <= len,
            Err(_) => false,
        },
        Err(e) => r == Err::<AstNode, ParseError>(e),
    }
}

/// A recursive-descent parser over a vector of tokens.
pub struct Parser {
    tokens: Vec<Token>,
    current: usize,
}

impl Parser {
    /// The tokens, by value.
    pub closed spec fn toks(&self) -> Seq<SpecToken> {
        tokens_view(self.tokens@)
    }

    /// The cursor.
    pub closed spec fn pos(&self) -> int {
        self.current as int
    }

    /// The cursor is within the tokens.
    pub closed spec fn wf(&self) -> bool {
        self.current <= self.tokens@.len()
    }

    /// A parser at the first of `tokens`.
    pub fn new(tokens: Vec<Token>) -> (p: Parser)
        ensures
            p.toks() == tokens_view(tokens@),
            p.pos() == 0,
            p.wf(),
    {
        Parser { tokens, current: 0 }
    }

    fn is_at_end(&self) -> (r: bool)
        ensures
            r == at_end(self.toks(), self.current as int),
    {
        self.current >= self.tokens.len() || self.tokens[self.current].kind == TokenKind::Eof
    }

    fn peek(&self) -> (t: &Token)
        requires
            self.current < self.tokens@.len(),
        ensures
            *t == self.tokens@[self.current as int],
    {
        &self.tokens[self.current]
    }

    fn previous(&self) -> (t: &Token)
        requires
            1 <= self.current <= self.tokens@.len(),
        ensures
            *t == self.tokens@[self.current - 1],
            t@ == self.toks()[self.current - 1],
    {
        &self.tokens[self.current - 1]
    }

    fn advance(&mut self)
        requires
            old(self).wf(),
        ensures
            final(self).wf(),
            final(self).tokens@ == old(self).tokens@,
            final(self).current == if at_end(old(self).toks(), old(self).current as int) {
                old(self).current as int
            } else {
                old(self).current + 1
            },
    {
        if self.current < self.tokens.len() && self.tokens[self.current].kind != TokenKind::Eof {
            self.current += 1;
        }
    }

    fn check(&self, kind: &TokenKind) -> (r: bool)
        ensures
            r == check(self.toks(), self.current as int, *kind),
    {
        if self.is_at_end() {
            false
        } else {
            self.peek().kind == *kind
        }
    }

    fn match_kinds(&mut self, kinds: &[TokenKind]) -> (r: bool)
        requires
            old(self).wf(),
        ensures
            final(self).wf(),
            final(self).tokens@ == old(self).tokens@,
            r == (!at_end(old(self).toks(), old(self).current as int) && kinds@.contains(
                old(self).toks()[old(self).current as int].kind,
            )),
            r ==> final(self).current == old(self).current + 1,
            !r ==> final(self).current == old(self).current,
    {
        let mut i: usize = 0;
        while i < kinds.len()
            invariant
                self.wf(),
                self.tokens@ == old(self).tokens@,
                self.current == old(self).current,
                0 <= i <= kinds@.len(),
                forall|j: int| 0 <= j < i ==> !check(self.toks(), self.current as int, #[trigger] kinds@[j]),
            decreases kinds.len() - i,
        {
            if self.check(&kinds[i]) {
                self.advance();
                return true;
            }
            i += 1;
        }
        false
    }

    fn consume(&mut self, kind: &TokenKind, _message: &str) -> (r: Result<(), ParseError>)
        requires
            old(self).wf(),
        ensures
            final(self).wf(),
            final(self).tokens@ == old(self).tokens@,
            r is Ok == check(old(self).toks(), old(self).current as int, *kind),
            r is Ok ==> final(self).current == old(self).current + 1,
            r is Err ==> r == Err::<(), ParseError>(ParseError::ExpectedToken),
    {
        if self.check(kind) {
            self.advance();
            return Ok(());
        }
        Err(ParseError::ExpectedToken)
    }

    fn previous_operator(&self) -> (op: OpKind)
        requires
            1 <= self.current <= self.tokens@.len(),
        ensures
            op == op_of(self.toks()[self.current - 1].kind),
    {
        match self.previous().kind {
            TokenKind::Plus => OpKind::Add,
            TokenKind::Minus => OpKind::Sub,
            TokenKind::Star => OpKind::Mul,
            TokenKind::Slash => OpKind::Div,
            TokenKind::Percent => OpKind::Mod,
            TokenKind::EqEq => OpKind::Eq,
            TokenKind::Ne => OpKind::Ne,
            TokenKind::Lt => OpKind::Lt,
            TokenKind::Le => OpKind::Le,
            TokenKind::Gt => OpKind::Gt,
            TokenKind::Ge => OpKind::Ge,
            _ => OpKind::Add,
        }
    }

    fn parse_expression(&mut self) -> (r: Result<Box<AstNode>, ParseError>)
        requires
            old(self).wf(),
        ensures
            final(self).wf(),
            final(self).tokens@ == old(self).tokens@,
            boxed_outcome(
                r,
                p_expression(old(self).toks(), old(self).current as int),
                old(self).current as int,
                final(self).current as int,
                old(self).tokens@.len() as int,
            ),
        decreases old(self).tokens@.len() - old(self).current, 21nat,
    {
        proof {
            lemma_unfold_p_expression(self.toks(), self.current as int);
        }
        self.parse_comparison()
    }

    fn parse_comparison(&mut self) -> (r: Result<Box<AstNode>, ParseError>)
        requires
            old(self).wf(),
        ensures
            final(self).wf(),
            final(self).tokens@ == old(self).tokens@,
            boxed_outcome(
                r,
                p_comparison(old(self).toks(), old(self).current as int),
                old(self).current as int,
                final(self).current as int,
                old(self).tokens@.len() as int,
            ),
        decreases old(self).tokens@.len() - old(self).current, 20nat,
    {
        let ghost t = self.toks();
        let ghost i = self.current as int;
        proof {
            lemma_unfold_p_comparison(t, i);
        }
        let mut left = match self.parse_term() {
            Ok(b) => b,
            Err(e) => return Err(e),
        };
        loop
            invariant
                self.wf(),
                self.toks() == t,
                self.tokens@ == old(self).tokens@,
                t == old(self).toks(),
                i == old(self).current,
                i < self.current,
                comparison_rest(t, node_view(*left), self.current as int) == p_comparison(t, i),
            ensures
                comparison_rest(t, node_view(*left), self.current as int) == Ok::<(Node, int), ParseError>(
                    (node_view(*left), self.current as int),
                ),
            decreases t.len() - self.current,
        {
            proof {
                lemma_unfold_comparison_rest(t, node_view(*left), self.current as int);
            }
            if !self.match_kinds(
                &[TokenKind::EqEq, TokenKind::Ne, TokenKind::Lt, TokenKind::Le, TokenKind::Gt, TokenKind::Ge],
            ) {
                break;
            }
            let op = self.previous_operator();
            let right = match self.parse_term() {
                Ok(b) => b,
                Err(e) => return Err(e),
            };
            let line = self.previous().line;
            left = Box::new(AstNode::new_compare(op, left, right, line));
        }
        Ok(left)
    }

    fn parse_term(&mut self) -> (r: Result<Box<AstNode>, ParseError>)
        requires
            old(self).wf(),
        ensures
            final(self).wf(),
            final(self).tokens@ == old(self).tokens@,
            boxed_outcome(
                r,
                p_term(old(self).toks(), old(self).current as int),
                old(self).current as int,
                final(self).current as int,
                old(self).tokens@.len() as int,
            ),
        decreases old(self).tokens@.len() - old(self).current, 18nat,
    {
        let ghost t = self.toks();
        let ghost i = self.current as int;
        proof {
            lemma_unfold_p_term(t, i);
        }
        let mut left = match self.parse_factor() {
            Ok(b) => b,
            Err(e) => return Err(e),
        };
        loop
            invariant
                self.wf(),
                self.toks() == t,
                self.tokens@ == old(self).tokens@,
                t == old(self).toks(),
                i == old(self).current,
                i < self.current,
                term_rest(t, node_view(*left), self.current as int) == p_term(t, i),
            ensures
                term_rest(t, node_view(*left), self.current as int) == Ok::<(Node, int), ParseError>(
                    (node_view(*left), self.current as int),
                ),
            decreases t.len() - self.current,
        {
            proof {
                lemma_unfold_term_rest(t, node_view(*left), self.current as int);
            }
            if !self.match_kinds(&[TokenKind::Plus, TokenKind::Minus]) {
                break;
            }
            let op = self.previous_operator();
            let right = match self.parse_factor() {
                Ok(b) => b,
                Err(e) => return Err(e),
            };
            let line = self.previous().line;
            left = Box::new(AstNode::new_binop(op, left, right, line));
        }
        Ok(left)
    }

    fn parse_factor(&mut self) -> (r: Result<Box<AstNode>, ParseError>)
        requires
            old(self).wf(),
        ensures
            final(self).wf(),
            final(self).tokens@ == old(self).tokens@,
            boxed_outcome(
                r,
                p_factor(old(self).toks(), old(self).current as int),
                old(self).current as int,
                final(self).current as int,
                old(self).tokens@.len() as int,
            ),
        decreases old(self).tokens@.len() - old(self).current, 16nat,
    {
        let ghost t = self.toks();
        let ghost i = self.current as int;
        proof {
            lemma_unfold_p_factor(t, i);
        }
        let mut left = match self.parse_unary() {
            Ok(b) => b,
            Err(e) => return Err(e),
        };
        loop
            invariant
                self.wf(),
                self.toks() == t,
                self.tokens@ == old(self).tokens@,
                t == old(self).toks(),
                i == old(self).current,
                i < self.current,
                factor_rest(t, node_view(*left), self.current as int) == p_factor(t, i),
            ensures
                factor_rest(t, node_view(*left), self.current as int) == Ok::<(Node, int), ParseError>(
                    (node_view(*left), self.current as int),
                ),
            decreases t.len() - self.current,
        {
            proof {
                lemma_unfold_factor_rest(t, node_view(*left), self.current as int);
            }
            if !self.match_kinds(&[TokenKind::Star, TokenKind::Slash, TokenKind::Percent]) {
                break;
            }
            let op = self.previous_operator();
            let right = match self.parse_unary() {
                Ok(b) => b,
                Err(e) => return Err(e),
            };
            let line = self.previous().line;
            left = Box::new(AstNode::new_binop(op, left, right, line));
        }
        Ok(left)
    }

    fn parse_unary(&mut self) -> (r: Result<Box<AstNode>, ParseError>)
        requires
            old(self).wf(),
        ensures
            final(self).wf(),
            final(self).tokens@ == old(self).tokens@,
            boxed_outcome(
                r,
                p_unary(old(self).toks(), old(self).current as int),
                old(self).current as int,
                final(self).current as int,
                old(self).tokens@.len() as int,
            ),
        decreases old(self).tokens@.len() - old(self).current, 14nat,
    {
        proof {
            lemma_unfold_p_unary(self.toks(), self.current as int);
        }
        if self.match_kinds(&[TokenKind::Minus]) {
            let operand = match self.parse_unary() {
                Ok(b) => b,
                Err(e) => return Err(e),
            };
            let line = self.previous().line;
            return Ok(Box::new(AstNode::new_unaryop(OpKind::Neg, operand, line)));
        }
        self.parse_postfix()
    }

    fn parse_postfix(&mut self) -> (r: Result<Box<AstNode>, ParseError>)
        requires
            old(self).wf(),
        ensures
            final(self).wf(),
            final(self).tokens@ == old(self).tokens@,
            boxed_outcome(
                r,
                p_postfix(old(self).toks(), old(self).current as int),
                old(self).current as int,
                final(self).current as int,
                old(self).tokens@.len() as int,
            ),
        decreases old(self).tokens@.len() - old(self).current, 13nat,
    {
        let ghost t = self.toks();
        let ghost i = self.current as int;
        proof {
            lemma_unfold_p_postfix(t, i);
        }
        let mut expr = match self.parse_primary() {
            Ok(b) => b,
            Err(e) => return Err(e),
        };
        loop
            invariant
                self.wf(),
                self.toks() == t,
                self.tokens@ == old(self).tokens@,
                t == old(self).toks(),
                i == old(self).current,
                i < self.current,
                postfix_rest(t, node_view(*expr), self.current as int) == p_postfix(t, i),
            ensures
                postfix_rest(t, node_view(*expr), self.current as int) == Ok::<(Node, int), ParseError>(
                    (node_view(*expr), self.current as int),
                ),
            decreases t.len() - self.current,
        {
            proof {
                lemma_unfold_postfix_rest(t, node_view(*expr), self.current as int);
            }
            if self.match_kinds(&[TokenKind::Lparen]) {
                expr = match self.finish_call(*expr) {
                    Ok(b) => b,
                    Err(e) => return Err(e),
                };
            } else if self.match_kinds(&[TokenKind::Dot]) {
                match self.consume(&TokenKind::Name, "expected attribute name") {
                    Ok(()) => {},
                    Err(e) => return Err(e),
                }
                let attr = self.previous().lexeme.clone();
                let line = self.previous().line;
                expr = Box::new(AstNode::new_attribute(expr, attr, line));
            } else if self.match_kinds(&[TokenKind::Lbracket]) {
                let index = match self.parse_expression() {
                    Ok(b) => b,
                    Err(e) => return Err(e),
                };
                match self.consume(&TokenKind::Rbracket, "expected ']' after index") {
                    Ok(()) => {},
                    Err(e) => return Err(e),
                }
                let line = self.previous().line;
                expr = Box::new(AstNode::new_subscript(expr, index, line));
            } else {
                break;
            }
        }
        Ok(expr)
    }

    fn finish_call(&mut self, func: AstNode) -> (r: Result<Box<AstNode>, ParseError>)
        requires
            old(self).wf(),
            1 <= old(self).current,
        ensures
            final(self).wf(),
            final(self).tokens@ == old(self).tokens@,
            boxed_outcome(
                r,
                p_finish_call(old(self).toks(), node_view(func), old(self).current as int),
                old(self).current as int,
                final(self).current as int,
                old(self).tokens@.len() as int,
            ),
        decreases old(self).tokens@.len() - old(self).current, 22nat,
    {
        let ghost t = self.toks();
        let ghost i = self.current as int;
        let ghost func_view = node_view(func);
        proof {
            lemma_unfold_p_finish_call(t, func_view, i);
            lemma_nodes_view_empty();
        }
        let line = self.previous().line;
        let mut args: PtrVec<AstNode> = PtrVec::new();
        if !self.check(&TokenKind::Rparen) {
            let first = match self.parse_expression() {
                Ok(b) => b,
                Err(e) => return Err(e),
            };
            let ghost j = self.current as int;
            let ghost first_view = node_view(*first);
            proof {
                lemma_nodes_view_push(args@, *first);
            }
            args.push(*first);
            assert(nodes_view(args@) =~= seq![first_view]);
            loop
                invariant
                    self.wf(),
                    self.toks() == t,
                    self.tokens@ == old(self).tokens@,
                    t == old(self).toks(),
                    i == old(self).current,
                    i < j <= self.current,
                    func_view == node_view(func),
                    line == t[i - 1].line,
                    p_finish_call(t, func_view, i) == (match args_rest(t, seq![first_view], j) {
                        Err(e) => Err(e),
                        Ok((args, k)) => if check(t, k, TokenKind::Rparen) {
                            Ok(
                                (
                                    Node { line: t[i - 1].line, tree: Tree::Call(Box::new(func_view), args) },
                                    k + 1,
                                ),
                            )
                        } else {
                            Err(ParseError::ExpectedToken)
                        },
                    }),
                    args_rest(t, nodes_view(args@), self.current as int) == args_rest(
                        t,
                        seq![first_view],
                        j,
                    ),
                ensures
                    args_rest(t, nodes_view(args@), self.current as int) == Ok::<
                        (Seq<Node>, int),
                        ParseError,
                    >((nodes_view(args@), self.current as int)),
                decreases t.len() - self.current,
            {
                proof {
                    lemma_unfold_args_rest(t, nodes_view(args@), self.current as int);
                }
                if !self.match_kinds(&[TokenKind::Comma]) {
                    break;
                }
                let arg = match self.parse_expression() {
                    Ok(b) => b,
                    Err(e) => return Err(e),
                };
                proof {
                    lemma_nodes_view_push(args@, *arg);
                }
                args.push(*arg);
            }
        }
        match self.consume(&TokenKind::Rparen, "expected ')' after arguments") {
            Ok(()) => {},
            Err(e) => return Err(e),
        }
        let mut node = AstNode::new_call(Box::new(func), line);
        set_call_args(&mut node, args);
        Ok(Box::new(node))
    }

    fn parse_primary(&mut self) -> (r: Result<Box<AstNode>, ParseError>)
        requires
            old(self).wf(),
        ensures
            final(self).wf(),
            final(self).tokens@ == old(self).tokens@,
            boxed_outcome(
                r,
                p_primary(old(self).toks(), old(self).current as int),
                old(self).current as int,
                final(self).current as int,
                old(self).tokens@.len() as int,
            ),
        decreases old(self).tokens@.len() - old(self).current, 11nat,
    {
        proof {
            lemma_unfold_p_primary(self.toks(), self.current as int);
        }
        if self.match_kinds(&[TokenKind::Name]) {
            let name = self.previous().lexeme.clone();
            let line = self.previous().line;
            return Ok(Box::new(AstNode::new_name(name, line)));
        }
        if self.match_kinds(&[TokenKind::Int]) {
            let value = parse_int_literal(&self.previous().lexeme);
            let line = self.previous().line;
            return Ok(Box::new(AstNode::new_int(value, line)));
        }
        if self.match_kinds(&[TokenKind::Float]) {
            let text = self.previous().lexeme.clone();
            let line = self.previous().line;
            return Ok(Box::new(AstNode::new_float(text, line)));
        }
        if self.match_kinds(&[TokenKind::String]) {
            let value = self.previous().lexeme.clone();
            let line = self.previous().line;
            return Ok(Box::new(AstNode::new_string(value, line)));
        }
        if self.match_kinds(&[TokenKind::Lparen]) {
            let expr = match self.parse_expression() {
                Ok(b) => b,
                Err(e) => return Err(e),
            };
            match self.consume(&TokenKind::Rparen, "expected ')' after expression") {
                Ok(()) => {},
                Err(e) => return Err(e),
            }
            return Ok(expr);
        }
        Err(ParseError::ExpectedExpression)
    }

    fn parse_param_list(&mut self) -> (r: Result<Vec<String>, ParseError>)
        requires
            old(self).wf(),
        ensures
            final(self).wf(),
            final(self).tokens@ == old(self).tokens@,
            match p_params(old(self).toks(), old(self).current as int) {
                Ok((ps, j)) => match r {
                    Ok(v) => strings_view(v@) == ps && final(self).current == j && old(self).current
                        <= j,
                    Err(_) => false,
                },
                Err(e) => r == Err::<Vec<String>, ParseError>(e),
            },
    {
        let ghost t = self.toks();
        let ghost i = self.current as int;
        proof {
            lemma_unfold_p_params(t, i);
        }
        let mut params: Vec<String> = Vec::new();
        if !self.check(&TokenKind::Rparen) {
            match self.consume(&TokenKind::Name, "expected parameter name") {
                Ok(()) => {},
                Err(e) => return Err(e),
            }
            params.push(self.previous().lexeme.clone());
            assert(strings_view(params@) =~= seq![t[i].lexeme]);
            loop
                invariant
                    self.wf(),
                    self.toks() == t,
                    self.tokens@ == old(self).tokens@,
                    t == old(self).toks(),
                    i == old(self).current,
                    i < self.current,
                    params_rest(t, strings_view(params@), self.current as int) == p_params(t, i),
                ensures
                    params_rest(t, strings_view(params@), self.current as int) == Ok::<
                        (Seq<Seq<char>>, int),
                        ParseError,
                    >((strings_view(params@), self.current as int)),
                decreases t.len() - self.current,
            {
                proof {
                    lemma_unfold_params_rest(t, strings_view(params@), self.current as int);
                }
                if !self.match_kinds(&[TokenKind::Comma]) {
                    break;
                }
                match self.consume(&TokenKind::Name, "expected parameter name") {
                    Ok(()) => {},
                    Err(e) => return Err(e),
                }
                let ghost old_params = params@;
                params.push(self.previous().lexeme.clone());
                assert(strings_view(params@) =~= strings_view(old_params).push(
                    t[self.current - 1].lexeme,
                ));
            }
        } else {
            assert(strings_view(params@) =~= Seq::<Seq<char>>::empty());
        }
        Ok(params)
    }

    fn parse_statement(&mut self) -> (r: Result<AstNode, ParseError>)
        requires
            old(self).wf(),
        ensures
            final(self).wf(),
            final(self).tokens@ == old(self).tokens@,
            node_outcome(
                r,
                p_statement(old(self).toks(), old(self).current as int),
                old(self).current as int,
                final(self).current as int,
                old(self).tokens@.len() as int,
            ),
            r is Ok ==> old(self).current < final(self).current,
        decreases old(self).tokens@.len() - old(self).current, 40nat,
    {
        proof {
            lemma_unfold_p_statement(self.toks(), self.current as int);
        }
        if self.match_kinds(&[TokenKind::Def]) {
            return self.parse_function_def();
        }
        if self.match_kinds(&[TokenKind::If]) {
            return self.parse_if_stmt();
        }
        if self.match_kinds(&[TokenKind::While]) {
            return self.parse_while_stmt();
        }
        if self.match_kinds(&[TokenKind::Return]) {
            return self.parse_return_stmt();
        }
        if self.match_kinds(&[TokenKind::Pass]) {
            return Ok(self.parse_pass_stmt());
        }
        self.parse_expr_or_assign()
    }

    fn parse_function_def(&mut self) -> (r: Result<AstNode, ParseError>)
        requires
            old(self).wf(),
            1 <= old(self).current,
        ensures
            final(self).wf(),
            final(self).tokens@ == old(self).tokens@,
            node_outcome(
                r,
                p_function_def(old(self).toks(), old(self).current as int),
                old(self).current as int,
                final(self).current as int,
                old(self).tokens@.len() as int,
            ),
        decreases old(self).tokens@.len() - old(self).current, 38nat,
    {
        let ghost t = self.toks();
        let ghost i = self.current as int;
        proof {
            lemma_unfold_p_function_def(t, i);
        }
        let line = self.previous().line;
        match self.consume(&TokenKind::Name, "expected function name") {
            Ok(()) => {},
            Err(e) => return Err(e),
        }
        let name = self.previous().lexeme.clone();
        match self.consume(&TokenKind::Lparen, "expected '(' after function name") {
            Ok(()) => {},
            Err(e) => return Err(e),
        }
        let params = match self.parse_param_list() {
            Ok(v) => v,
            Err(e) => return Err(e),
        };
        match self.consume(&TokenKind::Rparen, "expected ')' after parameters") {
            Ok(()) => {},
            Err(e) => return Err(e),
        }
        match self.consume(&TokenKind::Colon, "expected ':' after function definition") {
            Ok(()) => {},
            Err(e) => return Err(e),
        }
        let mut node = AstNode::new_function_def(name, params, line);
        let ghost b0 = self.current as int;
        proof {
            if let Ok((b, _)) = p_block(t, b0) {
                assert(Seq::<Node>::empty() + b =~= b);
            }
        }
        match self.parse_block(&mut node) {
            Ok(()) => {},
            Err(e) => return Err(e),
        }
        Ok(node)
    }

    fn parse_block(&mut self, node: &mut AstNode) -> (r: Result<(), ParseError>)
        requires
            old(self).wf(),
        ensures
            final(self).wf(),
            final(self).tokens@ == old(self).tokens@,
            match p_block(old(self).toks(), old(self).current as int) {
                Ok((b, j)) => {
                    &&& r is Ok
                    &&& node_view(*final(node)) == append_body(node_view(*old(node)), b)
                    &&& final(self).current == j
                    &&& old(self).current < j
                },
                Err(e) => r == Err::<(), ParseError>(e),
            },
        decreases old(self).tokens@.len() - old(self).current, 37nat,
    {
        let ghost t = self.toks();
        let ghost i = self.current as int;
        proof {
            lemma_unfold_p_block(t, i);
            lemma_nodes_view_empty();
        }
        match self.consume(&TokenKind::Newline, "expected newline after ':'") {
            Ok(()) => {},
            Err(e) => return Err(e),
        }
        match self.consume(&TokenKind::Indent, "expected indentation") {
            Ok(()) => {},
            Err(e) => return Err(e),
        }
        let mut body: PtrVec<AstNode> = PtrVec::new();
        match self.parse_dedent_block(&mut body) {
            Ok(()) => {},
            Err(e) => return Err(e),
        }
        match self.consume(&TokenKind::Dedent, "expected dedent") {
            Ok(()) => {},
            Err(e) => return Err(e),
        }
        append_block(node, body);
        Ok(())
    }

    fn parse_dedent_block(&mut self, body: &mut PtrVec<AstNode>) -> (r: Result<(), ParseError>)
        requires
            old(self).wf(),
        ensures
            final(self).wf(),
            final(self).tokens@ == old(self).tokens@,
            match dedent_loop(old(self).toks(), old(self).current as int, Seq::empty()) {
                Ok((stmts, j)) => {
                    &&& r is Ok
                    &&& nodes_view(final(body)@) == nodes_view(old(body)@) + stmts
                    &&& final(self).current == j
                    &&& old(self).current <= j
                },
                Err(e) => r == Err::<(), ParseError>(e),
            },
        decreases old(self).tokens@.len() - old(self).current, 41nat,
    {
        let ghost t = self.toks();
        let ghost i = self.current as int;
        let ghost base = nodes_view(body@);
        let ghost mut acc: Seq<Node> = Seq::empty();
        assert(base + acc =~= base);
        loop
            invariant
                self.wf(),
                self.toks() == t,
                self.tokens@ == old(self).tokens@,
                t == old(self).toks(),
                i == old(self).current,
                i <= self.current,
                base == nodes_view(old(body)@),
                nodes_view(body@) == base + acc,
                dedent_loop(t, self.current as int, acc) == dedent_loop(t, i, Seq::empty()),
            ensures
                dedent_loop(t, self.current as int, acc) == Ok::<(Seq<Node>, int), ParseError>(
                    (acc, self.current as int),
                ),
            decreases t.len() - self.current,
        {
            proof {
                lemma_unfold_dedent_loop(t, self.current as int, acc);
            }
            if self.check(&TokenKind::Dedent) || self.is_at_end() {
                break;
            }
            let ghost c = self.current as int;
            while !self.is_at_end() && self.check(&TokenKind::Newline)
                invariant
                    self.wf(),
                    self.toks() == t,
                    self.tokens@ == old(self).tokens@,
                    c <= self.current,
                    skip_newlines(t, self.current as int) == skip_newlines(t, c),
                decreases t.len() - self.current,
            {
                self.advance();
            }
            proof {
                lemma_skip_newlines(t, c);
                lemma_unfold_dedent_loop(t, self.current as int, acc);
            }
            if self.check(&TokenKind::Dedent) || self.is_at_end() {
                break;
            }
            let stmt = match self.parse_statement() {
                Ok(s) => s,
                Err(e) => return Err(e),
            };
            proof {
                lemma_nodes_view_push(body@, stmt);
                acc = acc.push(node_view(stmt));
            }
            body.push(stmt);
            assert(nodes_view(body@) =~= base + acc);
            let ghost j = self.current as int;
            while !self.is_at_end() && self.check(&TokenKind::Newline)
                invariant
                    self.wf(),
                    self.toks() == t,
                    self.tokens@ == old(self).tokens@,
                    j <= self.current,
                    skip_newlines(t, self.current as int) == skip_newlines(t, j),
                decreases t.len() - self.current,
            {
                self.advance();
            }
            proof {
                lemma_skip_newlines(t, j);
            }
        }
        Ok(())
    }

    fn parse_if_stmt(&mut self) -> (r: Result<AstNode, ParseError>)
        requires
            old(self).wf(),
            1 <= old(self).current,
        ensures
            final(self).wf(),
            final(self).tokens@ == old(self).tokens@,
            node_outcome(
                r,
                p_if(old(self).toks(), old(self).current as int),
                old(self).current as int,
                final(self).current as int,
                old(self).tokens@.len() as int,
            ),
        decreases old(self).tokens@.len() - old(self).current, 38nat,
    {
        let ghost t = self.toks();
        let ghost i = self.current as int;
        proof {
            lemma_unfold_p_if(t, i);
            lemma_nodes_view_empty();
        }
        let line = self.previous().line;
        let test = match self.parse_expression() {
            Ok(b) => b,
            Err(e) => return Err(e),
        };
        match self.consume(&TokenKind::Colon, "expected ':' after if condition") {
            Ok(()) => {},
            Err(e) => return Err(e),
        }
        let mut node = AstNode::new_if(test, line);
        let ghost b0 = self.current as int;
        proof {
            if let Ok((b, k)) = p_block(t, b0) {
                assert(Seq::<Node>::empty() + b =~= b);
                if let Ok((o, _)) = dedent_loop(t, k + 2, Seq::empty()) {
                    assert(Seq::<Node>::empty() + o =~= o);
                }
            }
        }
        match self.parse_block(&mut node) {
            Ok(()) => {},
            Err(e) => return Err(e),
        }
        if self.match_kinds(&[TokenKind::Else]) {
            match self.consume(&TokenKind::Colon, "expected ':' after else") {
                Ok(()) => {},
                Err(e) => return Err(e),
            }
            let mut orelse: PtrVec<AstNode> = PtrVec::new();
            match self.parse_dedent_block(&mut orelse) {
                Ok(()) => {},
                Err(e) => return Err(e),
            }
            append_else(&mut node, orelse);
        }
        Ok(node)
    }

    fn parse_while_stmt(&mut self) -> (r: Result<AstNode, ParseError>)
        requires
            old(self).wf(),
            1 <= old(self).current,
        ensures
            final(self).wf(),
            final(self).tokens@ == old(self).tokens@,
            node_outcome(
                r,
                p_while(old(self).toks(), old(self).current as int),
                old(self).current as int,
                final(self).current as int,
                old(self).tokens@.len() as int,
            ),
        decreases old(self).tokens@.len() - old(self).current, 38nat,
    {
        let ghost t = self.toks();
        let ghost i = self.current as int;
        proof {
            lemma_unfold_p_while(t, i);
        }
        let line = self.previous().line;
        let test = match self.parse_expression() {
            Ok(b) => b,
            Err(e) => return Err(e),
        };
        match self.consume(&TokenKind::Colon, "expected ':' after while condition") {
            Ok(()) => {},
            Err(e) => return Err(e),
        }
        let mut node = AstNode::new_while(test, line);
        let ghost b0 = self.current as int;
        proof {
            if let Ok((b, _)) = p_block(t, b0) {
                assert(Seq::<Node>::empty() + b =~= b);
            }
        }
        match self.parse_block(&mut node) {
            Ok(()) => {},
            Err(e) => return Err(e),
        }
        Ok(node)
    }

    fn parse_return_stmt(&mut self) -> (r: Result<AstNode, ParseError>)
        requires
            old(self).wf(),
            1 <= old(self).current,
        ensures
            final(self).wf(),
            final(self).tokens@ == old(self).tokens@,
            node_outcome(
                r,
                p_return(old(self).toks(), old(self).current as int),
                old(self).current as int,
                final(self).current as int,
                old(self).tokens@.len() as int,
            ),
    {
        proof {
            lemma_unfold_p_return(self.toks(), self.current as int);
        }
        let line = self.previous().line;
        let value = if self.check(&TokenKind::Newline) || self.is_at_end() {
            None
        } else {
            match self.parse_expression() {
                Ok(b) => Some(b),
                Err(e) => return Err(e),
            }
        };
        Ok(AstNode::new_return(value, line))
    }

    fn parse_pass_stmt(&mut self) -> (n: AstNode)
        requires
            1 <= old(self).current <= old(self).tokens@.len(),
        ensures
            *final(self) == *old(self),
            node_view(n) == (Node { line: old(self).toks()[old(self).current - 1].line, tree: Tree::Pass }),
    {
        let line = self.previous().line;
        AstNode::new_pass(line)
    }

    fn parse_expr_or_assign(&mut self) -> (r: Result<AstNode, ParseError>)
        requires
            old(self).wf(),
        ensures
            final(self).wf(),
            final(self).tokens@ == old(self).tokens@,
            node_outcome(
                r,
                p_expr_or_assign(old(self).toks(), old(self).current as int),
                old(self).current as int,
                final(self).current as int,
                old(self).tokens@.len() as int,
            ),
            r is Ok ==> old(self).current < final(self).current,
    {
        proof {
            lemma_unfold_p_expr_or_assign(self.toks(), self.current as int);
        }
        let expr = match self.parse_expression() {
            Ok(b) => b,
            Err(e) => return Err(e),
        };
        proof {
            lemma_name_node(*expr);
            lemma_node_line(*expr);
        }
        if self.match_kinds(&[TokenKind::Equal]) {
            if expr.kind == AstKind::Name {
                match &expr.as_name {
                    Some(n) => {
                        let name = n.name.clone();
                        let value = match self.parse_expression() {
                            Ok(b) => b,
                            Err(e) => return Err(e),
                        };
                        return Ok(AstNode::new_assign(name, value, expr.line));
                    },
                    None => {},
                }
            }
            return Err(ParseError::InvalidAssignmentTarget);
        }
        let line = expr.line;
        Ok(AstNode::new_expr_stmt(expr, line))
    }

    fn parse_module(&mut self) -> (r: Result<AstNode, ParseError>)
        requires
            old(self).wf(),
        ensures
            final(self).wf(),
            final(self).tokens@ == old(self).tokens@,
            node_outcome(
                r,
                p_module(old(self).toks(), old(self).current as int),
                old(self).current as int,
                final(self).current as int,
                old(self).tokens@.len() as int,
            ),
            r is Ok ==> at_end(old(self).toks(), final(self).current as int),
    {
        let ghost t = self.toks();
        let ghost i = self.current as int;
        proof {
            lemma_unfold_p_module(t, i);
            lemma_nodes_view_empty();
        }
        let mut module = AstNode::new_module();
        let mut body: PtrVec<AstNode> = PtrVec::new();
        while !self.is_at_end() && self.check(&TokenKind::Newline)
            invariant
                self.wf(),
                self.toks() == t,
                self.tokens@ == old(self).tokens@,
                i <= self.current,
                skip_newlines(t, self.current as int) == skip_newlines(t, i),
            decreases t.len() - self.current,
        {
            self.advance();
        }
        let ghost k = self.current as int;
        let ghost mut acc: Seq<Node> = Seq::empty();
        loop
            invariant
                self.wf(),
                self.toks() == t,
                self.tokens@ == old(self).tokens@,
                i <= k <= self.current,
                t == old(self).toks(),
                i == old(self).current,
                k == skip_newlines(t, i),
                p_module(t, i) == (match module_loop(t, k, Seq::empty()) {
                    Err(e) => Err(e),
                    Ok((b, j)) => Ok((Node { line: 1, tree: Tree::Module(b) }, j)),
                }),
                nodes_view(body@) == acc,
                module_loop(t, self.current as int, acc) == module_loop(t, k, Seq::empty()),
            ensures
                module_loop(t, self.current as int, acc) == Ok::<(Seq<Node>, int), ParseError>(
                    (acc, self.current as int),
                ),
                at_end(t, self.current as int),
            decreases t.len() - self.current,
        {
            proof {
                lemma_unfold_module_loop(t, self.current as int, acc);
            }
            if !(!self.is_at_end() && self.peek().kind != TokenKind::Eof) {
                break;
            }
            let stmt = match self.parse_statement() {
                Ok(s) => s,
                Err(e) => return Err(e),
            };
            proof {
                lemma_nodes_view_push(body@, stmt);
                acc = acc.push(node_view(stmt));
            }
            body.push(stmt);
            let ghost j = self.current as int;
            while !self.is_at_end() && self.check(&TokenKind::Newline)
                invariant
                    self.wf(),
                    self.toks() == t,
                    self.tokens@ == old(self).tokens@,
                    j <= self.current,
                    skip_newlines(t, self.current as int) == skip_newlines(t, j),
                decreases t.len() - self.current,
            {
                self.advance();
            }
            proof {
                lemma_skip_newlines(t, j);
            }
        }
        assert(Seq::<Node>::empty() + acc =~= acc);
        append_block(&mut module, body);
        Ok(module)
    }

    /// Parses the tokens from the cursor as a module: statements separated
    /// by line breaks, up to `Eof` or the end of the tokens. A module that
    /// parses is read to that end.
    pub fn parse(&mut self) -> (r: Result<AstNode, ParseError>)
        requires
            old(self).wf(),
        ensures
            final(self).wf(),
            final(self).toks() == old(self).toks(),
            r is Ok ==> at_end(final(self).toks(), final(self).pos()),
            match p_module(old(self).toks(), old(self).pos()) {
                Ok((n, j)) => match r {
                    Ok(a) => node_view(a) == n && final(self).pos() == j,
                    Err(_) => false,
                },
                Err(e) => r == Err::<AstNode, ParseError>(e),
            },
    {
        self.parse_module()
    }
}

} // verus!
