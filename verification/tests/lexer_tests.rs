use py0::lexer::{LexError, Lexer, Token, TokenKind};

fn scan(source: &str) -> Result<Vec<Token>, LexError> {
    let mut lexer = Lexer::new(source);
    lexer.scan_tokens()?;
    Ok(lexer.get_tokens())
}

fn kinds(source: &str) -> Vec<TokenKind> {
    scan(source).unwrap().iter().map(|t| t.kind).collect()
}

#[test]
fn assignment_tokens() {
    let toks = scan("x = 1 + 2\n").unwrap();
    let k: Vec<TokenKind> = toks.iter().map(|t| t.kind).collect();
    assert_eq!(
        k,
        vec![
            TokenKind::Name,
            TokenKind::Equal,
            TokenKind::Int,
            TokenKind::Plus,
            TokenKind::Int,
            TokenKind::Newline,
            TokenKind::Eof
        ]
    );
    assert_eq!(toks[0].lexeme, "x");
    assert_eq!(toks[2].lexeme, "1");
    assert_eq!(toks[4].lexeme, "2");
    assert_eq!(toks[0].line, 1);
    assert_eq!(toks[0].col, 1);
    assert_eq!(toks[4].col, 9);
}

#[test]
fn keywords_and_names() {
    assert_eq!(
        kinds("def if else while return pass define iffy"),
        vec![
            TokenKind::Def,
            TokenKind::If,
            TokenKind::Else,
            TokenKind::While,
            TokenKind::Return,
            TokenKind::Pass,
            TokenKind::Name,
            TokenKind::Name,
            TokenKind::Eof
        ]
    );
}

#[test]
fn operators_two_characters() {
    assert_eq!(
        kinds("== != <= >= < > = ( ) [ ] , : . - * / %"),
        vec![
            TokenKind::EqEq,
            TokenKind::Ne,
            TokenKind::Le,
            TokenKind::Ge,
            TokenKind::Lt,
            TokenKind::Gt,
            TokenKind::Equal,
            TokenKind::Lparen,
            TokenKind::Rparen,
            TokenKind::Lbracket,
            TokenKind::Rbracket,
            TokenKind::Comma,
            TokenKind::Colon,
            TokenKind::Dot,
            TokenKind::Minus,
            TokenKind::Star,
            TokenKind::Slash,
            TokenKind::Percent,
            TokenKind::Eof
        ]
    );
}

#[test]
fn numbers_int_and_float() {
    let toks = scan("12 3.5 7.x").unwrap();
    assert_eq!(toks[0].kind, TokenKind::Int);
    assert_eq!(toks[0].lexeme, "12");
    assert_eq!(toks[1].kind, TokenKind::Float);
    assert_eq!(toks[1].lexeme, "3.5");
    // a dot not followed by a digit ends the number
    assert_eq!(toks[2].kind, TokenKind::Int);
    assert_eq!(toks[2].lexeme, "7");
    assert_eq!(toks[3].kind, TokenKind::Dot);
    assert_eq!(toks[4].kind, TokenKind::Name);
}

#[test]
fn string_literals_are_decoded() {
    let toks = scan("'abc' \"d e\"").unwrap();
    assert_eq!(toks[0].kind, TokenKind::String);
    assert_eq!(toks[0].lexeme, "abc");
    assert_eq!(toks[1].kind, TokenKind::String);
    assert_eq!(toks[1].lexeme, "d e");
}

#[test]
fn string_escape_keeps_the_escaped_character() {
    // the escape adds its character and the scan goes on at the escaped
    // character itself, which is then added again
    let toks = scan("\"a\\nb\"").unwrap();
    assert_eq!(toks[0].kind, TokenKind::String);
    assert_eq!(toks[0].lexeme, "a\nnb");
}

#[test]
fn unterminated_string_is_an_error() {
    assert_eq!(scan("x = 'abc").err(), Some(LexError::UnterminatedString));
    assert_eq!(LexError::UnterminatedString.message(), "unterminated string");
}

#[test]
fn lone_bang_is_an_error() {
    assert_eq!(scan("a ! b").err(), Some(LexError::UnexpectedCharacter('!')));
}

#[test]
fn unknown_character_is_an_error() {
    let e = scan("a @ b").err().unwrap();
    assert_eq!(e, LexError::UnexpectedCharacter('@'));
    assert_eq!(e.message(), "unexpected character: @");
}

#[test]
fn comments_are_skipped() {
    assert_eq!(
        kinds("x # a comment\ny"),
        vec![TokenKind::Name, TokenKind::Newline, TokenKind::Name, TokenKind::Eof]
    );
}

#[test]
fn indentation_opens_and_closes_blocks() {
    assert_eq!(
        kinds("if x:\n    y\nz\n"),
        vec![
            TokenKind::If,
            TokenKind::Name,
            TokenKind::Colon,
            TokenKind::Newline,
            TokenKind::Indent,
            TokenKind::Name,
            TokenKind::Newline,
            TokenKind::Dedent,
            TokenKind::Name,
            TokenKind::Newline,
            TokenKind::Eof
        ]
    );
}

#[test]
fn blank_and_comment_lines_keep_indentation() {
    assert_eq!(
        kinds("if x:\n    y\n\n    # note\n    z\n"),
        vec![
            TokenKind::If,
            TokenKind::Name,
            TokenKind::Colon,
            TokenKind::Newline,
            TokenKind::Indent,
            TokenKind::Name,
            TokenKind::Newline,
            TokenKind::Newline,
            TokenKind::Newline,
            TokenKind::Name,
            TokenKind::Newline,
            TokenKind::Dedent,
            TokenKind::Eof
        ]
    );
}

#[test]
fn end_of_input_closes_one_level_only() {
    let k = kinds("if a:\n    if b:\n        c\n");
    let indents = k.iter().filter(|x| **x == TokenKind::Indent).count();
    let dedents = k.iter().filter(|x| **x == TokenKind::Dedent).count();
    assert_eq!(indents, 2);
    assert_eq!(dedents, 1);
    assert_eq!(*k.last().unwrap(), TokenKind::Eof);
}

#[test]
fn dedent_to_a_middle_level() {
    let k = kinds("a:\n  b:\n    c\n  d\ne\n");
    let expected = vec![
        TokenKind::Name,
        TokenKind::Colon,
        TokenKind::Newline,
        TokenKind::Indent,
        TokenKind::Name,
        TokenKind::Colon,
        TokenKind::Newline,
        TokenKind::Indent,
        TokenKind::Name,
        TokenKind::Newline,
        TokenKind::Dedent,
        TokenKind::Name,
        TokenKind::Newline,
        TokenKind::Dedent,
        TokenKind::Name,
        TokenKind::Newline,
        TokenKind::Eof,
    ];
    assert_eq!(k, expected);
}

#[test]
fn scan_ends_with_one_eof() {
    for src in ["", "x", "def f():\n    return 1\n", "a = 'q'\n# end"] {
        let k = kinds(src);
        assert_eq!(*k.last().unwrap(), TokenKind::Eof);
        assert_eq!(k.iter().filter(|x| **x == TokenKind::Eof).count(), 1);
        let indents = k.iter().filter(|x| **x == TokenKind::Indent).count();
        let dedents = k.iter().filter(|x| **x == TokenKind::Dedent).count();
        assert!(dedents <= indents);
    }
}

#[test]
fn lines_are_counted() {
    let toks = scan("a\nb\n\nc").unwrap();
    let names: Vec<&Token> = toks.iter().filter(|t| t.kind == TokenKind::Name).collect();
    assert_eq!(names[0].line, 1);
    assert_eq!(names[1].line, 2);
    assert_eq!(names[2].line, 4);
}

#[test]
fn names_continue_with_any_alphanumeric_character() {
    let toks = scan("caf\u{e9}2_x y\u{4e2d}").unwrap();
    assert_eq!(toks[0].kind, TokenKind::Name);
    assert_eq!(toks[0].lexeme, "caf\u{e9}2_x");
    assert_eq!(toks[1].kind, TokenKind::Name);
    assert_eq!(toks[1].lexeme, "y\u{4e2d}");
    assert_eq!(toks[2].kind, TokenKind::Eof);
    // a name cannot start with a non-ASCII letter
    assert_eq!(scan("\u{e9}").err(), Some(LexError::UnexpectedCharacter('\u{e9}')));
}
