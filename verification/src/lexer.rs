use vstd::prelude::*;
use vstd::string::StringExecFns;

verus! {

/// The kinds of tokens the lexer produces.
#[derive(Clone, Copy, PartialEq, Eq, Structural, Debug)]
pub enum TokenKind {
    Eof,
    Newline,
    Indent,
    Dedent,
    Name,
    Int,
    Float,
    String,
    Def,
    If,
    Else,
    While,
    Return,
    Pass,
    Lparen,
    Rparen,
    Lbracket,
    Rbracket,
    Comma,
    Colon,
    Dot,
    Plus,
    Minus,
    Star,
    Slash,
    Percent,
    Equal,
    EqEq,
    Ne,
    Lt,
    Le,
    Gt,
    Ge,
}

/// A token: its kind, its text, and where it was emitted.
///
/// For a string literal the text is the decoded value, without quotes.
#[derive(Clone, Debug)]
pub struct Token {
    pub kind: TokenKind,
    pub lexeme: String,
    pub line: usize,
    pub col: usize,
}

/// The mathematical value of a token.
pub struct SpecToken {
    pub kind: TokenKind,
    pub lexeme: Seq<char>,
    pub line: int,
    pub col: int,
}

impl View for Token {
    type V = SpecToken;

    open spec fn view(&self) -> SpecToken {
        SpecToken {
            kind: self.kind,
            lexeme: self.lexeme@,
            line: self.line as int,
            col: self.col as int,
        }
    }
}

/// The tokens of a vector, by value.
pub open spec fn tokens_view(v: Seq<Token>) -> Seq<SpecToken> {
    v.map_values(|t: Token| t@)
}

/// Why scanning stopped.
#[derive(Clone, Copy, PartialEq, Eq, Structural, Debug)]
pub enum LexError {
    /// A string literal runs to the end of the input.
    UnterminatedString,
    /// A character that starts no token (a lone `!` included).
    UnexpectedCharacter(char),
}

impl LexError {
    /// The text of the error, as the scanner reports it.
    pub fn message(&self) -> (r: String)
        ensures
            match *self {
                LexError::UnterminatedString => r@ == "unterminated string"@,
                LexError::UnexpectedCharacter(c) => r@ == "unexpected character: "@.push(c),
            },
    {
        match self {
            LexError::UnterminatedString => String::from_str("unterminated string"),
            LexError::UnexpectedCharacter(c) => {
                let mut m = String::from_str("unexpected character: ");
                push_char(&mut m, *c);
                m
            },
        }
    }
}

/// The state of a scan: the cursor, the start of the current token,
/// the position used for line and column numbers, whether the next
/// character begins a line, the stack of indentation widths, and the
/// tokens so far.
pub struct LexState {
    pub pos: int,
    pub start: int,
    pub line: int,
    pub col: int,
    pub at_line_start: bool,
    pub indents: Seq<int>,
    pub tokens: Seq<SpecToken>,
}

// ---------------------------------------------------------------------
// Character classes
// ---------------------------------------------------------------------

/// Whether `c` is alphabetic or numeric in the Unicode sense (what
/// `char::is_alphanumeric` returns).
pub uninterp spec fn char_is_alphanumeric(c: char) -> bool;

/// `char::is_alphanumeric`. Its result is the named predicate; for an
/// ASCII character it holds exactly of the letters and the digits. What it
/// returns for other characters rests on the Unicode tables and is not
/// stated.
#[verifier::external_body]
fn is_alphanumeric(c: char) -> (r: bool)
    ensures
        r == char_is_alphanumeric(c),
        (c as u32) < 128 ==> (r == (is_ascii_alpha(c) || is_digit(c))),
{
    c.is_alphanumeric()
}

/// `String::push`: appends one character.
#[verifier::external_body]
pub(crate) fn push_char(s: &mut String, c: char)
    ensures
        final(s)@ == old(s)@.push(c),
{
    s.push(c);
}

pub open spec fn is_digit(c: char) -> bool {
    '0' <= c && c <= '9'
}

pub open spec fn is_ascii_alpha(c: char) -> bool {
    ('a' <= c && c <= 'z') || ('A' <= c && c <= 'Z')
}

/// A character that may continue a name: a letter or digit (for ASCII,
/// `a`-`z`, `A`-`Z` and `0`-`9`), or `_`.
pub open spec fn is_name_char(c: char) -> bool {
    if (c as u32) < 128 {
        is_ascii_alpha(c) || is_digit(c) || c == '_'
    } else {
        char_is_alphanumeric(c) || c == '_'
    }
}

/// A character that may start a name.
pub open spec fn is_name_start(c: char) -> bool {
    is_ascii_alpha(c) || c == '_'
}

pub open spec fn is_blank(c: char) -> bool {
    c == ' ' || c == '\t'
}

/// The character at `p`, or `'\0'` past either end.
pub open spec fn peek_at(s: Seq<char>, p: int) -> char {
    if 0 <= p < s.len() {
        s[p]
    } else {
        '\0'
    }
}

/// The first position at or after `p` whose character fails `pred`
/// (or the end of `s`).
pub open spec fn scan_while(s: Seq<char>, p: int, pred: spec_fn(char) -> bool) -> int
    decreases s.len() - p,
{
    if 0 <= p < s.len() && pred(s[p]) {
        scan_while(s, p + 1, pred)
    } else {
        p
    }
}

pub open spec fn name_end(s: Seq<char>, p: int) -> int {
    scan_while(s, p, |c: char| is_name_char(c))
}

pub open spec fn digits_end(s: Seq<char>, p: int) -> int {
    scan_while(s, p, |c: char| is_digit(c))
}

pub open spec fn blank_end(s: Seq<char>, p: int) -> int {
    scan_while(s, p, |c: char| is_blank(c))
}

/// The end of a comment: the next line break, or the end of `s`.
pub open spec fn comment_end(s: Seq<char>, p: int) -> int {
    scan_while(s, p, |c: char| c != '\n')
}

pub proof fn lemma_scan_while(s: Seq<char>, p: int, pred: spec_fn(char) -> bool)
    requires
        0 <= p <= s.len(),
    ensures
        p <= scan_while(s, p, pred) <= s.len(),
        forall|i: int| p <= i < scan_while(s, p, pred) ==> #[trigger] pred(s[i]),
        scan_while(s, p, pred) < s.len() ==> !pred(s[scan_while(s, p, pred)]),
    decreases s.len() - p,
{
    if p < s.len() && pred(s[p]) {
        lemma_scan_while(s, p + 1, pred);
    }
}

/// What an escape sequence `\c` inside a string literal adds.
pub open spec fn escape_char(c: char) -> char {
    if c == 'n' {
        '\n'
    } else if c == 't' {
        '\t'
    } else if c == 'r' {
        '\r'
    } else {
        c
    }
}

/// The keyword spelled by `w`, or `Name`.
pub open spec fn word_kind(w: Seq<char>) -> TokenKind {
    if w == seq!['d', 'e', 'f'] {
        TokenKind::Def
    } else if w == seq!['i', 'f'] {
        TokenKind::If
    } else if w == seq!['e', 'l', 's', 'e'] {
        TokenKind::Else
    } else if w == seq!['w', 'h', 'i', 'l', 'e'] {
        TokenKind::While
    } else if w == seq!['r', 'e', 't', 'u', 'r', 'n'] {
        TokenKind::Return
    } else if w == seq!['p', 'a', 's', 's'] {
        TokenKind::Pass
    } else {
        TokenKind::Name
    }
}

/// The kind of a one-character operator or bracket, if `c` is one.
pub open spec fn single_kind(c: char) -> Option<TokenKind> {
    if c == '(' {
        Some(TokenKind::Lparen)
    } else if c == ')' {
        Some(TokenKind::Rparen)
    } else if c == '[' {
        Some(TokenKind::Lbracket)
    } else if c == ']' {
        Some(TokenKind::Rbracket)
    } else if c == ',' {
        Some(TokenKind::Comma)
    } else if c == ':' {
        Some(TokenKind::Colon)
    } else if c == '.' {
        Some(TokenKind::Dot)
    } else if c == '+' {
        Some(TokenKind::Plus)
    } else if c == '-' {
        Some(TokenKind::Minus)
    } else if c == '*' {
        Some(TokenKind::Star)
    } else if c == '/' {
        Some(TokenKind::Slash)
    } else if c == '%' {
        Some(TokenKind::Percent)
    } else {
        None
    }
}

// ---------------------------------------------------------------------
// The scan, one step at a time
// ---------------------------------------------------------------------

/// Emits a token of `kind` spanning `start..pos`; its column is where the
/// span began on the current line.
pub open spec fn emit(s: Seq<char>, st: LexState, kind: TokenKind) -> LexState {
    LexState {
        tokens: st.tokens.push(
            SpecToken {
                kind,
                lexeme: s.subrange(st.start, st.pos),
                line: st.line,
                col: st.col - (st.pos - st.start),
            },
        ),
        ..st
    }
}

/// Moves the cursor to `to` on the same line.
pub open spec fn moved(st: LexState, to: int) -> LexState {
    LexState { pos: to, col: st.col + (to - st.pos), ..st }
}

/// Pops every indentation wider than `width`, one `Dedent` each.
pub open spec fn dedent_to(s: Seq<char>, st: LexState, width: int) -> LexState
    decreases st.indents.len(),
{
    if st.indents.len() > 0 && width < st.indents.last() {
        dedent_to(s, emit(s, LexState { indents: st.indents.drop_last(), ..st }, TokenKind::Dedent), width)
    } else {
        st
    }
}

/// The start of a line: skips blanks, then (unless the line holds only a
/// comment or nothing) opens one indentation level or closes some.
pub open spec fn line_start(s: Seq<char>, st: LexState) -> LexState {
    let e = blank_end(s, st.pos);
    let width = e - st.pos;
    let st1 = LexState { at_line_start: false, ..moved(st, e) };
    let c = peek_at(s, e);
    if c == '#' || c == '\n' {
        st1
    } else if width > st1.indents.last() {
        emit(s, LexState { indents: st1.indents.push(width), ..st1 }, TokenKind::Indent)
    } else {
        dedent_to(s, st1, width)
    }
}

/// The body of a string literal from `pos` (after the opening quote):
/// the position after the closing quote, the line and column there, and
/// the decoded text; `None` when no closing quote comes.
pub open spec fn str_body(s: Seq<char>, q: char, pos: int, line: int, col: int, acc: Seq<char>) -> Option<(int, int, int, Seq<char>)>
    decreases s.len() - pos,
{
    if pos < 0 || pos >= s.len() {
        None
    } else if s[pos] == q {
        Some((pos + 1, line, col + 1, acc))
    } else if s[pos] == '\\' {
        str_body(s, q, pos + 1, line, col + 1, acc.push(escape_char(peek_at(s, pos + 1))))
    } else if s[pos] == '\n' {
        str_body(s, q, pos + 1, line + 1, 2, acc.push('\n'))
    } else {
        str_body(s, q, pos + 1, line, col + 1, acc.push(s[pos]))
    }
}

pub proof fn lemma_str_body(s: Seq<char>, q: char, pos: int, line: int, col: int, acc: Seq<char>)
    requires
        0 <= pos,
    ensures
        str_body(s, q, pos, line, col, acc) matches Some((p, l, c, v)) ==> pos < p <= s.len(),
    decreases s.len() - pos,
{
    if pos < s.len() && s[pos] != q {
        if s[pos] == '\\' {
            lemma_str_body(s, q, pos + 1, line, col + 1, acc.push(escape_char(peek_at(s, pos + 1))));
        } else if s[pos] == '\n' {
            lemma_str_body(s, q, pos + 1, line + 1, 2, acc.push('\n'));
        } else {
            lemma_str_body(s, q, pos + 1, line, col + 1, acc.push(s[pos]));
        }
    }
}

/// A string literal starting at `st.pos`.
pub open spec fn scan_string_spec(s: Seq<char>, st: LexState) -> Result<LexState, LexError> {
    match str_body(s, s[st.pos], st.pos + 1, st.line, st.col + 1, Seq::empty()) {
        None => Err(LexError::UnterminatedString),
        Some((p, l, c, v)) => Ok(
            LexState {
                pos: p,
                start: p,
                line: l,
                col: c,
                tokens: st.tokens.push(SpecToken { kind: TokenKind::String, lexeme: v, line: l, col: c }),
                ..st
            },
        ),
    }
}

/// A number starting at `st.pos`: digits, then a fraction if a `.` is
/// followed by a digit.
pub open spec fn scan_number_spec(s: Seq<char>, st: LexState) -> LexState {
    let d = digits_end(s, st.pos);
    if peek_at(s, d) == '.' && is_digit(peek_at(s, d + 1)) {
        emit(s, moved(st, digits_end(s, d + 1)), TokenKind::Float)
    } else {
        emit(s, moved(st, d), TokenKind::Int)
    }
}

/// A name or keyword starting at `st.pos`.
pub open spec fn scan_name_spec(s: Seq<char>, st: LexState) -> LexState {
    let e = name_end(s, st.pos + 1);
    emit(s, moved(st, e), word_kind(s.subrange(st.pos, e)))
}

/// An operator, bracket or punctuation character starting at `st.pos`.
pub open spec fn scan_operator_spec(s: Seq<char>, st: LexState) -> Result<LexState, LexError> {
    let c = s[st.pos];
    let st1 = moved(st, st.pos + 1);
    let st2 = moved(st, st.pos + 2);
    let next_is_eq = peek_at(s, st.pos + 1) == '=';
    if single_kind(c) is Some {
        Ok(emit(s, st1, single_kind(c).unwrap()))
    } else if c == '=' {
        Ok(if next_is_eq { emit(s, st2, TokenKind::EqEq) } else { emit(s, st1, TokenKind::Equal) })
    } else if c == '!' {
        if next_is_eq { Ok(emit(s, st2, TokenKind::Ne)) } else { Err(LexError::UnexpectedCharacter('!')) }
    } else if c == '<' {
        Ok(if next_is_eq { emit(s, st2, TokenKind::Le) } else { emit(s, st1, TokenKind::Lt) })
    } else if c == '>' {
        Ok(if next_is_eq { emit(s, st2, TokenKind::Ge) } else { emit(s, st1, TokenKind::Gt) })
    } else {
        Err(LexError::UnexpectedCharacter(c))
    }
}

/// One step of the scan from a token start `st.pos` inside the input.
pub open spec fn lex_char(s: Seq<char>, st: LexState) -> Result<LexState, LexError> {
    let c = s[st.pos];
    if c == '\n' {
        Ok(
            emit(
                s,
                LexState { pos: st.pos + 1, line: st.line + 1, col: 1, at_line_start: true, ..st },
                TokenKind::Newline,
            ),
        )
    } else if c == ' ' || c == '\r' || c == '\t' {
        Ok(moved(st, st.pos + 1))
    } else if c == '#' {
        Ok(moved(st, comment_end(s, st.pos)))
    } else if c == '"' || c == '\'' {
        scan_string_spec(s, st)
    } else if is_digit(c) {
        Ok(scan_number_spec(s, st))
    } else if is_name_start(c) {
        Ok(scan_name_spec(s, st))
    } else {
        scan_operator_spec(s, st)
    }
}

pub proof fn lemma_lex_char_advances(s: Seq<char>, st: LexState)
    requires
        0 <= st.pos < s.len(),
    ensures
        lex_char(s, st) matches Ok(st2) ==> st.pos < st2.pos <= s.len(),
{
    let c = s[st.pos];
    lemma_scan_while(s, st.pos, |c: char| c != '\n');
    lemma_str_body(s, c, st.pos + 1, st.line, st.col + 1, Seq::empty());
    lemma_scan_while(s, st.pos, |c: char| is_digit(c));
    let d = digits_end(s, st.pos);
    if 0 <= d + 1 <= s.len() {
        lemma_scan_while(s, d + 1, |c: char| is_digit(c));
    }
    lemma_scan_while(s, st.pos + 1, |c: char| is_name_char(c));
}

/// The main loop of the scan, from `st` to the end of the input.
pub open spec fn lex_loop(s: Seq<char>, st: LexState) -> Result<LexState, LexError>
    decreases s.len() - st.pos,
{
    if st.pos < 0 || st.pos >= s.len() {
        Ok(st)
    } else {
        let st1 = if st.at_line_start { line_start(s, st) } else { st };
        let st2 = LexState { start: st1.pos, ..st1 };
        if st2.pos >= s.len() {
            Ok(st2)
        } else {
            proof {
                lemma_line_start_pos(s, st);
                lemma_lex_char_advances(s, st2);
            }
            match lex_char(s, st2) {
                Err(e) => Err(e),
                Ok(st3) => lex_loop(s, st3),
            }
        }
    }
}

pub proof fn lemma_dedent_to(s: Seq<char>, st: LexState, width: int)
    ensures
        dedent_to(s, st, width).pos == st.pos,
        dedent_to(s, st, width).line == st.line,
        dedent_to(s, st, width).col == st.col,
        dedent_to(s, st, width).start == st.start,
        dedent_to(s, st, width).at_line_start == st.at_line_start,
    decreases st.indents.len(),
{
    if st.indents.len() > 0 && width < st.indents.last() {
        lemma_dedent_to(s, emit(s, LexState { indents: st.indents.drop_last(), ..st }, TokenKind::Dedent), width);
    }
}

pub proof fn lemma_line_start_pos(s: Seq<char>, st: LexState)
    requires
        0 <= st.pos <= s.len(),
    ensures
        st.pos <= line_start(s, st).pos <= s.len(),
        line_start(s, st).start == st.start,
        line_start(s, st).line == st.line,
        line_start(s, st).col == st.col + (line_start(s, st).pos - st.pos),
{
    lemma_scan_while(s, st.pos, |c: char| is_blank(c));
    let e = blank_end(s, st.pos);
    let st1 = LexState { at_line_start: false, ..moved(st, e) };
    lemma_dedent_to(s, st1, e - st.pos);
}

/// The end of the scan: one `Dedent` if an indentation is open, then `Eof`.
pub open spec fn finish(s: Seq<char>, st: LexState) -> LexState {
    let st1 = if st.indents.len() > 0 && st.indents.last() > 0 {
        emit(s, LexState { indents: st.indents.drop_last(), ..st }, TokenKind::Dedent)
    } else {
        st
    };
    emit(s, st1, TokenKind::Eof)
}

/// The state a scan starts in.
pub open spec fn initial_state(pos: int, start: int, line: int, col: int, tokens: Seq<SpecToken>) -> LexState {
    LexState { pos, start, line, col, at_line_start: true, indents: seq![0int], tokens }
}

/// The scan of `s` from the given cursor, appending to `tokens`.
pub open spec fn lex_from(s: Seq<char>, pos: int, start: int, line: int, col: int, tokens: Seq<SpecToken>) -> Result<LexState, LexError> {
    match lex_loop(s, initial_state(pos, start, line, col, tokens)) {
        Ok(st) => Ok(finish(s, st)),
        Err(e) => Err(e),
    }
}

/// The tokens of the whole of `s`, scanned from its first character.
pub open spec fn lex(s: Seq<char>) -> Result<Seq<SpecToken>, LexError> {
    match lex_from(s, 0, 0, 1, 1, Seq::empty()) {
        Ok(st) => Ok(st.tokens),
        Err(e) => Err(e),
    }
}

/// Skipping blanks, carriage returns, comments and line breaks from `pos`:
/// the position, line and column after them.
pub open spec fn skip_ws(s: Seq<char>, pos: int, line: int, col: int) -> (int, int, int)
    decreases s.len() - pos,
{
    if 0 <= pos < s.len() {
        let c = s[pos];
        if c == ' ' || c == '\r' || c == '\t' {
            skip_ws(s, pos + 1, line, col + 1)
        } else if c == '#' {
            let e = comment_end(s, pos + 1);
            proof {
                lemma_scan_while(s, pos + 1, |c: char| c != '\n');
            }
            skip_ws(s, e, line, col + (e - pos))
        } else if c == '\n' {
            skip_ws(s, pos + 1, line + 1, 1)
        } else {
            (pos, line, col)
        }
    } else {
        (pos, line, col)
    }
}

fn is_ascii_digit(c: char) -> (r: bool)
    ensures
        r == is_digit(c),
{
    '0' <= c && c <= '9'
}

fn is_ascii_alphabetic(c: char) -> (r: bool)
    ensures
        r == is_ascii_alpha(c),
{
    ('a' <= c && c <= 'z') || ('A' <= c && c <= 'Z')
}

// ---------------------------------------------------------------------
// The lexer
// ---------------------------------------------------------------------

/// A scanner over the characters of a source text.
pub struct Lexer {
    source: Vec<char>,
    start: usize,
    current: usize,
    line: usize,
    col: usize,
    tokens: Vec<Token>,
}

/// What a lexer holds: its input, its cursor and the tokens so far.
pub struct LexerView {
    pub source: Seq<char>,
    pub pos: int,
    pub start: int,
    pub line: int,
    pub col: int,
    pub tokens: Seq<SpecToken>,
}

impl View for Lexer {
    type V = LexerView;

    closed spec fn view(&self) -> LexerView {
        LexerView {
            source: self.source@,
            pos: self.current as int,
            start: self.start as int,
            line: self.line as int,
            col: self.col as int,
            tokens: tokens_view(self.tokens@),
        }
    }
}

impl Lexer {
    /// The lexer's cursor fits its input, and the counters cannot overflow.
    pub closed spec fn wf(&self) -> bool {
        &&& self.source@.len() < usize::MAX
        &&& self.start <= self.current <= self.source@.len()
        &&& self.current - self.start <= self.col <= self.current + 1
        &&& self.line <= self.current + 1
    }

    /// The scan state with the given line-start flag and indentation stack.
    pub closed spec fn state(&self, at_line_start: bool, indents: Seq<usize>) -> LexState {
        LexState {
            pos: self.current as int,
            start: self.start as int,
            line: self.line as int,
            col: self.col as int,
            at_line_start,
            indents: indents.map_values(|w: usize| w as int),
            tokens: tokens_view(self.tokens@),
        }
    }

    /// A lexer over `source`, at its first character, with no tokens.
    pub fn new(source: &str) -> (l: Lexer)
        ensures
            l@.source == source@,
            l@.pos == 0,
            l@.start == 0,
            l@.line == 1,
            l@.col == 1,
            l@.tokens == Seq::<SpecToken>::empty(),
            l.wf() == (source@.len() < usize::MAX),
    {
        broadcast use vstd::string::group_string_axioms;
        let mut chars: Vec<char> = Vec::new();
        for c in it: source.chars()
            invariant
                chars@ == it.seq().take(it.index() as int),
        {
            chars.push(c);
        }
        assert(chars@ =~= source@);
        let l = Lexer { source: chars, start: 0, current: 0, line: 1, col: 1, tokens: Vec::new() };
        assert(tokens_view(l.tokens@) =~= Seq::<SpecToken>::empty());
        l
    }

    fn is_at_end(&self) -> (r: bool)
        ensures
            r == (self.current >= self.source@.len()),
    {
        self.current >= self.source.len()
    }

    fn advance(&mut self) -> (c: char)
        requires
            old(self).current < old(self).source@.len() < usize::MAX,
            old(self).col < usize::MAX,
        ensures
            c == old(self).source@[old(self).current as int],
            final(self).current == old(self).current + 1,
            final(self).col == old(self).col + 1,
            final(self).source@ == old(self).source@,
            final(self).start == old(self).start,
            final(self).line == old(self).line,
            final(self).tokens == old(self).tokens,
    {
        let c = self.source[self.current];
        self.current += 1;
        self.col += 1;
        c
    }

    fn peek(&self) -> (c: char)
        ensures
            c == peek_at(self.source@, self.current as int),
    {
        if self.is_at_end() {
            '\0'
        } else {
            self.source[self.current]
        }
    }

    fn peek_next(&self) -> (c: char)
        requires
            self.current < usize::MAX,
        ensures
            c == peek_at(self.source@, self.current + 1),
    {
        if self.current + 1 >= self.source.len() {
            '\0'
        } else {
            self.source[self.current + 1]
        }
    }

    fn match_char(&mut self, expected: char) -> (r: bool)
        requires
            old(self).source@.len() < usize::MAX,
            old(self).col <= old(self).current + 1,
        ensures
            r == (old(self).current < old(self).source@.len()
                && old(self).source@[old(self).current as int] == expected),
            r ==> final(self).current == old(self).current + 1 && final(self).col == old(self).col
                + 1,
            !r ==> final(self).current == old(self).current && final(self).col == old(self).col,
            final(self).source@ == old(self).source@,
            final(self).start == old(self).start,
            final(self).line == old(self).line,
            final(self).tokens == old(self).tokens,
    {
        if self.is_at_end() || self.source[self.current] != expected {
            return false;
        }
        self.current += 1;
        self.col += 1;
        true
    }

    fn make_token(&mut self, kind: TokenKind)
        requires
            old(self).start <= old(self).current <= old(self).source@.len(),
            old(self).current - old(self).start <= old(self).col,
        ensures
            final(self).source@ == old(self).source@,
            final(self).start == old(self).start,
            final(self).current == old(self).current,
            final(self).line == old(self).line,
            final(self).col == old(self).col,
            tokens_view(final(self).tokens@) == tokens_view(old(self).tokens@).push(
                SpecToken {
                    kind,
                    lexeme: old(self).source@.subrange(old(self).start as int, old(self).current as int),
                    line: old(self).line as int,
                    col: old(self).col - (old(self).current - old(self).start),
                },
            ),
    {
        let mut lexeme = String::new();
        let mut i = self.start;
        while i < self.current
            invariant
                self.start <= i <= self.current <= self.source@.len(),
                lexeme@ == self.source@.subrange(self.start as int, i as int),
            decreases self.current - i,
        {
            push_char(&mut lexeme, self.source[i]);
            i += 1;
            assert(lexeme@ =~= self.source@.subrange(self.start as int, i as int));
        }
        let t = Token { kind, lexeme, line: self.line, col: self.col - (self.current - self.start) };
        let ghost old_tokens = self.tokens@;
        self.tokens.push(t);
        assert(tokens_view(self.tokens@) =~= tokens_view(old_tokens).push(t@));
    }

    /// The span `start..current` as a keyword kind, or `Name`.
    fn word_kind_at(&self) -> (k: TokenKind)
        requires
            self.start <= self.current <= self.source@.len(),
        ensures
            k == word_kind(self.source@.subrange(self.start as int, self.current as int)),
    {
        let ghost w = self.source@.subrange(self.start as int, self.current as int);
        let n = self.current - self.start;
        let b = self.start;
        if n == 3 && self.source[b] == 'd' && self.source[b + 1] == 'e' && self.source[b + 2] == 'f' {
            assert(w =~= seq!['d', 'e', 'f']);
            return TokenKind::Def;
        }
        assert(w != seq!['d', 'e', 'f']) by {
            if w == seq!['d', 'e', 'f'] {
                assert(seq!['d', 'e', 'f'].len() == 3);
                assert(seq!['d', 'e', 'f'][0] == 'd');
                assert(w[0] == self.source@[b + 0]);
                assert(seq!['d', 'e', 'f'][1] == 'e');
                assert(w[1] == self.source@[b + 1]);
                assert(seq!['d', 'e', 'f'][2] == 'f');
                assert(w[2] == self.source@[b + 2]);
            }
        }
        if n == 2 && self.source[b] == 'i' && self.source[b + 1] == 'f' {
            assert(w =~= seq!['i', 'f']);
            return TokenKind::If;
        }
        assert(w != seq!['i', 'f']) by {
            if w == seq!['i', 'f'] {
                assert(seq!['i', 'f'].len() == 2);
                assert(seq!['i', 'f'][0] == 'i');
                assert(w[0] == self.source@[b + 0]);
                assert(seq!['i', 'f'][1] == 'f');
                assert(w[1] == self.source@[b + 1]);
            }
        }
        if n == 4 && self.source[b] == 'e' && self.source[b + 1] == 'l' && self.source[b + 2] == 's'
            && self.source[b + 3] == 'e' {
            assert(w =~= seq!['e', 'l', 's', 'e']);
            return TokenKind::Else;
        }
        assert(w != seq!['e', 'l', 's', 'e']) by {
            if w == seq!['e', 'l', 's', 'e'] {
                assert(seq!['e', 'l', 's', 'e'].len() == 4);
                assert(seq!['e', 'l', 's', 'e'][0] == 'e');
                assert(w[0] == self.source@[b + 0]);
                assert(seq!['e', 'l', 's', 'e'][1] == 'l');
                assert(w[1] == self.source@[b + 1]);
                assert(seq!['e', 'l', 's', 'e'][2] == 's');
                assert(w[2] == self.source@[b + 2]);
                assert(seq!['e', 'l', 's', 'e'][3] == 'e');
                assert(w[3] == self.source@[b + 3]);
            }
        }
        if n == 5 && self.source[b] == 'w' && self.source[b + 1] == 'h' && self.source[b + 2] == 'i'
            && self.source[b + 3] == 'l' && self.source[b + 4] == 'e' {
            assert(w =~= seq!['w', 'h', 'i', 'l', 'e']);
            return TokenKind::While;
        }
        assert(w != seq!['w', 'h', 'i', 'l', 'e']) by {
            if w == seq!['w', 'h', 'i', 'l', 'e'] {
                assert(seq!['w', 'h', 'i', 'l', 'e'].len() == 5);
                assert(seq!['w', 'h', 'i', 'l', 'e'][0] == 'w');
                assert(w[0] == self.source@[b + 0]);
                assert(seq!['w', 'h', 'i', 'l', 'e'][1] == 'h');
                assert(w[1] == self.source@[b + 1]);
                assert(seq!['w', 'h', 'i', 'l', 'e'][2] == 'i');
                assert(w[2] == self.source@[b + 2]);
                assert(seq!['w', 'h', 'i', 'l', 'e'][3] == 'l');
                assert(w[3] == self.source@[b + 3]);
                assert(seq!['w', 'h', 'i', 'l', 'e'][4] == 'e');
                assert(w[4] == self.source@[b + 4]);
            }
        }
        if n == 6 && self.source[b] == 'r' && self.source[b + 1] == 'e' && self.source[b + 2] == 't'
            && self.source[b + 3] == 'u' && self.source[b + 4] == 'r' && self.source[b + 5] == 'n' {
            assert(w =~= seq!['r', 'e', 't', 'u', 'r', 'n']);
            return TokenKind::Return;
        }
        assert(w != seq!['r', 'e', 't', 'u', 'r', 'n']) by {
            if w == seq!['r', 'e', 't', 'u', 'r', 'n'] {
                assert(seq!['r', 'e', 't', 'u', 'r', 'n'].len() == 6);
                assert(seq!['r', 'e', 't', 'u', 'r', 'n'][0] == 'r');
                assert(w[0] == self.source@[b + 0]);
                assert(seq!['r', 'e', 't', 'u', 'r', 'n'][1] == 'e');
                assert(w[1] == self.source@[b + 1]);
                assert(seq!['r', 'e', 't', 'u', 'r', 'n'][2] == 't');
                assert(w[2] == self.source@[b + 2]);
                assert(seq!['r', 'e', 't', 'u', 'r', 'n'][3] == 'u');
                assert(w[3] == self.source@[b + 3]);
                assert(seq!['r', 'e', 't', 'u', 'r', 'n'][4] == 'r');
                assert(w[4] == self.source@[b + 4]);
                assert(seq!['r', 'e', 't', 'u', 'r', 'n'][5] == 'n');
                assert(w[5] == self.source@[b + 5]);
            }
        }
        if n == 4 && self.source[b] == 'p' && self.source[b + 1] == 'a' && self.source[b + 2] == 's'
            && self.source[b + 3] == 's' {
            assert(w =~= seq!['p', 'a', 's', 's']);
            return TokenKind::Pass;
        }
        assert(w != seq!['p', 'a', 's', 's']) by {
            if w == seq!['p', 'a', 's', 's'] {
                assert(seq!['p', 'a', 's', 's'].len() == 4);
                assert(seq!['p', 'a', 's', 's'][0] == 'p');
                assert(w[0] == self.source@[b + 0]);
                assert(seq!['p', 'a', 's', 's'][1] == 'a');
                assert(w[1] == self.source@[b + 1]);
                assert(seq!['p', 'a', 's', 's'][2] == 's');
                assert(w[2] == self.source@[b + 2]);
                assert(seq!['p', 'a', 's', 's'][3] == 's');
                assert(w[3] == self.source@[b + 3]);
            }
        }
        TokenKind::Name
    }

    /// Skips blanks, carriage returns, comments and line breaks, counting lines.
    #[allow(dead_code)]
    fn skip_whitespace(&mut self)
        requires
            old(self).wf(),
        ensures
            final(self).source@ == old(self).source@,
            final(self).tokens == old(self).tokens,
            final(self).start == old(self).start,
            (final(self).current as int, final(self).line as int, final(self).col as int)
                == skip_ws(old(self).source@, old(self).current as int, old(self).line as int, old(self).col as int),
    {
        while !self.is_at_end()
            invariant
                self.source@ == old(self).source@,
                self.tokens == old(self).tokens,
                self.start == old(self).start,
                old(self).current <= self.current <= self.source@.len() < usize::MAX,
                self.col <= self.current + 1,
                self.line <= self.current + 1,
                skip_ws(self.source@, self.current as int, self.line as int, self.col as int)
                    == skip_ws(old(self).source@, old(self).current as int, old(self).line as int, old(self).col as int),
            ensures
                skip_ws(self.source@, self.current as int, self.line as int, self.col as int)
                    == (self.current as int, self.line as int, self.col as int),
            decreases self.source@.len() - self.current,
        {
            let c = self.peek();
            if c == ' ' || c == '\r' || c == '\t' {
                self.advance();
            } else if c == '#' {
                let ghost p = self.current as int;
                let ghost pcol = self.col as int;
                let ghost pline = self.line as int;
                self.advance();
                while self.peek() != '\n' && !self.is_at_end()
                    invariant
                        self.col == pcol + (self.current - p),
                        self.line == pline,
                        self.source@ == old(self).source@,
                        self.tokens == old(self).tokens,
                        self.start == old(self).start,
                        p < self.current <= self.source@.len() < usize::MAX,
                        self.col <= self.current + 1,
                        self.line <= self.current + 1,
                        comment_end(self.source@, self.current as int) == comment_end(self.source@, p + 1),
                    decreases self.source@.len() - self.current,
                {
                    self.advance();
                }
            } else if c == '\n' {
                self.advance();
                self.line += 1;
                self.col = 1;
            } else {
                break;
            }
        }
    }

    /// A string literal from its opening quote; the token's text is the
    /// decoded value.
    fn scan_string(&mut self) -> (r: Result<(), LexError>)
        requires
            old(self).wf(),
            old(self).start == old(self).current < old(self).source@.len(),
        ensures
            final(self).source@ == old(self).source@,
            match str_body(
                old(self).source@,
                old(self).source@[old(self).current as int],
                old(self).current + 1,
                old(self).line as int,
                old(self).col + 1,
                Seq::empty(),
            ) {
                None => r == Err::<(), LexError>(LexError::UnterminatedString),
                Some((p, l, c, v)) => {
                    &&& r is Ok
                    &&& final(self).wf()
                    &&& final(self).current == p
                    &&& final(self).start == p
                    &&& final(self).line == l
                    &&& final(self).col == c
                    &&& tokens_view(final(self).tokens@) == tokens_view(old(self).tokens@).push(
                        SpecToken { kind: TokenKind::String, lexeme: v, line: l, col: c },
                    )
                },
            },
    {
        let ghost s = self.source@;
        let ghost target = str_body(
            s,
            s[self.current as int],
            self.current + 1,
            self.line as int,
            self.col + 1,
            Seq::empty(),
        );
        let quote = self.advance();
        let mut value = String::new();
        while self.peek() != quote && !self.is_at_end()
            invariant
                self.source@ == s,
                self.tokens == old(self).tokens,
                self.start == old(self).start,
                old(self).current < self.current <= s.len() < usize::MAX,
                self.col <= self.current + 1,
                self.line <= self.current + 1,
                str_body(s, quote, self.current as int, self.line as int, self.col as int, value@)
                    == target,
            decreases s.len() - self.current,
        {
            if self.peek() == '\\' {
                self.advance();
                let e = self.peek();
                if e == 'n' {
                    push_char(&mut value, '\n');
                } else if e == 't' {
                    push_char(&mut value, '\t');
                } else if e == 'r' {
                    push_char(&mut value, '\r');
                } else if e == '\\' {
                    push_char(&mut value, '\\');
                } else if e == '\'' {
                    push_char(&mut value, '\'');
                } else if e == '"' {
                    push_char(&mut value, '"');
                } else {
                    push_char(&mut value, e);
                }
            } else if self.peek() == '\n' {
                self.line += 1;
                self.col = 1;
                let c = self.advance();
                push_char(&mut value, c);
            } else {
                let c = self.advance();
                push_char(&mut value, c);
            }
        }
        if self.is_at_end() {
            return Err(LexError::UnterminatedString);
        }
        self.advance();
        self.start = self.current;
        let t = Token { kind: TokenKind::String, lexeme: value, line: self.line, col: self.col };
        let ghost old_tokens = self.tokens@;
        self.tokens.push(t);
        assert(tokens_view(self.tokens@) =~= tokens_view(old_tokens).push(t@));
        Ok(())
    }

    /// A number from its first digit.
    fn scan_number(&mut self)
        requires
            old(self).wf(),
            old(self).start == old(self).current < old(self).source@.len(),
        ensures
            final(self).wf(),
            final(self).source@ == old(self).source@,
            ({
                let st = scan_number_spec(old(self).source@, old(self).state(false, Seq::empty()));
                &&& final(self).current == st.pos
                &&& final(self).start == st.start
                &&& final(self).line == st.line
                &&& final(self).col == st.col
                &&& tokens_view(final(self).tokens@) == st.tokens
            }),
    {
        let ghost s = self.source@;
        let ghost p0 = self.current as int;
        while is_ascii_digit(self.peek())
            invariant
                self.wf(),
                self.source@ == s,
                self.tokens == old(self).tokens,
                self.start == old(self).start,
                self.line == old(self).line,
                p0 <= self.current,
                self.col == old(self).col + (self.current - p0),
                digits_end(s, self.current as int) == digits_end(s, p0),
            decreases s.len() - self.current,
        {
            self.advance();
        }
        if self.peek() == '.' && is_ascii_digit(self.peek_next()) {
            self.advance();
            let ghost p1 = self.current as int;
            while is_ascii_digit(self.peek())
                invariant
                    self.wf(),
                    self.source@ == s,
                    self.tokens == old(self).tokens,
                    self.start == old(self).start,
                    self.line == old(self).line,
                    p1 <= self.current,
                    self.col == old(self).col + (self.current - p0),
                    digits_end(s, self.current as int) == digits_end(s, p1),
                decreases s.len() - self.current,
            {
                self.advance();
            }
            self.make_token(TokenKind::Float);
        } else {
            self.make_token(TokenKind::Int);
        }
    }

    /// A name or keyword from its first character.
    fn scan_name(&mut self)
        requires
            old(self).wf(),
            old(self).start == old(self).current < old(self).source@.len(),
        ensures
            final(self).wf(),
            final(self).source@ == old(self).source@,
            ({
                let st = scan_name_spec(old(self).source@, old(self).state(false, Seq::empty()));
                &&& final(self).current == st.pos
                &&& final(self).start == st.start
                &&& final(self).line == st.line
                &&& final(self).col == st.col
                &&& tokens_view(final(self).tokens@) == st.tokens
            }),
    {
        let ghost s = self.source@;
        let ghost p0 = self.current as int;
        self.advance();
        while is_alphanumeric(self.peek()) || self.peek() == '_'
            invariant
                self.wf(),
                self.source@ == s,
                self.tokens == old(self).tokens,
                self.start == old(self).start,
                self.line == old(self).line,
                p0 < self.current,
                self.col == old(self).col + (self.current - p0),
                name_end(s, self.current as int) == name_end(s, p0 + 1),
            decreases s.len() - self.current,
        {
            self.advance();
        }
        let kind = self.word_kind_at();
        self.make_token(kind);
    }

    /// Everything the scan does at a token start: a line break, a skipped
    /// blank or comment, or one token. Returns whether a new line begins.
    fn scan_char(&mut self, Ghost(indents): Ghost<Seq<usize>>) -> (r: Result<bool, LexError>)
        requires
            old(self).wf(),
            old(self).start == old(self).current < old(self).source@.len(),
        ensures
            final(self).source@ == old(self).source@,
            match lex_char(old(self).source@, old(self).state(false, indents)) {
                Ok(st) => {
                    &&& r == Ok::<bool, LexError>(st.at_line_start)
                    &&& final(self).wf()
                    &&& final(self).state(st.at_line_start, indents) == st
                },
                Err(e) => r == Err::<bool, LexError>(e),
            },
    {
        let ghost s = self.source@;
        let ghost st0 = self.state(false, indents);
        let c = self.peek();
        if c == '\n' {
            self.advance();
            self.line += 1;
            self.col = 1;
            self.make_token(TokenKind::Newline);
            return Ok(true);
        }
        if c == ' ' || c == '\r' || c == '\t' {
            self.advance();
            return Ok(false);
        }
        if c == '#' {
            let ghost p = self.current as int;
            self.advance();
            while self.peek() != '\n' && !self.is_at_end()
                invariant
                    self.wf(),
                    self.source@ == s,
                    self.tokens == old(self).tokens,
                    self.start == old(self).start,
                    self.line == old(self).line,
                    p < self.current,
                    self.col == old(self).col + (self.current - p),
                    comment_end(s, self.current as int) == comment_end(s, p + 1),
                decreases s.len() - self.current,
            {
                self.advance();
            }
            return Ok(false);
        }
        if c == '"' || c == '\'' {
            return match self.scan_string() {
                Ok(()) => Ok(false),
                Err(e) => Err(e),
            };
        }
        if is_ascii_digit(c) {
            self.scan_number();
            return Ok(false);
        }
        if is_ascii_alphabetic(c) || c == '_' {
            self.scan_name();
            return Ok(false);
        }
        self.advance();
        if c == '(' {
            self.make_token(TokenKind::Lparen);
        } else if c == ')' {
            self.make_token(TokenKind::Rparen);
        } else if c == '[' {
            self.make_token(TokenKind::Lbracket);
        } else if c == ']' {
            self.make_token(TokenKind::Rbracket);
        } else if c == ',' {
            self.make_token(TokenKind::Comma);
        } else if c == ':' {
            self.make_token(TokenKind::Colon);
        } else if c == '.' {
            self.make_token(TokenKind::Dot);
        } else if c == '+' {
            self.make_token(TokenKind::Plus);
        } else if c == '-' {
            self.make_token(TokenKind::Minus);
        } else if c == '*' {
            self.make_token(TokenKind::Star);
        } else if c == '/' {
            self.make_token(TokenKind::Slash);
        } else if c == '%' {
            self.make_token(TokenKind::Percent);
        } else if c == '=' {
            if self.match_char('=') {
                self.make_token(TokenKind::EqEq);
            } else {
                self.make_token(TokenKind::Equal);
            }
        } else if c == '!' {
            if self.match_char('=') {
                self.make_token(TokenKind::Ne);
            } else {
                return Err(LexError::UnexpectedCharacter('!'));
            }
        } else if c == '<' {
            if self.match_char('=') {
                self.make_token(TokenKind::Le);
            } else {
                self.make_token(TokenKind::Lt);
            }
        } else if c == '>' {
            if self.match_char('=') {
                self.make_token(TokenKind::Ge);
            } else {
                self.make_token(TokenKind::Gt);
            }
        } else {
            return Err(LexError::UnexpectedCharacter(c));
        }
        Ok(false)
    }

    /// The start of a line: counts blanks, then opens one indentation
    /// level or closes as many as are wider than the line.
    fn scan_indentation(&mut self, indent_stack: &mut Vec<usize>)
        requires
            old(self).wf(),
            old(indent_stack)@.len() >= 1,
            old(indent_stack)@[0] == 0,
        ensures
            final(self).wf(),
            final(self).source@ == old(self).source@,
            final(indent_stack)@.len() >= 1,
            final(indent_stack)@[0] == 0,
            final(self).state(false, final(indent_stack)@) == line_start(
                old(self).source@,
                old(self).state(true, old(indent_stack)@),
            ),
    {
        let ghost s = self.source@;
        let ghost st0 = self.state(true, indent_stack@);
        let ghost p0 = self.current as int;
        let mut spaces: usize = 0;
        while self.peek() == ' ' || self.peek() == '\t'
            invariant
                self.wf(),
                self.source@ == s,
                self.tokens == old(self).tokens,
                self.start == old(self).start,
                self.line == old(self).line,
                p0 <= self.current,
                spaces == self.current - p0,
                self.col == old(self).col + spaces,
                blank_end(s, self.current as int) == blank_end(s, p0),
            decreases s.len() - self.current,
        {
            spaces += 1;
            self.advance();
        }
        let ghost st1 = self.state(false, indent_stack@);
        assert(st1 == LexState { at_line_start: false, ..moved(st0, blank_end(s, p0)) });
        let c = self.peek();
        if c == '#' || c == '\n' {
        } else {
            let top = indent_stack[indent_stack.len() - 1];
            if spaces > top {
                let ghost old_stack = indent_stack@;
                indent_stack.push(spaces);
                assert(indent_stack@.map_values(|w: usize| w as int) =~= old_stack.map_values(
                    |w: usize| w as int,
                ).push(spaces as int));
                self.make_token(TokenKind::Indent);
            } else if spaces < top {
                while indent_stack.len() > 0 && spaces < indent_stack[indent_stack.len() - 1]
                    invariant
                        self.wf(),
                        self.source@ == s,
                        indent_stack@.len() >= 1,
                        indent_stack@[0] == 0,
                        dedent_to(s, self.state(false, indent_stack@), spaces as int) == dedent_to(
                            s,
                            st1,
                            spaces as int,
                        ),
                    decreases indent_stack@.len(),
                {
                    let ghost old_stack = indent_stack@;
                    indent_stack.pop();
                    assert(indent_stack@.map_values(|w: usize| w as int) =~= old_stack.map_values(
                        |w: usize| w as int,
                    ).drop_last());
                    self.make_token(TokenKind::Dedent);
                }
            }
        }
    }

    /// Scans the whole input from the cursor, appending tokens: line
    /// breaks, indentation changes, names, keywords, numbers, strings and
    /// operators, then `Eof`.
    pub fn scan_tokens(&mut self) -> (r: Result<(), LexError>)
        requires
            old(self).wf(),
        ensures
            final(self)@.source == old(self)@.source,
            match lex_from(
                old(self)@.source,
                old(self)@.pos,
                old(self)@.start,
                old(self)@.line,
                old(self)@.col,
                old(self)@.tokens,
            ) {
                Ok(st) => {
                    &&& r is Ok
                    &&& final(self).wf()
                    &&& final(self)@.tokens == st.tokens
                    &&& final(self)@.pos == st.pos
                    &&& final(self)@.start == st.start
                    &&& final(self)@.line == st.line
                    &&& final(self)@.col == st.col
                },
                Err(e) => r == Err::<(), LexError>(e),
            },
    {
        let ghost s = self.source@;
        let mut indent_stack: Vec<usize> = vec![0];
        let mut at_line_start = true;
        let ghost init = initial_state(
            self.current as int,
            self.start as int,
            self.line as int,
            self.col as int,
            tokens_view(self.tokens@),
        );
        assert(indent_stack@.map_values(|w: usize| w as int) =~= seq![0int]);
        assert(self.state(at_line_start, indent_stack@) == init);
        let ghost target = lex_loop(s, init);
        while !self.is_at_end()
            invariant
                self.wf(),
                self.source@ == s,
                indent_stack@.len() >= 1,
                indent_stack@[0] == 0,
                s == old(self).source@,
                target == lex_loop(
                    s,
                    initial_state(
                        old(self).current as int,
                        old(self).start as int,
                        old(self).line as int,
                        old(self).col as int,
                        tokens_view(old(self).tokens@),
                    ),
                ),
                lex_loop(s, self.state(at_line_start, indent_stack@)) == target,
            ensures
                self.current >= s.len(),
            decreases s.len() - self.current,
        {
            let ghost st0 = self.state(at_line_start, indent_stack@);
            proof {
                lemma_line_start_pos(s, st0);
            }
            if at_line_start {
                self.scan_indentation(&mut indent_stack);
                at_line_start = false;
            }
            self.start = self.current;
            if self.is_at_end() {
                break;
            }
            let ghost st2 = self.state(false, indent_stack@);
            proof {
                lemma_lex_char_advances(s, st2);
            }
            match self.scan_char(Ghost(indent_stack@)) {
                Ok(b) => {
                    at_line_start = b;
                },
                Err(e) => {
                    return Err(e);
                },
            }
        }
        let ghost st_end = self.state(at_line_start, indent_stack@);
        assert(target == Ok::<LexState, LexError>(st_end));
        if indent_stack[indent_stack.len() - 1] > 0 {
            let ghost old_stack = indent_stack@;
            indent_stack.pop();
            assert(indent_stack@.map_values(|w: usize| w as int) =~= old_stack.map_values(
                |w: usize| w as int,
            ).drop_last());
            self.make_token(TokenKind::Dedent);
        }
        self.make_token(TokenKind::Eof);
        Ok(())
    }

    /// The tokens scanned so far.
    pub fn get_tokens(self) -> (v: Vec<Token>)
        ensures
            tokens_view(v@) == self@.tokens,
    {
        self.tokens
    }
}


// ---------------------------------------------------------------------
// Laws of the scan
// ---------------------------------------------------------------------

/// How many tokens of kind `k` are in `t`.
pub open spec fn count_kind(t: Seq<SpecToken>, k: TokenKind) -> int
    decreases t.len(),
{
    if t.len() == 0 {
        0
    } else {
        count_kind(t.drop_last(), k) + if t.last().kind == k {
            1int
        } else {
            0int
        }
    }
}

/// No token of `t` is `Eof`.
pub open spec fn no_eof(t: Seq<SpecToken>) -> bool {
    forall|i: int| 0 <= i < t.len() ==> (#[trigger] t[i]).kind != TokenKind::Eof
}

/// Every `Name` token of `t` spells no keyword.
pub open spec fn names_are_not_keywords(t: Seq<SpecToken>) -> bool {
    forall|i: int|
        0 <= i < t.len() && (#[trigger] t[i]).kind == TokenKind::Name ==> word_kind(t[i].lexeme)
            == TokenKind::Name
}

/// What holds of every state the main loop passes through: the bottom
/// indentation is zero, each open level was announced by one more `Indent`
/// than `Dedent`, no `Eof` has been emitted, and names are no keywords.
pub open spec fn scan_inv(st: LexState) -> bool {
    &&& st.indents.len() >= 1
    &&& st.indents[0] == 0
    &&& count_kind(st.tokens, TokenKind::Indent) - count_kind(st.tokens, TokenKind::Dedent)
        == st.indents.len() - 1
    &&& no_eof(st.tokens)
    &&& names_are_not_keywords(st.tokens)
    &&& dedents_follow_indents(st.tokens)
    &&& compare_texts(st.tokens)
}

/// The source text of a comparison token kind; `None` for other kinds.
pub open spec fn compare_symbol(k: TokenKind) -> Option<Seq<char>> {
    match k {
        TokenKind::EqEq => Some(seq!['=', '=']),
        TokenKind::Ne => Some(seq!['!', '=']),
        TokenKind::Lt => Some(seq!['<']),
        TokenKind::Le => Some(seq!['<', '=']),
        TokenKind::Gt => Some(seq!['>']),
        TokenKind::Ge => Some(seq!['>', '=']),
        _ => None,
    }
}

/// Every comparison token in `t` has the text of its kind.
pub open spec fn compare_texts(t: Seq<SpecToken>) -> bool {
    forall|i: int| 0 <= i < t.len() ==> (compare_symbol(#[trigger] t[i].kind) matches Some(x) ==> t[i].lexeme == x)
}

proof fn lemma_compare_push(t: Seq<SpecToken>, tok: SpecToken)
    requires
        compare_texts(t),
        compare_symbol(tok.kind) matches Some(x) ==> tok.lexeme == x,
    ensures
        compare_texts(t.push(tok)),
{
    let t2 = t.push(tok);
    assert forall|i: int| 0 <= i < t2.len() implies (compare_symbol(#[trigger] t2[i].kind) matches Some(x)
        ==> t2[i].lexeme == x) by {
        if i < t.len() {
            assert(t2[i] == t[i]);
        }
    }
}

/// In every prefix of `t`, no more levels are closed than were opened.
pub open spec fn dedents_follow_indents(t: Seq<SpecToken>) -> bool {
    forall|k: int|
        0 <= k <= t.len() ==> count_kind(#[trigger] t.subrange(0, k), TokenKind::Dedent) <= count_kind(
            t.subrange(0, k),
            TokenKind::Indent,
        )
}

proof fn lemma_follow_push(t: Seq<SpecToken>, tok: SpecToken)
    requires
        dedents_follow_indents(t),
        count_kind(t.push(tok), TokenKind::Dedent) <= count_kind(t.push(tok), TokenKind::Indent),
    ensures
        dedents_follow_indents(t.push(tok)),
{
    let t2 = t.push(tok);
    assert forall|k: int| 0 <= k <= t2.len() implies count_kind(#[trigger] t2.subrange(0, k), TokenKind::Dedent)
        <= count_kind(t2.subrange(0, k), TokenKind::Indent) by {
        if k <= t.len() {
            assert(t2.subrange(0, k) =~= t.subrange(0, k));
        } else {
            assert(t2.subrange(0, k) =~= t2);
        }
    }
}

proof fn lemma_count_push(t: Seq<SpecToken>, tok: SpecToken)
    ensures
        forall|k: TokenKind|
            #[trigger] count_kind(t.push(tok), k) == count_kind(t, k) + if tok.kind == k {
                1int
            } else {
                0int
            },
{
    assert(t.push(tok).drop_last() =~= t);
}

proof fn lemma_push_inv(st: LexState, tok: SpecToken)
    requires
        scan_inv(st),
        tok.kind != TokenKind::Eof,
        tok.kind != TokenKind::Indent,
        tok.kind != TokenKind::Dedent,
        tok.kind == TokenKind::Name ==> word_kind(tok.lexeme) == TokenKind::Name,
        compare_symbol(tok.kind) matches Some(x) ==> tok.lexeme == x,
    ensures
        scan_inv(LexState { tokens: st.tokens.push(tok), ..st }),
{
    lemma_compare_push(st.tokens, tok);
    lemma_count_push(st.tokens, tok);
    lemma_follow_push(st.tokens, tok);
    let t2 = st.tokens.push(tok);
    assert forall|i: int| 0 <= i < t2.len() implies (#[trigger] t2[i]).kind != TokenKind::Eof by {
        if i < st.tokens.len() {
            assert(t2[i] == st.tokens[i]);
        }
    }
    assert forall|i: int|
        0 <= i < t2.len() && (#[trigger] t2[i]).kind == TokenKind::Name implies word_kind(t2[i].lexeme)
        == TokenKind::Name by {
        if i < st.tokens.len() {
            assert(t2[i] == st.tokens[i]);
        }
    }
}

proof fn lemma_dedent_inv(s: Seq<char>, st: LexState, width: int)
    requires
        scan_inv(st),
        width >= 0,
    ensures
        scan_inv(dedent_to(s, st, width)),
    decreases st.indents.len(),
{
    if st.indents.len() > 0 && width < st.indents.last() {
        let st1 = LexState { indents: st.indents.drop_last(), ..st };
        let st2 = emit(s, st1, TokenKind::Dedent);
        lemma_count_push(st1.tokens, st2.tokens.last());
        assert(st2.tokens =~= st1.tokens.push(st2.tokens.last()));
        assert(st.indents.len() >= 2);
        lemma_follow_push(st1.tokens, st2.tokens.last());
        lemma_compare_push(st1.tokens, st2.tokens.last());
        let t2 = st2.tokens;
        assert forall|i: int| 0 <= i < t2.len() implies (#[trigger] t2[i]).kind != TokenKind::Eof by {
            if i < st.tokens.len() {
                assert(t2[i] == st.tokens[i]);
            }
        }
        assert forall|i: int|
            0 <= i < t2.len() && (#[trigger] t2[i]).kind == TokenKind::Name implies word_kind(
            t2[i].lexeme) == TokenKind::Name by {
            if i < st.tokens.len() {
                assert(t2[i] == st.tokens[i]);
            }
        }
        lemma_dedent_inv(s, st2, width);
    }
}

proof fn lemma_line_start_inv(s: Seq<char>, st: LexState)
    requires
        scan_inv(st),
        0 <= st.pos <= s.len(),
    ensures
        scan_inv(line_start(s, st)),
{
    lemma_scan_while(s, st.pos, |c: char| is_blank(c));
    let e = blank_end(s, st.pos);
    let width = e - st.pos;
    let st1 = LexState { at_line_start: false, ..moved(st, e) };
    let c = peek_at(s, e);
    if c == '#' || c == '\n' {
    } else if width > st1.indents.last() {
        let st2 = LexState { indents: st1.indents.push(width), ..st1 };
        let st3 = emit(s, st2, TokenKind::Indent);
        lemma_count_push(st2.tokens, st3.tokens.last());
        assert(st3.tokens =~= st2.tokens.push(st3.tokens.last()));
        lemma_follow_push(st2.tokens, st3.tokens.last());
        lemma_compare_push(st2.tokens, st3.tokens.last());
        let t2 = st3.tokens;
        assert forall|i: int| 0 <= i < t2.len() implies (#[trigger] t2[i]).kind != TokenKind::Eof by {
            if i < st.tokens.len() {
                assert(t2[i] == st.tokens[i]);
            }
        }
        assert forall|i: int|
            0 <= i < t2.len() && (#[trigger] t2[i]).kind == TokenKind::Name implies word_kind(
            t2[i].lexeme) == TokenKind::Name by {
            if i < st.tokens.len() {
                assert(t2[i] == st.tokens[i]);
            }
        }
    } else {
        lemma_dedent_inv(s, st1, width);
    }
}

proof fn lemma_emit_inv(s: Seq<char>, st: LexState, kind: TokenKind)
    requires
        scan_inv(st),
        kind != TokenKind::Eof,
        kind != TokenKind::Indent,
        kind != TokenKind::Dedent,
        kind == TokenKind::Name ==> word_kind(s.subrange(st.start, st.pos)) == TokenKind::Name,
        compare_symbol(kind) matches Some(x) ==> s.subrange(st.start, st.pos) == x,
    ensures
        scan_inv(emit(s, st, kind)),
{
    let st2 = emit(s, st, kind);
    lemma_push_inv(st, st2.tokens.last());
    assert(st2.tokens =~= st.tokens.push(st2.tokens.last()));
}

proof fn lemma_lex_char_inv(s: Seq<char>, st: LexState)
    requires
        scan_inv(st),
        0 <= st.pos < s.len(),
        st.start == st.pos,
    ensures
        lex_char(s, st) matches Ok(st2) ==> scan_inv(st2),
{
    let c = s[st.pos];
    if c == '\n' {
        lemma_emit_inv(
            s,
            LexState { pos: st.pos + 1, line: st.line + 1, col: 1, at_line_start: true, ..st },
            TokenKind::Newline,
        );
    } else if c == ' ' || c == '\r' || c == '\t' || c == '#' {
    } else if c == '"' || c == '\'' {
        match str_body(s, s[st.pos], st.pos + 1, st.line, st.col + 1, Seq::empty()) {
            None => {},
            Some((p, l, cc, v)) => {
                lemma_push_inv(st, SpecToken { kind: TokenKind::String, lexeme: v, line: l, col: cc });
            },
        }
    } else if is_digit(c) {
        let d = digits_end(s, st.pos);
        if peek_at(s, d) == '.' && is_digit(peek_at(s, d + 1)) {
            lemma_emit_inv(s, moved(st, digits_end(s, d + 1)), TokenKind::Float);
        } else {
            lemma_emit_inv(s, moved(st, d), TokenKind::Int);
        }
    } else if is_name_start(c) {
        let e = name_end(s, st.pos + 1);
        lemma_emit_inv(s, moved(st, e), word_kind(s.subrange(st.pos, e)));
    } else {
        let st1 = moved(st, st.pos + 1);
        let st2 = moved(st, st.pos + 2);
        let next_is_eq = peek_at(s, st.pos + 1) == '=';
        if next_is_eq {
            assert(s.subrange(st.pos, st.pos + 2) =~= seq![c, '=']);
        }
        assert(s.subrange(st.pos, st.pos + 1) =~= seq![c]);
        if single_kind(c) is Some {
            lemma_emit_inv(s, st1, single_kind(c).unwrap());
        } else if c == '=' {
            if next_is_eq {
                lemma_emit_inv(s, st2, TokenKind::EqEq);
            } else {
                lemma_emit_inv(s, st1, TokenKind::Equal);
            }
        } else if c == '!' {
            if next_is_eq {
                lemma_emit_inv(s, st2, TokenKind::Ne);
            }
        } else if c == '<' {
            if next_is_eq {
                lemma_emit_inv(s, st2, TokenKind::Le);
            } else {
                lemma_emit_inv(s, st1, TokenKind::Lt);
            }
        } else if c == '>' {
            if next_is_eq {
                lemma_emit_inv(s, st2, TokenKind::Ge);
            } else {
                lemma_emit_inv(s, st1, TokenKind::Gt);
            }
        }
    }
}

proof fn lemma_lex_loop_inv(s: Seq<char>, st: LexState)
    requires
        scan_inv(st),
    ensures
        lex_loop(s, st) matches Ok(st2) ==> scan_inv(st2),
    decreases s.len() - st.pos,
{
    if 0 <= st.pos < s.len() {
        let st1 = if st.at_line_start { line_start(s, st) } else { st };
        if st.at_line_start {
            lemma_line_start_inv(s, st);
        }
        let st2 = LexState { start: st1.pos, ..st1 };
        lemma_line_start_pos(s, st);
        if st2.pos < s.len() {
            lemma_lex_char_advances(s, st2);
            lemma_lex_char_inv(s, st2);
            match lex_char(s, st2) {
                Err(e) => {},
                Ok(st3) => lemma_lex_loop_inv(s, st3),
            }
        }
    }
}

/// A scan that succeeds ends with exactly one `Eof`, as its last token;
/// it never closes more indentation levels than it opened; and no `Name`
/// token spells a keyword.
pub proof fn law_scan_shape(s: Seq<char>)
    ensures
        lex(s) matches Ok(t) ==> {
            &&& t.len() >= 1
            &&& t.last().kind == TokenKind::Eof
            &&& forall|i: int| 0 <= i < t.len() - 1 ==> (#[trigger] t[i]).kind != TokenKind::Eof
            &&& count_kind(t, TokenKind::Dedent) <= count_kind(t, TokenKind::Indent)
            &&& dedents_follow_indents(t)
            &&& compare_texts(t)
            &&& names_are_not_keywords(t)
        },
{
    let st0 = initial_state(0, 0, 1, 1, Seq::empty());
    assert(count_kind(Seq::<SpecToken>::empty(), TokenKind::Indent) == 0);
    assert(count_kind(Seq::<SpecToken>::empty(), TokenKind::Dedent) == 0);
    assert(Seq::<SpecToken>::empty().subrange(0, 0) =~= Seq::<SpecToken>::empty());
    assert(scan_inv(st0));
    lemma_lex_loop_inv(s, st0);
    match lex_loop(s, st0) {
        Err(_) => {},
        Ok(st) => {
            let st1 = if st.indents.len() > 0 && st.indents.last() > 0 {
                emit(s, LexState { indents: st.indents.drop_last(), ..st }, TokenKind::Dedent)
            } else {
                st
            };
            let st2 = emit(s, st1, TokenKind::Eof);
            assert(st2 == finish(s, st));
            if st.indents.len() > 0 && st.indents.last() > 0 {
                lemma_count_push(st.tokens, st1.tokens.last());
                assert(st1.tokens =~= st.tokens.push(st1.tokens.last()));
                assert(st.indents.len() >= 2);
                lemma_follow_push(st.tokens, st1.tokens.last());
                lemma_compare_push(st.tokens, st1.tokens.last());
            }
            lemma_count_push(st1.tokens, st2.tokens.last());
            assert(st2.tokens =~= st1.tokens.push(st2.tokens.last()));
            lemma_compare_push(st1.tokens, st2.tokens.last());
            lemma_follow_push(st1.tokens, st2.tokens.last());
            let t = st2.tokens;
            assert forall|i: int| 0 <= i < t.len() - 1 implies (#[trigger] t[i]).kind != TokenKind::Eof by {
                assert(t[i] == st1.tokens[i]);
                if i < st.tokens.len() {
                    assert(st1.tokens[i] == st.tokens[i]);
                }
            }
            assert forall|i: int|
                0 <= i < t.len() && (#[trigger] t[i]).kind == TokenKind::Name implies word_kind(
                t[i].lexeme) == TokenKind::Name by {
                if i < t.len() - 1 {
                    assert(t[i] == st1.tokens[i]);
                    if i < st.tokens.len() {
                        assert(st1.tokens[i] == st.tokens[i]);
                    }
                }
            }
        },
    }
}

} // verus!
