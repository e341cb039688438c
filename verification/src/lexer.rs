//! Lexer: turns Zarrin source text into a stream of tokens.

use crate::diagnostic::{Diagnostic, DiagnosticV, Span};
use crate::text::{
    ascii_digit, cat3, chars_of, digit_char, is_alphabetic, is_alphanumeric, nat_text, str_eq,
    string_of, alphabetic, alphanumeric,
};
use vstd::prelude::*;

verus! {

#[derive(Debug, Clone, PartialEq)]
pub enum Token {
    Int(i64),
    /// A floating-point literal, kept as the text it was written with.
    Float(String),
    Str(String),
    /// A string with `{..}` parts, kept as it stands between the quotes.
    InterpStr(String),
    Ident(String),
    // literals
    Bool(bool),
    // keywords
    Let,
    Fn,
    Return,
    Struct,
    Enum,
    Match,
    Trait,
    Impl,
    For,
    Extern,
    Macro,
    If,
    Else,
    While,
    Break,
    Continue,
    In,
    Import,
    // symbols
    Colon,
    ColonColon,
    Dot,
    Plus,
    Minus,
    Star,
    Slash,
    Percent,
    Eq,
    Ne,
    Lt,
    Le,
    Gt,
    Ge,
    Assign,
    LParen,
    RParen,
    LBrace,
    RBrace,
    LBrack,
    RBrack,
    Comma,
    Arrow,
    FatArrow,
    DotDot,
    Bang,
    AmpAmp,
    PipePipe,
    Pipe,
    Semicolon,
    Eof,
}

/// The model of a `Token`. A keyword or a symbol stands for itself.
pub enum TokenV {
    Int(i64),
    Float(Seq<char>),
    Str(Seq<char>),
    InterpStr(Seq<char>),
    Ident(Seq<char>),
    Bool(bool),
    Fixed(Token),
}

impl Token {
    pub open spec fn view(&self) -> TokenV {
        match self {
            Token::Int(n) => TokenV::Int(*n),
            Token::Float(t) => TokenV::Float(t@),
            Token::Str(t) => TokenV::Str(t@),
            Token::InterpStr(t) => TokenV::InterpStr(t@),
            Token::Ident(t) => TokenV::Ident(t@),
            Token::Bool(b) => TokenV::Bool(*b),
            _ => TokenV::Fixed(*self),
        }
    }
}

/// What is left of a source text, and the position of its first character.
pub struct Scan {
    pub rest: Seq<char>,
    pub line: int,
    pub col: int,
}

impl Scan {
    /// The whole of a source text.
    pub open spec fn of(src: Seq<char>) -> Scan {
        Scan { rest: src, line: 1, col: 1 }
    }

    /// The position of the next character.
    pub open spec fn here(self) -> Span {
        Span { line: self.line as u32, col: self.col as u32 }
    }

    /// Past the next character.
    pub open spec fn bump(self) -> Scan {
        if self.rest[0] == '\n' {
            Scan { rest: self.rest.drop_first(), line: self.line + 1, col: 1 }
        } else {
            Scan { rest: self.rest.drop_first(), line: self.line, col: self.col + 1 }
        }
    }

    /// Past the next `n` characters.
    pub open spec fn advance(self, n: int) -> Scan
        decreases n,
    {
        if n <= 0 {
            self
        } else {
            self.advance(n - 1).bump()
        }
    }

    /// Every position up to the end of the text fits the machine's counters.
    pub open spec fn fits(self) -> bool {
        &&& 1 <= self.line
        &&& 1 <= self.col
        &&& self.line + self.rest.len() <= u32::MAX
        &&& self.col + self.rest.len() <= u32::MAX
    }
}

pub open spec fn is_blank(c: char) -> bool {
    c == ' ' || c == '\t' || c == '\n' || c == '\r'
}

/// Past white space and `//` comments. A comment runs to the end of its line.
pub open spec fn skip_ignored(s: Scan, in_comment: bool) -> Scan
    decreases s.rest.len(),
{
    if s.rest.len() == 0 {
        s
    } else if in_comment {
        skip_ignored(s.bump(), s.rest[0] != '\n')
    } else if is_blank(s.rest[0]) {
        skip_ignored(s.bump(), false)
    } else if s.rest.len() >= 2 && s.rest[0] == '/' && s.rest[1] == '/' {
        skip_ignored(s.bump(), true)
    } else {
        s
    }
}

/// The symbols of two characters.
pub open spec fn two_char_symbol(a: char, b: char) -> Option<Token> {
    if a == '-' && b == '>' {
        Some(Token::Arrow)
    } else if a == '&' && b == '&' {
        Some(Token::AmpAmp)
    } else if a == '|' && b == '|' {
        Some(Token::PipePipe)
    } else if a == '=' && b == '=' {
        Some(Token::Eq)
    } else if a == '=' && b == '>' {
        Some(Token::FatArrow)
    } else if a == '!' && b == '=' {
        Some(Token::Ne)
    } else if a == '<' && b == '=' {
        Some(Token::Le)
    } else if a == '>' && b == '=' {
        Some(Token::Ge)
    } else if a == ':' && b == ':' {
        Some(Token::ColonColon)
    } else if a == '.' && b == '.' {
        Some(Token::DotDot)
    } else {
        None
    }
}

/// The symbols of one character.
pub open spec fn one_char_symbol(c: char) -> Option<Token> {
    if c == '+' {
        Some(Token::Plus)
    } else if c == '-' {
        Some(Token::Minus)
    } else if c == '*' {
        Some(Token::Star)
    } else if c == '/' {
        Some(Token::Slash)
    } else if c == '%' {
        Some(Token::Percent)
    } else if c == '|' {
        Some(Token::Pipe)
    } else if c == '(' {
        Some(Token::LParen)
    } else if c == ')' {
        Some(Token::RParen)
    } else if c == '{' {
        Some(Token::LBrace)
    } else if c == '}' {
        Some(Token::RBrace)
    } else if c == '[' {
        Some(Token::LBrack)
    } else if c == ']' {
        Some(Token::RBrack)
    } else if c == ',' {
        Some(Token::Comma)
    } else if c == ';' {
        Some(Token::Semicolon)
    } else if c == '=' {
        Some(Token::Assign)
    } else if c == '!' {
        Some(Token::Bang)
    } else if c == '<' {
        Some(Token::Lt)
    } else if c == '>' {
        Some(Token::Gt)
    } else if c == ':' {
        Some(Token::Colon)
    } else if c == '.' {
        Some(Token::Dot)
    } else {
        None
    }
}

/// What a word means when it is reserved.
pub open spec fn keyword(word: Seq<char>) -> Option<TokenV> {
    if word == "let"@ {
        Some(TokenV::Fixed(Token::Let))
    } else if word == "fn"@ {
        Some(TokenV::Fixed(Token::Fn))
    } else if word == "return"@ {
        Some(TokenV::Fixed(Token::Return))
    } else if word == "struct"@ {
        Some(TokenV::Fixed(Token::Struct))
    } else if word == "enum"@ {
        Some(TokenV::Fixed(Token::Enum))
    } else if word == "match"@ {
        Some(TokenV::Fixed(Token::Match))
    } else if word == "trait"@ {
        Some(TokenV::Fixed(Token::Trait))
    } else if word == "impl"@ {
        Some(TokenV::Fixed(Token::Impl))
    } else if word == "for"@ {
        Some(TokenV::Fixed(Token::For))
    } else if word == "extern"@ {
        Some(TokenV::Fixed(Token::Extern))
    } else if word == "macro"@ {
        Some(TokenV::Fixed(Token::Macro))
    } else if word == "if"@ {
        Some(TokenV::Fixed(Token::If))
    } else if word == "else"@ {
        Some(TokenV::Fixed(Token::Else))
    } else if word == "while"@ {
        Some(TokenV::Fixed(Token::While))
    } else if word == "break"@ {
        Some(TokenV::Fixed(Token::Break))
    } else if word == "continue"@ {
        Some(TokenV::Fixed(Token::Continue))
    } else if word == "in"@ {
        Some(TokenV::Fixed(Token::In))
    } else if word == "import"@ {
        Some(TokenV::Fixed(Token::Import))
    } else if word == "true"@ {
        Some(TokenV::Bool(true))
    } else if word == "false"@ {
        Some(TokenV::Bool(false))
    } else {
        None
    }
}

/// What a word means: a keyword, a truth value, or a name.
pub open spec fn word_token(word: Seq<char>) -> TokenV {
    match keyword(word) {
        Some(t) => t,
        None => TokenV::Ident(word),
    }
}

pub open spec fn word_start(c: char) -> bool {
    alphabetic(c) || c == '_'
}

pub open spec fn word_part(c: char) -> bool {
    alphanumeric(c) || c == '_'
}

/// The end of the word that `t[..i]` has begun.
pub open spec fn word_end(t: Seq<char>, i: int) -> int
    decreases t.len() - i,
{
    if i < t.len() && word_part(t[i]) {
        word_end(t, i + 1)
    } else {
        i
    }
}

/// The end of the run of digits at `i`.
pub open spec fn digits_end(t: Seq<char>, i: int) -> int
    decreases t.len() - i,
{
    if i < t.len() && ascii_digit(t[i]) {
        digits_end(t, i + 1)
    } else {
        i
    }
}

/// Whether the number that `t` begins with has a fraction: a dot after the
/// digits, unless a second dot makes it a range.
pub open spec fn has_fraction(t: Seq<char>) -> bool {
    let e = digits_end(t, 1);
    e < t.len() && t[e] == '.' && !(e + 1 < t.len() && t[e + 1] == '.')
}

/// The end of the number that `t` begins with.
pub open spec fn number_end(t: Seq<char>) -> int {
    if has_fraction(t) {
        digits_end(t, digits_end(t, 1) + 1)
    } else {
        digits_end(t, 1)
    }
}

/// The number that a run of decimal digits denotes.
pub open spec fn digits_value(t: Seq<char>) -> nat
    decreases t.len(),
{
    if t.len() == 0 {
        0
    } else {
        digits_value(t.drop_last()) * 10 + (t.last() as u32 - 48) as nat
    }
}

/// Where the string that has been read up to `i` closes: the next quote that
/// no backslash precedes, or the end of the text.
pub open spec fn string_end(t: Seq<char>, i: int) -> int
    decreases t.len() - i,
{
    if i >= t.len() {
        t.len() as int
    } else if t[i] == '"' {
        i
    } else if t[i] == '\\' && i + 1 < t.len() {
        string_end(t, i + 2)
    } else {
        string_end(t, i + 1)
    }
}

/// What a backslash before `c` stands for, where that is an escape.
pub open spec fn escape_char(c: char) -> Option<char> {
    if c == 'n' {
        Some('\n')
    } else if c == 't' {
        Some('\t')
    } else if c == 'r' {
        Some('\r')
    } else if c == '"' || c == '\\' || c == '{' || c == '}' {
        Some(c)
    } else {
        None
    }
}

/// Whether an escape stands at `i`.
pub open spec fn escape_at(t: Seq<char>, i: int) -> bool {
    i + 1 < t.len() && t[i] == '\\' && escape_char(t[i + 1]) is Some
}

/// The text from `i` on, with each escape replaced by what it stands for. A
/// backslash that starts no escape stands for itself.
pub open spec fn unescaped(t: Seq<char>, i: int) -> Seq<char>
    decreases t.len() - i,
{
    if i >= t.len() {
        Seq::empty()
    } else if escape_at(t, i) {
        seq![escape_char(t[i + 1])->Some_0] + unescaped(t, i + 2)
    } else {
        seq![t[i]] + unescaped(t, i + 1)
    }
}

/// Whether a `{` that no backslash precedes stands at `i` or later.
pub open spec fn has_interpolation(t: Seq<char>, i: int) -> bool
    decreases t.len() - i,
{
    if i >= t.len() {
        false
    } else if t[i] == '\\' && i + 1 < t.len() {
        has_interpolation(t, i + 2)
    } else {
        t[i] == '{' || has_interpolation(t, i + 1)
    }
}

/// The token that a string literal with this content is.
pub open spec fn string_token(content: Seq<char>) -> TokenV {
    if has_interpolation(content, 0) {
        TokenV::InterpStr(content)
    } else {
        TokenV::Str(unescaped(content, 0))
    }
}

/// A token, the position of its first character, and what follows it.
pub struct Lexed {
    pub token: TokenV,
    pub span: Span,
    pub next: Scan,
}

pub open spec fn fail<T>(message: Seq<char>, span: Span) -> Result<T, DiagnosticV> {
    Err(DiagnosticV { message, span })
}

/// The token that `s` begins with, where `s` begins with no white space and no
/// comment, or what is wrong there; and how many characters are read.
pub open spec fn token_at(s: Scan) -> (Result<TokenV, Seq<char>>, int) {
    let t = s.rest;
    if t.len() == 0 {
        (Ok(TokenV::Fixed(Token::Eof)), 0)
    } else if t.len() >= 2 && two_char_symbol(t[0], t[1]) is Some {
        (Ok(TokenV::Fixed(two_char_symbol(t[0], t[1])->Some_0)), 2)
    } else if one_char_symbol(t[0]) is Some {
        (Ok(TokenV::Fixed(one_char_symbol(t[0])->Some_0)), 1)
    } else if t[0] == '&' {
        (Err("unexpected `&`; did you mean `&&`?"@), 1)
    } else if t[0] == '"' {
        let e = string_end(t, 1);
        if e >= t.len() {
            (Err("unterminated string literal"@), t.len() as int)
        } else {
            (Ok(string_token(t.subrange(1, e))), e + 1)
        }
    } else if ascii_digit(t[0]) {
        let e = number_end(t);
        let text = t.subrange(0, e);
        if has_fraction(t) {
            (Ok(TokenV::Float(text)), e)
        } else if digits_value(text) > i64::MAX {
            (Err("integer literal `"@ + text + "` does not fit in a 64-bit int"@), e)
        } else {
            (Ok(TokenV::Int(digits_value(text) as i64)), e)
        }
    } else if word_start(t[0]) {
        let e = word_end(t, 1);
        (Ok(word_token(t.subrange(0, e))), e)
    } else {
        (Err("unexpected character `"@ + seq![t[0]] + "`"@), 1)
    }
}

/// What is left after the next token, or after what is wrong there.
pub open spec fn after_token(s: Scan) -> Scan {
    let at = skip_ignored(s, false);
    at.advance(token_at(at).1)
}

/// The next token of a text. At the end of the text the token is `Eof`.
#[verifier::opaque]
pub open spec fn lex(s: Scan) -> Result<Lexed, DiagnosticV> {
    let at = skip_ignored(s, false);
    match token_at(at).0 {
        Ok(token) => Ok(Lexed { token, span: at.here(), next: after_token(s) }),
        Err(message) => fail(message, at.here()),
    }
}

/// Turns source text into tokens.
pub struct Lexer {
    chars: Vec<char>,
    pos: usize,
    line: u32,
    col: u32,
}

proof fn lemma_digits_end(t: Seq<char>, i: int)
    requires
        0 <= i <= t.len(),
    ensures
        i <= digits_end(t, i) <= t.len(),
        forall|j: int| i <= j < digits_end(t, i) ==> ascii_digit(#[trigger] t[j]),
    decreases t.len() - i,
{
    if i < t.len() && ascii_digit(t[i]) {
        lemma_digits_end(t, i + 1);
    }
}

proof fn lemma_word_end(t: Seq<char>, i: int)
    requires
        0 <= i <= t.len(),
    ensures
        i <= word_end(t, i) <= t.len(),
    decreases t.len() - i,
{
    if i < t.len() && word_part(t[i]) {
        lemma_word_end(t, i + 1);
    }
}

proof fn lemma_string_end(t: Seq<char>, i: int)
    requires
        0 <= i,
    ensures
        string_end(t, i) <= t.len(),
        i <= t.len() ==> i <= string_end(t, i),
    decreases t.len() - i,
{
    if i < t.len() && t[i] != '"' {
        lemma_string_end(t, i + 1);
        if i + 1 < t.len() {
            lemma_string_end(t, i + 2);
        }
    }
}

/// After `n` characters what is left is the text without its first `n`
/// characters, and its position fits where the start did.
pub proof fn lemma_advance(s: Scan, n: int)
    requires
        0 <= n <= s.rest.len(),
    ensures
        s.advance(n).rest == s.rest.skip(n),
        s.fits() ==> s.advance(n).fits(),
    decreases n,
{
    if n > 0 {
        lemma_advance(s, n - 1);
        assert(s.rest.skip(n - 1).drop_first() =~= s.rest.skip(n));
    } else {
        assert(s.rest.skip(0) =~= s.rest);
    }
}

proof fn lemma_advance_adds(s: Scan, m: int, n: int)
    requires
        0 <= m,
        0 <= n,
    ensures
        s.advance(m).advance(n) == s.advance(m + n),
    decreases n,
{
    if n > 0 {
        lemma_advance_adds(s, m, n - 1);
    }
}

/// Skipping white space and comments is advancing by some characters.
pub proof fn lemma_skip_ignored(s: Scan, in_comment: bool)
    ensures
        skip_ignored(s, in_comment).rest.len() <= s.rest.len(),
        skip_ignored(s, in_comment) == s.advance(
            s.rest.len() - skip_ignored(s, in_comment).rest.len(),
        ),
        s.fits() ==> skip_ignored(s, in_comment).fits(),
    decreases s.rest.len(),
{
    let end = skip_ignored(s, in_comment);
    if s.rest.len() > 0 && s.bump().rest.len() >= end.rest.len() && end != s {
        let next = s.bump();
        let flag = if in_comment {
            s.rest[0] != '\n'
        } else {
            !is_blank(s.rest[0])
        };
        lemma_skip_ignored(next, flag);
        lemma_advance_adds(s, 1, next.rest.len() - end.rest.len());
        assert(s.advance(1) == next) by {
            reveal_with_fuel(Scan::advance, 2);
        }
    } else if s.rest.len() > 0 && end != s {
        lemma_skip_ignored(
            s.bump(),
            if in_comment {
                s.rest[0] != '\n'
            } else {
                !is_blank(s.rest[0])
            },
        );
    }
}

/// What is read lies within the text, and every token but `Eof` takes at
/// least one character.
pub proof fn lemma_token_at(s: Scan)
    ensures
        0 <= token_at(s).1 <= s.rest.len(),
        token_at(s).0 matches Ok(token) ==> {
            &&& token != TokenV::Fixed(Token::Eof) ==> token_at(s).1 >= 1
            &&& token matches TokenV::InterpStr(content) ==> token_at(s).1 >= content.len() + 2
        },
{
    let t = s.rest;
    if t.len() > 0 {
        lemma_word_end(t, 1);
        lemma_digits_end(t, 1);
        if has_fraction(t) {
            lemma_digits_end(t, digits_end(t, 1) + 1);
        }
        lemma_string_end(t, 1);
    }
}

/// How many line feeds a text holds.
pub open spec fn newlines(t: Seq<char>) -> nat
    decreases t.len(),
{
    if t.len() == 0 {
        0
    } else {
        newlines(t.drop_last()) + if t.last() == '\n' {
            1nat
        } else {
            0nat
        }
    }
}

/// How many characters stand behind the last line feed of a text.
pub open spec fn since_newline(t: Seq<char>) -> nat
    decreases t.len(),
{
    if t.len() == 0 || t.last() == '\n' {
        0
    } else {
        since_newline(t.drop_last()) + 1
    }
}

/// The position of the character at `n`: the line is one more than the line feeds
/// before it, the column one more than the characters since the last of them.
pub open spec fn position(t: Seq<char>, n: int) -> Span {
    Span {
        line: (1 + newlines(t.take(n))) as u32,
        col: (1 + since_newline(t.take(n))) as u32,
    }
}

/// One position stands before another.
pub open spec fn before(a: Span, b: Span) -> bool {
    a.line < b.line || (a.line == b.line && a.col < b.col)
}

/// After `n` characters what is left is the rest of the text, the next character is
/// the one at `n`, and the position is that of this character.
pub proof fn law_position(src: Seq<char>, n: int)
    requires
        0 <= n <= src.len(),
    ensures
        Scan::of(src).advance(n).rest == src.skip(n),
        n < src.len() ==> Scan::of(src).advance(n).rest[0] == src[n],
        Scan::of(src).advance(n).line == 1 + newlines(src.take(n)),
        Scan::of(src).advance(n).col == 1 + since_newline(src.take(n)),
        Scan::of(src).advance(n).here() == position(src, n),
    decreases n,
{
    lemma_advance(Scan::of(src), n);
    if n > 0 {
        law_position(src, n - 1);
        lemma_advance(Scan::of(src), n - 1);
        assert(src.take(n).drop_last() =~= src.take(n - 1));
    }
}

/// Whether the character at `i` lies in a comment, where reading begins at `k`. A
/// comment runs from two slashes through the end of the line.
pub open spec fn commented(t: Seq<char>, k: int, i: int) -> bool
    decreases i - k,
{
    comment_goes_on(t, k, i) || (i + 1 < t.len() && t[i] == '/' && t[i + 1] == '/')
}

/// Whether a comment that began before `i` has not ended there.
pub open spec fn comment_goes_on(t: Seq<char>, k: int, i: int) -> bool
    decreases i - k, 0int,
{
    i > k && commented(t, k, i - 1) && t[i - 1] != '\n'
}

/// The first character from `i` on that is no white space and lies in no comment, or
/// the end of the text.
pub open spec fn first_read(t: Seq<char>, k: int, i: int) -> int
    decreases t.len() - i,
{
    if i < t.len() && (is_blank(t[i]) || commented(t, k, i)) {
        first_read(t, k, i + 1)
    } else {
        i
    }
}

proof fn lemma_first_read(src: Seq<char>, k: int, i: int)
    requires
        0 <= k <= i <= src.len(),
    ensures
        i <= first_read(src, k, i) <= src.len(),
        skip_ignored(Scan::of(src).advance(i), comment_goes_on(src, k, i)) == Scan::of(
            src,
        ).advance(first_read(src, k, i)),
    decreases src.len() - i,
{
    let s = Scan::of(src).advance(i);
    law_position(src, i);
    if i < src.len() {
        assert(s.rest.len() == src.len() - i);
        assert(s.rest.len() >= 2 ==> s.rest[1] == src[i + 1]);
        assert(s.bump() == Scan::of(src).advance(i + 1));
        if is_blank(src[i]) || commented(src, k, i) {
            lemma_first_read(src, k, i + 1);
            assert(comment_goes_on(src, k, i + 1) == (commented(src, k, i) && src[i] != '\n'));
        }
    }
}

proof fn lemma_positions_grow(src: Seq<char>, i: int, j: int)
    requires
        0 <= i < j <= src.len(),
        src.len() < u32::MAX,
    ensures
        newlines(src.take(j)) <= j,
        since_newline(src.take(j)) <= j,
        newlines(src.take(i)) <= newlines(src.take(j)),
        newlines(src.take(i)) == newlines(src.take(j)) ==> since_newline(src.take(i))
            < since_newline(src.take(j)),
        newlines(src.take(i)) <= i,
        since_newline(src.take(i)) <= i,
    decreases j,
{
    assert(src.take(j).drop_last() =~= src.take(j - 1));
    if i < j - 1 {
        lemma_positions_grow(src, i, j - 1);
    } else if i > 0 {
        lemma_positions_grow(src, i - 1, i);
    } else {
        assert(src.take(0) =~= Seq::empty());
    }
}

/// A token found in a source text is reported at the position of the first unread
/// character that is no white space and lies in no comment. Reading goes on behind
/// the token, which every token but the last moves on.
pub proof fn law_token_position(src: Seq<char>, k: int) -> (j: int)
    requires
        0 <= k <= src.len(),
        src.len() < u32::MAX,
    ensures
        first_read(src, k, k) <= j <= src.len(),
        lex(Scan::of(src).advance(k)) matches Ok(found) ==> {
            &&& found.span == position(src, first_read(src, k, k))
            &&& found.next == Scan::of(src).advance(j)
            &&& found.token != TokenV::Fixed(Token::Eof) ==> first_read(src, k, k) < j
        },
        lex(Scan::of(src).advance(k)) matches Err(d) ==> d.span == position(
            src,
            first_read(src, k, k),
        ),
{
    reveal(lex);
    lemma_first_read(src, k, k);
    let i = first_read(src, k, k);
    law_position(src, i);
    let at = Scan::of(src).advance(i);
    lemma_token_at(at);
    let n = token_at(at).1;
    lemma_advance_adds(Scan::of(src), i, n);
    i + n
}

/// The next token stands behind the one before it.
pub proof fn law_tokens_follow(src: Seq<char>, k: int)
    requires
        0 <= k <= src.len(),
        src.len() < u32::MAX,
    ensures
        lex(Scan::of(src).advance(k)) matches Ok(first) ==> first.token != TokenV::Fixed(
            Token::Eof,
        ) ==> (lex(first.next) matches Ok(second) ==> before(first.span, second.span)),
{
    let j = law_token_position(src, k);
    lemma_first_read(src, k, k);
    match lex(Scan::of(src).advance(k)) {
        Ok(first) => if first.token != TokenV::Fixed(Token::Eof) {
            lemma_first_read(src, j, j);
            let _ = law_token_position(src, j);
            lemma_positions_grow(src, first_read(src, k, k), first_read(src, j, j));
        },
        Err(_) => {},
    }
}

/// Reading the decimal text of a number gives the number back.
pub proof fn law_decimal_round_trip(n: nat)
    ensures
        digits_value(nat_text(n)) == n,
        forall|i: int| 0 <= i < nat_text(n).len() ==> ascii_digit(#[trigger] nat_text(n)[i]),
    decreases n,
{
    if n >= 10 {
        law_decimal_round_trip(n / 10);
        let t = nat_text(n);
        assert(t.drop_last() =~= nat_text(n / 10));
        assert(t.last() == digit_char((n % 10) as int));
        assert forall|i: int| 0 <= i < t.len() implies ascii_digit(#[trigger] t[i]) by {
            if i < t.len() - 1 {
                assert(t[i] == nat_text(n / 10)[i]);
            }
        }
    } else {
        let t = nat_text(n);
        assert(t.drop_last() =~= Seq::empty());
        assert(digits_value(t.drop_last()) == 0);
    }
}

fn find_keyword(word: &str) -> (r: Option<Token>)
    ensures
        match keyword(word@) {
            Some(t) => r is Some && r->Some_0@ == t,
            None => r is None,
        },
{
    if str_eq(word, "let") {
        Some(Token::Let)
    } else if str_eq(word, "fn") {
        Some(Token::Fn)
    } else if str_eq(word, "return") {
        Some(Token::Return)
    } else if str_eq(word, "struct") {
        Some(Token::Struct)
    } else if str_eq(word, "enum") {
        Some(Token::Enum)
    } else if str_eq(word, "match") {
        Some(Token::Match)
    } else if str_eq(word, "trait") {
        Some(Token::Trait)
    } else if str_eq(word, "impl") {
        Some(Token::Impl)
    } else if str_eq(word, "for") {
        Some(Token::For)
    } else if str_eq(word, "extern") {
        Some(Token::Extern)
    } else if str_eq(word, "macro") {
        Some(Token::Macro)
    } else if str_eq(word, "if") {
        Some(Token::If)
    } else if str_eq(word, "else") {
        Some(Token::Else)
    } else if str_eq(word, "while") {
        Some(Token::While)
    } else if str_eq(word, "break") {
        Some(Token::Break)
    } else if str_eq(word, "continue") {
        Some(Token::Continue)
    } else if str_eq(word, "in") {
        Some(Token::In)
    } else if str_eq(word, "import") {
        Some(Token::Import)
    } else if str_eq(word, "true") {
        Some(Token::Bool(true))
    } else if str_eq(word, "false") {
        Some(Token::Bool(false))
    } else {
        None
    }
}

fn find_two_char_symbol(a: char, b: char) -> (r: Option<Token>)
    ensures
        r == two_char_symbol(a, b),
{
    match (a, b) {
        ('-', '>') => Some(Token::Arrow),
        ('&', '&') => Some(Token::AmpAmp),
        ('|', '|') => Some(Token::PipePipe),
        ('=', '=') => Some(Token::Eq),
        ('=', '>') => Some(Token::FatArrow),
        ('!', '=') => Some(Token::Ne),
        ('<', '=') => Some(Token::Le),
        ('>', '=') => Some(Token::Ge),
        (':', ':') => Some(Token::ColonColon),
        ('.', '.') => Some(Token::DotDot),
        _ => None,
    }
}

fn find_one_char_symbol(c: char) -> (r: Option<Token>)
    ensures
        r == one_char_symbol(c),
{
    match c {
        '+' => Some(Token::Plus),
        '-' => Some(Token::Minus),
        '*' => Some(Token::Star),
        '/' => Some(Token::Slash),
        '%' => Some(Token::Percent),
        '|' => Some(Token::Pipe),
        '(' => Some(Token::LParen),
        ')' => Some(Token::RParen),
        '{' => Some(Token::LBrace),
        '}' => Some(Token::RBrace),
        '[' => Some(Token::LBrack),
        ']' => Some(Token::RBrack),
        ',' => Some(Token::Comma),
        ';' => Some(Token::Semicolon),
        '=' => Some(Token::Assign),
        '!' => Some(Token::Bang),
        '<' => Some(Token::Lt),
        '>' => Some(Token::Gt),
        ':' => Some(Token::Colon),
        '.' => Some(Token::Dot),
        _ => None,
    }
}

fn is_digit(c: char) -> (r: bool)
    ensures
        r == ascii_digit(c),
{
    '0' <= c && c <= '9'
}

fn find_escape(c: char) -> (r: Option<char>)
    ensures
        r == escape_char(c),
{
    match c {
        'n' => Some('\n'),
        't' => Some('\t'),
        'r' => Some('\r'),
        '"' => Some('"'),
        '\\' => Some('\\'),
        '{' => Some('{'),
        '}' => Some('}'),
        _ => None,
    }
}

/// The string token with this content.
fn make_string(content: &Vec<char>) -> (t: Token)
    ensures
        t@ == string_token(content@),
{
    let mut i: usize = 0;
    let mut found = false;
    while i < content.len() && !found
        invariant
            i <= content@.len(),
            !found ==> has_interpolation(content@, i as int) == has_interpolation(content@, 0),
            found ==> has_interpolation(content@, 0),
        decreases content@.len() - i,
    {
        if content[i] == '\\' && content.len() - i > 1 {
            i += 2;
        } else if content[i] == '{' {
            found = true;
            i += 1;
        } else {
            i += 1;
        }
    }
    if found {
        return Token::InterpStr(string_of_all(content));
    }
    let text = unescape_chars(content);
    Token::Str(string_of_all(&text))
}

/// The text with each escape replaced by what it stands for.
pub fn unescape_chars(content: &Vec<char>) -> (out: Vec<char>)
    ensures
        out@ == unescaped(content@, 0),
{
    let mut out: Vec<char> = Vec::new();
    let mut k: usize = 0;
    while k < content.len()
        invariant
            k <= content@.len(),
            out@ + unescaped(content@, k as int) == unescaped(content@, 0),
        decreases content@.len() - k,
    {
        let ghost before = out@;
        if content[k] == '\\' && k + 1 < content.len() {
            match find_escape(content[k + 1]) {
                Some(c) => {
                    out.push(c);
                    k += 2;
                    assert(before + (seq![c] + unescaped(content@, k as int)) =~= out@ + unescaped(
                        content@,
                        k as int,
                    ));
                },
                None => {
                    out.push('\\');
                    k += 1;
                    assert(before + (seq!['\\'] + unescaped(content@, k as int)) =~= out@
                        + unescaped(content@, k as int));
                },
            }
        } else {
            let c = content[k];
            out.push(c);
            k += 1;
            assert(before + (seq![c] + unescaped(content@, k as int)) =~= out@ + unescaped(
                content@,
                k as int,
            ));
        }
    }
    assert(out@ =~= unescaped(content@, 0));
    out
}

fn string_of_all(content: &Vec<char>) -> (s: String)
    ensures
        s@ == content@,
{
    let s = string_of(content, 0, content.len());
    assert(s@ =~= content@);
    s
}

/// The value of a run of digits, or `None` when it does not fit in an `i64`.
fn parse_int(digits: &Vec<char>) -> (r: Option<i64>)
    requires
        forall|i: int| 0 <= i < digits@.len() ==> ascii_digit(#[trigger] digits@[i]),
    ensures
        match r {
            Some(n) => n == digits_value(digits@),
            None => digits_value(digits@) > i64::MAX,
        },
{
    let mut n: u64 = 0;
    let mut i: usize = 0;
    let mut fits = true;
    while i < digits.len()
        invariant
            i <= digits@.len(),
            forall|k: int| 0 <= k < digits@.len() ==> ascii_digit(#[trigger] digits@[k]),
            n <= i64::MAX,
            fits ==> n == digits_value(digits@.take(i as int)),
            !fits ==> digits_value(digits@.take(i as int)) > i64::MAX,
        decreases digits@.len() - i,
    {
        let d: u64 = (digits[i] as u32 - 48) as u64;
        proof {
            let t = digits@.take(i + 1);
            assert(t.drop_last() =~= digits@.take(i as int));
            assert(t.last() == digits@[i as int]);
            assert(digits_value(t) == digits_value(digits@.take(i as int)) * 10 + d);
        }
        if fits && n <= 922337203685477580 && n * 10 + d <= 9223372036854775807 {
            n = n * 10 + d;
        } else {
            fits = false;
        }
        i += 1;
    }
    assert(digits@.take(i as int) =~= digits@);
    if fits {
        Some(n as i64)
    } else {
        None
    }
}

impl Lexer {
    /// What is left to read, and where.
    pub closed spec fn view(&self) -> Scan {
        Scan {
            rest: self.chars@.skip(self.pos as int),
            line: self.line as int,
            col: self.col as int,
        }
    }

    /// The cursor lies within the text and its positions cannot overflow.
    pub closed spec fn wf(&self) -> bool {
        self.pos <= self.chars@.len() && self@.fits()
    }

    /// A well-formed lexer stands at a position that fits.
    pub proof fn lemma_fits(&self)
        requires
            self.wf(),
        ensures
            self@.fits(),
    {
    }

    /// A lexer at the start of `src`.
    pub fn new(src: &str) -> (lexer: Self)
        requires
            src@.len() < u32::MAX,
        ensures
            lexer.wf(),
            lexer@ == Scan::of(src@),
    {
        let chars = chars_of(src);
        assert(chars@.skip(0) =~= chars@);
        Lexer { chars, pos: 0, line: 1, col: 1 }
    }

    /// A lexer for a text that stands at `span` in a larger one.
    pub fn at(chars: Vec<char>, span: Span) -> (lexer: Self)
        requires
            (Scan { rest: chars@, line: span.line as int, col: span.col as int }).fits(),
        ensures
            lexer.wf(),
            lexer@ == (Scan { rest: chars@, line: span.line as int, col: span.col as int }),
    {
        assert(chars@.skip(0) =~= chars@);
        Lexer { chars, pos: 0, line: span.line, col: span.col }
    }

    /// Consume one character, keeping the line/column cursor in step. Every
    /// read goes through here so positions cannot drift.
    fn bump(&mut self)
        requires
            old(self).wf(),
            old(self)@.rest.len() > 0,
        ensures
            final(self).wf(),
            final(self).chars@ == old(self).chars@,
            final(self)@ == old(self)@.bump(),
    {
        let c = self.chars[self.pos];
        assert(self.pos < self.chars.len());
        assert(self.chars@.skip(self.pos as int).drop_first() =~= self.chars@.skip(self.pos + 1));
        self.pos += 1;
        if c == '\n' {
            self.line += 1;
            self.col = 1;
        } else {
            self.col += 1;
        }
    }

    /// Position of the next character to be read.
    fn here(&self) -> (s: Span)
        requires
            self.wf(),
        ensures
            s == self@.here(),
    {
        Span::new(self.line, self.col)
    }

    /// The `i`-th character that is left.
    fn peek(&self, i: usize) -> (r: Option<char>)
        requires
            self.wf(),
            i <= self@.rest.len() + 1,
        ensures
            r == (if i < self@.rest.len() {
                Some(self@.rest[i as int])
            } else {
                None
            }),
    {
        if i < self.chars.len() - self.pos {
            Some(self.chars[self.pos + i])
        } else {
            None
        }
    }

    fn advance(&mut self, n: usize)
        requires
            old(self).wf(),
            n <= old(self)@.rest.len(),
        ensures
            final(self).wf(),
            final(self)@ == old(self)@.advance(n as int),
    {
        let mut i: usize = 0;
        let ghost start = self@;
        while i < n
            invariant
                i <= n <= start.rest.len(),
                self.wf(),
                self@ == start.advance(i as int),
            decreases n - i,
        {
            proof {
                lemma_advance(start, i as int);
            }
            self.bump();
            i += 1;
        }
    }

    fn skip_ignored(&mut self)
        requires
            old(self).wf(),
        ensures
            final(self).wf(),
            final(self)@ == skip_ignored(old(self)@, false),
    {
        let mut in_comment = false;
        let ghost start = self@;
        loop
            invariant
                self.wf(),
                skip_ignored(self@, in_comment) == skip_ignored(start, false),
            ensures
                self.wf(),
                self@ == skip_ignored(start, false),
            decreases self@.rest.len(),
        {
            match self.peek(0) {
                None => {
                    break;
                },
                Some(c) => {
                    if in_comment {
                        in_comment = c != '\n';
                        self.bump();
                    } else if c == ' ' || c == '\t' || c == '\n' || c == '\r' {
                        self.bump();
                    } else if c == '/' {
                        match self.peek(1) {
                            Some('/') => {
                                in_comment = true;
                                self.bump();
                            },
                            _ => {
                                break;
                            },
                        }
                    } else {
                        break;
                    }
                },
            }
        }
    }

    /// The next `n` characters.
    fn ahead(&self, from: usize, to: usize) -> (v: Vec<char>)
        requires
            self.wf(),
            from <= to <= self@.rest.len(),
        ensures
            v@ == self@.rest.subrange(from as int, to as int),
    {
        let mut v: Vec<char> = Vec::new();
        let mut i: usize = from;
        while i < to
            invariant
                self.wf(),
                from <= i <= to <= self@.rest.len(),
                v@ == self@.rest.subrange(from as int, i as int),
            decreases to - i,
        {
            assert(self.pos + i < self.chars.len());
            v.push(self.chars[self.pos + i]);
            i += 1;
        }
        v
    }

    fn find_digits_end(&self, from: usize) -> (end: usize)
        requires
            self.wf(),
            from <= self@.rest.len(),
        ensures
            end == digits_end(self@.rest, from as int),
            from <= end <= self@.rest.len(),
    {
        let mut i: usize = from;
        while i < self.chars.len() - self.pos && is_digit(self.chars[self.pos + i])
            invariant
                self.wf(),
                from <= i <= self@.rest.len(),
                digits_end(self@.rest, i as int) == digits_end(self@.rest, from as int),
            decreases self@.rest.len() - i,
        {
            i += 1;
        }
        i
    }

    fn find_word_end(&self, from: usize) -> (end: usize)
        requires
            self.wf(),
            from <= self@.rest.len(),
        ensures
            end == word_end(self@.rest, from as int),
            from <= end <= self@.rest.len(),
    {
        let mut i: usize = from;
        while i < self.chars.len() - self.pos && (self.chars[self.pos + i] == '_'
            || is_alphanumeric(self.chars[self.pos + i]))
            invariant
                self.wf(),
                from <= i <= self@.rest.len(),
                word_end(self@.rest, i as int) == word_end(self@.rest, from as int),
            decreases self@.rest.len() - i,
        {
            i += 1;
        }
        i
    }

    fn find_string_end(&self, from: usize) -> (end: usize)
        requires
            self.wf(),
            from <= self@.rest.len(),
        ensures
            end == string_end(self@.rest, from as int),
            from <= end <= self@.rest.len(),
    {
        let mut i: usize = from;
        let n: usize = self.chars.len() - self.pos;
        while i < n && self.chars[self.pos + i] != '"'
            invariant
                self.chars.len() <= usize::MAX,
                self.wf(),
                n == self@.rest.len(),
                n == self.chars@.len() - self.pos,
                from <= i <= n,
                string_end(self@.rest, i as int) == string_end(self@.rest, from as int),
            decreases n - i,
        {
            if self.chars[self.pos + i] == '\\' && n - i > 1 {
                i += 2;
            } else {
                i += 1;
            }
        }
        i
    }

    /// Returns the token together with the span of its first character.
    pub fn next_token(&mut self) -> (r: Result<(Token, Span), Diagnostic>)
        requires
            old(self).wf(),
        ensures
            final(self).wf(),
            final(self)@ == after_token(old(self)@),
            match lex(old(self)@) {
                Ok(found) => r is Ok && r->Ok_0.0@ == found.token && r->Ok_0.1 == found.span,
                Err(d) => r is Err && r->Err_0@ == d,
            },
    {
        proof {
            reveal(lex);
        }
        self.skip_ignored();
        let start = self.here();
        let ghost at = self@;
        proof {
            lemma_token_at(at);
        }
        let c = match self.peek(0) {
            None => {
                return Ok((Token::Eof, start));
            },
            Some(c) => c,
        };
        match self.peek(1) {
            Some(d) => {
                match find_two_char_symbol(c, d) {
                    Some(t) => {
                        self.advance(2);
                        return Ok((t, start));
                    },
                    None => {},
                }
            },
            None => {},
        }
        match find_one_char_symbol(c) {
            Some(t) => {
                self.advance(1);
                return Ok((t, start));
            },
            None => {},
        }
        if c == '&' {
            self.advance(1);
            return Err(
                Diagnostic::new("unexpected `&`; did you mean `&&`?".to_owned(), start),
            );
        }
        if c == '"' {
            let end = self.find_string_end(1);
            if end >= self.chars.len() - self.pos {
                self.advance(end);
                return Err(Diagnostic::new("unterminated string literal".to_owned(), start));
            }
            let content = self.ahead(1, end);
            let token = make_string(&content);
            self.advance(end + 1);
            return Ok((token, start));
        }
        if is_digit(c) {
            let whole = self.find_digits_end(1);
            let dot = self.peek(whole);
            let after = if whole < self.chars.len() - self.pos {
                self.peek(whole + 1)
            } else {
                None
            };
            let fraction = match dot {
                Some('.') => match after {
                    Some('.') => false,
                    _ => true,
                },
                _ => false,
            };
            if fraction {
                let end = self.find_digits_end(whole + 1);
                let text = string_of_all(&self.ahead(0, end));
                self.advance(end);
                return Ok((Token::Float(text), start));
            }
            let digits = self.ahead(0, whole);
            proof {
                lemma_digits_end(at.rest, 1);
                assert forall|i: int| 0 <= i < digits@.len() implies ascii_digit(
                    #[trigger] digits@[i],
                ) by {
                    assert(digits@[i] == at.rest[i]);
                }
            }
            match parse_int(&digits) {
                Some(n) => {
                    self.advance(whole);
                    return Ok((Token::Int(n), start));
                },
                None => {
                    let text = string_of_all(&digits);
                    self.advance(whole);
                    return Err(
                        Diagnostic::new(
                            cat3(
                                "integer literal `",
                                text.as_str(),
                                "` does not fit in a 64-bit int",
                            ),
                            start,
                        ),
                    );
                },
            }
        }
        if c == '_' || is_alphabetic(c) {
            let end = self.find_word_end(1);
            let word = string_of_all(&self.ahead(0, end));
            self.advance(end);
            return match find_keyword(word.as_str()) {
                Some(t) => Ok((t, start)),
                None => Ok((Token::Ident(word), start)),
            };
        }
        let shown = string_of_all(&self.ahead(0, 1));
        assert(shown@ =~= seq![c]);
        self.advance(1);
        Err(Diagnostic::new(cat3("unexpected character `", shown.as_str(), "`"), start))
    }
}

// ---- laws on words and strings ----

/// A word: a letter or an underscore, then letters, digits and underscores.
pub open spec fn is_word(w: Seq<char>) -> bool {
    &&& w.len() > 0
    &&& word_start(w[0])
    &&& forall|i: int| 1 <= i < w.len() ==> word_part(#[trigger] w[i])
}

proof fn lemma_word_parts(t: Seq<char>, i: int)
    requires
        0 <= i <= t.len(),
    ensures
        forall|j: int| i <= j < word_end(t, i) ==> word_part(#[trigger] t[j]),
    decreases t.len() - i,
{
    if i < t.len() && word_part(t[i]) {
        lemma_word_parts(t, i + 1);
    }
}

/// Every identifier is a word, and none is a keyword.
pub proof fn law_identifiers_are_words(s: Scan)
    ensures
        token_at(s).0 matches Ok(TokenV::Ident(w)) ==> is_word(w) && keyword(w) is None,
{
    let t = s.rest;
    if t.len() > 0 {
        lemma_word_end(t, 1);
        lemma_word_parts(t, 1);
        let w = t.subrange(0, word_end(t, 1));
        assert forall|i: int| 1 <= i < w.len() implies word_part(#[trigger] w[i]) by {
            assert(w[i] == t[i]);
        }
    }
}

/// How a character is written in a string literal.
pub open spec fn written(c: char) -> Seq<char> {
    if c == '\n' {
        seq!['\\', 'n']
    } else if c == '\t' {
        seq!['\\', 't']
    } else if c == '\r' {
        seq!['\\', 'r']
    } else if c == '"' || c == '\\' || c == '{' || c == '}' {
        seq!['\\', c]
    } else {
        seq![c]
    }
}

/// How a text is written in a string literal.
pub open spec fn written_all(s: Seq<char>) -> Seq<char>
    decreases s.len(),
{
    if s.len() == 0 {
        Seq::empty()
    } else {
        written(s[0]) + written_all(s.drop_first())
    }
}

proof fn lemma_written(pre: Seq<char>, s: Seq<char>, post: Seq<char>)
    ensures
        ({
            let t = pre + written_all(s) + post;
            let i = pre.len() as int;
            let e = i + written_all(s).len();
            &&& string_end(t, i) == string_end(t, e)
            &&& post.len() == 0 ==> unescaped(t, i) == s
            &&& post.len() == 0 ==> !has_interpolation(t, i)
        }),
    decreases s.len(),
{
    let t = pre + written_all(s) + post;
    let i = pre.len() as int;
    if s.len() == 0 {
        assert(written_all(s) =~= Seq::empty());
        if post.len() == 0 {
            assert(unescaped(t, i) =~= s);
        }
    } else {
        let w = written(s[0]);
        let rest = s.drop_first();
        assert(written_all(s) == w + written_all(rest));
        assert(t =~= (pre + w) + written_all(rest) + post);
        lemma_written(pre + w, rest, post);
        assert(t[i] == w[0]);
        if w.len() == 2 {
            assert(t[i + 1] == w[1]);
            assert(t[i] == '\\');
            assert(string_end(t, i) == string_end(t, i + 2));
        } else {
            assert(w.len() == 1);
            assert(string_end(t, i) == string_end(t, i + 1));
        }
        if post.len() == 0 {
            assert(seq![s[0]] + rest =~= s);
        }
    }
}

/// A text written as a string literal reads back as it was, whatever stands
/// behind the literal.
pub proof fn law_string_literal_round_trip(text: Seq<char>, rest: Seq<char>, s: Scan)
    requires
        s.rest == seq!['"'] + written_all(text) + seq!['"'] + rest,
    ensures
        token_at(s) == (
            Ok::<TokenV, Seq<char>>(TokenV::Str(text)),
            (written_all(text).len() + 2) as int,
        ),
{
    let w = written_all(text);
    let t = s.rest;
    let e = w.len() + 1;
    let post = seq!['"'] + rest;
    assert(t =~= seq!['"'] + w + post);
    lemma_written(seq!['"'], text, post);
    assert(t[e as int] == '"');
    assert(string_end(t, e as int) == e);
    assert(t.subrange(1, e as int) =~= w);
    assert(w =~= Seq::<char>::empty() + w + Seq::<char>::empty());
    lemma_written(Seq::empty(), text, Seq::empty());
    assert(t[0] == '"');
}

} // verus!
