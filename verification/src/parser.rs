//! Recursive-descent parser with Pratt-style expression parsing. This module
//! holds the parser itself; its rules stand in `parse_decl`, `parse_expr` and
//! `parse_stmt`.

use crate::ast::{
    arms_view, cases_view, exprs_view, fields_view, methods_view, opt_expr_view, params_view,
    patterns_view, stmts_view, types_view, BinOp, Expr, ExprKind, ExprV, Pattern, PatternV,
    Program, Stmt, StmtKind, StmtKindV, StmtV, TraitMethod, TraitMethodV, Type, TypeV,
};
use crate::diagnostic::{Diagnostic, DiagnosticV, Span};
use crate::grammar::{
    adv, binop, capitalised, content_scan, described, eat, literal, opt_comma, p_name, parsed,
    start, symbol_text, weight, Cursor, Parse,
};
use crate::lexer::{
    after_token, lemma_advance, lemma_skip_ignored, lemma_token_at, lex, skip_ignored, token_at,
    Lexer, Scan, Token, TokenV,
};
use crate::names::Model;
use crate::text::{cat2, cat3, chars_of, int_to_string, is_uppercase, texts};
use vstd::prelude::*;

verus! {


impl Model for String {
    type M = Seq<char>;

    open spec fn model(&self) -> Seq<char> {
        self@
    }
}

impl Model for Type {
    type M = TypeV;

    open spec fn model(&self) -> TypeV {
        self@
    }
}

impl Model for Expr {
    type M = ExprV;

    open spec fn model(&self) -> ExprV {
        self@
    }
}

impl Model for Stmt {
    type M = StmtV;

    open spec fn model(&self) -> StmtV {
        self@
    }
}

impl Model for StmtKind {
    type M = StmtKindV;

    open spec fn model(&self) -> StmtKindV {
        self@
    }
}

impl Model for Pattern {
    type M = PatternV;

    open spec fn model(&self) -> PatternV {
        self@
    }
}

impl Model for Vec<String> {
    type M = Seq<Seq<char>>;

    open spec fn model(&self) -> Seq<Seq<char>> {
        texts(self@)
    }
}

impl Model for Vec<Type> {
    type M = Seq<TypeV>;

    open spec fn model(&self) -> Seq<TypeV> {
        types_view(self@)
    }
}

impl Model for Vec<Expr> {
    type M = Seq<ExprV>;

    open spec fn model(&self) -> Seq<ExprV> {
        exprs_view(self@)
    }
}

impl Model for Vec<Stmt> {
    type M = Seq<StmtV>;

    open spec fn model(&self) -> Seq<StmtV> {
        stmts_view(self@)
    }
}

impl Model for Vec<Pattern> {
    type M = Seq<PatternV>;

    open spec fn model(&self) -> Seq<PatternV> {
        patterns_view(self@)
    }
}

impl Model for Vec<TraitMethod> {
    type M = Seq<TraitMethodV>;

    open spec fn model(&self) -> Seq<TraitMethodV> {
        methods_view(self@)
    }
}

impl Model for Vec<(String, Type)> {
    type M = Seq<(Seq<char>, TypeV)>;

    open spec fn model(&self) -> Seq<(Seq<char>, TypeV)> {
        params_view(self@)
    }
}

impl Model for Vec<(String, Vec<Type>)> {
    type M = Seq<(Seq<char>, Seq<TypeV>)>;

    open spec fn model(&self) -> Seq<(Seq<char>, Seq<TypeV>)> {
        cases_view(self@)
    }
}

impl Model for Vec<(String, Expr)> {
    type M = Seq<(Seq<char>, ExprV)>;

    open spec fn model(&self) -> Seq<(Seq<char>, ExprV)> {
        fields_view(self@)
    }
}

impl Model for Vec<(Vec<Pattern>, Option<Expr>, Expr)> {
    type M = Seq<(Seq<PatternV>, Option<ExprV>, ExprV)>;

    open spec fn model(&self) -> Seq<(Seq<PatternV>, Option<ExprV>, ExprV)> {
        arms_view(self@)
    }
}

impl Model for (Vec<(String, Type)>, Type) {
    type M = (Seq<(Seq<char>, TypeV)>, TypeV);

    open spec fn model(&self) -> (Seq<(Seq<char>, TypeV)>, TypeV) {
        (params_view(self.0@), self.1@)
    }
}

impl Model for (String, String) {
    type M = (Seq<char>, Seq<char>);

    open spec fn model(&self) -> (Seq<char>, Seq<char>) {
        (self.0@, self.1@)
    }
}

impl Model for (Expr, Vec<Stmt>) {
    type M = (ExprV, Seq<StmtV>);

    open spec fn model(&self) -> (ExprV, Seq<StmtV>) {
        (self.0@, stmts_view(self.1@))
    }
}

impl Model for (String, Expr, Vec<Stmt>) {
    type M = (Seq<char>, ExprV, Seq<StmtV>);

    open spec fn model(&self) -> (Seq<char>, ExprV, Seq<StmtV>) {
        (self.0@, self.1@, stmts_view(self.2@))
    }
}

impl Model for Option<Expr> {
    type M = Option<ExprV>;

    open spec fn model(&self) -> Option<ExprV> {
        opt_expr_view(*self)
    }
}

impl Model for Option<Box<Expr>> {
    type M = Option<Box<ExprV>>;

    open spec fn model(&self) -> Option<Box<ExprV>> {
        match self {
            Some(e) => Some(Box::new((**e)@)),
            None => None,
        }
    }
}

impl Model for Option<Vec<Stmt>> {
    type M = Option<Seq<StmtV>>;

    open spec fn model(&self) -> Option<Seq<StmtV>> {
        match self {
            Some(b) => Some(stmts_view(b@)),
            None => None,
        }
    }
}

/// A parser's result is the one that the grammar gives: the same construct and
/// the same cursor behind it, or the same error.
pub open spec fn agrees<T: Model>(r: Result<T, Diagnostic>, after: Cursor, want: Parse<T::M>) -> bool {
    match want {
        Ok((v, c)) => r is Ok && r->Ok_0.model() == v && after == c,
        Err(d) => r is Err && r->Err_0@ == d,
    }
}

/// As `agrees`, for a step that only moves the cursor.
pub open spec fn moves<T>(
    r: Result<T, Diagnostic>,
    after: Cursor,
    want: Result<Cursor, DiagnosticV>,
) -> bool {
    match want {
        Ok(c) => r is Ok && after == c,
        Err(d) => r is Err && r->Err_0@ == d,
    }
}

/// Source spelling of a fixed token.
fn symbol(tok: &Token) -> (s: &'static str)
    ensures
        s@ == symbol_text(*tok),
{
    proof {
        reveal(symbol_text);
    }
    match tok {
        Token::Let => "let",
        Token::Fn => "fn",
        Token::Return => "return",
        Token::Struct => "struct",
        Token::Enum => "enum",
        Token::Match => "match",
        Token::Trait => "trait",
        Token::Impl => "impl",
        Token::For => "for",
        Token::Extern => "extern",
        Token::Macro => "macro",
        Token::If => "if",
        Token::Else => "else",
        Token::While => "while",
        Token::Break => "break",
        Token::Continue => "continue",
        Token::In => "in",
        Token::Import => "import",
        Token::Colon => ":",
        Token::ColonColon => "::",
        Token::Dot => ".",
        Token::Plus => "+",
        Token::Minus => "-",
        Token::Star => "*",
        Token::Slash => "/",
        Token::Percent => "%",
        Token::Eq => "==",
        Token::Ne => "!=",
        Token::Lt => "<",
        Token::Le => "<=",
        Token::Gt => ">",
        Token::Ge => ">=",
        Token::Assign => "=",
        Token::LParen => "(",
        Token::RParen => ")",
        Token::LBrace => "{",
        Token::RBrace => "}",
        Token::LBrack => "[",
        Token::RBrack => "]",
        Token::Comma => ",",
        Token::Arrow => "->",
        Token::FatArrow => "=>",
        Token::DotDot => "..",
        Token::Bang => "!",
        Token::AmpAmp => "&&",
        Token::PipePipe => "||",
        Token::Pipe => "|",
        Token::Semicolon => ";",
        _ => "token",
    }
}

/// Human-readable name for a token, for use in error messages.
fn describe(tok: &Token) -> (s: String)
    ensures
        s@ == described(tok@),
{
    proof {
        reveal(described);
    }
    match tok {
        Token::Int(n) => cat3("`", int_to_string(*n).as_str(), "`"),
        Token::Float(t) => cat3("`", t.as_str(), "`"),
        Token::Str(_) => "a string literal".to_owned(),
        Token::InterpStr(_) => "a string literal".to_owned(),
        Token::Ident(name) => cat3("`", name.as_str(), "`"),
        Token::Bool(b) => {
            if *b {
                "`true`".to_owned()
            } else {
                "`false`".to_owned()
            }
        },
        Token::Eof => "end of file".to_owned(),
        other => cat3("`", symbol(other), "`"),
    }
}

/// A keyword or a symbol.
pub open spec fn is_fixed(t: Token) -> bool {
    t@ == TokenV::Fixed(t)
}

spec fn tag_of(t: Token) -> u8 {
    match t {
        Token::Let => 1,
        Token::Fn => 2,
        Token::Return => 3,
        Token::Struct => 4,
        Token::Enum => 5,
        Token::Match => 6,
        Token::Trait => 7,
        Token::Impl => 8,
        Token::For => 9,
        Token::Extern => 10,
        Token::Macro => 11,
        Token::If => 12,
        Token::Else => 13,
        Token::While => 14,
        Token::Break => 15,
        Token::Continue => 16,
        Token::In => 17,
        Token::Import => 18,
        Token::Colon => 19,
        Token::ColonColon => 20,
        Token::Dot => 21,
        Token::Plus => 22,
        Token::Minus => 23,
        Token::Star => 24,
        Token::Slash => 25,
        Token::Percent => 26,
        Token::Eq => 27,
        Token::Ne => 28,
        Token::Lt => 29,
        Token::Le => 30,
        Token::Gt => 31,
        Token::Ge => 32,
        Token::Assign => 33,
        Token::LParen => 34,
        Token::RParen => 35,
        Token::LBrace => 36,
        Token::RBrace => 37,
        Token::LBrack => 38,
        Token::RBrack => 39,
        Token::Comma => 40,
        Token::Arrow => 41,
        Token::FatArrow => 42,
        Token::DotDot => 43,
        Token::Bang => 44,
        Token::AmpAmp => 45,
        Token::PipePipe => 46,
        Token::Pipe => 47,
        Token::Semicolon => 48,
        Token::Eof => 49,
        _ => 0,
    }
}

fn tag(t: &Token) -> (r: u8)
    ensures
        r == tag_of(*t),
{
    match t {
        Token::Let => 1,
        Token::Fn => 2,
        Token::Return => 3,
        Token::Struct => 4,
        Token::Enum => 5,
        Token::Match => 6,
        Token::Trait => 7,
        Token::Impl => 8,
        Token::For => 9,
        Token::Extern => 10,
        Token::Macro => 11,
        Token::If => 12,
        Token::Else => 13,
        Token::While => 14,
        Token::Break => 15,
        Token::Continue => 16,
        Token::In => 17,
        Token::Import => 18,
        Token::Colon => 19,
        Token::ColonColon => 20,
        Token::Dot => 21,
        Token::Plus => 22,
        Token::Minus => 23,
        Token::Star => 24,
        Token::Slash => 25,
        Token::Percent => 26,
        Token::Eq => 27,
        Token::Ne => 28,
        Token::Lt => 29,
        Token::Le => 30,
        Token::Gt => 31,
        Token::Ge => 32,
        Token::Assign => 33,
        Token::LParen => 34,
        Token::RParen => 35,
        Token::LBrace => 36,
        Token::RBrace => 37,
        Token::LBrack => 38,
        Token::RBrack => 39,
        Token::Comma => 40,
        Token::Arrow => 41,
        Token::FatArrow => 42,
        Token::DotDot => 43,
        Token::Bang => 44,
        Token::AmpAmp => 45,
        Token::PipePipe => 46,
        Token::Pipe => 47,
        Token::Semicolon => 48,
        Token::Eof => 49,
        _ => 0,
    }
}

proof fn lemma_tag(a: Token, b: Token)
    requires
        is_fixed(b),
        tag_of(a) == tag_of(b),
    ensures
        a == b,
{
}

/// Reading a token leaves at most the text behind the previous one.
proof fn lemma_lex_size(s: Scan)
    requires
        s.fits(),
    ensures
        lex(s) matches Ok(f) ==> {
            &&& f.next.rest.len() + weight(f.token) <= s.rest.len()
            &&& f.token matches TokenV::InterpStr(t) ==> content_scan(t, f.span).fits()
        },
        lex(s) matches Ok(f) ==> f.next == after_token(s),
{
    reveal(lex);
    lemma_skip_ignored(s, false);
    let at = skip_ignored(s, false);
    lemma_token_at(at);
    lemma_advance(at, token_at(at).1);
}

/// Whether a name starts with an upper-case letter.
pub(crate) fn starts_upper(name: &str) -> (r: bool)
    ensures
        r == capitalised(name@),
{
    let chars = chars_of(name);
    chars.len() > 0 && is_uppercase(chars[0])
}

/// Turns tokens into a syntax tree.
pub struct Parser {
    lexer: Lexer,
    current: Token,
    /// Span of `current`, so an error can point at the offending token.
    span: Span,
    /// Span of the token `advance` most recently returned. Errors that report
    /// a token already consumed must point here, not at what follows it.
    prev_span: Span,
}

impl Parser {
    /// Where the parser stands in the token stream.
    pub closed spec fn view(&self) -> Cursor {
        Cursor { scan: self.lexer@, cur: self.current@, span: self.span, prev: self.prev_span }
    }

    /// The positions of all that is left fit the machine's counters.
    pub closed spec fn wf(&self) -> bool {
        &&& self.lexer.wf()
        &&& self.lexer@.fits()
        &&& self.current@ matches TokenV::InterpStr(t) ==> content_scan(t, self.span).fits()
    }

    /// A parser at the first token of `src`.
    pub fn new(src: &str) -> (r: Result<Self, Diagnostic>)
        requires
            src@.len() < u32::MAX,
        ensures
            match start(Scan::of(src@)) {
                Ok(c) => r is Ok && r->Ok_0.wf() && r->Ok_0@ == c,
                Err(d) => r is Err && r->Err_0@ == d,
            },
    {
        Parser::from_lexer(Lexer::new(src))
    }

    pub(crate) fn from_lexer(lexer: Lexer) -> (r: Result<Self, Diagnostic>)
        requires
            lexer.wf(),
            lexer@.fits(),
        ensures
            match start(lexer@) {
                Ok(c) => r is Ok && r->Ok_0.wf() && r->Ok_0@ == c && c.size() <= lexer@.rest.len(),
                Err(d) => r is Err && r->Err_0@ == d,
            },
    {
        let mut lexer = lexer;
        proof {
            lemma_lex_size(lexer@);
        }
        let (current, span) = lexer.next_token()?;
        proof {
            lexer.lemma_fits();
        }
        Ok(Parser { lexer, current, span, prev_span: span })
    }

    /// Read one token, and return the one that was current.
    pub(crate) fn advance(&mut self) -> (r: Result<Token, Diagnostic>)
        requires
            old(self).wf(),
        ensures
            final(self).wf(),
            moves(r, final(self)@, adv(old(self)@)),
            r is Ok ==> r->Ok_0@ == old(self)@.cur,
            r is Ok ==> final(self)@.size() <= old(self)@.scan.rest.len(),
    {
        proof {
            lemma_lex_size(self.lexer@);
        }
        let before = self.span;
        let next = self.lexer.next_token();
        proof {
            self.lexer.lemma_fits();
        }
        let (next, span) = next?;
        self.prev_span = before;
        self.span = span;
        let mut t = next;
        std::mem::swap(&mut self.current, &mut t);
        Ok(t)
    }

    /// Error at the current token.
    pub(crate) fn error(&self, message: String) -> (d: Diagnostic)
        ensures
            d@ == (DiagnosticV { message: message@, span: self@.span }),
    {
        Diagnostic::new(message, self.span)
    }

    /// Error at the token just consumed.
    pub(crate) fn error_at_prev(&self, message: String) -> (d: Diagnostic)
        ensures
            d@ == (DiagnosticV { message: message@, span: self@.prev }),
    {
        Diagnostic::new(message, self.prev_span)
    }

    /// Whether the current token is the given keyword or symbol.
    pub(crate) fn at(&self, tok: &Token) -> (r: bool)
        requires
            is_fixed(*tok),
        ensures
            r == self@.at(*tok),
    {
        proof {
            if tag_of(self.current) == tag_of(*tok) {
                lemma_tag(self.current, *tok);
            }
        }
        tag(&self.current) == tag(tok)
    }

    pub(crate) fn expect(&mut self, tok: Token) -> (r: Result<(), Diagnostic>)
        requires
            old(self).wf(),
            is_fixed(tok),
            tok != Token::Eof,
        ensures
            final(self).wf(),
            moves(r, final(self)@, eat(old(self)@, tok)),
            r is Ok ==> final(self)@.size() < old(self)@.size(),
    {
        if !self.at(&tok) {
            return Err(
                self.error(
                    cat2(
                        cat3("expected ", describe(&tok).as_str(), ", found ").as_str(),
                        describe(&self.current).as_str(),
                    ),
                ),
            );
        }
        self.advance()?;
        Ok(())
    }

    /// Past a comma, where there is one.
    pub(crate) fn skip_comma(&mut self) -> (r: Result<(), Diagnostic>)
        requires
            old(self).wf(),
        ensures
            final(self).wf(),
            moves(r, final(self)@, opt_comma(old(self)@)),
            r is Ok ==> final(self)@.size() <= old(self)@.size(),
    {
        if self.at(&Token::Comma) {
            self.advance()?;
        }
        Ok(())
    }

    /// A name that has to stand here.
    pub(crate) fn expect_name(&mut self, what: &str) -> (r: Result<String, Diagnostic>)
        requires
            old(self).wf(),
        ensures
            final(self).wf(),
            agrees(r, final(self)@, p_name(old(self)@, what@)),
            r is Ok ==> final(self)@.size() < old(self)@.size(),
    {
        match self.advance()? {
            Token::Ident(n) => Ok(n),
            t => Err(
                self.error_at_prev(
                    cat2(
                        cat3("expected ", what, ", found ").as_str(),
                        describe(&t).as_str(),
                    ),
                ),
            ),
        }
    }

    /// Where the current token stands.
    pub(crate) fn here(&self) -> (s: Span)
        ensures
            s == self@.span,
    {
        self.span
    }

    /// The name of the current token in error messages.
    pub(crate) fn describe_here(&self) -> (s: String)
        ensures
            s@ == described(self@.cur),
    {
        describe(&self.current)
    }

    pub(crate) fn at_string(&self) -> (r: bool)
        ensures
            r == self@.cur is Str,
    {
        matches!(self.current, Token::Str(_))
    }

    pub(crate) fn at_interpolated(&self) -> (r: bool)
        ensures
            r == self@.cur is InterpStr,
    {
        matches!(self.current, Token::InterpStr(_))
    }

    /// The literal that the current token is.
    pub(crate) fn literal_here(&self) -> (r: Option<ExprKind>)
        ensures
            match literal(self@.cur) {
                Some(kind) => r is Some && r->Some_0@ == kind,
                None => r is None,
            },
    {
        match &self.current {
            Token::Int(n) => Some(ExprKind::Int(*n)),
            Token::Float(t) => Some(ExprKind::Float(t.clone())),
            Token::Bool(b) => Some(ExprKind::Bool(*b)),
            Token::Str(s) => Some(ExprKind::Str(s.clone())),
            _ => None,
        }
    }

    /// The binary operator that the current token is, and how tightly it binds.
    pub(crate) fn operator_here(&self) -> (r: Option<(u8, BinOp)>)
        ensures
            match binop(self@.cur) {
                Some((prec, op)) => r is Some && r->Some_0.0 == prec && r->Some_0.1 == op,
                None => r is None,
            },
            r is Some ==> r->Some_0.0 <= 5,
    {
        match &self.current {
            Token::PipePipe => Some((1u8, BinOp::Or)),
            Token::AmpAmp => Some((2u8, BinOp::And)),
            Token::Eq => Some((3u8, BinOp::Eq)),
            Token::Ne => Some((3u8, BinOp::Ne)),
            Token::Lt => Some((3u8, BinOp::Lt)),
            Token::Le => Some((3u8, BinOp::Le)),
            Token::Gt => Some((3u8, BinOp::Gt)),
            Token::Ge => Some((3u8, BinOp::Ge)),
            Token::Plus => Some((4u8, BinOp::Add)),
            Token::Minus => Some((4u8, BinOp::Sub)),
            Token::Star => Some((5u8, BinOp::Mul)),
            Token::Slash => Some((5u8, BinOp::Div)),
            Token::Percent => Some((5u8, BinOp::Mod)),
            _ => None,
        }
    }

    /// The content of the interpolated string that is current fits.
    pub(crate) proof fn lemma_content_fits(&self)
        requires
            self.wf(),
        ensures
            self@.cur matches TokenV::InterpStr(t) ==> content_scan(t, self@.span).fits(),
    {
    }

    /// The current token's text, where it is a name.
    pub(crate) fn name_here(&self) -> (r: Option<String>)
        ensures
            match self@.cur {
                TokenV::Ident(n) => r is Some && r->Some_0@ == n,
                _ => r is None,
            },
    {
        match &self.current {
            Token::Ident(n) => Some(n.clone()),
            _ => None,
        }
    }
}

/// The program that a source text is, or what is wrong with it.
pub fn parse(src: &str) -> (r: Result<Program, Diagnostic>)
    requires
        src@.len() < u32::MAX,
    ensures
        match parsed(src@) {
            Ok(stmts) => r is Ok && r->Ok_0@ == stmts,
            Err(d) => r is Err && r->Err_0@ == d,
        },
{
    let mut parser = Parser::new(src)?;
    parser.parse_program()
}

} // verus!
