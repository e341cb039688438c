//! The grammar of the language: what each construct is, as a function from a
//! cursor in the token stream to the syntax tree and the cursor behind it.
//!
//! Every rule reads at least one token before it descends into another rule,
//! so the text that is left gets shorter. The rules say so with `shorter`,
//! whose second case never comes up.
//!
//! A recursive rule for expressions or statements goes by two names: `p_x` is
//! what the other rules and the parser's contracts refer to, `rule_x` says
//! what it is. A proof about one rule then need not unfold the rules it uses.

use crate::ast::{
    BinOp, ExprKindV, ExprV, PatternV, StmtKindV, StmtV, TraitMethodV, TypeV, UnaryOp,
};
use crate::diagnostic::{DiagnosticV, Span};
use crate::lexer::{fail, lex, unescaped, Scan, Token, TokenV};
use crate::text::{int_text, trim_text, uppercase};
use vstd::prelude::*;

verus! {

/// Source spelling of a fixed token.
#[verifier::opaque]
pub open spec fn symbol_text(t: Token) -> Seq<char> {
    match t {
        Token::Let => "let"@,
        Token::Fn => "fn"@,
        Token::Return => "return"@,
        Token::Struct => "struct"@,
        Token::Enum => "enum"@,
        Token::Match => "match"@,
        Token::Trait => "trait"@,
        Token::Impl => "impl"@,
        Token::For => "for"@,
        Token::Extern => "extern"@,
        Token::Macro => "macro"@,
        Token::If => "if"@,
        Token::Else => "else"@,
        Token::While => "while"@,
        Token::Break => "break"@,
        Token::Continue => "continue"@,
        Token::In => "in"@,
        Token::Import => "import"@,
        Token::Colon => ":"@,
        Token::ColonColon => "::"@,
        Token::Dot => "."@,
        Token::Plus => "+"@,
        Token::Minus => "-"@,
        Token::Star => "*"@,
        Token::Slash => "/"@,
        Token::Percent => "%"@,
        Token::Eq => "=="@,
        Token::Ne => "!="@,
        Token::Lt => "<"@,
        Token::Le => "<="@,
        Token::Gt => ">"@,
        Token::Ge => ">="@,
        Token::Assign => "="@,
        Token::LParen => "("@,
        Token::RParen => ")"@,
        Token::LBrace => "{"@,
        Token::RBrace => "}"@,
        Token::LBrack => "["@,
        Token::RBrack => "]"@,
        Token::Comma => ","@,
        Token::Arrow => "->"@,
        Token::FatArrow => "=>"@,
        Token::DotDot => ".."@,
        Token::Bang => "!"@,
        Token::AmpAmp => "&&"@,
        Token::PipePipe => "||"@,
        Token::Pipe => "|"@,
        Token::Semicolon => ";"@,
        _ => "token"@,
    }
}

/// Name for a token in error messages.
#[verifier::opaque]
pub open spec fn described(t: TokenV) -> Seq<char> {
    match t {
        TokenV::Int(n) => "`"@ + int_text(n as int) + "`"@,
        TokenV::Float(s) => "`"@ + s + "`"@,
        TokenV::Str(_) => "a string literal"@,
        TokenV::InterpStr(_) => "a string literal"@,
        TokenV::Ident(name) => "`"@ + name + "`"@,
        TokenV::Bool(b) => if b {
            "`true`"@
        } else {
            "`false`"@
        },
        TokenV::Fixed(t) => if t == Token::Eof {
            "end of file"@
        } else {
            "`"@ + symbol_text(t) + "`"@
        },
    }
}

/// A place in the token stream.
pub struct Cursor {
    /// What follows the current token.
    pub scan: Scan,
    /// The current token.
    pub cur: TokenV,
    /// Where the current token stands.
    pub span: Span,
    /// Where the token before it stands.
    pub prev: Span,
}

/// A construct and the cursor behind it, or what is wrong.
pub type Parse<T> = Result<(T, Cursor), DiagnosticV>;

/// How much text a token stands for, at least.
pub open spec fn weight(t: TokenV) -> nat {
    match t {
        TokenV::InterpStr(content) => content.len() + 2,
        TokenV::Fixed(t) => if t == Token::Eof {
            0
        } else {
            1
        },
        _ => 1,
    }
}

impl Cursor {
    /// How much there is left to read, the current token included.
    pub open spec fn size(self) -> nat {
        self.scan.rest.len() + weight(self.cur)
    }

    /// The current token is the given keyword or symbol.
    pub open spec fn at(self, t: Token) -> bool {
        self.cur == TokenV::Fixed(t)
    }
}

/// The cursor at the first token of a text.
pub open spec fn start(s: Scan) -> Result<Cursor, DiagnosticV> {
    match lex(s) {
        Err(d) => Err(d),
        Ok(f) => Ok(Cursor { scan: f.next, cur: f.token, span: f.span, prev: f.span }),
    }
}

/// The cursor behind the current token.
pub open spec fn adv(c: Cursor) -> Result<Cursor, DiagnosticV> {
    match lex(c.scan) {
        Err(d) => Err(d),
        Ok(f) => Ok(Cursor { scan: f.next, cur: f.token, span: f.span, prev: c.span }),
    }
}

/// The cursor behind a token that has to stand there.
pub open spec fn eat(c: Cursor, t: Token) -> Result<Cursor, DiagnosticV> {
    if c.at(t) {
        adv(c)
    } else {
        fail("expected "@ + described(TokenV::Fixed(t)) + ", found "@ + described(c.cur), c.span)
    }
}

/// Past a comma, where there is one.
pub open spec fn opt_comma(c: Cursor) -> Result<Cursor, DiagnosticV> {
    if c.at(Token::Comma) {
        adv(c)
    } else {
        Ok(c)
    }
}

/// A cursor with less text left than `c` has.
pub open spec fn shorter(c: Cursor, r: Result<Cursor, DiagnosticV>) -> Result<Cursor, DiagnosticV> {
    match r {
        Err(d) => Err(d),
        Ok(c2) => if c2.size() < c.size() {
            r
        } else {
            fail(Seq::empty(), c.span)
        },
    }
}

/// A construct that leaves less text than `c` has.
pub open spec fn shorter_by<T>(c: Cursor, r: Parse<T>) -> Parse<T> {
    match r {
        Err(d) => Err(d),
        Ok((_, c2)) => if c2.size() < c.size() {
            r
        } else {
            fail(Seq::empty(), c.span)
        },
    }
}

/// A name that has to stand here; the token is read before it is looked at.
pub open spec fn p_name(c: Cursor, what: Seq<char>) -> Parse<Seq<char>> {
    match adv(c) {
        Err(d) => Err(d),
        Ok(c1) => match c.cur {
            TokenV::Ident(n) => Ok((n, c1)),
            t => fail("expected "@ + what + ", found "@ + described(t), c.span),
        },
    }
}

/// Whether a name starts with an upper-case letter.
pub open spec fn capitalised(name: Seq<char>) -> bool {
    name.len() > 0 && uppercase(name[0])
}

pub open spec fn expr_v(kind: ExprKindV, span: Span) -> ExprV {
    ExprV { kind: Box::new(kind), span }
}

/// The name that an expression is, where it is one.
pub open spec fn name_of(e: ExprV) -> Option<Seq<char>> {
    match *e.kind {
        ExprKindV::Ident(name) => Some(name),
        _ => None,
    }
}

// ---- types ----

/// The type that a plain name stands for, where it is built in.
pub open spec fn builtin_type(n: Seq<char>) -> Option<TypeV> {
    if n == "int"@ {
        Some(TypeV::Int)
    } else if n == "float"@ {
        Some(TypeV::Float)
    } else if n == "bool"@ {
        Some(TypeV::Bool)
    } else if n == "string"@ {
        Some(TypeV::String)
    } else if n == "range"@ {
        Some(TypeV::Range)
    } else {
        None
    }
}

/// A type: a name with optional arguments in `<..>`, `[T]`, or
/// `fn(T, ..) -> T`.
pub open spec fn p_type(c: Cursor) -> Parse<TypeV>
    decreases c.size(), 1int,
{
    match c.cur {
        TokenV::Ident(n) => match shorter(c, adv(c)) {
            Err(d) => Err(d),
            Ok(c1) => match builtin_type(n) {
                Some(t) => Ok((t, c1)),
                None => if c1.at(Token::Lt) {
                    match shorter(c, adv(c1)) {
                        Err(d) => Err(d),
                        Ok(c2) => match p_types_until(c2, Token::Gt, Seq::empty()) {
                            Err(d) => Err(d),
                            Ok((args, c3)) => match eat(c3, Token::Gt) {
                                Err(d) => Err(d),
                                Ok(c4) => Ok((TypeV::Named(n, args), c4)),
                            },
                        },
                    }
                } else {
                    Ok((TypeV::Named(n, Seq::empty()), c1))
                },
            },
        },
        TokenV::Fixed(Token::LBrack) => match shorter(c, adv(c)) {
            Err(d) => Err(d),
            Ok(c1) => match p_type(c1) {
                Err(d) => Err(d),
                Ok((el, c2)) => match eat(c2, Token::RBrack) {
                    Err(d) => Err(d),
                    Ok(c3) => Ok((TypeV::Array(Box::new(el)), c3)),
                },
            },
        },
        TokenV::Fixed(Token::Fn) => match adv(c) {
            Err(d) => Err(d),
            Ok(c1) => match shorter(c, eat(c1, Token::LParen)) {
                Err(d) => Err(d),
                Ok(c2) => match (if c2.at(Token::RParen) {
                    Ok((Seq::empty(), c2))
                } else {
                    p_types_sep(c2, Seq::empty())
                }) {
                    Err(d) => Err(d),
                    Ok((params, c3)) => match shorter(c, eat(c3, Token::RParen)) {
                        Err(d) => Err(d),
                        Ok(c4) => match p_type_after(c4, Token::Arrow, TypeV::Unit) {
                            Err(d) => Err(d),
                            Ok((ret, c5)) => Ok((TypeV::Fn(params, Box::new(ret)), c5)),
                        },
                    },
                },
            },
        },
        t => fail("expected type, found "@ + described(t), c.prev),
    }
}

/// The type behind `mark`, or `default` where `mark` does not stand here.
pub open spec fn p_type_after(c: Cursor, mark: Token, default: TypeV) -> Parse<TypeV>
    decreases c.size(), 0int,
{
    if c.at(mark) {
        match shorter(c, adv(c)) {
            Err(d) => Err(d),
            Ok(c1) => p_type(c1),
        }
    } else {
        Ok((default, c))
    }
}

/// Types up to `close`, with optional commas behind each.
pub open spec fn p_types_until(c: Cursor, close: Token, acc: Seq<TypeV>) -> Parse<Seq<TypeV>>
    decreases c.size(), 2int,
{
    if c.at(close) {
        Ok((acc, c))
    } else {
        match p_type(c) {
            Err(d) => Err(d),
            Ok((t, c1)) => match shorter(c, opt_comma(c1)) {
                Err(d) => Err(d),
                Ok(c2) => p_types_until(c2, close, acc.push(t)),
            },
        }
    }
}

/// One or more types with commas between them.
pub open spec fn p_types_sep(c: Cursor, acc: Seq<TypeV>) -> Parse<Seq<TypeV>>
    decreases c.size(), 2int,
{
    match p_type(c) {
        Err(d) => Err(d),
        Ok((t, c1)) => if c1.at(Token::Comma) {
            match shorter(c, adv(c1)) {
                Err(d) => Err(d),
                Ok(c2) => p_types_sep(c2, acc.push(t)),
            }
        } else {
            Ok((acc.push(t), c1))
        },
    }
}

// ---- lists of names and declarations ----

/// Names up to `close`, with optional commas behind each.
pub open spec fn p_names_until(c: Cursor, close: Token, what: Seq<char>, acc: Seq<Seq<char>>) -> Parse<
    Seq<Seq<char>>,
>
    decreases c.size(),
{
    if c.at(close) {
        Ok((acc, c))
    } else {
        match p_name(c, what) {
            Err(d) => Err(d),
            Ok((n, c1)) => match shorter(c, opt_comma(c1)) {
                Err(d) => Err(d),
                Ok(c2) => p_names_until(c2, close, what, acc.push(n)),
            },
        }
    }
}

/// Type parameters in `<..>`, or none.
pub open spec fn p_generics(c: Cursor) -> Parse<Seq<Seq<char>>> {
    if c.at(Token::Lt) {
        match adv(c) {
            Err(d) => Err(d),
            Ok(c1) => match p_names_until(c1, Token::Gt, "generic name"@, Seq::empty()) {
                Err(d) => Err(d),
                Ok((names, c2)) => match eat(c2, Token::Gt) {
                    Err(d) => Err(d),
                    Ok(c3) => Ok((names, c3)),
                },
            },
        }
    } else {
        Ok((Seq::empty(), c))
    }
}

/// One or more parameters `name: type` with commas between them. Where a
/// method may take it, a plain `self` stands for `self: Self`.
pub open spec fn p_params(c: Cursor, with_self: bool, acc: Seq<(Seq<char>, TypeV)>) -> Parse<
    Seq<(Seq<char>, TypeV)>,
>
    decreases c.size(),
{
    match p_name(c, "param name"@) {
        Err(d) => Err(d),
        Ok((name, c1)) => match (if with_self && name == "self"@ {
            Ok((TypeV::Named("Self"@, Seq::empty()), c1))
        } else {
            match eat(c1, Token::Colon) {
                Err(d) => Err(d),
                Ok(c2) => p_type(c2),
            }
        }) {
            Err(d) => Err(d),
            Ok((ty, c3)) => if c3.at(Token::Comma) {
                match shorter(c, adv(c3)) {
                    Err(d) => Err(d),
                    Ok(c4) => p_params(c4, with_self, acc.push((name, ty))),
                }
            } else {
                Ok((acc.push((name, ty)), c3))
            },
        },
    }
}

/// `(params)` and an optional `-> type`.
pub open spec fn p_signature(c: Cursor, with_self: bool) -> Parse<
    (Seq<(Seq<char>, TypeV)>, TypeV),
> {
    match eat(c, Token::LParen) {
        Err(d) => Err(d),
        Ok(c1) => match (if c1.at(Token::RParen) {
            Ok((Seq::empty(), c1))
        } else {
            p_params(c1, with_self, Seq::empty())
        }) {
            Err(d) => Err(d),
            Ok((params, c2)) => match eat(c2, Token::RParen) {
                Err(d) => Err(d),
                Ok(c3) => match p_type_after(c3, Token::Arrow, TypeV::Unit) {
                    Err(d) => Err(d),
                    Ok((ret, c4)) => Ok(((params, ret), c4)),
                },
            },
        },
    }
}

/// Struct fields up to the closing brace.
pub open spec fn p_field_decls(c: Cursor, acc: Seq<(Seq<char>, TypeV)>) -> Parse<
    Seq<(Seq<char>, TypeV)>,
>
    decreases c.size(),
{
    if c.at(Token::RBrace) {
        Ok((acc, c))
    } else {
        match p_name(c, "field name"@) {
            Err(d) => Err(d),
            Ok((name, c1)) => match eat(c1, Token::Colon) {
                Err(d) => Err(d),
                Ok(c2) => match p_type(c2) {
                    Err(d) => Err(d),
                    Ok((ty, c3)) => match shorter(c, opt_comma(c3)) {
                        Err(d) => Err(d),
                        Ok(c4) => p_field_decls(c4, acc.push((name, ty))),
                    },
                },
            },
        }
    }
}

/// Enum variants up to the closing brace.
pub open spec fn p_cases(c: Cursor, acc: Seq<(Seq<char>, Seq<TypeV>)>) -> Parse<
    Seq<(Seq<char>, Seq<TypeV>)>,
>
    decreases c.size(),
{
    if c.at(Token::RBrace) {
        Ok((acc, c))
    } else {
        match p_name(c, "variant name"@) {
            Err(d) => Err(d),
            Ok((name, c1)) => match p_payload(c1) {
                Err(d) => Err(d),
                Ok((payload, c2)) => match shorter(c, opt_comma(c2)) {
                    Err(d) => Err(d),
                    Ok(c3) => p_cases(c3, acc.push((name, payload))),
                },
            },
        }
    }
}

/// The payload types of a variant in `(..)`, or none.
pub open spec fn p_payload(c: Cursor) -> Parse<Seq<TypeV>> {
    if c.at(Token::LParen) {
        match adv(c) {
            Err(d) => Err(d),
            Ok(c1) => match p_types_until(c1, Token::RParen, Seq::empty()) {
                Err(d) => Err(d),
                Ok((ts, c2)) => match eat(c2, Token::RParen) {
                    Err(d) => Err(d),
                    Ok(c3) => Ok((ts, c3)),
                },
            },
        }
    } else {
        Ok((Seq::empty(), c))
    }
}

/// Trait methods up to the closing brace.
pub open spec fn p_trait_methods(c: Cursor, acc: Seq<TraitMethodV>) -> Parse<Seq<TraitMethodV>>
    decreases c.size(),
{
    if c.at(Token::RBrace) {
        Ok((acc, c))
    } else {
        match eat(c, Token::Fn) {
            Err(d) => Err(d),
            Ok(c1) => match p_name(c1, "method name"@) {
                Err(d) => Err(d),
                Ok((name, c2)) => match p_signature(c2, true) {
                    Err(d) => Err(d),
                    Ok(((params, ret), c3)) => match shorter(c, eat(c3, Token::Semicolon)) {
                        Err(d) => Err(d),
                        Ok(c4) => p_trait_methods(c4, acc.push(TraitMethodV { name, params, ret })),
                    },
                },
            },
        }
    }
}

/// `struct Name<..> { fields }`.
pub open spec fn p_struct(c: Cursor) -> Parse<StmtKindV> {
    match adv(c) {
        Err(d) => Err(d),
        Ok(c1) => match p_name(c1, "struct name"@) {
            Err(d) => Err(d),
            Ok((name, c2)) => match p_generics(c2) {
                Err(d) => Err(d),
                Ok((generics, c3)) => match eat(c3, Token::LBrace) {
                    Err(d) => Err(d),
                    Ok(c4) => match p_field_decls(c4, Seq::empty()) {
                        Err(d) => Err(d),
                        Ok((fields, c5)) => match eat(c5, Token::RBrace) {
                            Err(d) => Err(d),
                            Ok(c6) => Ok((StmtKindV::Struct { name, generics, fields }, c6)),
                        },
                    },
                },
            },
        },
    }
}

/// `enum Name { variants }`.
pub open spec fn p_enum(c: Cursor) -> Parse<StmtKindV> {
    match adv(c) {
        Err(d) => Err(d),
        Ok(c1) => match p_name(c1, "enum name"@) {
            Err(d) => Err(d),
            Ok((name, c2)) => match eat(c2, Token::LBrace) {
                Err(d) => Err(d),
                Ok(c3) => match p_cases(c3, Seq::empty()) {
                    Err(d) => Err(d),
                    Ok((variants, c4)) => match eat(c4, Token::RBrace) {
                        Err(d) => Err(d),
                        Ok(c5) => Ok((StmtKindV::Enum { name, variants }, c5)),
                    },
                },
            },
        },
    }
}

/// `trait Name { methods }`.
pub open spec fn p_trait(c: Cursor) -> Parse<StmtKindV> {
    match adv(c) {
        Err(d) => Err(d),
        Ok(c1) => match p_name(c1, "trait name"@) {
            Err(d) => Err(d),
            Ok((name, c2)) => match eat(c2, Token::LBrace) {
                Err(d) => Err(d),
                Ok(c3) => match p_trait_methods(c3, Seq::empty()) {
                    Err(d) => Err(d),
                    Ok((methods, c4)) => match eat(c4, Token::RBrace) {
                        Err(d) => Err(d),
                        Ok(c5) => Ok((StmtKindV::Trait { name, methods }, c5)),
                    },
                },
            },
        },
    }
}

/// A foreign function: an optional calling convention, then a signature.
pub open spec fn p_foreign(c: Cursor) -> Parse<StmtKindV> {
    match adv(c) {
        Err(d) => Err(d),
        Ok(c1) => match (if c1.cur is Str {
            adv(c1)
        } else {
            Ok(c1)
        }) {
            Err(d) => Err(d),
            Ok(c2) => match eat(c2, Token::Fn) {
                Err(d) => Err(d),
                Ok(c3) => match p_name(c3, "fn name"@) {
                    Err(d) => Err(d),
                    Ok((name, c4)) => match p_signature(c4, false) {
                        Err(d) => Err(d),
                        Ok(((params, ret), c5)) => match eat(c5, Token::Semicolon) {
                            Err(d) => Err(d),
                            Ok(c6) => Ok((StmtKindV::ExternFn { name, params, ret }, c6)),
                        },
                    },
                },
            },
        },
    }
}

/// `import "path";`
pub open spec fn p_import(c: Cursor) -> Parse<StmtKindV> {
    match adv(c) {
        Err(d) => Err(d),
        Ok(c1) => match c1.cur {
            TokenV::Str(path) => match adv(c1) {
                Err(d) => Err(d),
                Ok(c2) => match eat(c2, Token::Semicolon) {
                    Err(d) => Err(d),
                    Ok(c3) => Ok((StmtKindV::Import(path), c3)),
                },
            },
            t => fail("expected string path after import, found "@ + described(t), c1.prev),
        },
    }
}

// ---- patterns ----

/// A pattern: a literal, `_`, a name, or a variant with patterns for its
/// payload. A variant may be qualified by its enum; without a payload a name
/// is a variant when it starts with an upper-case letter.
pub open spec fn p_pattern(c: Cursor) -> Parse<PatternV>
    decreases c.size(), 1int,
{
    match c.cur {
        TokenV::Int(n) => match adv(c) {
            Err(d) => Err(d),
            Ok(c1) => Ok((PatternV::Literal(expr_v(ExprKindV::Int(n), c.span)), c1)),
        },
        TokenV::Str(s) => match adv(c) {
            Err(d) => Err(d),
            Ok(c1) => Ok((PatternV::Literal(expr_v(ExprKindV::Str(s), c.span)), c1)),
        },
        TokenV::Bool(b) => match adv(c) {
            Err(d) => Err(d),
            Ok(c1) => Ok((PatternV::Literal(expr_v(ExprKindV::Bool(b), c.span)), c1)),
        },
        TokenV::Ident(name) => match shorter(c, adv(c)) {
            Err(d) => Err(d),
            Ok(c1) => if name == "_"@ {
                Ok((PatternV::Wildcard, c1))
            } else if c1.at(Token::ColonColon) {
                match shorter(c, adv(c1)) {
                    Err(d) => Err(d),
                    Ok(c2) => match c2.cur {
                        TokenV::Ident(variant) => match shorter(c, adv(c2)) {
                            Err(d) => Err(d),
                            Ok(c3) => p_variant(c3, name + "::"@ + variant, true),
                        },
                        _ => p_variant(c2, name, capitalised(name)),
                    },
                }
            } else {
                p_variant(c1, name, capitalised(name))
            },
        },
        t => fail("unexpected token in pattern: "@ + described(t), c.span),
    }
}

/// What follows the name of a variant: its payload patterns, or nothing. With
/// nothing, the name is a variable unless `is_variant`.
pub open spec fn p_variant(c: Cursor, name: Seq<char>, is_variant: bool) -> Parse<PatternV>
    decreases c.size(), 0int,
{
    if c.at(Token::LParen) {
        match shorter(c, adv(c)) {
            Err(d) => Err(d),
            Ok(c1) => match p_patterns_until(c1, Seq::empty()) {
                Err(d) => Err(d),
                Ok((inner, c2)) => match eat(c2, Token::RParen) {
                    Err(d) => Err(d),
                    Ok(c3) => Ok((PatternV::EnumVariant { name, inner }, c3)),
                },
            },
        }
    } else if is_variant {
        Ok((PatternV::EnumVariant { name, inner: Seq::empty() }, c))
    } else {
        Ok((PatternV::Variable(name), c))
    }
}

/// Patterns up to the closing parenthesis, with optional commas behind each.
pub open spec fn p_patterns_until(c: Cursor, acc: Seq<PatternV>) -> Parse<Seq<PatternV>>
    decreases c.size(), 2int,
{
    if c.at(Token::RParen) {
        Ok((acc, c))
    } else {
        match p_pattern(c) {
            Err(d) => Err(d),
            Ok((p, c1)) => match shorter(c, opt_comma(c1)) {
                Err(d) => Err(d),
                Ok(c2) => p_patterns_until(c2, acc.push(p)),
            },
        }
    }
}

/// One or more patterns with `|` between them.
pub open spec fn p_alternatives(c: Cursor, acc: Seq<PatternV>) -> Parse<Seq<PatternV>>
    decreases c.size(),
{
    match p_pattern(c) {
        Err(d) => Err(d),
        Ok((p, c1)) => if c1.at(Token::Pipe) {
            match shorter(c, adv(c1)) {
                Err(d) => Err(d),
                Ok(c2) => p_alternatives(c2, acc.push(p)),
            }
        } else {
            Ok((acc.push(p), c1))
        },
    }
}

// ---- interpolated strings ----

/// A piece of an interpolated string: text, or the code between braces. Both
/// name a part of the string's content.
pub enum Piece {
    Text(int, int),
    Code(int, int),
}

/// Where the text that has been read up to `i` ends: at the next brace that no
/// backslash precedes.
pub open spec fn text_end(t: Seq<char>, i: int) -> int
    decreases t.len() - i,
{
    if i >= t.len() || t[i] == '{' {
        i
    } else if t[i] == '\\' && i + 1 < t.len() {
        text_end(t, i + 2)
    } else {
        text_end(t, i + 1)
    }
}

/// Where the code that has been read up to `i` ends: at the brace that closes
/// it. `depth` braces are open.
pub open spec fn code_end(t: Seq<char>, i: int, depth: int) -> int
    decreases t.len() - i,
{
    if i >= t.len() {
        i
    } else if t[i] == '\\' && i + 1 < t.len() {
        code_end(t, i + 2, depth)
    } else if t[i] == '{' {
        code_end(t, i + 1, depth + 1)
    } else if t[i] == '}' {
        if depth <= 1 {
            i
        } else {
            code_end(t, i + 1, depth - 1)
        }
    } else {
        code_end(t, i + 1, depth)
    }
}

proof fn lemma_text_end(t: Seq<char>, i: int)
    requires
        0 <= i <= t.len(),
    ensures
        i <= text_end(t, i) <= t.len(),
        i < t.len() && t[i] != '{' ==> i < text_end(t, i),
    decreases t.len() - i,
{
    if i < t.len() && t[i] != '{' {
        lemma_text_end(t, i + 1);
        if i + 1 < t.len() {
            lemma_text_end(t, i + 2);
        }
    }
}

/// The end of a text run is not before its start and within the content.
pub proof fn lemma_piece_ends(t: Seq<char>, i: int, depth: int)
    requires
        0 <= i <= t.len(),
    ensures
        i <= text_end(t, i) <= t.len(),
        i < t.len() && t[i] != '{' ==> i < text_end(t, i),
        i <= code_end(t, i, depth) <= t.len(),
    decreases t.len() - i,
{
    lemma_text_end(t, i);
    if i < t.len() {
        lemma_piece_ends(t, i + 1, depth);
        lemma_piece_ends(t, i + 1, depth + 1);
        lemma_piece_ends(t, i + 1, depth - 1);
        if i + 1 < t.len() {
            lemma_piece_ends(t, i + 2, depth);
        }
    }
}

/// The pieces of an interpolated string's content from `i` on.
pub open spec fn pieces(t: Seq<char>, i: int) -> Seq<Piece>
    decreases
            if i < t.len() {
                t.len() - i
            } else {
                0
            },
{
    proof {
        if 0 <= i < t.len() {
            lemma_piece_ends(t, i, 0);
            lemma_piece_ends(t, i + 1, 1);
        }
    }
    if i < 0 || i >= t.len() {
        Seq::empty()
    } else if t[i] == '{' {
        let e = code_end(t, i + 1, 1);
        seq![Piece::Code(i + 1, e)] + pieces(t, e + 1)
    } else {
        let e = text_end(t, i);
        seq![Piece::Text(i, e)] + pieces(t, e)
    }
}

/// The content of the interpolated string that stands at `span`, as a text
/// with its position: it starts behind the quote.
pub open spec fn content_scan(t: Seq<char>, span: Span) -> Scan {
    Scan { rest: t, line: span.line as int, col: span.col + 1 }
}

/// The source text of a code piece, with its position.
pub open spec fn code_scan(t: Seq<char>, span: Span, from: int, to: int) -> Scan {
    let at = content_scan(t, span).advance(from);
    Scan { rest: unescaped(t.subrange(from, to), 0), line: at.line, col: at.col }
}

/// A call of `to_string` on an expression.
pub open spec fn to_string_call(e: ExprV, span: Span) -> ExprV {
    expr_v(
        ExprKindV::Call(Box::new(expr_v(ExprKindV::Ident("to_string"@), span)), seq![e]),
        span,
    )
}

/// An error inside a code piece, reported at the string that holds it.
pub open spec fn piece_error(code: Seq<char>, d: DiagnosticV, span: Span) -> DiagnosticV {
    DiagnosticV {
        message: "in interpolated expression `"@ + trim_text(code) + "`: "@ + d.message,
        span,
    }
}

/// The parts of an interpolated string added up from the left.
pub open spec fn joined(parts: Seq<ExprV>, span: Span) -> ExprV
    decreases parts.len(),
{
    if parts.len() == 0 {
        expr_v(ExprKindV::Str(Seq::empty()), span)
    } else if parts.len() == 1 {
        parts[0]
    } else {
        expr_v(
            ExprKindV::Binary(
                Box::new(joined(parts.drop_last(), span)),
                BinOp::Add,
                Box::new(parts.last()),
            ),
            span,
        )
    }
}

/// The parts of an interpolated string from its `i`-th piece on.
pub open spec fn p_interp(c: Cursor, t: Seq<char>, i: int, acc: Seq<ExprV>) -> Parse<Seq<ExprV>>
    decreases c.size(), 6int, pieces(t, 0).len() - i,
{
    let ps = pieces(t, 0);
    if i >= ps.len() {
        Ok((acc, c))
    } else {
        match ps[i] {
            Piece::Text(from, to) => p_interp(
                c,
                t,
                i + 1,
                acc.push(
                    expr_v(ExprKindV::Str(unescaped(t.subrange(from, to), 0)), c.span),
                ),
            ),
            Piece::Code(from, to) => {
                let scan = code_scan(t, c.span, from, to);
                match shorter(c, start(scan)) {
                    Err(d) => Err(piece_error(scan.rest, d, c.span)),
                    Ok(sub) => match p_expr(sub) {
                        Err(d) => Err(piece_error(scan.rest, d, c.span)),
                        Ok((e, _)) => p_interp(c, t, i + 1, acc.push(to_string_call(e, c.span))),
                    },
                }
            },
        }
    }
}

// ---- expressions ----

/// How tightly a binary operator binds, loosest first.
pub open spec fn binop(t: TokenV) -> Option<(int, BinOp)> {
    match t {
        TokenV::Fixed(Token::PipePipe) => Some((1, BinOp::Or)),
        TokenV::Fixed(Token::AmpAmp) => Some((2, BinOp::And)),
        TokenV::Fixed(Token::Eq) => Some((3, BinOp::Eq)),
        TokenV::Fixed(Token::Ne) => Some((3, BinOp::Ne)),
        TokenV::Fixed(Token::Lt) => Some((3, BinOp::Lt)),
        TokenV::Fixed(Token::Le) => Some((3, BinOp::Le)),
        TokenV::Fixed(Token::Gt) => Some((3, BinOp::Gt)),
        TokenV::Fixed(Token::Ge) => Some((3, BinOp::Ge)),
        TokenV::Fixed(Token::Plus) => Some((4, BinOp::Add)),
        TokenV::Fixed(Token::Minus) => Some((4, BinOp::Sub)),
        TokenV::Fixed(Token::Star) => Some((5, BinOp::Mul)),
        TokenV::Fixed(Token::Slash) => Some((5, BinOp::Div)),
        TokenV::Fixed(Token::Percent) => Some((5, BinOp::Mod)),
        _ => None,
    }
}

/// An expression: operators, and at most one `..` between two of them.
pub open spec fn p_expr(c: Cursor) -> Parse<ExprV>
    decreases c.size(), 21int, 0int,
{
    rule_expr(c)
}

pub open spec fn rule_expr(c: Cursor) -> Parse<ExprV>
    decreases c.size(), 20int, 0int,
{
    match p_binop(c, 0) {
        Err(d) => Err(d),
        Ok((left, c1)) => if c1.at(Token::DotDot) {
            match shorter(c, adv(c1)) {
                Err(d) => Err(d),
                Ok(c2) => match p_binop(c2, 0) {
                    Err(d) => Err(d),
                    Ok((right, c3)) => Ok(
                        (
                            expr_v(
                                ExprKindV::Range(Box::new(left), Box::new(right)),
                                left.span,
                            ),
                            c3,
                        ),
                    ),
                },
            }
        } else {
            Ok((left, c1))
        },
    }
}

/// Operators that bind at least as tightly as `min`, all left-associative.
pub open spec fn p_binop(c: Cursor, min: int) -> Parse<ExprV>
    decreases c.size(), 19int, 0int,
{
    rule_binop(c, min)
}

pub open spec fn rule_binop(c: Cursor, min: int) -> Parse<ExprV>
    decreases c.size(), 18int, 0int,
{
    match shorter_by(c, p_unary(c)) {
        Err(d) => Err(d),
        Ok((left, c1)) => p_binop_rest(left, c1, min),
    }
}

/// The operators that follow a left operand.
pub open spec fn p_binop_rest(left: ExprV, c: Cursor, min: int) -> Parse<ExprV>
    decreases c.size(), 1int, 0int,
{
    rule_binop_rest(left, c, min)
}

pub open spec fn rule_binop_rest(left: ExprV, c: Cursor, min: int) -> Parse<ExprV>
    decreases c.size(), 0int, 0int,
{
    match binop(c.cur) {
        None => Ok((left, c)),
        Some((prec, op)) => if prec < min {
            Ok((left, c))
        } else {
            match shorter(c, adv(c)) {
                Err(d) => Err(d),
                Ok(c1) => match shorter_by(c, p_binop(c1, prec + 1)) {
                    Err(d) => Err(d),
                    Ok((right, c2)) => p_binop_rest(
                        expr_v(
                            ExprKindV::Binary(Box::new(left), op, Box::new(right)),
                            left.span,
                        ),
                        c2,
                        min,
                    ),
                },
            }
        },
    }
}

/// Prefix operators.
pub open spec fn p_unary(c: Cursor) -> Parse<ExprV>
    decreases c.size(), 17int, 0int,
{
    rule_unary(c)
}

pub open spec fn rule_unary(c: Cursor) -> Parse<ExprV>
    decreases c.size(), 16int, 0int,
{
    if c.at(Token::Minus) || c.at(Token::Bang) {
        match shorter(c, adv(c)) {
            Err(d) => Err(d),
            Ok(c1) => match p_unary(c1) {
                Err(d) => Err(d),
                Ok((e, c2)) => Ok(
                    (
                        expr_v(
                            ExprKindV::Unary(
                                if c.at(Token::Minus) {
                                    UnaryOp::Neg
                                } else {
                                    UnaryOp::Not
                                },
                                Box::new(e),
                            ),
                            c.span,
                        ),
                        c2,
                    ),
                ),
            },
        }
    } else {
        p_postfix(c)
    }
}

/// A primary expression with what follows it.
pub open spec fn p_postfix(c: Cursor) -> Parse<ExprV>
    decreases c.size(), 15int, 0int,
{
    rule_postfix(c)
}

pub open spec fn rule_postfix(c: Cursor) -> Parse<ExprV>
    decreases c.size(), 14int, 0int,
{
    match shorter_by(c, p_primary(c)) {
        Err(d) => Err(d),
        Ok((e, c1)) => p_postfix_rest(e, c1),
    }
}

/// Field accesses, method calls and indexing behind an expression.
pub open spec fn p_postfix_rest(e: ExprV, c: Cursor) -> Parse<ExprV>
    decreases c.size(), 1int, 0int,
{
    rule_postfix_rest(e, c)
}

pub open spec fn rule_postfix_rest(e: ExprV, c: Cursor) -> Parse<ExprV>
    decreases c.size(), 0int, 0int,
{
    if c.at(Token::Dot) {
        match adv(c) {
            Err(d) => Err(d),
            Ok(c1) => match shorter_by(c, p_name(c1, "field/method name after '.'"@)) {
                Err(d) => Err(d),
                Ok((name, c2)) => if c2.at(Token::LParen) {
                    match shorter(c, adv(c2)) {
                        Err(d) => Err(d),
                        Ok(c3) => match p_exprs_until(c3, Token::RParen, Seq::empty()) {
                            Err(d) => Err(d),
                            Ok((args, c4)) => match shorter(c, eat(c4, Token::RParen)) {
                                Err(d) => Err(d),
                                Ok(c5) => p_postfix_rest(
                                    expr_v(
                                        ExprKindV::MethodCall(Box::new(e), name, args),
                                        e.span,
                                    ),
                                    c5,
                                ),
                            },
                        },
                    }
                } else {
                    p_postfix_rest(
                        expr_v(ExprKindV::FieldAccess(Box::new(e), name), e.span),
                        c2,
                    )
                },
            },
        }
    } else if c.at(Token::LBrack) {
        match shorter(c, adv(c)) {
            Err(d) => Err(d),
            Ok(c1) => match p_expr(c1) {
                Err(d) => Err(d),
                Ok((index, c2)) => match shorter(c, eat(c2, Token::RBrack)) {
                    Err(d) => Err(d),
                    Ok(c3) => p_postfix_rest(
                        expr_v(ExprKindV::Index(Box::new(e), Box::new(index)), e.span),
                        c3,
                    ),
                },
            },
        }
    } else {
        Ok((e, c))
    }
}

/// Expressions up to `close`, with optional commas behind each.
pub open spec fn p_exprs_until(c: Cursor, close: Token, acc: Seq<ExprV>) -> Parse<Seq<ExprV>>
    decreases c.size(), 27int, 0int,
{
    rule_exprs_until(c, close, acc)
}

pub open spec fn rule_exprs_until(c: Cursor, close: Token, acc: Seq<ExprV>) -> Parse<Seq<ExprV>>
    decreases c.size(), 26int, 0int,
{
    if c.at(close) {
        Ok((acc, c))
    } else {
        match p_expr(c) {
            Err(d) => Err(d),
            Ok((e, c1)) => match shorter(c, opt_comma(c1)) {
                Err(d) => Err(d),
                Ok(c2) => p_exprs_until(c2, close, acc.push(e)),
            },
        }
    }
}

/// A literal token as an expression.
pub open spec fn literal(t: TokenV) -> Option<ExprKindV> {
    match t {
        TokenV::Int(n) => Some(ExprKindV::Int(n)),
        TokenV::Float(s) => Some(ExprKindV::Float(s)),
        TokenV::Bool(b) => Some(ExprKindV::Bool(b)),
        TokenV::Str(s) => Some(ExprKindV::Str(s)),
        _ => None,
    }
}

/// The value that a statement gives as the last of a block.
pub open spec fn stmt_value(s: StmtV) -> Option<ExprV> {
    match s.kind {
        StmtKindV::Expr(e) => Some(e),
        StmtKindV::Return(Some(e)) => Some(e),
        _ => None,
    }
}

/// The value of a block in expression position: that of its last statement.
pub open spec fn block_value(stmts: Seq<StmtV>, span: Span) -> ExprV {
    if stmts.len() > 0 && stmt_value(stmts.last()) is Some {
        stmt_value(stmts.last())->Some_0
    } else {
        expr_v(ExprKindV::Bool(false), span)
    }
}

/// The value of a branch of an `if` expression: that of its only statement.
pub open spec fn branch_value(stmts: Seq<StmtV>, span: Span) -> ExprV {
    if stmts.len() == 1 && stmt_value(stmts[0]) is Some {
        stmt_value(stmts[0])->Some_0
    } else {
        expr_v(ExprKindV::Int(0), span)
    }
}

/// A literal, a name, a call, a struct literal, a parenthesised expression, an
/// array, a block, or one of `match`, `if`, `while` and `for`.
pub open spec fn p_primary(c: Cursor) -> Parse<ExprV>
    decreases c.size(), 13int, 0int,
{
    rule_primary(c)
}

pub open spec fn rule_primary(c: Cursor) -> Parse<ExprV>
    decreases c.size(), 12int, 0int,
{
    match c.cur {
        TokenV::InterpStr(t) => match adv(c) {
            Err(d) => Err(d),
            Ok(c1) => match p_interp(c, t, 0, Seq::empty()) {
                Err(d) => Err(d),
                Ok((parts, _)) => Ok((joined(parts, c.span), c1)),
            },
        },
        TokenV::Ident(name) => p_named(c, name),
        TokenV::Fixed(Token::Match) => p_match(c),
        TokenV::Fixed(Token::If) => p_if_expr(c),
        TokenV::Fixed(Token::While) => p_while_expr(c),
        TokenV::Fixed(Token::For) => p_for_expr(c),
        TokenV::Fixed(Token::LParen) => p_paren(c),
        TokenV::Fixed(Token::LBrack) => p_array(c),
        TokenV::Fixed(Token::LBrace) => match p_body(c) {
            Err(d) => Err(d),
            Ok((stmts, c1)) => Ok((block_value(stmts, c.span), c1)),
        },
        t => match literal(t) {
            Some(kind) => match adv(c) {
                Err(d) => Err(d),
                Ok(c1) => Ok((expr_v(kind, c.span), c1)),
            },
            None => fail("unexpected token in expression: "@ + described(t), c.prev),
        },
    }
}

/// A name: a struct literal or a call where it goes on so, or the name itself.
pub open spec fn p_named(c: Cursor, name: Seq<char>) -> Parse<ExprV>
    decreases c.size(), 3int, 0int,
{
    rule_named(c, name)
}

pub open spec fn rule_named(c: Cursor, name: Seq<char>) -> Parse<ExprV>
    decreases c.size(), 2int, 0int,
{
    match shorter(c, adv(c)) {
        Err(d) => Err(d),
        Ok(c1) => if c1.at(Token::LBrace) && capitalised(name) {
            p_struct_lit(c1, name, c.span)
        } else if c1.at(Token::LParen) {
            match shorter(c, adv(c1)) {
                Err(d) => Err(d),
                Ok(c2) => match p_exprs_until(c2, Token::RParen, Seq::empty()) {
                    Err(d) => Err(d),
                    Ok((args, c3)) => match eat(c3, Token::RParen) {
                        Err(d) => Err(d),
                        Ok(c4) => Ok(
                            (
                                expr_v(
                                    ExprKindV::Call(
                                        Box::new(expr_v(ExprKindV::Ident(name), c.span)),
                                        args,
                                    ),
                                    c.span,
                                ),
                                c4,
                            ),
                        ),
                    },
                },
            }
        } else {
            Ok((expr_v(ExprKindV::Ident(name), c.span), c1))
        },
    }
}

/// An expression in parentheses.
pub open spec fn p_paren(c: Cursor) -> Parse<ExprV>
    decreases c.size(), 3int, 0int,
{
    rule_paren(c)
}

pub open spec fn rule_paren(c: Cursor) -> Parse<ExprV>
    decreases c.size(), 2int, 0int,
{
    match shorter(c, adv(c)) {
        Err(d) => Err(d),
        Ok(c1) => match p_expr(c1) {
            Err(d) => Err(d),
            Ok((e, c2)) => match eat(c2, Token::RParen) {
                Err(d) => Err(d),
                Ok(c3) => Ok((e, c3)),
            },
        },
    }
}

/// An array literal.
pub open spec fn p_array(c: Cursor) -> Parse<ExprV>
    decreases c.size(), 3int, 0int,
{
    rule_array(c)
}

pub open spec fn rule_array(c: Cursor) -> Parse<ExprV>
    decreases c.size(), 2int, 0int,
{
    match shorter(c, adv(c)) {
        Err(d) => Err(d),
        Ok(c1) => match p_exprs_until(c1, Token::RBrack, Seq::empty()) {
            Err(d) => Err(d),
            Ok((elems, c2)) => match eat(c2, Token::RBrack) {
                Err(d) => Err(d),
                Ok(c3) => Ok((expr_v(ExprKindV::ArrayLit(elems), c.span), c3)),
            },
        },
    }
}

/// The braces of a struct literal.
pub open spec fn p_struct_lit(c: Cursor, name: Seq<char>, span: Span) -> Parse<ExprV>
    decreases c.size(), 1int, 0int,
{
    rule_struct_lit(c, name, span)
}

pub open spec fn rule_struct_lit(c: Cursor, name: Seq<char>, span: Span) -> Parse<ExprV>
    decreases c.size(), 0int, 0int,
{
    match shorter(c, adv(c)) {
        Err(d) => Err(d),
        Ok(c1) => match p_field_values(c1, Seq::empty()) {
            Err(d) => Err(d),
            Ok((fields, c2)) => match eat(c2, Token::RBrace) {
                Err(d) => Err(d),
                Ok(c3) => Ok((expr_v(ExprKindV::StructLit { name, fields }, span), c3)),
            },
        },
    }
}

/// `name: value` up to the closing brace, with optional commas behind each.
pub open spec fn p_field_values(c: Cursor, acc: Seq<(Seq<char>, ExprV)>) -> Parse<
    Seq<(Seq<char>, ExprV)>,
>
    decreases c.size(), 1int, 0int,
{
    rule_field_values(c, acc)
}

pub open spec fn rule_field_values(c: Cursor, acc: Seq<(Seq<char>, ExprV)>) -> Parse<
    Seq<(Seq<char>, ExprV)>,
>
    decreases c.size(), 0int, 0int,
{
    if c.at(Token::RBrace) {
        Ok((acc, c))
    } else {
        match p_name(c, "field name in struct literal"@) {
            Err(d) => Err(d),
            Ok((name, c1)) => match shorter(c, eat(c1, Token::Colon)) {
                Err(d) => Err(d),
                Ok(c2) => match p_expr(c2) {
                    Err(d) => Err(d),
                    Ok((value, c3)) => match shorter(c, opt_comma(c3)) {
                        Err(d) => Err(d),
                        Ok(c4) => p_field_values(c4, acc.push((name, value))),
                    },
                },
            },
        }
    }
}

/// `match value { arms }`.
pub open spec fn p_match(c: Cursor) -> Parse<ExprV>
    decreases c.size(), 1int, 0int,
{
    rule_match(c)
}

pub open spec fn rule_match(c: Cursor) -> Parse<ExprV>
    decreases c.size(), 0int, 0int,
{
    match shorter(c, adv(c)) {
        Err(d) => Err(d),
        Ok(c1) => match p_expr(c1) {
            Err(d) => Err(d),
            Ok((scrutinee, c2)) => match shorter(c, eat(c2, Token::LBrace)) {
                Err(d) => Err(d),
                Ok(c3) => match p_arms(c3, Seq::empty()) {
                    Err(d) => Err(d),
                    Ok((arms, c4)) => match eat(c4, Token::RBrace) {
                        Err(d) => Err(d),
                        Ok(c5) => Ok(
                            (
                                expr_v(
                                    ExprKindV::Match { scrutinee: Box::new(scrutinee), arms },
                                    c.span,
                                ),
                                c5,
                            ),
                        ),
                    },
                },
            },
        },
    }
}

/// The guard of a match arm, where it has one.
pub open spec fn p_guard(c: Cursor) -> Parse<Option<ExprV>>
    decreases c.size(), 1int, 0int,
{
    rule_guard(c)
}

pub open spec fn rule_guard(c: Cursor) -> Parse<Option<ExprV>>
    decreases c.size(), 0int, 0int,
{
    if c.at(Token::If) {
        match shorter(c, adv(c)) {
            Err(d) => Err(d),
            Ok(c1) => match p_expr(c1) {
                Err(d) => Err(d),
                Ok((e, c2)) => Ok((Some(e), c2)),
            },
        }
    } else {
        Ok((None, c))
    }
}

/// Match arms up to the closing brace, with optional commas behind each.
pub open spec fn p_arms(c: Cursor, acc: Seq<(Seq<PatternV>, Option<ExprV>, ExprV)>) -> Parse<
    Seq<(Seq<PatternV>, Option<ExprV>, ExprV)>,
>
    decreases c.size(), 1int, 0int,
{
    rule_arms(c, acc)
}

pub open spec fn rule_arms(c: Cursor, acc: Seq<(Seq<PatternV>, Option<ExprV>, ExprV)>) -> Parse<
    Seq<(Seq<PatternV>, Option<ExprV>, ExprV)>,
>
    decreases c.size(), 0int, 0int,
{
    if c.at(Token::RBrace) {
        Ok((acc, c))
    } else {
        match shorter_by(c, p_alternatives(c, Seq::empty())) {
            Err(d) => Err(d),
            Ok((patterns, c1)) => match p_guard(c1) {
                Err(d) => Err(d),
                Ok((guard, c2)) => match shorter(c, eat(c2, Token::FatArrow)) {
                    Err(d) => Err(d),
                    Ok(c3) => match p_expr(c3) {
                        Err(d) => Err(d),
                        Ok((body, c4)) => match shorter(c, opt_comma(c4)) {
                            Err(d) => Err(d),
                            Ok(c5) => p_arms(c5, acc.push((patterns, guard, body))),
                        },
                    },
                },
            },
        }
    }
}

/// An `if` expression; each branch is the value of its only statement.
pub open spec fn p_if_expr(c: Cursor) -> Parse<ExprV>
    decreases c.size(), 3int, 0int,
{
    rule_if_expr(c)
}

pub open spec fn rule_if_expr(c: Cursor) -> Parse<ExprV>
    decreases c.size(), 2int, 0int,
{
    match shorter(c, adv(c)) {
        Err(d) => Err(d),
        Ok(c1) => match shorter_by(c, p_expr(c1)) {
            Err(d) => Err(d),
            Ok((cond, c2)) => match shorter_by(c, p_body(c2)) {
                Err(d) => Err(d),
                Ok((stmts, c3)) => match p_else_expr(c3) {
                    Err(d) => Err(d),
                    Ok((else_body, c4)) => Ok(
                        (
                            expr_v(
                                ExprKindV::If {
                                    cond: Box::new(cond),
                                    then_body: Box::new(branch_value(stmts, c.span)),
                                    else_body,
                                },
                                c.span,
                            ),
                            c4,
                        ),
                    ),
                },
            },
        },
    }
}

/// What an `if` expression gives otherwise, where it says so.
pub open spec fn p_else_expr(c: Cursor) -> Parse<Option<Box<ExprV>>>
    decreases c.size(), 1int, 0int,
{
    rule_else_expr(c)
}

pub open spec fn rule_else_expr(c: Cursor) -> Parse<Option<Box<ExprV>>>
    decreases c.size(), 0int, 0int,
{
    if c.at(Token::Else) {
        match shorter(c, adv(c)) {
            Err(d) => Err(d),
            Ok(c1) => if c1.at(Token::If) {
                match p_if_expr(c1) {
                    Err(d) => Err(d),
                    Ok((e, c2)) => Ok((Some(Box::new(e)), c2)),
                }
            } else {
                match p_body(c1) {
                    Err(d) => Err(d),
                    Ok((stmts, c2)) => Ok((Some(Box::new(branch_value(stmts, c1.span))), c2)),
                }
            },
        }
    } else {
        Ok((None, c))
    }
}

/// `while cond { body }`: the condition and the body.
pub open spec fn p_while(c: Cursor) -> Parse<(ExprV, Seq<StmtV>)>
    decreases c.size(), 1int, 0int,
{
    rule_while(c)
}

pub open spec fn rule_while(c: Cursor) -> Parse<(ExprV, Seq<StmtV>)>
    decreases c.size(), 0int, 0int,
{
    match shorter(c, adv(c)) {
        Err(d) => Err(d),
        Ok(c1) => match shorter_by(c, p_expr(c1)) {
            Err(d) => Err(d),
            Ok((cond, c2)) => match p_body(c2) {
                Err(d) => Err(d),
                Ok((body, c3)) => Ok(((cond, body), c3)),
            },
        },
    }
}

/// `for name in iter { body }`: the name, what is walked, and the body.
pub open spec fn p_for(c: Cursor) -> Parse<(Seq<char>, ExprV, Seq<StmtV>)>
    decreases c.size(), 1int, 0int,
{
    rule_for(c)
}

pub open spec fn rule_for(c: Cursor) -> Parse<(Seq<char>, ExprV, Seq<StmtV>)>
    decreases c.size(), 0int, 0int,
{
    match adv(c) {
        Err(d) => Err(d),
        Ok(c1) => match p_name(c1, "variable name after for"@) {
            Err(d) => Err(d),
            Ok((var, c2)) => match shorter(c, eat(c2, Token::In)) {
                Err(d) => Err(d),
                Ok(c3) => match shorter_by(c, p_expr(c3)) {
                    Err(d) => Err(d),
                    Ok((iter, c4)) => match p_body(c4) {
                        Err(d) => Err(d),
                        Ok((body, c5)) => Ok(((var, iter, body), c5)),
                    },
                },
            },
        },
    }
}

pub open spec fn p_while_expr(c: Cursor) -> Parse<ExprV>
    decreases c.size(), 3int, 0int,
{
    rule_while_expr(c)
}

pub open spec fn rule_while_expr(c: Cursor) -> Parse<ExprV>
    decreases c.size(), 2int, 0int,
{
    match p_while(c) {
        Err(d) => Err(d),
        Ok(((cond, body), c1)) => Ok(
            (expr_v(ExprKindV::While { cond: Box::new(cond), body }, c.span), c1),
        ),
    }
}

pub open spec fn p_for_expr(c: Cursor) -> Parse<ExprV>
    decreases c.size(), 3int, 0int,
{
    rule_for_expr(c)
}

pub open spec fn rule_for_expr(c: Cursor) -> Parse<ExprV>
    decreases c.size(), 2int, 0int,
{
    match p_for(c) {
        Err(d) => Err(d),
        Ok(((var, iter, body), c1)) => Ok(
            (expr_v(ExprKindV::For { var, iter: Box::new(iter), body }, c.span), c1),
        ),
    }
}

// ---- statements ----

/// Statements between braces.
pub open spec fn p_body(c: Cursor) -> Parse<Seq<StmtV>>
    decreases c.size(), 1int, 0int,
{
    rule_body(c)
}

pub open spec fn rule_body(c: Cursor) -> Parse<Seq<StmtV>>
    decreases c.size(), 0int, 0int,
{
    match shorter(c, eat(c, Token::LBrace)) {
        Err(d) => Err(d),
        Ok(c1) => match p_stmts_until(c1, Token::RBrace, Seq::empty()) {
            Err(d) => Err(d),
            Ok((stmts, c2)) => match eat(c2, Token::RBrace) {
                Err(d) => Err(d),
                Ok(c3) => Ok((stmts, c3)),
            },
        },
    }
}

/// Statements up to `close`.
pub open spec fn p_stmts_until(c: Cursor, close: Token, acc: Seq<StmtV>) -> Parse<Seq<StmtV>>
    decreases c.size(), 41int, 0int,
{
    rule_stmts_until(c, close, acc)
}

pub open spec fn rule_stmts_until(c: Cursor, close: Token, acc: Seq<StmtV>) -> Parse<Seq<StmtV>>
    decreases c.size(), 40int, 0int,
{
    if c.at(close) {
        Ok((acc, c))
    } else {
        match shorter_by(c, p_stmt(c)) {
            Err(d) => Err(d),
            Ok((s, c1)) => p_stmts_until(c1, close, acc.push(s)),
        }
    }
}

/// A statement, reported at its first token.
pub open spec fn p_stmt(c: Cursor) -> Parse<StmtV>
    decreases c.size(), 33int, 0int,
{
    rule_stmt(c)
}

pub open spec fn rule_stmt(c: Cursor) -> Parse<StmtV>
    decreases c.size(), 32int, 0int,
{
    match p_stmt_kind(c) {
        Err(d) => Err(d),
        Ok((kind, c1)) => Ok((StmtV { kind, span: c.span }, c1)),
    }
}

pub open spec fn p_stmt_kind(c: Cursor) -> Parse<StmtKindV>
    decreases c.size(), 31int, 0int,
{
    rule_stmt_kind(c)
}

pub open spec fn rule_stmt_kind(c: Cursor) -> Parse<StmtKindV>
    decreases c.size(), 30int, 0int,
{
    match c.cur {
        TokenV::Fixed(Token::Let) => p_let(c),
        TokenV::Fixed(Token::Fn) => p_fn(c),
        TokenV::Fixed(Token::Struct) => p_struct(c),
        TokenV::Fixed(Token::Enum) => p_enum(c),
        TokenV::Fixed(Token::Trait) => p_trait(c),
        TokenV::Fixed(Token::Impl) => p_impl(c),
        TokenV::Fixed(Token::Extern) => p_foreign(c),
        TokenV::Fixed(Token::Macro) => p_macro(c),
        TokenV::Fixed(Token::Import) => p_import(c),
        TokenV::Fixed(Token::If) => p_if(c),
        TokenV::Fixed(Token::While) => match p_while(c) {
            Err(d) => Err(d),
            Ok(((cond, body), c1)) => Ok((StmtKindV::While { cond, body }, c1)),
        },
        TokenV::Fixed(Token::For) => match p_for(c) {
            Err(d) => Err(d),
            Ok(((var, iter, body), c1)) => Ok((StmtKindV::For { var, iter, body }, c1)),
        },
        TokenV::Fixed(Token::Break) => match p_jump(c) {
            Err(d) => Err(d),
            Ok((e, c1)) => Ok((StmtKindV::Break(e), c1)),
        },
        TokenV::Fixed(Token::Continue) => match p_jump(c) {
            Err(d) => Err(d),
            Ok((e, c1)) => Ok((StmtKindV::Continue(e), c1)),
        },
        TokenV::Fixed(Token::Return) => match p_jump(c) {
            Err(d) => Err(d),
            Ok((e, c1)) => Ok((StmtKindV::Return(e), c1)),
        },
        _ => p_expr_stmt(c),
    }
}

/// An assignment or an expression. An expression without a semicolon is the
/// value of its block, and has to be the last thing in it.
pub open spec fn p_expr_stmt(c: Cursor) -> Parse<StmtKindV>
    decreases c.size(), 29int, 0int,
{
    rule_expr_stmt(c)
}

pub open spec fn rule_expr_stmt(c: Cursor) -> Parse<StmtKindV>
    decreases c.size(), 28int, 0int,
{
    match shorter_by(c, p_expr(c)) {
        Err(d) => Err(d),
        Ok((e, c1)) => if c1.at(Token::Assign) {
            p_assign(c1, e)
        } else if c1.at(Token::RBrace) || c1.at(Token::Eof) {
            Ok((StmtKindV::Return(Some(e)), c1))
        } else {
            match eat(c1, Token::Semicolon) {
                Err(d) => Err(d),
                Ok(c2) => Ok((StmtKindV::Expr(e), c2)),
            }
        },
    }
}

/// The `= value;` behind the left side of an assignment.
pub open spec fn p_assign(c: Cursor, left: ExprV) -> Parse<StmtKindV>
    decreases c.size(), 1int, 0int,
{
    rule_assign(c, left)
}

pub open spec fn rule_assign(c: Cursor, left: ExprV) -> Parse<StmtKindV>
    decreases c.size(), 0int, 0int,
{
    match shorter(c, adv(c)) {
        Err(d) => Err(d),
        Ok(c1) => match p_expr(c1) {
            Err(d) => Err(d),
            Ok((value, c2)) => match eat(c2, Token::Semicolon) {
                Err(d) => Err(d),
                Ok(c3) => match name_of(left) {
                    Some(name) => Ok((StmtKindV::Assign { name, value }, c3)),
                    None => fail("expected identifier on left side of assignment"@, c3.span),
                },
            },
        },
    }
}

/// `let name: type = value;`
pub open spec fn p_let(c: Cursor) -> Parse<StmtKindV>
    decreases c.size(), 1int, 0int,
{
    rule_let(c)
}

pub open spec fn rule_let(c: Cursor) -> Parse<StmtKindV>
    decreases c.size(), 0int, 0int,
{
    match adv(c) {
        Err(d) => Err(d),
        Ok(c1) => match p_name(c1, "identifier after let"@) {
            Err(d) => Err(d),
            Ok((name, c2)) => match p_type_after(c2, Token::Colon, TypeV::Inferred) {
                Err(d) => Err(d),
                Ok((ty, c3)) => match shorter(c, eat(c3, Token::Assign)) {
                    Err(d) => Err(d),
                    Ok(c4) => match p_expr(c4) {
                        Err(d) => Err(d),
                        Ok((value, c5)) => match eat(c5, Token::Semicolon) {
                            Err(d) => Err(d),
                            Ok(c6) => Ok((StmtKindV::Let { name, ty, value }, c6)),
                        },
                    },
                },
            },
        },
    }
}

/// `fn name<..>(params) -> type { body }`. The first token is read unseen.
pub open spec fn p_fn(c: Cursor) -> Parse<StmtKindV>
    decreases c.size(), 1int, 0int,
{
    rule_fn(c)
}

pub open spec fn rule_fn(c: Cursor) -> Parse<StmtKindV>
    decreases c.size(), 0int, 0int,
{
    match adv(c) {
        Err(d) => Err(d),
        Ok(c1) => match p_name(c1, "fn name"@) {
            Err(d) => Err(d),
            Ok((name, c2)) => match p_generics(c2) {
                Err(d) => Err(d),
                Ok((generics, c3)) => match shorter_by(c, p_signature(c3, true)) {
                    Err(d) => Err(d),
                    Ok(((params, ret), c4)) => match p_body(c4) {
                        Err(d) => Err(d),
                        Ok((body, c5)) => Ok(
                            (StmtKindV::Fn { name, generics, params, ret, body }, c5),
                        ),
                    },
                },
            },
        },
    }
}

/// `impl Type { fns }` or `impl Trait for Type { fns }`.
pub open spec fn p_impl(c: Cursor) -> Parse<StmtKindV>
    decreases c.size(), 1int, 0int,
{
    rule_impl(c)
}

pub open spec fn rule_impl(c: Cursor) -> Parse<StmtKindV>
    decreases c.size(), 0int, 0int,
{
    match adv(c) {
        Err(d) => Err(d),
        Ok(c1) => match p_name(c1, "name after impl"@) {
            Err(d) => Err(d),
            Ok((first, c2)) => match p_impl_for(c2, first) {
                Err(d) => Err(d),
                Ok(((trait_name, for_type), c3)) => match shorter(c, eat(c3, Token::LBrace)) {
                    Err(d) => Err(d),
                    Ok(c4) => match p_methods(c4, Seq::empty()) {
                        Err(d) => Err(d),
                        Ok((methods, c5)) => match eat(c5, Token::RBrace) {
                            Err(d) => Err(d),
                            Ok(c6) => Ok(
                                (StmtKindV::Impl { trait_name, for_type, methods }, c6),
                            ),
                        },
                    },
                },
            },
        },
    }
}

/// The trait and the type of an `impl` whose first name has been read.
pub open spec fn p_impl_for(c: Cursor, first: Seq<char>) -> Parse<(Seq<char>, Seq<char>)> {
    if c.at(Token::For) {
        match adv(c) {
            Err(d) => Err(d),
            Ok(c1) => match p_name(c1, "type name after for"@) {
                Err(d) => Err(d),
                Ok((for_type, c2)) => Ok(((first, for_type), c2)),
            },
        }
    } else {
        Ok(((Seq::empty(), first), c))
    }
}

/// Functions up to the closing brace of an `impl`.
pub open spec fn p_methods(c: Cursor, acc: Seq<StmtV>) -> Parse<Seq<StmtV>>
    decreases c.size(), 3int, 0int,
{
    rule_methods(c, acc)
}

pub open spec fn rule_methods(c: Cursor, acc: Seq<StmtV>) -> Parse<Seq<StmtV>>
    decreases c.size(), 2int, 0int,
{
    if c.at(Token::RBrace) {
        Ok((acc, c))
    } else {
        match shorter_by(c, p_fn(c)) {
            Err(d) => Err(d),
            Ok((kind, c1)) => p_methods(c1, acc.push(StmtV { kind, span: c.span })),
        }
    }
}

/// `macro name(params) { body }`.
pub open spec fn p_macro(c: Cursor) -> Parse<StmtKindV>
    decreases c.size(), 1int, 0int,
{
    rule_macro(c)
}

pub open spec fn rule_macro(c: Cursor) -> Parse<StmtKindV>
    decreases c.size(), 0int, 0int,
{
    match adv(c) {
        Err(d) => Err(d),
        Ok(c1) => match p_name(c1, "macro name"@) {
            Err(d) => Err(d),
            Ok((name, c2)) => match eat(c2, Token::LParen) {
                Err(d) => Err(d),
                Ok(c3) => match p_names_until(c3, Token::RParen, "macro param"@, Seq::empty()) {
                    Err(d) => Err(d),
                    Ok((params, c4)) => match shorter(c, eat(c4, Token::RParen)) {
                        Err(d) => Err(d),
                        Ok(c5) => match p_body(c5) {
                            Err(d) => Err(d),
                            Ok((body, c6)) => Ok((StmtKindV::Macro { name, params, body }, c6)),
                        },
                    },
                },
            },
        },
    }
}

/// `if cond { body } else ..`. An `else if` is an `else` that holds an `if`.
pub open spec fn p_if(c: Cursor) -> Parse<StmtKindV>
    decreases c.size(), 1int, 0int,
{
    rule_if(c)
}

pub open spec fn rule_if(c: Cursor) -> Parse<StmtKindV>
    decreases c.size(), 0int, 0int,
{
    match shorter(c, adv(c)) {
        Err(d) => Err(d),
        Ok(c1) => match shorter_by(c, p_expr(c1)) {
            Err(d) => Err(d),
            Ok((cond, c2)) => match shorter_by(c, p_body(c2)) {
                Err(d) => Err(d),
                Ok((then_body, c3)) => match p_else(c3) {
                    Err(d) => Err(d),
                    Ok((else_body, c4)) => Ok(
                        (StmtKindV::If { cond, then_body, else_body }, c4),
                    ),
                },
            },
        },
    }
}

/// The `else` of an `if` statement, where it has one.
pub open spec fn p_else(c: Cursor) -> Parse<Option<Seq<StmtV>>>
    decreases c.size(), 1int, 0int,
{
    rule_else(c)
}

pub open spec fn rule_else(c: Cursor) -> Parse<Option<Seq<StmtV>>>
    decreases c.size(), 0int, 0int,
{
    if c.at(Token::Else) {
        match shorter(c, adv(c)) {
            Err(d) => Err(d),
            Ok(c1) => if c1.at(Token::If) {
                match p_stmt(c1) {
                    Err(d) => Err(d),
                    Ok((s, c2)) => Ok((Some(seq![s]), c2)),
                }
            } else {
                match p_body(c1) {
                    Err(d) => Err(d),
                    Ok((stmts, c2)) => Ok((Some(stmts), c2)),
                }
            },
        }
    } else {
        Ok((None, c))
    }
}

/// The optional value of a `break`, `continue` or `return`, and its semicolon.
pub open spec fn p_jump(c: Cursor) -> Parse<Option<ExprV>>
    decreases c.size(), 1int, 0int,
{
    rule_jump(c)
}

pub open spec fn rule_jump(c: Cursor) -> Parse<Option<ExprV>>
    decreases c.size(), 0int, 0int,
{
    match shorter(c, adv(c)) {
        Err(d) => Err(d),
        Ok(c1) => if c1.at(Token::Semicolon) {
            match adv(c1) {
                Err(d) => Err(d),
                Ok(c2) => Ok((None, c2)),
            }
        } else {
            match p_expr(c1) {
                Err(d) => Err(d),
                Ok((e, c2)) => match eat(c2, Token::Semicolon) {
                    Err(d) => Err(d),
                    Ok(c3) => Ok((Some(e), c3)),
                },
            }
        },
    }
}

/// The program that a source text is, or what is wrong with it.
pub open spec fn parsed(src: Seq<char>) -> Result<Seq<StmtV>, DiagnosticV> {
    match start(Scan::of(src)) {
        Err(d) => Err(d),
        Ok(c) => match p_stmts_until(c, Token::Eof, Seq::empty()) {
            Err(d) => Err(d),
            Ok((stmts, _)) => Ok(stmts),
        },
    }
}

// ---- laws ----

/// An operand of binary operators, which takes some text.
pub open spec fn operand(c: Cursor) -> Parse<ExprV> {
    shorter_by(c, p_unary(c))
}

/// The operator at a cursor, and what stands behind it.
pub open spec fn operator(c: Cursor) -> Option<(int, BinOp, Cursor)> {
    match (binop(c.cur), shorter(c, adv(c))) {
        (Some((prec, op)), Ok(next)) => Some((prec, op, next)),
        _ => None,
    }
}

pub open spec fn binary(left: ExprV, op: BinOp, right: ExprV) -> ExprV {
    expr_v(ExprKindV::Binary(Box::new(left), op, Box::new(right)), left.span)
}

/// Of two binary operators the one that binds tighter takes the operand between
/// them, and the first one where they bind alike.
pub proof fn law_operators_bind(c: Cursor, c1: Cursor, c2: Cursor, c3: Cursor, a: ExprV, b: ExprV, d: ExprV)
    requires
        operand(c) == Ok::<(ExprV, Cursor), DiagnosticV>((a, c1)),
        operator(c1) is Some,
        operand((operator(c1)->Some_0).2) == Ok::<(ExprV, Cursor), DiagnosticV>((b, c2)),
        operator(c2) is Some,
        operand((operator(c2)->Some_0).2) == Ok::<(ExprV, Cursor), DiagnosticV>((d, c3)),
        binop(c3.cur) is None,
    ensures
        ({
            let (prec1, op1, _) = operator(c1)->Some_0;
            let (prec2, op2, _) = operator(c2)->Some_0;
            p_binop(c, 0) == Ok::<(ExprV, Cursor), DiagnosticV>(
                (
                    if prec1 >= prec2 {
                        binary(binary(a, op1, b), op2, d)
                    } else {
                        binary(a, op1, binary(b, op2, d))
                    },
                    c3,
                ),
            )
        }),
{
    let (prec1, op1, n1) = operator(c1)->Some_0;
    let (prec2, op2, n2) = operator(c2)->Some_0;
    lemma_no_operator(d, c3, prec2 + 1);
    assert(p_binop(n2, prec2 + 1) == rule_binop(n2, prec2 + 1));
    assert(p_binop(n2, prec2 + 1) == Ok::<(ExprV, Cursor), DiagnosticV>((d, c3)));
    assert(p_binop(n1, prec1 + 1) == rule_binop(n1, prec1 + 1));
    assert(p_binop_rest(b, c2, prec1 + 1) == rule_binop_rest(b, c2, prec1 + 1));
    assert(p_binop(c, 0) == rule_binop(c, 0));
    assert(p_binop_rest(a, c1, 0) == rule_binop_rest(a, c1, 0));
    if prec1 >= prec2 {
        let left = binary(a, op1, b);
        assert(p_binop(n1, prec1 + 1) == Ok::<(ExprV, Cursor), DiagnosticV>((b, c2)));
        assert(p_binop_rest(left, c2, 0) == rule_binop_rest(left, c2, 0));
        lemma_no_operator(binary(left, op2, d), c3, 0);
    } else {
        let right = binary(b, op2, d);
        lemma_no_operator(right, c3, prec1 + 1);
        assert(p_binop_rest(b, c2, prec1 + 1) == Ok::<(ExprV, Cursor), DiagnosticV>((right, c3)));
        assert(p_binop(n1, prec1 + 1) == Ok::<(ExprV, Cursor), DiagnosticV>((right, c3)));
        lemma_no_operator(binary(a, op1, right), c3, 0);
    }
}

proof fn lemma_no_operator(left: ExprV, c: Cursor, min: int)
    requires
        binop(c.cur) is None,
    ensures
        p_binop_rest(left, c, min) == Ok::<(ExprV, Cursor), DiagnosticV>((left, c)),
{
    assert(p_binop_rest(left, c, min) == rule_binop_rest(left, c, min));
}

/// Operands with a binary operator between each two: where each operand starts, what it
/// is, and where it ends.
pub struct Chain {
    pub starts: Seq<Cursor>,
    pub operands: Seq<ExprV>,
    pub ends: Seq<Cursor>,
}

impl Chain {
    /// The operands and operators follow each other, and no operator follows the last.
    pub open spec fn reads(self) -> bool {
        &&& self.operands.len() > 0
        &&& self.starts.len() == self.operands.len()
        &&& self.ends.len() == self.operands.len()
        &&& forall|i: int|
            0 <= i < self.operands.len() ==> #[trigger] operand(self.starts[i]) == Ok::<
                (ExprV, Cursor),
                DiagnosticV,
            >((self.operands[i], self.ends[i]))
        &&& forall|i: int|
            0 <= i < self.operands.len() - 1 ==> (#[trigger] operator(self.ends[i])) is Some
                && operator(self.ends[i])->Some_0.2 == self.starts[i + 1]
        &&& binop(self.ends.last().cur) is None
    }

    /// How tight the `i`th operator binds.
    pub open spec fn prec(self, i: int) -> int {
        operator(self.ends[i])->Some_0.0
    }

    /// The last of the operators that bind least, from the `lo`th up to before the
    /// `hi`th.
    pub open spec fn weakest(self, lo: int, hi: int) -> int
        decreases hi - lo,
    {
        if hi <= lo + 1 {
            lo
        } else {
            let w = self.weakest(lo, hi - 1);
            if self.prec(hi - 1) <= self.prec(w) {
                hi - 1
            } else {
                w
            }
        }
    }

    /// What the operands from the `lo`th to the `hi`th are together: the operator that
    /// binds least, the last one of those that bind alike, is applied last.
    pub open spec fn tree(self, lo: int, hi: int) -> ExprV
        decreases hi - lo,
    {
        let k = self.weakest(lo, hi);
        if lo <= k < hi {
            binary(self.tree(lo, k), operator(self.ends[k])->Some_0.1, self.tree(k + 1, hi))
        } else {
            self.operands[lo]
        }
    }

    /// The first operand from the `i`th on that no operator follows which binds at
    /// least so tight.
    spec fn stop(self, i: int, min: int) -> int
        decreases self.operands.len() - i,
    {
        if i < 0 || i >= self.operands.len() - 1 || self.prec(i) < min {
            i
        } else {
            self.stop(i + 1, min)
        }
    }
}

proof fn lemma_weakest(ch: Chain, lo: int, i: int, hi: int)
    requires
        lo <= i < hi,
        forall|t: int| lo <= t < i ==> #[trigger] ch.prec(t) >= ch.prec(i),
        forall|t: int| i < t < hi ==> #[trigger] ch.prec(t) > ch.prec(i),
    ensures
        ch.weakest(lo, hi) == i,
    decreases hi - lo,
{
    if hi > lo + 1 {
        if i < hi - 1 {
            lemma_weakest(ch, lo, i, hi - 1);
            assert(ch.prec(hi - 1) > ch.prec(i));
        } else {
            lemma_weakest_within(ch, lo, hi - 1);
        }
    }
}

proof fn lemma_weakest_within(ch: Chain, lo: int, hi: int)
    requires
        lo < hi,
    ensures
        lo <= ch.weakest(lo, hi) < hi,
    decreases hi - lo,
{
    if hi > lo + 1 {
        lemma_weakest_within(ch, lo, hi - 1);
    }
}

proof fn lemma_stop(ch: Chain, i: int, min: int)
    requires
        0 <= i < ch.operands.len(),
    ensures
        i <= ch.stop(i, min) < ch.operands.len(),
        forall|t: int| i <= t < ch.stop(i, min) ==> #[trigger] ch.prec(t) >= min,
        ch.stop(i, min) < ch.operands.len() - 1 ==> ch.prec(ch.stop(i, min)) < min,
    decreases ch.operands.len() - i,
{
    if i < ch.operands.len() - 1 && ch.prec(i) >= min {
        lemma_stop(ch, i + 1, min);
    }
}

/// Stopping early, and going on from there, stops at the same place.
proof fn lemma_stop_again(ch: Chain, i: int, j: int, min: int)
    requires
        0 <= i <= j < ch.operands.len(),
        forall|t: int| i <= t < j ==> #[trigger] ch.prec(t) >= min,
    ensures
        ch.stop(i, min) == ch.stop(j, min),
    decreases j - i,
{
    if i < j {
        assert(ch.prec(i) >= min);
        lemma_stop_again(ch, i + 1, j, min);
    }
}

/// The text gets shorter from operand to operand.
proof fn lemma_chain_shrinks(ch: Chain, i: int, j: int)
    requires
        ch.reads(),
        0 <= i < j < ch.operands.len(),
    ensures
        ch.ends[j].size() < ch.ends[i].size(),
    decreases j - i,
{
    assert(operator(ch.ends[j - 1]) is Some);
    assert(operand(ch.starts[j]) is Ok);
    if i < j - 1 {
        lemma_chain_shrinks(ch, i, j - 1);
    }
}

proof fn lemma_chain(ch: Chain, k: int, min: int)
    requires
        ch.reads(),
        0 <= k < ch.operands.len(),
    ensures
        p_binop(ch.starts[k], min) == Ok::<(ExprV, Cursor), DiagnosticV>(
            (ch.tree(k, ch.stop(k, min)), ch.ends[ch.stop(k, min)]),
        ),
    decreases ch.operands.len() - k, 1int,
{
    assert(p_binop(ch.starts[k], min) == rule_binop(ch.starts[k], min));
    assert(operand(ch.starts[k]) == Ok::<(ExprV, Cursor), DiagnosticV>(
        (ch.operands[k], ch.ends[k]),
    ));
    assert(ch.tree(k, k) == ch.operands[k]);
    lemma_chain_rest(ch, k, k, min);
}

proof fn lemma_chain_rest(ch: Chain, lo: int, i: int, min: int)
    requires
        ch.reads(),
        0 <= lo <= i < ch.operands.len(),
        i < ch.operands.len() - 1 ==> forall|t: int|
            lo <= t < i ==> #[trigger] ch.prec(t) >= ch.prec(i),
    ensures
        p_binop_rest(ch.tree(lo, i), ch.ends[i], min) == Ok::<(ExprV, Cursor), DiagnosticV>(
            (ch.tree(lo, ch.stop(i, min)), ch.ends[ch.stop(i, min)]),
        ),
    decreases ch.operands.len() - i, 0int,
{
    let left = ch.tree(lo, i);
    let c = ch.ends[i];
    assert(p_binop_rest(left, c, min) == rule_binop_rest(left, c, min));
    if i == ch.operands.len() - 1 {
        lemma_no_operator(left, c, min);
    } else {
        let (prec, op, next) = operator(c)->Some_0;
        assert(next == ch.starts[i + 1]);
        assert(prec == ch.prec(i));
        if prec >= min {
            lemma_chain(ch, i + 1, prec + 1);
            lemma_stop(ch, i + 1, prec + 1);
            let j = ch.stop(i + 1, prec + 1);
            lemma_chain_shrinks(ch, i, j);
            lemma_weakest(ch, lo, i, j);
            assert(ch.tree(lo, j) == binary(left, op, ch.tree(i + 1, j)));
            lemma_chain_rest(ch, lo, j, min);
            assert forall|t: int| i <= t < j implies #[trigger] ch.prec(t) >= min by {}
            lemma_stop_again(ch, i, j, min);
        }
    }
}

/// Binary operators of any number: of the operators of a chain the one that binds least
/// is applied last, and the last one of those that bind alike, so that operators that
/// bind alike group to the left.
pub proof fn law_operator_chains(ch: Chain)
    requires
        ch.reads(),
    ensures
        p_binop(ch.starts[0], 0) == Ok::<(ExprV, Cursor), DiagnosticV>(
            (ch.tree(0, ch.operands.len() - 1), ch.ends.last()),
        ),
{
    lemma_chain(ch, 0, 0);
    lemma_stop(ch, 0, 0);
    let j = ch.stop(0, 0);
    if j < ch.operands.len() - 1 {
        assert(operator(ch.ends[j]) is Some);
        assert(ch.prec(j) >= 0);
    }
}

} // verus!
