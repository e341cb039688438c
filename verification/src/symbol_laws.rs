//! Keywords and symbols read back as they are written.

use crate::diagnostic::{DiagnosticV, Span};
use crate::grammar::symbol_text;
use crate::lexer::{
    keyword, lemma_advance, lex, one_char_symbol, skip_ignored, token_at, two_char_symbol, word_end,
    word_part, Lexed, Scan, Token, TokenV,
};
use crate::text::ascii_letter;
use vstd::prelude::*;

verus! {

/// A keyword or a symbol.
pub open spec fn is_fixed(t: Token) -> bool {
    match t {
        Token::Int(_) => false,
        Token::Float(_) => false,
        Token::Str(_) => false,
        Token::InterpStr(_) => false,
        Token::Ident(_) => false,
        Token::Bool(_) => false,
        Token::Eof => false,
        _ => true,
    }
}

/// A text holds one token, and nothing behind it.
pub open spec fn holds_only(text: Seq<char>, t: Token) -> bool {
    let end = Scan::of(text).advance(text.len() as int);
    &&& lex(Scan::of(text)) == Ok::<Lexed, DiagnosticV>(
        Lexed { token: TokenV::Fixed(t), span: Span { line: 1, col: 1 }, next: end },
    )
    &&& lex(end) == Ok::<Lexed, DiagnosticV>(
        Lexed { token: TokenV::Fixed(Token::Eof), span: end.here(), next: end },
    )
}

proof fn lemma_holds(text: Seq<char>, t: Token)
    requires
        text.len() > 0,
        skip_ignored(Scan::of(text), false) == Scan::of(text),
        token_at(Scan::of(text)) == (Ok::<TokenV, Seq<char>>(TokenV::Fixed(t)), text.len() as int),
    ensures
        holds_only(text, t),
{
    reveal(lex);
    let end = Scan::of(text).advance(text.len() as int);
    lemma_advance(Scan::of(text), text.len() as int);
    assert(end.rest.len() == 0);
    assert(skip_ignored(end, false) == end);
    assert(end.advance(0) == end);
}

proof fn lemma_whole_word(w: Seq<char>, i: int)
    requires
        0 <= i <= w.len(),
        forall|j: int| 0 <= j < w.len() ==> ascii_letter(#[trigger] w[j]),
    ensures
        word_end(w, i) == w.len(),
    decreases w.len() - i,
{
    if i < w.len() {
        assert(ascii_letter(w[i]));
        assert(word_part(w[i]));
        lemma_whole_word(w, i + 1);
    }
}

proof fn lemma_keyword(w: Seq<char>, t: Token)
    requires
        w.len() > 0,
        forall|j: int| 0 <= j < w.len() ==> ascii_letter(#[trigger] w[j]),
        keyword(w) == Some(TokenV::Fixed(t)),
    ensures
        holds_only(w, t),
{
    assert(ascii_letter(w[0]));
    lemma_whole_word(w, 1);
    assert(w.subrange(0, w.len() as int) =~= w);
    lemma_holds(w, t);
}

proof fn lemma_one_char(w: Seq<char>, t: Token)
    requires
        w.len() == 1,
        one_char_symbol(w[0]) == Some(t),
    ensures
        holds_only(w, t),
{
    lemma_holds(w, t);
}

proof fn lemma_two_chars(w: Seq<char>, t: Token)
    requires
        w.len() == 2,
        two_char_symbol(w[0], w[1]) == Some(t),
    ensures
        holds_only(w, t),
{
    lemma_holds(w, t);
}

/// The spelling of a keyword is reserved for it.
proof fn lemma_reserved()
    ensures
        keyword("let"@) == Some(TokenV::Fixed(Token::Let)),
        keyword("fn"@) == Some(TokenV::Fixed(Token::Fn)),
        keyword("return"@) == Some(TokenV::Fixed(Token::Return)),
        keyword("struct"@) == Some(TokenV::Fixed(Token::Struct)),
        keyword("enum"@) == Some(TokenV::Fixed(Token::Enum)),
        keyword("match"@) == Some(TokenV::Fixed(Token::Match)),
        keyword("trait"@) == Some(TokenV::Fixed(Token::Trait)),
        keyword("impl"@) == Some(TokenV::Fixed(Token::Impl)),
        keyword("for"@) == Some(TokenV::Fixed(Token::For)),
        keyword("extern"@) == Some(TokenV::Fixed(Token::Extern)),
        keyword("macro"@) == Some(TokenV::Fixed(Token::Macro)),
        keyword("if"@) == Some(TokenV::Fixed(Token::If)),
        keyword("else"@) == Some(TokenV::Fixed(Token::Else)),
        keyword("while"@) == Some(TokenV::Fixed(Token::While)),
        keyword("break"@) == Some(TokenV::Fixed(Token::Break)),
        keyword("continue"@) == Some(TokenV::Fixed(Token::Continue)),
        keyword("in"@) == Some(TokenV::Fixed(Token::In)),
        keyword("import"@) == Some(TokenV::Fixed(Token::Import)),
{
    reveal_strlit("let");
    reveal_strlit("fn");
    reveal_strlit("return");
    reveal_strlit("struct");
    reveal_strlit("enum");
    reveal_strlit("match");
    reveal_strlit("trait");
    reveal_strlit("impl");
    reveal_strlit("for");
    reveal_strlit("extern");
    reveal_strlit("macro");
    reveal_strlit("if");
    reveal_strlit("else");
    reveal_strlit("while");
    reveal_strlit("break");
    reveal_strlit("continue");
    reveal_strlit("in");
    reveal_strlit("import");
    reveal_strlit("true");
    reveal_strlit("false");
    assert("let"@.len() == 3 && "let"@[0] == 'l' && "let"@[1] == 'e' && "let"@[2] == 't');
    assert("fn"@.len() == 2 && "fn"@[0] == 'f' && "fn"@[1] == 'n');
    assert("return"@.len() == 6 && "return"@[0] == 'r' && "return"@[1] == 'e' && "return"@[2] == 't');
    assert("struct"@.len() == 6 && "struct"@[0] == 's' && "struct"@[1] == 't' && "struct"@[2] == 'r');
    assert("enum"@.len() == 4 && "enum"@[0] == 'e' && "enum"@[1] == 'n' && "enum"@[2] == 'u');
    assert("match"@.len() == 5 && "match"@[0] == 'm' && "match"@[1] == 'a' && "match"@[2] == 't');
    assert("trait"@.len() == 5 && "trait"@[0] == 't' && "trait"@[1] == 'r' && "trait"@[2] == 'a');
    assert("impl"@.len() == 4 && "impl"@[0] == 'i' && "impl"@[1] == 'm' && "impl"@[2] == 'p');
    assert("for"@.len() == 3 && "for"@[0] == 'f' && "for"@[1] == 'o' && "for"@[2] == 'r');
    assert("extern"@.len() == 6 && "extern"@[0] == 'e' && "extern"@[1] == 'x' && "extern"@[2] == 't');
    assert("macro"@.len() == 5 && "macro"@[0] == 'm' && "macro"@[1] == 'a' && "macro"@[2] == 'c');
    assert("if"@.len() == 2 && "if"@[0] == 'i' && "if"@[1] == 'f');
    assert("else"@.len() == 4 && "else"@[0] == 'e' && "else"@[1] == 'l' && "else"@[2] == 's');
    assert("while"@.len() == 5 && "while"@[0] == 'w' && "while"@[1] == 'h' && "while"@[2] == 'i');
    assert("break"@.len() == 5 && "break"@[0] == 'b' && "break"@[1] == 'r' && "break"@[2] == 'e');
    assert("continue"@.len() == 8 && "continue"@[0] == 'c' && "continue"@[1] == 'o' && "continue"@[2] == 'n');
    assert("in"@.len() == 2 && "in"@[0] == 'i' && "in"@[1] == 'n');
    assert("import"@.len() == 6 && "import"@[0] == 'i' && "import"@[1] == 'm' && "import"@[2] == 'p');
    assert("true"@.len() == 4 && "true"@[0] == 't' && "true"@[1] == 'r' && "true"@[2] == 'u');
    assert("false"@.len() == 5 && "false"@[0] == 'f' && "false"@[1] == 'a' && "false"@[2] == 'l');
}

/// Every keyword and symbol reads back from its spelling as itself, with nothing
/// behind it.
pub proof fn law_symbols_read_back(t: Token)
    requires
        is_fixed(t),
    ensures
        holds_only(symbol_text(t), t),
{
    reveal(symbol_text);
    lemma_reserved();
    match t {
        Token::Let => {
            reveal_strlit("let");
            lemma_keyword("let"@, t);
        },
        Token::Fn => {
            reveal_strlit("fn");
            lemma_keyword("fn"@, t);
        },
        Token::Return => {
            reveal_strlit("return");
            lemma_keyword("return"@, t);
        },
        Token::Struct => {
            reveal_strlit("struct");
            lemma_keyword("struct"@, t);
        },
        Token::Enum => {
            reveal_strlit("enum");
            lemma_keyword("enum"@, t);
        },
        Token::Match => {
            reveal_strlit("match");
            lemma_keyword("match"@, t);
        },
        Token::Trait => {
            reveal_strlit("trait");
            lemma_keyword("trait"@, t);
        },
        Token::Impl => {
            reveal_strlit("impl");
            lemma_keyword("impl"@, t);
        },
        Token::For => {
            reveal_strlit("for");
            lemma_keyword("for"@, t);
        },
        Token::Extern => {
            reveal_strlit("extern");
            lemma_keyword("extern"@, t);
        },
        Token::Macro => {
            reveal_strlit("macro");
            lemma_keyword("macro"@, t);
        },
        Token::If => {
            reveal_strlit("if");
            lemma_keyword("if"@, t);
        },
        Token::Else => {
            reveal_strlit("else");
            lemma_keyword("else"@, t);
        },
        Token::While => {
            reveal_strlit("while");
            lemma_keyword("while"@, t);
        },
        Token::Break => {
            reveal_strlit("break");
            lemma_keyword("break"@, t);
        },
        Token::Continue => {
            reveal_strlit("continue");
            lemma_keyword("continue"@, t);
        },
        Token::In => {
            reveal_strlit("in");
            lemma_keyword("in"@, t);
        },
        Token::Import => {
            reveal_strlit("import");
            lemma_keyword("import"@, t);
        },
        Token::Colon => {
            reveal_strlit(":");
            lemma_one_char(":"@, t);
        },
        Token::Dot => {
            reveal_strlit(".");
            lemma_one_char("."@, t);
        },
        Token::Plus => {
            reveal_strlit("+");
            lemma_one_char("+"@, t);
        },
        Token::Minus => {
            reveal_strlit("-");
            lemma_one_char("-"@, t);
        },
        Token::Star => {
            reveal_strlit("*");
            lemma_one_char("*"@, t);
        },
        Token::Slash => {
            reveal_strlit("/");
            lemma_one_char("/"@, t);
        },
        Token::Percent => {
            reveal_strlit("%");
            lemma_one_char("%"@, t);
        },
        Token::Lt => {
            reveal_strlit("<");
            lemma_one_char("<"@, t);
        },
        Token::Gt => {
            reveal_strlit(">");
            lemma_one_char(">"@, t);
        },
        Token::Assign => {
            reveal_strlit("=");
            lemma_one_char("="@, t);
        },
        Token::LParen => {
            reveal_strlit("(");
            lemma_one_char("("@, t);
        },
        Token::RParen => {
            reveal_strlit(")");
            lemma_one_char(")"@, t);
        },
        Token::LBrace => {
            reveal_strlit("{");
            lemma_one_char("{"@, t);
        },
        Token::RBrace => {
            reveal_strlit("}");
            lemma_one_char("}"@, t);
        },
        Token::LBrack => {
            reveal_strlit("[");
            lemma_one_char("["@, t);
        },
        Token::RBrack => {
            reveal_strlit("]");
            lemma_one_char("]"@, t);
        },
        Token::Comma => {
            reveal_strlit(",");
            lemma_one_char(","@, t);
        },
        Token::Bang => {
            reveal_strlit("!");
            lemma_one_char("!"@, t);
        },
        Token::Pipe => {
            reveal_strlit("|");
            lemma_one_char("|"@, t);
        },
        Token::Semicolon => {
            reveal_strlit(";");
            lemma_one_char(";"@, t);
        },
        Token::ColonColon => {
            reveal_strlit("::");
            lemma_two_chars("::"@, t);
        },
        Token::Eq => {
            reveal_strlit("==");
            lemma_two_chars("=="@, t);
        },
        Token::Ne => {
            reveal_strlit("!=");
            lemma_two_chars("!="@, t);
        },
        Token::Le => {
            reveal_strlit("<=");
            lemma_two_chars("<="@, t);
        },
        Token::Ge => {
            reveal_strlit(">=");
            lemma_two_chars(">="@, t);
        },
        Token::Arrow => {
            reveal_strlit("->");
            lemma_two_chars("->"@, t);
        },
        Token::FatArrow => {
            reveal_strlit("=>");
            lemma_two_chars("=>"@, t);
        },
        Token::DotDot => {
            reveal_strlit("..");
            lemma_two_chars(".."@, t);
        },
        Token::AmpAmp => {
            reveal_strlit("&&");
            lemma_two_chars("&&"@, t);
        },
        Token::PipePipe => {
            reveal_strlit("||");
            lemma_two_chars("||"@, t);
        },
        _ => {},
    }
}

/// No two keywords or symbols are spelled alike.
pub proof fn law_spellings_differ(a: Token, b: Token)
    requires
        is_fixed(a),
        is_fixed(b),
        symbol_text(a) == symbol_text(b),
    ensures
        a == b,
{
    law_symbols_read_back(a);
    law_symbols_read_back(b);
}

} // verus!
