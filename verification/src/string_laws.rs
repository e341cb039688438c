//! Interpolated strings: nothing of their content is lost, and each piece becomes one
//! part of the expression that they are.

use crate::ast::{ExprKindV, ExprV};
use crate::diagnostic::{DiagnosticV, Span};
use crate::grammar::{
    adv, code_end, code_scan, expr_v, joined, lemma_piece_ends, p_expr, p_interp, p_primary,
    pieces, rule_primary, shorter, start, text_end, to_string_call, Cursor, Piece,
};
use crate::lexer::{escape_at, unescaped, TokenV};
use vstd::prelude::*;

verus! {

// ---- the pieces ----

/// Where a piece starts, its opening brace included.
pub open spec fn begins(p: Piece) -> int {
    match p {
        Piece::Text(from, _) => from,
        Piece::Code(from, _) => from - 1,
    }
}

/// Where a piece ends, its closing brace included.
pub open spec fn stops_at(p: Piece) -> int {
    match p {
        Piece::Text(_, to) => to,
        Piece::Code(_, to) => to + 1,
    }
}

/// A piece is what it is taken for: text is not empty and goes up to a brace or to the
/// end; code stands between braces, but that the last may be missing at the end.
pub open spec fn is_piece(t: Seq<char>, p: Piece) -> bool {
    match p {
        Piece::Text(from, to) => {
            &&& 0 <= from < to <= t.len()
            &&& t[from] != '{'
            &&& to < t.len() ==> t[to] == '{'
        },
        Piece::Code(from, to) => {
            &&& 1 <= from <= to <= t.len()
            &&& t[from - 1] == '{'
            &&& to < t.len() ==> t[to] == '}'
        },
    }
}

/// Pieces that follow each other from `i` to the end of the content.
pub open spec fn in_a_row(t: Seq<char>, ps: Seq<Piece>, i: int) -> bool {
    &&& forall|k: int| 0 <= k < ps.len() ==> is_piece(t, #[trigger] ps[k])
    &&& forall|k: int|
        #![trigger ps[k]]
        0 <= k && k + 1 < ps.len() ==> begins(ps[k + 1]) == stops_at(ps[k])
    &&& ps.len() > 0 ==> begins(ps[0]) == i && stops_at(ps.last()) >= t.len()
    &&& ps.len() == 0 ==> i >= t.len()
}

proof fn lemma_text_end(t: Seq<char>, i: int)
    requires
        0 <= i <= t.len(),
    ensures
        i <= text_end(t, i) <= t.len(),
        text_end(t, i) < t.len() ==> t[text_end(t, i)] == '{',
    decreases t.len() - i,
{
    if i < t.len() && t[i] != '{' {
        if t[i] == '\\' && i + 1 < t.len() {
            lemma_text_end(t, i + 2);
        } else {
            lemma_text_end(t, i + 1);
        }
    }
}

proof fn lemma_code_end(t: Seq<char>, i: int, depth: int)
    requires
        0 <= i <= t.len(),
    ensures
        i <= code_end(t, i, depth) <= t.len(),
        code_end(t, i, depth) < t.len() ==> t[code_end(t, i, depth)] == '}',
    decreases t.len() - i,
{
    if i < t.len() {
        if t[i] == '\\' && i + 1 < t.len() {
            lemma_code_end(t, i + 2, depth);
        } else if t[i] == '{' {
            lemma_code_end(t, i + 1, depth + 1);
        } else if t[i] == '}' && depth > 1 {
            lemma_code_end(t, i + 1, depth - 1);
        } else if t[i] != '}' {
            lemma_code_end(t, i + 1, depth);
        }
    }
}

/// The pieces of an interpolated string make up all of its content, one behind the other.
pub proof fn law_pieces(t: Seq<char>, i: int)
    requires
        0 <= i,
    ensures
        in_a_row(t, pieces(t, i), i),
    decreases
            if i < t.len() {
                t.len() - i
            } else {
                0
            },
{
    if i < t.len() {
        lemma_piece_ends(t, i, 0);
        lemma_piece_ends(t, i + 1, 1);
        let (p, next) = if t[i] == '{' {
            lemma_code_end(t, i + 1, 1);
            let e = code_end(t, i + 1, 1);
            (Piece::Code(i + 1, e), e + 1)
        } else {
            lemma_text_end(t, i);
            let e = text_end(t, i);
            (Piece::Text(i, e), e)
        };
        law_pieces(t, next);
        let rest = pieces(t, next);
        let ps = pieces(t, i);
        assert(ps =~= seq![p] + rest);
        assert(is_piece(t, p));
        assert forall|k: int| 0 <= k < ps.len() implies is_piece(t, #[trigger] ps[k]) by {
            if k > 0 {
                assert(ps[k] == rest[k - 1]);
            }
        }
        assert forall|k: int|
            #![trigger ps[k]]
            0 <= k && k + 1 < ps.len() implies begins(ps[k + 1]) == stops_at(ps[k]) by {
            assert(ps[k + 1] == rest[k]);
            if k > 0 {
                assert(ps[k] == rest[k - 1]);
            }
        }
        if rest.len() > 0 {
            assert(ps.last() == rest.last());
        } else {
            assert(ps.last() == p);
        }
    }
}

/// A text without braces and backslashes.
pub open spec fn plain_text(t: Seq<char>, from: int, to: int) -> bool {
    forall|k: int|
        from <= k < to ==> (#[trigger] t[k]) != '{' && t[k] != '}' && t[k] != '\\'
}

/// Code without braces and backslashes ends at the first closing brace.
pub proof fn law_plain_code(t: Seq<char>, i: int, to: int)
    requires
        0 <= i <= to < t.len(),
        plain_text(t, i, to),
        t[to] == '}',
    ensures
        code_end(t, i, 1) == to,
    decreases to - i,
{
    if i < to {
        assert(t[i] != '{' && t[i] != '}' && t[i] != '\\');
        law_plain_code(t, i + 1, to);
    }
}

/// Braces in code come in pairs: behind a pair the code goes on as before it.
pub proof fn law_nested_braces(t: Seq<char>, i: int, open: int, close: int, depth: int)
    requires
        0 <= i <= open < close < t.len(),
        plain_text(t, i, open),
        t[open] == '{',
        plain_text(t, open + 1, close),
        t[close] == '}',
        depth >= 1,
    ensures
        code_end(t, i, depth) == code_end(t, close + 1, depth),
{
    lemma_skip_plain(t, i, open, depth);
    lemma_skip_plain(t, open + 1, close, depth + 1);
}

proof fn lemma_skip_plain(t: Seq<char>, i: int, to: int, depth: int)
    requires
        0 <= i <= to < t.len(),
        plain_text(t, i, to),
    ensures
        code_end(t, i, depth) == code_end(t, to, depth),
    decreases to - i,
{
    if i < to {
        assert(t[i] != '{' && t[i] != '}' && t[i] != '\\');
        lemma_skip_plain(t, i + 1, to, depth);
    }
}

/// A text without backslashes stands for itself.
pub proof fn law_plain_text_stands_for_itself(t: Seq<char>, i: int)
    requires
        0 <= i <= t.len(),
        forall|k: int| 0 <= k < t.len() ==> (#[trigger] t[k]) != '\\',
    ensures
        unescaped(t, i) == t.skip(i),
    decreases t.len() - i,
{
    if i < t.len() {
        assert(t[i] != '\\');
        assert(!escape_at(t, i));
        law_plain_text_stands_for_itself(t, i + 1);
        assert(seq![t[i]] + t.skip(i + 1) =~= t.skip(i));
    } else {
        assert(t.skip(i) =~= Seq::empty());
    }
}

// ---- the parts ----

/// An expression is a call of `to_string` on another.
pub open spec fn shows(e: ExprV, x: ExprV) -> bool {
    *e.kind matches ExprKindV::Call(f, args) && *(*f).kind == ExprKindV::Ident("to_string"@)
        && args == seq![x]
}

/// A part is what a piece says: the text, with its escapes replaced, or a call of
/// `to_string` on the expression that the code is.
pub open spec fn says(c: Cursor, t: Seq<char>, p: Piece, part: ExprV) -> bool {
    match p {
        Piece::Text(from, to) => *part.kind == ExprKindV::Str(unescaped(t.subrange(from, to), 0)),
        Piece::Code(from, to) => {
            shorter(c, start(code_scan(t, c.span, from, to))) matches Ok(sub) && (p_expr(
                sub,
            ) matches Ok((x, _)) && shows(part, x))
        },
    }
}

/// The code of a piece can be read.
pub open spec fn reads(c: Cursor, t: Seq<char>, p: Piece) -> bool {
    p matches Piece::Code(from, to) ==> (shorter(c, start(code_scan(t, c.span, from, to))) matches
    Ok(sub) && p_expr(sub) is Ok)
}

/// One part for every piece, in order, and each says what its piece says.
pub open spec fn parts_of(c: Cursor, t: Seq<char>, parts: Seq<ExprV>) -> bool {
    &&& parts.len() == pieces(t, 0).len()
    &&& forall|k: int| 0 <= k < parts.len() ==> says(c, t, pieces(t, 0)[k], #[trigger] parts[k])
}

proof fn lemma_parts(c: Cursor, t: Seq<char>, i: int, acc: Seq<ExprV>)
    requires
        0 <= i <= pieces(t, 0).len(),
        acc.len() == i,
        forall|k: int| 0 <= k < i ==> says(c, t, pieces(t, 0)[k], #[trigger] acc[k]),
    ensures
        p_interp(c, t, i, acc) matches Ok((parts, c1)) ==> parts_of(c, t, parts),
        p_interp(c, t, i, acc) is Ok <==> forall|k: int|
            i <= k < pieces(t, 0).len() ==> reads(c, t, #[trigger] pieces(t, 0)[k]),
    decreases pieces(t, 0).len() - i,
{
    let ps = pieces(t, 0);
    if i < ps.len() {
        match ps[i] {
            Piece::Text(from, to) => {
                let part = expr_v(
                    ExprKindV::Str(unescaped(t.subrange(from, to), 0)),
                    c.span,
                );
                assert(says(c, t, ps[i], part));
                lemma_parts(c, t, i + 1, acc.push(part));
            },
            Piece::Code(from, to) => {
                match shorter(c, start(code_scan(t, c.span, from, to))) {
                    Ok(sub) => match p_expr(sub) {
                        Ok((x, _)) => {
                            let part = to_string_call(x, c.span);
                            assert(shows(part, x));
                            assert(says(c, t, ps[i], part));
                            lemma_parts(c, t, i + 1, acc.push(part));
                        },
                        Err(_) => {
                            assert(!reads(c, t, ps[i]));
                        },
                    },
                    Err(_) => {
                        assert(!reads(c, t, ps[i]));
                    },
                }
            },
        }
    }
}

/// An expression is the sum of others, from the left; the sum of none is the empty text.
pub open spec fn is_sum(e: ExprV, parts: Seq<ExprV>) -> bool
    decreases parts.len(),
{
    if parts.len() == 0 {
        *e.kind == ExprKindV::Str(Seq::empty())
    } else if parts.len() == 1 {
        e == parts[0]
    } else {
        *e.kind matches ExprKindV::Binary(l, op, r) && op is Add && *r == parts.last() && is_sum(
            *l,
            parts.drop_last(),
        )
    }
}

proof fn lemma_sum(parts: Seq<ExprV>, span: Span)
    ensures
        is_sum(joined(parts, span), parts),
    decreases parts.len(),
{
    if parts.len() > 1 {
        lemma_sum(parts.drop_last(), span);
    }
}

/// No text of an interpolated string is lost. The string is read if and only if every
/// code piece can be, and is then the sum of one part for every piece of its content, in
/// order: the unescaped text of a text piece, and a call of `to_string` on the expression
/// of a code piece.
pub proof fn law_interpolated_string(c: Cursor, t: Seq<char>)
    requires
        c.cur == TokenV::InterpStr(t),
        adv(c) is Ok,
    ensures
        p_primary(c) is Ok <==> forall|k: int|
            0 <= k < pieces(t, 0).len() ==> reads(c, t, #[trigger] pieces(t, 0)[k]),
        p_primary(c) matches Ok((e, c1)) ==> {
            &&& Ok::<Cursor, DiagnosticV>(c1) == adv(c)
            &&& exists|parts: Seq<ExprV>| #[trigger] parts_of(c, t, parts) && is_sum(e, parts)
        },
        in_a_row(t, pieces(t, 0), 0),
{
    law_pieces(t, 0);
    assert(p_primary(c) == rule_primary(c));
    lemma_parts(c, t, 0, Seq::empty());
    match p_interp(c, t, 0, Seq::empty()) {
        Ok((parts, _)) => {
            lemma_sum(parts, c.span);
            assert(parts_of(c, t, parts));
        },
        Err(_) => {},
    }
}

} // verus!
