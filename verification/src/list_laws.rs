//! Lists in source text: all their items are read, in order, up to the token that closes
//! them.

use crate::ast::{ExprV, PatternV, StmtV, TraitMethodV, TypeV};
use crate::diagnostic::DiagnosticV;
use crate::grammar::{
    adv, eat, opt_comma, p_cases, p_expr, p_exprs_until, p_field_decls, p_field_values, p_fn,
    p_methods, p_names_until, p_pattern, p_patterns_until, p_payload, p_signature, p_stmt,
    p_stmts_until, p_trait_methods, p_type, p_types_until, rule_exprs_until, rule_field_values,
    rule_methods, rule_stmts_until, shorter, Cursor,
};
use crate::lexer::{Token, TokenV};
use vstd::prelude::*;

verus! {

spec fn exprs_next(c: Cursor, close: Token) -> (ExprV, Cursor) {
    (p_expr(c)->Ok_0.0, opt_comma(p_expr(c)->Ok_0.1)->Ok_0)
}

spec fn stmts_next(c: Cursor, close: Token) -> (StmtV, Cursor) {
    p_stmt(c)->Ok_0
}

spec fn types_next(c: Cursor, close: Token) -> (TypeV, Cursor) {
    (p_type(c)->Ok_0.0, opt_comma(p_type(c)->Ok_0.1)->Ok_0)
}

spec fn fields_next(c: Cursor) -> ((Seq<char>, TypeV), Cursor) {
    let t = p_type(adv(adv(c)->Ok_0)->Ok_0)->Ok_0;
    ((c.cur->Ident_0, t.0), opt_comma(t.1)->Ok_0)
}

spec fn cases_next(c: Cursor) -> ((Seq<char>, Seq<TypeV>), Cursor) {
    let t = p_payload(adv(c)->Ok_0)->Ok_0;
    ((c.cur->Ident_0, t.0), opt_comma(t.1)->Ok_0)
}

spec fn values_next(c: Cursor) -> ((Seq<char>, ExprV), Cursor) {
    let t = p_expr(adv(adv(c)->Ok_0)->Ok_0)->Ok_0;
    ((c.cur->Ident_0, t.0), opt_comma(t.1)->Ok_0)
}

spec fn methods_next(c: Cursor) -> (StmtV, Cursor) {
    (StmtV { kind: p_fn(c)->Ok_0.0, span: c.span }, p_fn(c)->Ok_0.1)
}

spec fn patterns_next(c: Cursor) -> (PatternV, Cursor) {
    (p_pattern(c)->Ok_0.0, opt_comma(p_pattern(c)->Ok_0.1)->Ok_0)
}

spec fn names_row_next(c: Cursor, close: Token, what: Seq<char>) -> (Seq<char>, Cursor) {
    (c.cur->Ident_0, opt_comma(adv(c)->Ok_0)->Ok_0)
}

spec fn required_next(c: Cursor) -> (TraitMethodV, Cursor) {
    let c1 = adv(c)->Ok_0;
    let sig = p_signature(adv(c1)->Ok_0, true)->Ok_0;
    (
        TraitMethodV { name: c1.cur->Ident_0, params: sig.0.0, ret: sig.0.1 },
        adv(sig.1)->Ok_0,
    )
}

/// An expression, with an optional comma behind it.
#[verifier::opaque]
pub open spec fn exprs_item(c: Cursor, x: ExprV, d: Cursor, close: Token) -> bool {
    p_expr(c) matches Ok((e, c1)) && e == x && shorter(c, opt_comma(c1)) == Ok::<Cursor, DiagnosticV>(d)
}

/// The `i`th of some items stands between two cursors.
pub open spec fn exprs_link(cs: Seq<Cursor>, xs: Seq<ExprV>, close: Token, i: int) -> bool {
    !cs[i].at(close) && exprs_item(cs[i], xs[i], cs[i + 1], close)
}

/// Such items in a row up to the end.
pub open spec fn exprs_row(cs: Seq<Cursor>, xs: Seq<ExprV>, close: Token) -> bool {
    &&& cs.len() == xs.len() + 1
    &&& forall|i: int| 0 <= i < xs.len() ==> #[trigger] exprs_link(cs, xs, close, i)
    &&& cs.last().at(close)
}

proof fn lemma_exprs_cons(
    c: Cursor,
    x: ExprV,
    rest: Seq<Cursor>,
    xs: Seq<ExprV>, close: Token,
)
    requires
        !c.at(close),
        exprs_row(rest, xs, close),
        exprs_item(c, x, rest[0], close),
    ensures
        exprs_row(seq![c] + rest, seq![x] + xs, close),
        (seq![c] + rest).last() == rest.last(),
{
    let cs = seq![c] + rest;
    let ys = seq![x] + xs;
    assert forall|i: int| 0 <= i < ys.len() implies #[trigger] exprs_link(cs, ys, close, i) by {
        if i > 0 {
            assert(exprs_link(rest, xs, close, i - 1));
            assert(ys[i] == xs[i - 1]);
            assert(cs[i] == rest[i - 1]);
            assert(cs[i + 1] == rest[i]);
        } else {
            assert(ys[0] == x);
            assert(cs[0] == c);
            assert(cs[1] == rest[0]);
        }
    }
    assert(cs.last() == rest.last());
    assert(cs.len() == ys.len() + 1);
}

proof fn lemma_exprs_step(c: Cursor, close: Token, acc: Seq<ExprV>)
    requires
        !c.at(close),
        p_exprs_until(c, close, acc) is Ok,
    ensures
        exprs_item(c, exprs_next(c, close).0, exprs_next(c, close).1, close),
        p_exprs_until(c, close, acc) == p_exprs_until(exprs_next(c, close).1, close, acc.push(exprs_next(c, close).0)),
        exprs_next(c, close).1.size() < c.size(),
{
    reveal(exprs_item);
    assert(p_exprs_until(c, close, acc) == rule_exprs_until(c, close, acc));
}

#[verifier::rlimit(60)]
proof fn lemma_exprs(c: Cursor, close: Token, acc: Seq<ExprV>) -> (r: (Seq<Cursor>, Seq<ExprV>))
    ensures
        p_exprs_until(c, close, acc) matches Ok((xs, end)) ==> {
            &&& xs == acc + r.1
            &&& exprs_row(r.0, r.1, close)
            &&& r.0[0] == c
            &&& r.0.last() == end
        },
    decreases c.size(),
{
    if p_exprs_until(c, close, acc) is Ok {
        if c.at(close) {
            lemma_exprs_closes(c, close, acc);
            assert(acc + Seq::<ExprV>::empty() =~= acc);
            (seq![c], Seq::empty())
        } else {
            let (x, d) = exprs_next(c, close);
            lemma_exprs_step(c, close, acc);
            let (rest, ys) = lemma_exprs(d, close, acc.push(x));
            lemma_exprs_cons(c, x, rest, ys, close);
            assert(acc.push(x) + ys =~= acc + (seq![x] + ys));
            (seq![c] + rest, seq![x] + ys)
        }
    } else {
        (Seq::empty(), Seq::empty())
    }
}

#[verifier::rlimit(60)]
proof fn lemma_exprs_reads(c: Cursor, x: ExprV, d: Cursor, close: Token, acc: Seq<ExprV>)
    requires
        !c.at(close),
        exprs_item(c, x, d, close),
    ensures
        p_exprs_until(c, close, acc) == p_exprs_until(d, close, acc.push(x)),
{
    reveal(exprs_item);
    assert(p_exprs_until(c, close, acc) == rule_exprs_until(c, close, acc));
}

proof fn lemma_exprs_closes(c: Cursor, close: Token, acc: Seq<ExprV>)
    requires
        c.at(close),
    ensures
        p_exprs_until(c, close, acc) == Ok::<(Seq<ExprV>, Cursor), DiagnosticV>((acc, c)),
{
    assert(p_exprs_until(c, close, acc) == rule_exprs_until(c, close, acc));
}

proof fn lemma_exprs_back(cs: Seq<Cursor>, xs: Seq<ExprV>, close: Token, acc: Seq<ExprV>, i: int)
    requires
        exprs_row(cs, xs, close),
        0 <= i <= xs.len(),
    ensures
        p_exprs_until(cs[i], close, acc) == Ok::<(Seq<ExprV>, Cursor), DiagnosticV>((acc + xs.skip(i), cs.last())),
    decreases xs.len() - i,
{
    if i < xs.len() {
        assert(exprs_link(cs, xs, close, i));
        lemma_exprs_reads(cs[i], xs[i], cs[i + 1], close, acc);
        lemma_exprs_back(cs, xs, close, acc.push(xs[i]), i + 1);
        assert(acc.push(xs[i]) + xs.skip(i + 1) =~= acc + xs.skip(i));
    } else {
        lemma_exprs_closes(cs[i], close, acc);
        assert(acc + xs.skip(i) =~= acc);
    }
}

/// Arguments and elements are read in order, all of them, up to the closing token.
pub proof fn law_exprs(c: Cursor, close: Token, cs: Seq<Cursor>, xs: Seq<ExprV>) -> (r: Seq<Cursor>)
    ensures
        exprs_row(cs, xs, close) ==> p_exprs_until(cs[0], close, Seq::empty()) == Ok::<(Seq<ExprV>, Cursor), DiagnosticV>(
            (xs, cs.last()),
        ),
        p_exprs_until(c, close, Seq::empty()) matches Ok((ys, end)) ==> exprs_row(r, ys, close) && r[0] == c && r.last()
            == end,
{
    if exprs_row(cs, xs, close) {
        lemma_exprs_back(cs, xs, close, Seq::empty(), 0);
        assert(Seq::<ExprV>::empty() + xs.skip(0) =~= xs);
    }
    let (r, ys) = lemma_exprs(c, close, Seq::empty());
    assert(Seq::<ExprV>::empty() + ys =~= ys);
    r
}

/// A statement.
#[verifier::opaque]
pub open spec fn stmts_item(c: Cursor, x: StmtV, d: Cursor, close: Token) -> bool {
    p_stmt(c) == Ok::<(StmtV, Cursor), DiagnosticV>((x, d)) && d.size() < c.size()
}

/// The `i`th of some items stands between two cursors.
pub open spec fn stmts_link(cs: Seq<Cursor>, xs: Seq<StmtV>, close: Token, i: int) -> bool {
    !cs[i].at(close) && stmts_item(cs[i], xs[i], cs[i + 1], close)
}

/// Such items in a row up to the end.
pub open spec fn stmts_row(cs: Seq<Cursor>, xs: Seq<StmtV>, close: Token) -> bool {
    &&& cs.len() == xs.len() + 1
    &&& forall|i: int| 0 <= i < xs.len() ==> #[trigger] stmts_link(cs, xs, close, i)
    &&& cs.last().at(close)
}

proof fn lemma_stmts_cons(
    c: Cursor,
    x: StmtV,
    rest: Seq<Cursor>,
    xs: Seq<StmtV>, close: Token,
)
    requires
        !c.at(close),
        stmts_row(rest, xs, close),
        stmts_item(c, x, rest[0], close),
    ensures
        stmts_row(seq![c] + rest, seq![x] + xs, close),
        (seq![c] + rest).last() == rest.last(),
{
    let cs = seq![c] + rest;
    let ys = seq![x] + xs;
    assert forall|i: int| 0 <= i < ys.len() implies #[trigger] stmts_link(cs, ys, close, i) by {
        if i > 0 {
            assert(stmts_link(rest, xs, close, i - 1));
            assert(ys[i] == xs[i - 1]);
            assert(cs[i] == rest[i - 1]);
            assert(cs[i + 1] == rest[i]);
        } else {
            assert(ys[0] == x);
            assert(cs[0] == c);
            assert(cs[1] == rest[0]);
        }
    }
    assert(cs.last() == rest.last());
    assert(cs.len() == ys.len() + 1);
}

proof fn lemma_stmts_step(c: Cursor, close: Token, acc: Seq<StmtV>)
    requires
        !c.at(close),
        p_stmts_until(c, close, acc) is Ok,
    ensures
        stmts_item(c, stmts_next(c, close).0, stmts_next(c, close).1, close),
        p_stmts_until(c, close, acc) == p_stmts_until(stmts_next(c, close).1, close, acc.push(stmts_next(c, close).0)),
        stmts_next(c, close).1.size() < c.size(),
{
    reveal(stmts_item);
    assert(p_stmts_until(c, close, acc) == rule_stmts_until(c, close, acc));
}

#[verifier::rlimit(60)]
proof fn lemma_stmts(c: Cursor, close: Token, acc: Seq<StmtV>) -> (r: (Seq<Cursor>, Seq<StmtV>))
    ensures
        p_stmts_until(c, close, acc) matches Ok((xs, end)) ==> {
            &&& xs == acc + r.1
            &&& stmts_row(r.0, r.1, close)
            &&& r.0[0] == c
            &&& r.0.last() == end
        },
    decreases c.size(),
{
    if p_stmts_until(c, close, acc) is Ok {
        if c.at(close) {
            lemma_stmts_closes(c, close, acc);
            assert(acc + Seq::<StmtV>::empty() =~= acc);
            (seq![c], Seq::empty())
        } else {
            let (x, d) = stmts_next(c, close);
            lemma_stmts_step(c, close, acc);
            let (rest, ys) = lemma_stmts(d, close, acc.push(x));
            lemma_stmts_cons(c, x, rest, ys, close);
            assert(acc.push(x) + ys =~= acc + (seq![x] + ys));
            (seq![c] + rest, seq![x] + ys)
        }
    } else {
        (Seq::empty(), Seq::empty())
    }
}

#[verifier::rlimit(60)]
proof fn lemma_stmts_reads(c: Cursor, x: StmtV, d: Cursor, close: Token, acc: Seq<StmtV>)
    requires
        !c.at(close),
        stmts_item(c, x, d, close),
    ensures
        p_stmts_until(c, close, acc) == p_stmts_until(d, close, acc.push(x)),
{
    reveal(stmts_item);
    assert(p_stmts_until(c, close, acc) == rule_stmts_until(c, close, acc));
}

proof fn lemma_stmts_closes(c: Cursor, close: Token, acc: Seq<StmtV>)
    requires
        c.at(close),
    ensures
        p_stmts_until(c, close, acc) == Ok::<(Seq<StmtV>, Cursor), DiagnosticV>((acc, c)),
{
    assert(p_stmts_until(c, close, acc) == rule_stmts_until(c, close, acc));
}

proof fn lemma_stmts_back(cs: Seq<Cursor>, xs: Seq<StmtV>, close: Token, acc: Seq<StmtV>, i: int)
    requires
        stmts_row(cs, xs, close),
        0 <= i <= xs.len(),
    ensures
        p_stmts_until(cs[i], close, acc) == Ok::<(Seq<StmtV>, Cursor), DiagnosticV>((acc + xs.skip(i), cs.last())),
    decreases xs.len() - i,
{
    if i < xs.len() {
        assert(stmts_link(cs, xs, close, i));
        lemma_stmts_reads(cs[i], xs[i], cs[i + 1], close, acc);
        lemma_stmts_back(cs, xs, close, acc.push(xs[i]), i + 1);
        assert(acc.push(xs[i]) + xs.skip(i + 1) =~= acc + xs.skip(i));
    } else {
        lemma_stmts_closes(cs[i], close, acc);
        assert(acc + xs.skip(i) =~= acc);
    }
}

/// Statements are read in order, all of them, up to the closing token.
pub proof fn law_stmts(c: Cursor, close: Token, cs: Seq<Cursor>, xs: Seq<StmtV>) -> (r: Seq<Cursor>)
    ensures
        stmts_row(cs, xs, close) ==> p_stmts_until(cs[0], close, Seq::empty()) == Ok::<(Seq<StmtV>, Cursor), DiagnosticV>(
            (xs, cs.last()),
        ),
        p_stmts_until(c, close, Seq::empty()) matches Ok((ys, end)) ==> stmts_row(r, ys, close) && r[0] == c && r.last()
            == end,
{
    if stmts_row(cs, xs, close) {
        lemma_stmts_back(cs, xs, close, Seq::empty(), 0);
        assert(Seq::<StmtV>::empty() + xs.skip(0) =~= xs);
    }
    let (r, ys) = lemma_stmts(c, close, Seq::empty());
    assert(Seq::<StmtV>::empty() + ys =~= ys);
    r
}

/// A type, with an optional comma behind it.
#[verifier::opaque]
pub open spec fn types_item(c: Cursor, x: TypeV, d: Cursor, close: Token) -> bool {
    p_type(c) matches Ok((t, c1)) && t == x && shorter(c, opt_comma(c1)) == Ok::<Cursor, DiagnosticV>(d)
}

/// The `i`th of some items stands between two cursors.
pub open spec fn types_link(cs: Seq<Cursor>, xs: Seq<TypeV>, close: Token, i: int) -> bool {
    !cs[i].at(close) && types_item(cs[i], xs[i], cs[i + 1], close)
}

/// Such items in a row up to the end.
pub open spec fn types_row(cs: Seq<Cursor>, xs: Seq<TypeV>, close: Token) -> bool {
    &&& cs.len() == xs.len() + 1
    &&& forall|i: int| 0 <= i < xs.len() ==> #[trigger] types_link(cs, xs, close, i)
    &&& cs.last().at(close)
}

proof fn lemma_types_cons(
    c: Cursor,
    x: TypeV,
    rest: Seq<Cursor>,
    xs: Seq<TypeV>, close: Token,
)
    requires
        !c.at(close),
        types_row(rest, xs, close),
        types_item(c, x, rest[0], close),
    ensures
        types_row(seq![c] + rest, seq![x] + xs, close),
        (seq![c] + rest).last() == rest.last(),
{
    let cs = seq![c] + rest;
    let ys = seq![x] + xs;
    assert forall|i: int| 0 <= i < ys.len() implies #[trigger] types_link(cs, ys, close, i) by {
        if i > 0 {
            assert(types_link(rest, xs, close, i - 1));
            assert(ys[i] == xs[i - 1]);
            assert(cs[i] == rest[i - 1]);
            assert(cs[i + 1] == rest[i]);
        } else {
            assert(ys[0] == x);
            assert(cs[0] == c);
            assert(cs[1] == rest[0]);
        }
    }
    assert(cs.last() == rest.last());
    assert(cs.len() == ys.len() + 1);
}

proof fn lemma_types_step(c: Cursor, close: Token, acc: Seq<TypeV>)
    requires
        !c.at(close),
        p_types_until(c, close, acc) is Ok,
    ensures
        types_item(c, types_next(c, close).0, types_next(c, close).1, close),
        p_types_until(c, close, acc) == p_types_until(types_next(c, close).1, close, acc.push(types_next(c, close).0)),
        types_next(c, close).1.size() < c.size(),
{
    reveal(types_item);
}

#[verifier::rlimit(60)]
proof fn lemma_types(c: Cursor, close: Token, acc: Seq<TypeV>) -> (r: (Seq<Cursor>, Seq<TypeV>))
    ensures
        p_types_until(c, close, acc) matches Ok((xs, end)) ==> {
            &&& xs == acc + r.1
            &&& types_row(r.0, r.1, close)
            &&& r.0[0] == c
            &&& r.0.last() == end
        },
    decreases c.size(),
{
    if p_types_until(c, close, acc) is Ok {
        if c.at(close) {
            lemma_types_closes(c, close, acc);
            assert(acc + Seq::<TypeV>::empty() =~= acc);
            (seq![c], Seq::empty())
        } else {
            let (x, d) = types_next(c, close);
            lemma_types_step(c, close, acc);
            let (rest, ys) = lemma_types(d, close, acc.push(x));
            lemma_types_cons(c, x, rest, ys, close);
            assert(acc.push(x) + ys =~= acc + (seq![x] + ys));
            (seq![c] + rest, seq![x] + ys)
        }
    } else {
        (Seq::empty(), Seq::empty())
    }
}

#[verifier::rlimit(60)]
proof fn lemma_types_reads(c: Cursor, x: TypeV, d: Cursor, close: Token, acc: Seq<TypeV>)
    requires
        !c.at(close),
        types_item(c, x, d, close),
    ensures
        p_types_until(c, close, acc) == p_types_until(d, close, acc.push(x)),
{
    reveal(types_item);
}

proof fn lemma_types_closes(c: Cursor, close: Token, acc: Seq<TypeV>)
    requires
        c.at(close),
    ensures
        p_types_until(c, close, acc) == Ok::<(Seq<TypeV>, Cursor), DiagnosticV>((acc, c)),
{
}

proof fn lemma_types_back(cs: Seq<Cursor>, xs: Seq<TypeV>, close: Token, acc: Seq<TypeV>, i: int)
    requires
        types_row(cs, xs, close),
        0 <= i <= xs.len(),
    ensures
        p_types_until(cs[i], close, acc) == Ok::<(Seq<TypeV>, Cursor), DiagnosticV>((acc + xs.skip(i), cs.last())),
    decreases xs.len() - i,
{
    if i < xs.len() {
        assert(types_link(cs, xs, close, i));
        lemma_types_reads(cs[i], xs[i], cs[i + 1], close, acc);
        lemma_types_back(cs, xs, close, acc.push(xs[i]), i + 1);
        assert(acc.push(xs[i]) + xs.skip(i + 1) =~= acc + xs.skip(i));
    } else {
        lemma_types_closes(cs[i], close, acc);
        assert(acc + xs.skip(i) =~= acc);
    }
}

/// Types are read in order, all of them, up to the closing token.
pub proof fn law_types(c: Cursor, close: Token, cs: Seq<Cursor>, xs: Seq<TypeV>) -> (r: Seq<Cursor>)
    ensures
        types_row(cs, xs, close) ==> p_types_until(cs[0], close, Seq::empty()) == Ok::<(Seq<TypeV>, Cursor), DiagnosticV>(
            (xs, cs.last()),
        ),
        p_types_until(c, close, Seq::empty()) matches Ok((ys, end)) ==> types_row(r, ys, close) && r[0] == c && r.last()
            == end,
{
    if types_row(cs, xs, close) {
        lemma_types_back(cs, xs, close, Seq::empty(), 0);
        assert(Seq::<TypeV>::empty() + xs.skip(0) =~= xs);
    }
    let (r, ys) = lemma_types(c, close, Seq::empty());
    assert(Seq::<TypeV>::empty() + ys =~= ys);
    r
}

/// `name: type`, with an optional comma behind it.
#[verifier::opaque]
pub open spec fn fields_item(c: Cursor, x: (Seq<char>, TypeV), d: Cursor) -> bool {
    c.cur == TokenV::Ident(x.0) && (adv(c) matches Ok(c1) && (eat(c1, Token::Colon) matches Ok(c2) && (p_type(
        c2,
    ) matches Ok((t, c3)) && t == x.1 && shorter(c, opt_comma(c3)) == Ok::<Cursor, DiagnosticV>(d))))
}

/// The `i`th of some items stands between two cursors.
pub open spec fn fields_link(cs: Seq<Cursor>, xs: Seq<(Seq<char>, TypeV)>, i: int) -> bool {
    !cs[i].at(Token::RBrace) && fields_item(cs[i], xs[i], cs[i + 1])
}

/// Such items in a row up to the end.
pub open spec fn fields_row(cs: Seq<Cursor>, xs: Seq<(Seq<char>, TypeV)>) -> bool {
    &&& cs.len() == xs.len() + 1
    &&& forall|i: int| 0 <= i < xs.len() ==> #[trigger] fields_link(cs, xs, i)
    &&& cs.last().at(Token::RBrace)
}

proof fn lemma_fields_cons(
    c: Cursor,
    x: (Seq<char>, TypeV),
    rest: Seq<Cursor>,
    xs: Seq<(Seq<char>, TypeV)>
)
    requires
        !c.at(Token::RBrace),
        fields_row(rest, xs),
        fields_item(c, x, rest[0]),
    ensures
        fields_row(seq![c] + rest, seq![x] + xs),
        (seq![c] + rest).last() == rest.last(),
{
    let cs = seq![c] + rest;
    let ys = seq![x] + xs;
    assert forall|i: int| 0 <= i < ys.len() implies #[trigger] fields_link(cs, ys, i) by {
        if i > 0 {
            assert(fields_link(rest, xs, i - 1));
            assert(ys[i] == xs[i - 1]);
            assert(cs[i] == rest[i - 1]);
            assert(cs[i + 1] == rest[i]);
        } else {
            assert(ys[0] == x);
            assert(cs[0] == c);
            assert(cs[1] == rest[0]);
        }
    }
    assert(cs.last() == rest.last());
    assert(cs.len() == ys.len() + 1);
}

proof fn lemma_fields_step(c: Cursor, acc: Seq<(Seq<char>, TypeV)>)
    requires
        !c.at(Token::RBrace),
        p_field_decls(c, acc) is Ok,
    ensures
        fields_item(c, fields_next(c).0, fields_next(c).1),
        p_field_decls(c, acc) == p_field_decls(fields_next(c).1, acc.push(fields_next(c).0)),
        fields_next(c).1.size() < c.size(),
{
    reveal(fields_item);
}

#[verifier::rlimit(60)]
proof fn lemma_fields(
    c: Cursor,
    acc: Seq<(Seq<char>, TypeV)>,
) -> (r: (Seq<Cursor>, Seq<(Seq<char>, TypeV)>))
    ensures
        p_field_decls(c, acc) matches Ok((xs, end)) ==> {
            &&& xs == acc + r.1
            &&& fields_row(r.0, r.1)
            &&& r.0[0] == c
            &&& r.0.last() == end
        },
    decreases c.size(),
{
    if p_field_decls(c, acc) is Ok {
        if c.at(Token::RBrace) {
            lemma_fields_closes(c, acc);
            assert(acc + Seq::<(Seq<char>, TypeV)>::empty() =~= acc);
            (seq![c], Seq::empty())
        } else {
            let (x, d) = fields_next(c);
            lemma_fields_step(c, acc);
            let (rest, ys) = lemma_fields(d, acc.push(x));
            lemma_fields_cons(c, x, rest, ys);
            assert(acc.push(x) + ys =~= acc + (seq![x] + ys));
            (seq![c] + rest, seq![x] + ys)
        }
    } else {
        (Seq::empty(), Seq::empty())
    }
}

#[verifier::rlimit(60)]
proof fn lemma_fields_reads(
    c: Cursor,
    x: (Seq<char>, TypeV),
    d: Cursor,
    acc: Seq<(Seq<char>, TypeV)>,
)
    requires
        !c.at(Token::RBrace),
        fields_item(c, x, d),
    ensures
        p_field_decls(c, acc) == p_field_decls(d, acc.push(x)),
{
    reveal(fields_item);
}

proof fn lemma_fields_closes(c: Cursor, acc: Seq<(Seq<char>, TypeV)>)
    requires
        c.at(Token::RBrace),
    ensures
        p_field_decls(c, acc) == Ok::<(Seq<(Seq<char>, TypeV)>, Cursor), DiagnosticV>((acc, c)),
{
}

proof fn lemma_fields_back(
    cs: Seq<Cursor>,
    xs: Seq<(Seq<char>, TypeV)>,
    acc: Seq<(Seq<char>, TypeV)>,
    i: int,
)
    requires
        fields_row(cs, xs),
        0 <= i <= xs.len(),
    ensures
        p_field_decls(cs[i], acc) == Ok::<(Seq<(Seq<char>, TypeV)>, Cursor), DiagnosticV>((acc + xs.skip(i), cs.last())),
    decreases xs.len() - i,
{
    if i < xs.len() {
        assert(fields_link(cs, xs, i));
        lemma_fields_reads(cs[i], xs[i], cs[i + 1], acc);
        lemma_fields_back(cs, xs, acc.push(xs[i]), i + 1);
        assert(acc.push(xs[i]) + xs.skip(i + 1) =~= acc + xs.skip(i));
    } else {
        lemma_fields_closes(cs[i], acc);
        assert(acc + xs.skip(i) =~= acc);
    }
}

/// The fields of a struct are read in order, all of them, each with its type.
pub proof fn law_fields(c: Cursor, cs: Seq<Cursor>, xs: Seq<(Seq<char>, TypeV)>) -> (r: Seq<Cursor>)
    ensures
        fields_row(cs, xs) ==> p_field_decls(cs[0], Seq::empty()) == Ok::<(Seq<(Seq<char>, TypeV)>, Cursor), DiagnosticV>(
            (xs, cs.last()),
        ),
        p_field_decls(c, Seq::empty()) matches Ok((ys, end)) ==> fields_row(r, ys) && r[0] == c && r.last()
            == end,
{
    if fields_row(cs, xs) {
        lemma_fields_back(cs, xs, Seq::empty(), 0);
        assert(Seq::<(Seq<char>, TypeV)>::empty() + xs.skip(0) =~= xs);
    }
    let (r, ys) = lemma_fields(c, Seq::empty());
    assert(Seq::<(Seq<char>, TypeV)>::empty() + ys =~= ys);
    r
}

/// A variant and its payload, with an optional comma behind them.
#[verifier::opaque]
pub open spec fn cases_item(c: Cursor, x: (Seq<char>, Seq<TypeV>), d: Cursor) -> bool {
    c.cur == TokenV::Ident(x.0) && (adv(c) matches Ok(c1) && (p_payload(c1) matches Ok((ts, c2)) && ts == x.1
        && shorter(c, opt_comma(c2)) == Ok::<Cursor, DiagnosticV>(d)))
}

/// The `i`th of some items stands between two cursors.
pub open spec fn cases_link(cs: Seq<Cursor>, xs: Seq<(Seq<char>, Seq<TypeV>)>, i: int) -> bool {
    !cs[i].at(Token::RBrace) && cases_item(cs[i], xs[i], cs[i + 1])
}

/// Such items in a row up to the end.
pub open spec fn cases_row(cs: Seq<Cursor>, xs: Seq<(Seq<char>, Seq<TypeV>)>) -> bool {
    &&& cs.len() == xs.len() + 1
    &&& forall|i: int| 0 <= i < xs.len() ==> #[trigger] cases_link(cs, xs, i)
    &&& cs.last().at(Token::RBrace)
}

proof fn lemma_cases_cons(
    c: Cursor,
    x: (Seq<char>, Seq<TypeV>),
    rest: Seq<Cursor>,
    xs: Seq<(Seq<char>, Seq<TypeV>)>
)
    requires
        !c.at(Token::RBrace),
        cases_row(rest, xs),
        cases_item(c, x, rest[0]),
    ensures
        cases_row(seq![c] + rest, seq![x] + xs),
        (seq![c] + rest).last() == rest.last(),
{
    let cs = seq![c] + rest;
    let ys = seq![x] + xs;
    assert forall|i: int| 0 <= i < ys.len() implies #[trigger] cases_link(cs, ys, i) by {
        if i > 0 {
            assert(cases_link(rest, xs, i - 1));
            assert(ys[i] == xs[i - 1]);
            assert(cs[i] == rest[i - 1]);
            assert(cs[i + 1] == rest[i]);
        } else {
            assert(ys[0] == x);
            assert(cs[0] == c);
            assert(cs[1] == rest[0]);
        }
    }
    assert(cs.last() == rest.last());
    assert(cs.len() == ys.len() + 1);
}

proof fn lemma_cases_step(c: Cursor, acc: Seq<(Seq<char>, Seq<TypeV>)>)
    requires
        !c.at(Token::RBrace),
        p_cases(c, acc) is Ok,
    ensures
        cases_item(c, cases_next(c).0, cases_next(c).1),
        p_cases(c, acc) == p_cases(cases_next(c).1, acc.push(cases_next(c).0)),
        cases_next(c).1.size() < c.size(),
{
    reveal(cases_item);
}

#[verifier::rlimit(60)]
proof fn lemma_cases(
    c: Cursor,
    acc: Seq<(Seq<char>, Seq<TypeV>)>,
) -> (r: (Seq<Cursor>, Seq<(Seq<char>, Seq<TypeV>)>))
    ensures
        p_cases(c, acc) matches Ok((xs, end)) ==> {
            &&& xs == acc + r.1
            &&& cases_row(r.0, r.1)
            &&& r.0[0] == c
            &&& r.0.last() == end
        },
    decreases c.size(),
{
    if p_cases(c, acc) is Ok {
        if c.at(Token::RBrace) {
            lemma_cases_closes(c, acc);
            assert(acc + Seq::<(Seq<char>, Seq<TypeV>)>::empty() =~= acc);
            (seq![c], Seq::empty())
        } else {
            let (x, d) = cases_next(c);
            lemma_cases_step(c, acc);
            let (rest, ys) = lemma_cases(d, acc.push(x));
            lemma_cases_cons(c, x, rest, ys);
            assert(acc.push(x) + ys =~= acc + (seq![x] + ys));
            (seq![c] + rest, seq![x] + ys)
        }
    } else {
        (Seq::empty(), Seq::empty())
    }
}

#[verifier::rlimit(60)]
proof fn lemma_cases_reads(
    c: Cursor,
    x: (Seq<char>, Seq<TypeV>),
    d: Cursor,
    acc: Seq<(Seq<char>, Seq<TypeV>)>,
)
    requires
        !c.at(Token::RBrace),
        cases_item(c, x, d),
    ensures
        p_cases(c, acc) == p_cases(d, acc.push(x)),
{
    reveal(cases_item);
}

proof fn lemma_cases_closes(c: Cursor, acc: Seq<(Seq<char>, Seq<TypeV>)>)
    requires
        c.at(Token::RBrace),
    ensures
        p_cases(c, acc) == Ok::<(Seq<(Seq<char>, Seq<TypeV>)>, Cursor), DiagnosticV>((acc, c)),
{
}

proof fn lemma_cases_back(
    cs: Seq<Cursor>,
    xs: Seq<(Seq<char>, Seq<TypeV>)>,
    acc: Seq<(Seq<char>, Seq<TypeV>)>,
    i: int,
)
    requires
        cases_row(cs, xs),
        0 <= i <= xs.len(),
    ensures
        p_cases(cs[i], acc) == Ok::<(Seq<(Seq<char>, Seq<TypeV>)>, Cursor), DiagnosticV>((acc + xs.skip(i), cs.last())),
    decreases xs.len() - i,
{
    if i < xs.len() {
        assert(cases_link(cs, xs, i));
        lemma_cases_reads(cs[i], xs[i], cs[i + 1], acc);
        lemma_cases_back(cs, xs, acc.push(xs[i]), i + 1);
        assert(acc.push(xs[i]) + xs.skip(i + 1) =~= acc + xs.skip(i));
    } else {
        lemma_cases_closes(cs[i], acc);
        assert(acc + xs.skip(i) =~= acc);
    }
}

/// The variants of an enum are read in order, all of them, each with its payload.
pub proof fn law_cases(
    c: Cursor,
    cs: Seq<Cursor>,
    xs: Seq<(Seq<char>, Seq<TypeV>)>,
) -> (r: Seq<Cursor>)
    ensures
        cases_row(cs, xs) ==> p_cases(cs[0], Seq::empty()) == Ok::<(Seq<(Seq<char>, Seq<TypeV>)>, Cursor), DiagnosticV>(
            (xs, cs.last()),
        ),
        p_cases(c, Seq::empty()) matches Ok((ys, end)) ==> cases_row(r, ys) && r[0] == c && r.last()
            == end,
{
    if cases_row(cs, xs) {
        lemma_cases_back(cs, xs, Seq::empty(), 0);
        assert(Seq::<(Seq<char>, Seq<TypeV>)>::empty() + xs.skip(0) =~= xs);
    }
    let (r, ys) = lemma_cases(c, Seq::empty());
    assert(Seq::<(Seq<char>, Seq<TypeV>)>::empty() + ys =~= ys);
    r
}

/// `name: value`, with an optional comma behind it.
#[verifier::opaque]
pub open spec fn values_item(c: Cursor, x: (Seq<char>, ExprV), d: Cursor) -> bool {
    c.cur == TokenV::Ident(x.0) && (adv(c) matches Ok(c1) && (shorter(c, eat(c1, Token::Colon)) matches Ok(c2)
        && (p_expr(c2) matches Ok((e, c3)) && e == x.1 && shorter(c, opt_comma(c3)) == Ok::<
        Cursor,
        DiagnosticV,
    >(d))))
}

/// The `i`th of some items stands between two cursors.
pub open spec fn values_link(cs: Seq<Cursor>, xs: Seq<(Seq<char>, ExprV)>, i: int) -> bool {
    !cs[i].at(Token::RBrace) && values_item(cs[i], xs[i], cs[i + 1])
}

/// Such items in a row up to the end.
pub open spec fn values_row(cs: Seq<Cursor>, xs: Seq<(Seq<char>, ExprV)>) -> bool {
    &&& cs.len() == xs.len() + 1
    &&& forall|i: int| 0 <= i < xs.len() ==> #[trigger] values_link(cs, xs, i)
    &&& cs.last().at(Token::RBrace)
}

proof fn lemma_values_cons(
    c: Cursor,
    x: (Seq<char>, ExprV),
    rest: Seq<Cursor>,
    xs: Seq<(Seq<char>, ExprV)>
)
    requires
        !c.at(Token::RBrace),
        values_row(rest, xs),
        values_item(c, x, rest[0]),
    ensures
        values_row(seq![c] + rest, seq![x] + xs),
        (seq![c] + rest).last() == rest.last(),
{
    let cs = seq![c] + rest;
    let ys = seq![x] + xs;
    assert forall|i: int| 0 <= i < ys.len() implies #[trigger] values_link(cs, ys, i) by {
        if i > 0 {
            assert(values_link(rest, xs, i - 1));
            assert(ys[i] == xs[i - 1]);
            assert(cs[i] == rest[i - 1]);
            assert(cs[i + 1] == rest[i]);
        } else {
            assert(ys[0] == x);
            assert(cs[0] == c);
            assert(cs[1] == rest[0]);
        }
    }
    assert(cs.last() == rest.last());
    assert(cs.len() == ys.len() + 1);
}

proof fn lemma_values_step(c: Cursor, acc: Seq<(Seq<char>, ExprV)>)
    requires
        !c.at(Token::RBrace),
        p_field_values(c, acc) is Ok,
    ensures
        values_item(c, values_next(c).0, values_next(c).1),
        p_field_values(c, acc) == p_field_values(values_next(c).1, acc.push(values_next(c).0)),
        values_next(c).1.size() < c.size(),
{
    reveal(values_item);
    assert(p_field_values(c, acc) == rule_field_values(c, acc));
}

#[verifier::rlimit(60)]
proof fn lemma_values(
    c: Cursor,
    acc: Seq<(Seq<char>, ExprV)>,
) -> (r: (Seq<Cursor>, Seq<(Seq<char>, ExprV)>))
    ensures
        p_field_values(c, acc) matches Ok((xs, end)) ==> {
            &&& xs == acc + r.1
            &&& values_row(r.0, r.1)
            &&& r.0[0] == c
            &&& r.0.last() == end
        },
    decreases c.size(),
{
    if p_field_values(c, acc) is Ok {
        if c.at(Token::RBrace) {
            lemma_values_closes(c, acc);
            assert(acc + Seq::<(Seq<char>, ExprV)>::empty() =~= acc);
            (seq![c], Seq::empty())
        } else {
            let (x, d) = values_next(c);
            lemma_values_step(c, acc);
            let (rest, ys) = lemma_values(d, acc.push(x));
            lemma_values_cons(c, x, rest, ys);
            assert(acc.push(x) + ys =~= acc + (seq![x] + ys));
            (seq![c] + rest, seq![x] + ys)
        }
    } else {
        (Seq::empty(), Seq::empty())
    }
}

#[verifier::rlimit(60)]
proof fn lemma_values_reads(
    c: Cursor,
    x: (Seq<char>, ExprV),
    d: Cursor,
    acc: Seq<(Seq<char>, ExprV)>,
)
    requires
        !c.at(Token::RBrace),
        values_item(c, x, d),
    ensures
        p_field_values(c, acc) == p_field_values(d, acc.push(x)),
{
    reveal(values_item);
    assert(p_field_values(c, acc) == rule_field_values(c, acc));
}

proof fn lemma_values_closes(c: Cursor, acc: Seq<(Seq<char>, ExprV)>)
    requires
        c.at(Token::RBrace),
    ensures
        p_field_values(c, acc) == Ok::<(Seq<(Seq<char>, ExprV)>, Cursor), DiagnosticV>((acc, c)),
{
    assert(p_field_values(c, acc) == rule_field_values(c, acc));
}

proof fn lemma_values_back(
    cs: Seq<Cursor>,
    xs: Seq<(Seq<char>, ExprV)>,
    acc: Seq<(Seq<char>, ExprV)>,
    i: int,
)
    requires
        values_row(cs, xs),
        0 <= i <= xs.len(),
    ensures
        p_field_values(cs[i], acc) == Ok::<(Seq<(Seq<char>, ExprV)>, Cursor), DiagnosticV>((acc + xs.skip(i), cs.last())),
    decreases xs.len() - i,
{
    if i < xs.len() {
        assert(values_link(cs, xs, i));
        lemma_values_reads(cs[i], xs[i], cs[i + 1], acc);
        lemma_values_back(cs, xs, acc.push(xs[i]), i + 1);
        assert(acc.push(xs[i]) + xs.skip(i + 1) =~= acc + xs.skip(i));
    } else {
        lemma_values_closes(cs[i], acc);
        assert(acc + xs.skip(i) =~= acc);
    }
}

/// The fields of a struct literal are read in order, all of them, each with its value.
pub proof fn law_values(c: Cursor, cs: Seq<Cursor>, xs: Seq<(Seq<char>, ExprV)>) -> (r: Seq<Cursor>)
    ensures
        values_row(cs, xs) ==> p_field_values(cs[0], Seq::empty()) == Ok::<(Seq<(Seq<char>, ExprV)>, Cursor), DiagnosticV>(
            (xs, cs.last()),
        ),
        p_field_values(c, Seq::empty()) matches Ok((ys, end)) ==> values_row(r, ys) && r[0] == c && r.last()
            == end,
{
    if values_row(cs, xs) {
        lemma_values_back(cs, xs, Seq::empty(), 0);
        assert(Seq::<(Seq<char>, ExprV)>::empty() + xs.skip(0) =~= xs);
    }
    let (r, ys) = lemma_values(c, Seq::empty());
    assert(Seq::<(Seq<char>, ExprV)>::empty() + ys =~= ys);
    r
}

/// A function of an `impl`.
#[verifier::opaque]
pub open spec fn methods_item(c: Cursor, x: StmtV, d: Cursor) -> bool {
    p_fn(c) matches Ok((kind, d1)) && d1 == d && x == (StmtV { kind, span: c.span }) && d.size() < c.size()
}

/// The `i`th of some items stands between two cursors.
pub open spec fn methods_link(cs: Seq<Cursor>, xs: Seq<StmtV>, i: int) -> bool {
    !cs[i].at(Token::RBrace) && methods_item(cs[i], xs[i], cs[i + 1])
}

/// Such items in a row up to the end.
pub open spec fn methods_row(cs: Seq<Cursor>, xs: Seq<StmtV>) -> bool {
    &&& cs.len() == xs.len() + 1
    &&& forall|i: int| 0 <= i < xs.len() ==> #[trigger] methods_link(cs, xs, i)
    &&& cs.last().at(Token::RBrace)
}

proof fn lemma_methods_cons(
    c: Cursor,
    x: StmtV,
    rest: Seq<Cursor>,
    xs: Seq<StmtV>
)
    requires
        !c.at(Token::RBrace),
        methods_row(rest, xs),
        methods_item(c, x, rest[0]),
    ensures
        methods_row(seq![c] + rest, seq![x] + xs),
        (seq![c] + rest).last() == rest.last(),
{
    let cs = seq![c] + rest;
    let ys = seq![x] + xs;
    assert forall|i: int| 0 <= i < ys.len() implies #[trigger] methods_link(cs, ys, i) by {
        if i > 0 {
            assert(methods_link(rest, xs, i - 1));
            assert(ys[i] == xs[i - 1]);
            assert(cs[i] == rest[i - 1]);
            assert(cs[i + 1] == rest[i]);
        } else {
            assert(ys[0] == x);
            assert(cs[0] == c);
            assert(cs[1] == rest[0]);
        }
    }
    assert(cs.last() == rest.last());
    assert(cs.len() == ys.len() + 1);
}

proof fn lemma_methods_step(c: Cursor, acc: Seq<StmtV>)
    requires
        !c.at(Token::RBrace),
        p_methods(c, acc) is Ok,
    ensures
        methods_item(c, methods_next(c).0, methods_next(c).1),
        p_methods(c, acc) == p_methods(methods_next(c).1, acc.push(methods_next(c).0)),
        methods_next(c).1.size() < c.size(),
{
    reveal(methods_item);
    assert(p_methods(c, acc) == rule_methods(c, acc));
}

#[verifier::rlimit(60)]
proof fn lemma_methods(c: Cursor, acc: Seq<StmtV>) -> (r: (Seq<Cursor>, Seq<StmtV>))
    ensures
        p_methods(c, acc) matches Ok((xs, end)) ==> {
            &&& xs == acc + r.1
            &&& methods_row(r.0, r.1)
            &&& r.0[0] == c
            &&& r.0.last() == end
        },
    decreases c.size(),
{
    if p_methods(c, acc) is Ok {
        if c.at(Token::RBrace) {
            lemma_methods_closes(c, acc);
            assert(acc + Seq::<StmtV>::empty() =~= acc);
            (seq![c], Seq::empty())
        } else {
            let (x, d) = methods_next(c);
            lemma_methods_step(c, acc);
            let (rest, ys) = lemma_methods(d, acc.push(x));
            lemma_methods_cons(c, x, rest, ys);
            assert(acc.push(x) + ys =~= acc + (seq![x] + ys));
            (seq![c] + rest, seq![x] + ys)
        }
    } else {
        (Seq::empty(), Seq::empty())
    }
}

#[verifier::rlimit(60)]
proof fn lemma_methods_reads(c: Cursor, x: StmtV, d: Cursor, acc: Seq<StmtV>)
    requires
        !c.at(Token::RBrace),
        methods_item(c, x, d),
    ensures
        p_methods(c, acc) == p_methods(d, acc.push(x)),
{
    reveal(methods_item);
    assert(p_methods(c, acc) == rule_methods(c, acc));
}

proof fn lemma_methods_closes(c: Cursor, acc: Seq<StmtV>)
    requires
        c.at(Token::RBrace),
    ensures
        p_methods(c, acc) == Ok::<(Seq<StmtV>, Cursor), DiagnosticV>((acc, c)),
{
    assert(p_methods(c, acc) == rule_methods(c, acc));
}

proof fn lemma_methods_back(cs: Seq<Cursor>, xs: Seq<StmtV>, acc: Seq<StmtV>, i: int)
    requires
        methods_row(cs, xs),
        0 <= i <= xs.len(),
    ensures
        p_methods(cs[i], acc) == Ok::<(Seq<StmtV>, Cursor), DiagnosticV>((acc + xs.skip(i), cs.last())),
    decreases xs.len() - i,
{
    if i < xs.len() {
        assert(methods_link(cs, xs, i));
        lemma_methods_reads(cs[i], xs[i], cs[i + 1], acc);
        lemma_methods_back(cs, xs, acc.push(xs[i]), i + 1);
        assert(acc.push(xs[i]) + xs.skip(i + 1) =~= acc + xs.skip(i));
    } else {
        lemma_methods_closes(cs[i], acc);
        assert(acc + xs.skip(i) =~= acc);
    }
}

/// The functions of an `impl` are read in order, all of them.
pub proof fn law_methods(c: Cursor, cs: Seq<Cursor>, xs: Seq<StmtV>) -> (r: Seq<Cursor>)
    ensures
        methods_row(cs, xs) ==> p_methods(cs[0], Seq::empty()) == Ok::<(Seq<StmtV>, Cursor), DiagnosticV>(
            (xs, cs.last()),
        ),
        p_methods(c, Seq::empty()) matches Ok((ys, end)) ==> methods_row(r, ys) && r[0] == c && r.last()
            == end,
{
    if methods_row(cs, xs) {
        lemma_methods_back(cs, xs, Seq::empty(), 0);
        assert(Seq::<StmtV>::empty() + xs.skip(0) =~= xs);
    }
    let (r, ys) = lemma_methods(c, Seq::empty());
    assert(Seq::<StmtV>::empty() + ys =~= ys);
    r
}

/// A pattern, with an optional comma behind it.
#[verifier::opaque]
pub open spec fn patterns_item(c: Cursor, x: PatternV, d: Cursor) -> bool {
    p_pattern(c) matches Ok((p, c1)) && p == x && shorter(c, opt_comma(c1)) == Ok::<Cursor, DiagnosticV>(d)
}

/// The `i`th of some items stands between two cursors.
pub open spec fn patterns_link(cs: Seq<Cursor>, xs: Seq<PatternV>, i: int) -> bool {
    !cs[i].at(Token::RParen) && patterns_item(cs[i], xs[i], cs[i + 1])
}

/// Such items in a row up to the end.
pub open spec fn patterns_row(cs: Seq<Cursor>, xs: Seq<PatternV>) -> bool {
    &&& cs.len() == xs.len() + 1
    &&& forall|i: int| 0 <= i < xs.len() ==> #[trigger] patterns_link(cs, xs, i)
    &&& cs.last().at(Token::RParen)
}

proof fn lemma_patterns_cons(
    c: Cursor,
    x: PatternV,
    rest: Seq<Cursor>,
    xs: Seq<PatternV>
)
    requires
        !c.at(Token::RParen),
        patterns_row(rest, xs),
        patterns_item(c, x, rest[0]),
    ensures
        patterns_row(seq![c] + rest, seq![x] + xs),
        (seq![c] + rest).last() == rest.last(),
{
    let cs = seq![c] + rest;
    let ys = seq![x] + xs;
    assert forall|i: int| 0 <= i < ys.len() implies #[trigger] patterns_link(cs, ys, i) by {
        if i > 0 {
            assert(patterns_link(rest, xs, i - 1));
            assert(ys[i] == xs[i - 1]);
            assert(cs[i] == rest[i - 1]);
            assert(cs[i + 1] == rest[i]);
        } else {
            assert(ys[0] == x);
            assert(cs[0] == c);
            assert(cs[1] == rest[0]);
        }
    }
    assert(cs.last() == rest.last());
    assert(cs.len() == ys.len() + 1);
}

proof fn lemma_patterns_step(c: Cursor, acc: Seq<PatternV>)
    requires
        !c.at(Token::RParen),
        p_patterns_until(c, acc) is Ok,
    ensures
        patterns_item(c, patterns_next(c).0, patterns_next(c).1),
        p_patterns_until(c, acc) == p_patterns_until(patterns_next(c).1, acc.push(patterns_next(c).0)),
        patterns_next(c).1.size() < c.size(),
{
    reveal(patterns_item);
}

#[verifier::rlimit(60)]
proof fn lemma_patterns(c: Cursor, acc: Seq<PatternV>) -> (r: (Seq<Cursor>, Seq<PatternV>))
    ensures
        p_patterns_until(c, acc) matches Ok((xs, end)) ==> {
            &&& xs == acc + r.1
            &&& patterns_row(r.0, r.1)
            &&& r.0[0] == c
            &&& r.0.last() == end
        },
    decreases c.size(),
{
    if p_patterns_until(c, acc) is Ok {
        if c.at(Token::RParen) {
            lemma_patterns_closes(c, acc);
            assert(acc + Seq::<PatternV>::empty() =~= acc);
            (seq![c], Seq::empty())
        } else {
            let (x, d) = patterns_next(c);
            lemma_patterns_step(c, acc);
            let (rest, ys) = lemma_patterns(d, acc.push(x));
            lemma_patterns_cons(c, x, rest, ys);
            assert(acc.push(x) + ys =~= acc + (seq![x] + ys));
            (seq![c] + rest, seq![x] + ys)
        }
    } else {
        (Seq::empty(), Seq::empty())
    }
}

#[verifier::rlimit(60)]
proof fn lemma_patterns_reads(c: Cursor, x: PatternV, d: Cursor, acc: Seq<PatternV>)
    requires
        !c.at(Token::RParen),
        patterns_item(c, x, d),
    ensures
        p_patterns_until(c, acc) == p_patterns_until(d, acc.push(x)),
{
    reveal(patterns_item);
}

proof fn lemma_patterns_closes(c: Cursor, acc: Seq<PatternV>)
    requires
        c.at(Token::RParen),
    ensures
        p_patterns_until(c, acc) == Ok::<(Seq<PatternV>, Cursor), DiagnosticV>((acc, c)),
{
}

proof fn lemma_patterns_back(cs: Seq<Cursor>, xs: Seq<PatternV>, acc: Seq<PatternV>, i: int)
    requires
        patterns_row(cs, xs),
        0 <= i <= xs.len(),
    ensures
        p_patterns_until(cs[i], acc) == Ok::<(Seq<PatternV>, Cursor), DiagnosticV>((acc + xs.skip(i), cs.last())),
    decreases xs.len() - i,
{
    if i < xs.len() {
        assert(patterns_link(cs, xs, i));
        lemma_patterns_reads(cs[i], xs[i], cs[i + 1], acc);
        lemma_patterns_back(cs, xs, acc.push(xs[i]), i + 1);
        assert(acc.push(xs[i]) + xs.skip(i + 1) =~= acc + xs.skip(i));
    } else {
        lemma_patterns_closes(cs[i], acc);
        assert(acc + xs.skip(i) =~= acc);
    }
}

/// The patterns for a payload are read in order, all of them.
pub proof fn law_patterns(c: Cursor, cs: Seq<Cursor>, xs: Seq<PatternV>) -> (r: Seq<Cursor>)
    ensures
        patterns_row(cs, xs) ==> p_patterns_until(cs[0], Seq::empty()) == Ok::<(Seq<PatternV>, Cursor), DiagnosticV>(
            (xs, cs.last()),
        ),
        p_patterns_until(c, Seq::empty()) matches Ok((ys, end)) ==> patterns_row(r, ys) && r[0] == c && r.last()
            == end,
{
    if patterns_row(cs, xs) {
        lemma_patterns_back(cs, xs, Seq::empty(), 0);
        assert(Seq::<PatternV>::empty() + xs.skip(0) =~= xs);
    }
    let (r, ys) = lemma_patterns(c, Seq::empty());
    assert(Seq::<PatternV>::empty() + ys =~= ys);
    r
}

/// A name, with an optional comma behind it.
#[verifier::opaque]
pub open spec fn names_row_item(
    c: Cursor,
    x: Seq<char>,
    d: Cursor,
    close: Token,
    what: Seq<char>,
) -> bool {
    c.cur == TokenV::Ident(x) && (adv(c) matches Ok(c1) && shorter(c, opt_comma(c1)) == Ok::<Cursor, DiagnosticV>(
        d,
    ))
}

/// The `i`th of some items stands between two cursors.
pub open spec fn names_row_link(
    cs: Seq<Cursor>,
    xs: Seq<Seq<char>>,
    close: Token,
    what: Seq<char>,
    i: int,
) -> bool {
    !cs[i].at(close) && names_row_item(cs[i], xs[i], cs[i + 1], close, what)
}

/// Such items in a row up to the end.
pub open spec fn names_row_row(
    cs: Seq<Cursor>,
    xs: Seq<Seq<char>>,
    close: Token,
    what: Seq<char>,
) -> bool {
    &&& cs.len() == xs.len() + 1
    &&& forall|i: int| 0 <= i < xs.len() ==> #[trigger] names_row_link(cs, xs, close, what, i)
    &&& cs.last().at(close)
}

proof fn lemma_names_row_cons(
    c: Cursor,
    x: Seq<char>,
    rest: Seq<Cursor>,
    xs: Seq<Seq<char>>, close: Token, what: Seq<char>,
)
    requires
        !c.at(close),
        names_row_row(rest, xs, close, what),
        names_row_item(c, x, rest[0], close, what),
    ensures
        names_row_row(seq![c] + rest, seq![x] + xs, close, what),
        (seq![c] + rest).last() == rest.last(),
{
    let cs = seq![c] + rest;
    let ys = seq![x] + xs;
    assert forall|i: int| 0 <= i < ys.len() implies #[trigger] names_row_link(cs, ys, close, what, i) by {
        if i > 0 {
            assert(names_row_link(rest, xs, close, what, i - 1));
            assert(ys[i] == xs[i - 1]);
            assert(cs[i] == rest[i - 1]);
            assert(cs[i + 1] == rest[i]);
        } else {
            assert(ys[0] == x);
            assert(cs[0] == c);
            assert(cs[1] == rest[0]);
        }
    }
    assert(cs.last() == rest.last());
    assert(cs.len() == ys.len() + 1);
}

proof fn lemma_names_row_step(c: Cursor, close: Token, what: Seq<char>, acc: Seq<Seq<char>>)
    requires
        !c.at(close),
        p_names_until(c, close, what, acc) is Ok,
    ensures
        names_row_item(c, names_row_next(c, close, what).0, names_row_next(c, close, what).1, close, what),
        p_names_until(c, close, what, acc) == p_names_until(names_row_next(c, close, what).1, close, what, acc.push(names_row_next(c, close, what).0)),
        names_row_next(c, close, what).1.size() < c.size(),
{
    reveal(names_row_item);
}

#[verifier::rlimit(60)]
proof fn lemma_names_row(
    c: Cursor,
    close: Token,
    what: Seq<char>,
    acc: Seq<Seq<char>>,
) -> (r: (Seq<Cursor>, Seq<Seq<char>>))
    ensures
        p_names_until(c, close, what, acc) matches Ok((xs, end)) ==> {
            &&& xs == acc + r.1
            &&& names_row_row(r.0, r.1, close, what)
            &&& r.0[0] == c
            &&& r.0.last() == end
        },
    decreases c.size(),
{
    if p_names_until(c, close, what, acc) is Ok {
        if c.at(close) {
            lemma_names_row_closes(c, close, what, acc);
            assert(acc + Seq::<Seq<char>>::empty() =~= acc);
            (seq![c], Seq::empty())
        } else {
            let (x, d) = names_row_next(c, close, what);
            lemma_names_row_step(c, close, what, acc);
            let (rest, ys) = lemma_names_row(d, close, what, acc.push(x));
            lemma_names_row_cons(c, x, rest, ys, close, what);
            assert(acc.push(x) + ys =~= acc + (seq![x] + ys));
            (seq![c] + rest, seq![x] + ys)
        }
    } else {
        (Seq::empty(), Seq::empty())
    }
}

#[verifier::rlimit(60)]
proof fn lemma_names_row_reads(
    c: Cursor,
    x: Seq<char>,
    d: Cursor,
    close: Token,
    what: Seq<char>,
    acc: Seq<Seq<char>>,
)
    requires
        !c.at(close),
        names_row_item(c, x, d, close, what),
    ensures
        p_names_until(c, close, what, acc) == p_names_until(d, close, what, acc.push(x)),
{
    reveal(names_row_item);
}

proof fn lemma_names_row_closes(c: Cursor, close: Token, what: Seq<char>, acc: Seq<Seq<char>>)
    requires
        c.at(close),
    ensures
        p_names_until(c, close, what, acc) == Ok::<(Seq<Seq<char>>, Cursor), DiagnosticV>((acc, c)),
{
}

proof fn lemma_names_row_back(
    cs: Seq<Cursor>,
    xs: Seq<Seq<char>>,
    close: Token,
    what: Seq<char>,
    acc: Seq<Seq<char>>,
    i: int,
)
    requires
        names_row_row(cs, xs, close, what),
        0 <= i <= xs.len(),
    ensures
        p_names_until(cs[i], close, what, acc) == Ok::<(Seq<Seq<char>>, Cursor), DiagnosticV>((acc + xs.skip(i), cs.last())),
    decreases xs.len() - i,
{
    if i < xs.len() {
        assert(names_row_link(cs, xs, close, what, i));
        lemma_names_row_reads(cs[i], xs[i], cs[i + 1], close, what, acc);
        lemma_names_row_back(cs, xs, close, what, acc.push(xs[i]), i + 1);
        assert(acc.push(xs[i]) + xs.skip(i + 1) =~= acc + xs.skip(i));
    } else {
        lemma_names_row_closes(cs[i], close, what, acc);
        assert(acc + xs.skip(i) =~= acc);
    }
}

/// Names are read in order, all of them, up to the closing token.
pub proof fn law_names_row(
    c: Cursor,
    close: Token,
    what: Seq<char>,
    cs: Seq<Cursor>,
    xs: Seq<Seq<char>>,
) -> (r: Seq<Cursor>)
    ensures
        names_row_row(cs, xs, close, what) ==> p_names_until(cs[0], close, what, Seq::empty()) == Ok::<(Seq<Seq<char>>, Cursor), DiagnosticV>(
            (xs, cs.last()),
        ),
        p_names_until(c, close, what, Seq::empty()) matches Ok((ys, end)) ==> names_row_row(r, ys, close, what) && r[0] == c && r.last()
            == end,
{
    if names_row_row(cs, xs, close, what) {
        lemma_names_row_back(cs, xs, close, what, Seq::empty(), 0);
        assert(Seq::<Seq<char>>::empty() + xs.skip(0) =~= xs);
    }
    let (r, ys) = lemma_names_row(c, close, what, Seq::empty());
    assert(Seq::<Seq<char>>::empty() + ys =~= ys);
    r
}

/// The signature of a method of a trait.
#[verifier::opaque]
pub open spec fn required_item(c: Cursor, x: TraitMethodV, d: Cursor) -> bool {
    eat(c, Token::Fn) matches Ok(c1) && c1.cur == TokenV::Ident(x.name) && (adv(c1) matches Ok(c2) && (p_signature(
        c2,
        true,
    ) matches Ok((sig, c3)) && sig.0 == x.params && sig.1 == x.ret && shorter(c, eat(c3, Token::Semicolon)) == Ok::<
        Cursor,
        DiagnosticV,
    >(d)))
}

/// The `i`th of some items stands between two cursors.
pub open spec fn required_link(cs: Seq<Cursor>, xs: Seq<TraitMethodV>, i: int) -> bool {
    !cs[i].at(Token::RBrace) && required_item(cs[i], xs[i], cs[i + 1])
}

/// Such items in a row up to the end.
pub open spec fn required_row(cs: Seq<Cursor>, xs: Seq<TraitMethodV>) -> bool {
    &&& cs.len() == xs.len() + 1
    &&& forall|i: int| 0 <= i < xs.len() ==> #[trigger] required_link(cs, xs, i)
    &&& cs.last().at(Token::RBrace)
}

proof fn lemma_required_cons(
    c: Cursor,
    x: TraitMethodV,
    rest: Seq<Cursor>,
    xs: Seq<TraitMethodV>
)
    requires
        !c.at(Token::RBrace),
        required_row(rest, xs),
        required_item(c, x, rest[0]),
    ensures
        required_row(seq![c] + rest, seq![x] + xs),
        (seq![c] + rest).last() == rest.last(),
{
    let cs = seq![c] + rest;
    let ys = seq![x] + xs;
    assert forall|i: int| 0 <= i < ys.len() implies #[trigger] required_link(cs, ys, i) by {
        if i > 0 {
            assert(required_link(rest, xs, i - 1));
            assert(ys[i] == xs[i - 1]);
            assert(cs[i] == rest[i - 1]);
            assert(cs[i + 1] == rest[i]);
        } else {
            assert(ys[0] == x);
            assert(cs[0] == c);
            assert(cs[1] == rest[0]);
        }
    }
    assert(cs.last() == rest.last());
    assert(cs.len() == ys.len() + 1);
}

proof fn lemma_required_step(c: Cursor, acc: Seq<TraitMethodV>)
    requires
        !c.at(Token::RBrace),
        p_trait_methods(c, acc) is Ok,
    ensures
        required_item(c, required_next(c).0, required_next(c).1),
        p_trait_methods(c, acc) == p_trait_methods(required_next(c).1, acc.push(required_next(c).0)),
        required_next(c).1.size() < c.size(),
{
    reveal(required_item);
}

#[verifier::rlimit(60)]
proof fn lemma_required(c: Cursor, acc: Seq<TraitMethodV>) -> (r: (Seq<Cursor>, Seq<TraitMethodV>))
    ensures
        p_trait_methods(c, acc) matches Ok((xs, end)) ==> {
            &&& xs == acc + r.1
            &&& required_row(r.0, r.1)
            &&& r.0[0] == c
            &&& r.0.last() == end
        },
    decreases c.size(),
{
    if p_trait_methods(c, acc) is Ok {
        if c.at(Token::RBrace) {
            lemma_required_closes(c, acc);
            assert(acc + Seq::<TraitMethodV>::empty() =~= acc);
            (seq![c], Seq::empty())
        } else {
            let (x, d) = required_next(c);
            lemma_required_step(c, acc);
            let (rest, ys) = lemma_required(d, acc.push(x));
            lemma_required_cons(c, x, rest, ys);
            assert(acc.push(x) + ys =~= acc + (seq![x] + ys));
            (seq![c] + rest, seq![x] + ys)
        }
    } else {
        (Seq::empty(), Seq::empty())
    }
}

#[verifier::rlimit(60)]
proof fn lemma_required_reads(c: Cursor, x: TraitMethodV, d: Cursor, acc: Seq<TraitMethodV>)
    requires
        !c.at(Token::RBrace),
        required_item(c, x, d),
    ensures
        p_trait_methods(c, acc) == p_trait_methods(d, acc.push(x)),
{
    reveal(required_item);
}

proof fn lemma_required_closes(c: Cursor, acc: Seq<TraitMethodV>)
    requires
        c.at(Token::RBrace),
    ensures
        p_trait_methods(c, acc) == Ok::<(Seq<TraitMethodV>, Cursor), DiagnosticV>((acc, c)),
{
}

proof fn lemma_required_back(cs: Seq<Cursor>, xs: Seq<TraitMethodV>, acc: Seq<TraitMethodV>, i: int)
    requires
        required_row(cs, xs),
        0 <= i <= xs.len(),
    ensures
        p_trait_methods(cs[i], acc) == Ok::<(Seq<TraitMethodV>, Cursor), DiagnosticV>((acc + xs.skip(i), cs.last())),
    decreases xs.len() - i,
{
    if i < xs.len() {
        assert(required_link(cs, xs, i));
        lemma_required_reads(cs[i], xs[i], cs[i + 1], acc);
        lemma_required_back(cs, xs, acc.push(xs[i]), i + 1);
        assert(acc.push(xs[i]) + xs.skip(i + 1) =~= acc + xs.skip(i));
    } else {
        lemma_required_closes(cs[i], acc);
        assert(acc + xs.skip(i) =~= acc);
    }
}

/// The methods of a trait are read in order, all of them.
pub proof fn law_required(c: Cursor, cs: Seq<Cursor>, xs: Seq<TraitMethodV>) -> (r: Seq<Cursor>)
    ensures
        required_row(cs, xs) ==> p_trait_methods(cs[0], Seq::empty()) == Ok::<(Seq<TraitMethodV>, Cursor), DiagnosticV>(
            (xs, cs.last()),
        ),
        p_trait_methods(c, Seq::empty()) matches Ok((ys, end)) ==> required_row(r, ys) && r[0] == c && r.last()
            == end,
{
    if required_row(cs, xs) {
        lemma_required_back(cs, xs, Seq::empty(), 0);
        assert(Seq::<TraitMethodV>::empty() + xs.skip(0) =~= xs);
    }
    let (r, ys) = lemma_required(c, Seq::empty());
    assert(Seq::<TraitMethodV>::empty() + ys =~= ys);
    r
}

} // verus!
