//! How source text is read: which tokens make up which construct, that nothing else does,
//! and that every part of it stands in the tree, in its place and in its order.

use crate::ast::{ExprKindV, ExprV, PatternV, StmtKindV, StmtV, TraitMethodV, TypeV, UnaryOp};
use crate::diagnostic::{DiagnosticV, Span};
use crate::grammar::{
    adv, block_value, branch_value, builtin_type, capitalised, eat, expr_v, name_of,
    opt_comma, p_alternatives, p_arms, p_array, p_assign, p_binop, p_body, p_cases, p_else,
    p_else_expr, p_enum, p_expr, p_expr_stmt, p_exprs_until, p_field_decls, p_field_values, p_fn,
    p_for, p_for_expr, p_foreign, p_generics, p_guard, p_if, p_if_expr, p_impl, p_impl_for,
    p_import, p_jump, p_let, p_macro, p_match, p_methods, p_named, p_names_until, p_params,
    p_paren, p_pattern, p_patterns_until, p_payload, p_postfix, p_postfix_rest, p_primary,
    p_signature, p_stmt, p_stmt_kind, p_stmts_until, p_struct, p_struct_lit, p_trait,
    p_trait_methods, p_type, p_type_after, p_types_until, p_unary, p_variant, p_while,
    p_while_expr, parsed, rule_arms, rule_array, rule_assign, rule_body, rule_else, rule_else_expr,
    rule_expr, rule_expr_stmt, rule_fn, rule_for, rule_for_expr, rule_guard, rule_if, rule_if_expr,
    rule_impl, rule_jump, rule_let, rule_macro, rule_match, rule_named, rule_paren,
    rule_postfix_rest, rule_primary, rule_stmt, rule_stmt_kind, rule_struct_lit, rule_unary,
    rule_while, rule_while_expr, start, Cursor,
};
use crate::lexer::{Scan, Token, TokenV};
use crate::list_laws::{law_stmts, stmts_row};
use vstd::prelude::*;

verus! {

// ---- tokens ----

/// A keyword or a symbol stands at `c`, and `d` is behind it.
pub open spec fn passes(c: Cursor, t: Token, d: Cursor) -> bool {
    c.cur == TokenV::Fixed(t) && adv(c) == Ok::<Cursor, DiagnosticV>(d)
}

/// A name stands at `c`, and `d` is behind it.
pub open spec fn names(c: Cursor, name: Seq<char>, d: Cursor) -> bool {
    c.cur == TokenV::Ident(name) && adv(c) == Ok::<Cursor, DiagnosticV>(d)
}

/// A token that has to stand there is passed, and no other one is.
pub proof fn law_expected_token(c: Cursor, t: Token, d: Cursor)
    ensures
        eat(c, t) == Ok::<Cursor, DiagnosticV>(d) <==> passes(c, t, d),
        opt_comma(c) == Ok::<Cursor, DiagnosticV>(d) <==> (passes(c, Token::Comma, d) || c.cur
            != TokenV::Fixed(Token::Comma) && d == c),
{
}

// ---- constructs ----

/// The tokens of `let name: type = value;`.
pub open spec fn let_form(
    c: Cursor,
    name: Seq<char>,
    ty: TypeV,
    value: ExprV,
    c1: Cursor,
    c2: Cursor,
    c3: Cursor,
    c4: Cursor,
    c5: Cursor,
    end: Cursor,
) -> bool {
    &&& adv(c) == Ok::<Cursor, DiagnosticV>(c1)
    &&& names(c1, name, c2)
    &&& p_type_after(c2, Token::Colon, TypeV::Inferred) == Ok::<(TypeV, Cursor), DiagnosticV>((ty, c3))
    &&& passes(c3, Token::Assign, c4)
    &&& c4.size() < c.size()
    &&& p_expr(c4) == Ok::<(ExprV, Cursor), DiagnosticV>((value, c5))
    &&& passes(c5, Token::Semicolon, end)
}

/// A `let` is read as its name, its type and its value.
pub proof fn law_let(
    c: Cursor,
    name: Seq<char>,
    ty: TypeV,
    value: ExprV,
    c1: Cursor,
    c2: Cursor,
    c3: Cursor,
    c4: Cursor,
    c5: Cursor,
    end: Cursor,
)
    requires
        let_form(c, name, ty, value, c1, c2, c3, c4, c5, end),
    ensures
        p_let(c) == Ok::<(StmtKindV, Cursor), DiagnosticV>(((StmtKindV::Let { name: name, ty: ty, value: value }), end)),
{
    assert(p_let(c) == rule_let(c));
}

/// Nothing else is read so.
pub proof fn law_let_only(
    c: Cursor,
) -> (r: (Seq<char>, TypeV, ExprV, Cursor, Cursor, Cursor, Cursor, Cursor))
    ensures
        p_let(c) matches Ok((x, end)) ==> x == (StmtKindV::Let { name: r.0, ty: r.1, value: r.2 }) && let_form(c, r.0, r.1, r.2, r.3, r.4, r.5, r.6, r.7, end),
{
    assert(p_let(c) == rule_let(c));
    let c1 = adv(c)->Ok_0;
    let name = c1.cur->Ident_0;
    let c2 = adv(c1)->Ok_0;
    let ty = p_type_after(c2, Token::Colon, TypeV::Inferred)->Ok_0.0;
    let c3 = p_type_after(c2, Token::Colon, TypeV::Inferred)->Ok_0.1;
    let c4 = adv(c3)->Ok_0;
    let value = p_expr(c4)->Ok_0.0;
    let c5 = p_expr(c4)->Ok_0.1;
    (name, ty, value, c1, c2, c3, c4, c5)
}

/// The tokens of a function.
pub open spec fn fn_form(
    c: Cursor,
    name: Seq<char>,
    generics: Seq<Seq<char>>,
    sig: (Seq<(Seq<char>, TypeV)>, TypeV),
    body: Seq<StmtV>,
    c1: Cursor,
    c2: Cursor,
    c3: Cursor,
    c4: Cursor,
    end: Cursor,
) -> bool {
    &&& adv(c) == Ok::<Cursor, DiagnosticV>(c1)
    &&& names(c1, name, c2)
    &&& p_generics(c2) == Ok::<(Seq<Seq<char>>, Cursor), DiagnosticV>((generics, c3))
    &&& p_signature(c3, true) == Ok::<((Seq<(Seq<char>, TypeV)>, TypeV), Cursor), DiagnosticV>((sig, c4))
    &&& c4.size() < c.size()
    &&& p_body(c4) == Ok::<(Seq<StmtV>, Cursor), DiagnosticV>((body, end))
}

/// A function is read as its name, its type parameters, its parameters, its result type and its body.
pub proof fn law_fn(
    c: Cursor,
    name: Seq<char>,
    generics: Seq<Seq<char>>,
    sig: (Seq<(Seq<char>, TypeV)>, TypeV),
    body: Seq<StmtV>,
    c1: Cursor,
    c2: Cursor,
    c3: Cursor,
    c4: Cursor,
    end: Cursor,
)
    requires
        fn_form(c, name, generics, sig, body, c1, c2, c3, c4, end),
    ensures
        p_fn(c) == Ok::<(StmtKindV, Cursor), DiagnosticV>(((StmtKindV::Fn { name: name, generics: generics, params: sig.0, ret: sig.1, body: body }), end)),
{
    assert(p_fn(c) == rule_fn(c));
}

/// Nothing else is read so.
pub proof fn law_fn_only(
    c: Cursor,
) -> (r: (Seq<char>, Seq<Seq<char>>, (Seq<(Seq<char>, TypeV)>, TypeV), Seq<StmtV>, Cursor, Cursor, Cursor, Cursor))
    ensures
        p_fn(c) matches Ok((x, end)) ==> x == (StmtKindV::Fn { name: r.0, generics: r.1, params: r.2.0, ret: r.2.1, body: r.3 }) && fn_form(c, r.0, r.1, r.2, r.3, r.4, r.5, r.6, r.7, end),
{
    assert(p_fn(c) == rule_fn(c));
    let c1 = adv(c)->Ok_0;
    let name = c1.cur->Ident_0;
    let c2 = adv(c1)->Ok_0;
    let generics = p_generics(c2)->Ok_0.0;
    let c3 = p_generics(c2)->Ok_0.1;
    let sig = p_signature(c3, true)->Ok_0.0;
    let c4 = p_signature(c3, true)->Ok_0.1;
    let body = p_body(c4)->Ok_0.0;
    (name, generics, sig, body, c1, c2, c3, c4)
}

/// The tokens of a struct.
pub open spec fn struct_form(
    c: Cursor,
    name: Seq<char>,
    generics: Seq<Seq<char>>,
    fields: Seq<(Seq<char>, TypeV)>,
    c1: Cursor,
    c2: Cursor,
    c3: Cursor,
    c4: Cursor,
    c5: Cursor,
    end: Cursor,
) -> bool {
    &&& adv(c) == Ok::<Cursor, DiagnosticV>(c1)
    &&& names(c1, name, c2)
    &&& p_generics(c2) == Ok::<(Seq<Seq<char>>, Cursor), DiagnosticV>((generics, c3))
    &&& passes(c3, Token::LBrace, c4)
    &&& p_field_decls(c4, Seq::empty()) == Ok::<(Seq<(Seq<char>, TypeV)>, Cursor), DiagnosticV>((fields, c5))
    &&& passes(c5, Token::RBrace, end)
}

/// A struct is read as its name, its type parameters and its fields.
pub proof fn law_struct(
    c: Cursor,
    name: Seq<char>,
    generics: Seq<Seq<char>>,
    fields: Seq<(Seq<char>, TypeV)>,
    c1: Cursor,
    c2: Cursor,
    c3: Cursor,
    c4: Cursor,
    c5: Cursor,
    end: Cursor,
)
    requires
        struct_form(c, name, generics, fields, c1, c2, c3, c4, c5, end),
    ensures
        p_struct(c) == Ok::<(StmtKindV, Cursor), DiagnosticV>(((StmtKindV::Struct { name: name, generics: generics, fields: fields }), end)),
{
}

/// Nothing else is read so.
pub proof fn law_struct_only(
    c: Cursor,
) -> (r: (Seq<char>, Seq<Seq<char>>, Seq<(Seq<char>, TypeV)>, Cursor, Cursor, Cursor, Cursor, Cursor))
    ensures
        p_struct(c) matches Ok((x, end)) ==> x == (StmtKindV::Struct { name: r.0, generics: r.1, fields: r.2 }) && struct_form(c, r.0, r.1, r.2, r.3, r.4, r.5, r.6, r.7, end),
{
    let c1 = adv(c)->Ok_0;
    let name = c1.cur->Ident_0;
    let c2 = adv(c1)->Ok_0;
    let generics = p_generics(c2)->Ok_0.0;
    let c3 = p_generics(c2)->Ok_0.1;
    let c4 = adv(c3)->Ok_0;
    let fields = p_field_decls(c4, Seq::empty())->Ok_0.0;
    let c5 = p_field_decls(c4, Seq::empty())->Ok_0.1;
    (name, generics, fields, c1, c2, c3, c4, c5)
}

/// The tokens of an enum.
pub open spec fn enum_form(
    c: Cursor,
    name: Seq<char>,
    variants: Seq<(Seq<char>, Seq<TypeV>)>,
    c1: Cursor,
    c2: Cursor,
    c3: Cursor,
    c4: Cursor,
    end: Cursor,
) -> bool {
    &&& adv(c) == Ok::<Cursor, DiagnosticV>(c1)
    &&& names(c1, name, c2)
    &&& passes(c2, Token::LBrace, c3)
    &&& p_cases(c3, Seq::empty()) == Ok::<(Seq<(Seq<char>, Seq<TypeV>)>, Cursor), DiagnosticV>((variants, c4))
    &&& passes(c4, Token::RBrace, end)
}

/// An enum is read as its name and its variants.
pub proof fn law_enum(
    c: Cursor,
    name: Seq<char>,
    variants: Seq<(Seq<char>, Seq<TypeV>)>,
    c1: Cursor,
    c2: Cursor,
    c3: Cursor,
    c4: Cursor,
    end: Cursor,
)
    requires
        enum_form(c, name, variants, c1, c2, c3, c4, end),
    ensures
        p_enum(c) == Ok::<(StmtKindV, Cursor), DiagnosticV>(((StmtKindV::Enum { name: name, variants: variants }), end)),
{
}

/// Nothing else is read so.
pub proof fn law_enum_only(
    c: Cursor,
) -> (r: (Seq<char>, Seq<(Seq<char>, Seq<TypeV>)>, Cursor, Cursor, Cursor, Cursor))
    ensures
        p_enum(c) matches Ok((x, end)) ==> x == (StmtKindV::Enum { name: r.0, variants: r.1 }) && enum_form(c, r.0, r.1, r.2, r.3, r.4, r.5, end),
{
    let c1 = adv(c)->Ok_0;
    let name = c1.cur->Ident_0;
    let c2 = adv(c1)->Ok_0;
    let c3 = adv(c2)->Ok_0;
    let variants = p_cases(c3, Seq::empty())->Ok_0.0;
    let c4 = p_cases(c3, Seq::empty())->Ok_0.1;
    (name, variants, c1, c2, c3, c4)
}

/// The tokens of a trait.
pub open spec fn trait_form(
    c: Cursor,
    name: Seq<char>,
    methods: Seq<TraitMethodV>,
    c1: Cursor,
    c2: Cursor,
    c3: Cursor,
    c4: Cursor,
    end: Cursor,
) -> bool {
    &&& adv(c) == Ok::<Cursor, DiagnosticV>(c1)
    &&& names(c1, name, c2)
    &&& passes(c2, Token::LBrace, c3)
    &&& p_trait_methods(c3, Seq::empty()) == Ok::<(Seq<TraitMethodV>, Cursor), DiagnosticV>((methods, c4))
    &&& passes(c4, Token::RBrace, end)
}

/// A trait is read as its name and its methods.
pub proof fn law_trait(
    c: Cursor,
    name: Seq<char>,
    methods: Seq<TraitMethodV>,
    c1: Cursor,
    c2: Cursor,
    c3: Cursor,
    c4: Cursor,
    end: Cursor,
)
    requires
        trait_form(c, name, methods, c1, c2, c3, c4, end),
    ensures
        p_trait(c) == Ok::<(StmtKindV, Cursor), DiagnosticV>(((StmtKindV::Trait { name: name, methods: methods }), end)),
{
}

/// Nothing else is read so.
pub proof fn law_trait_only(
    c: Cursor,
) -> (r: (Seq<char>, Seq<TraitMethodV>, Cursor, Cursor, Cursor, Cursor))
    ensures
        p_trait(c) matches Ok((x, end)) ==> x == (StmtKindV::Trait { name: r.0, methods: r.1 }) && trait_form(c, r.0, r.1, r.2, r.3, r.4, r.5, end),
{
    let c1 = adv(c)->Ok_0;
    let name = c1.cur->Ident_0;
    let c2 = adv(c1)->Ok_0;
    let c3 = adv(c2)->Ok_0;
    let methods = p_trait_methods(c3, Seq::empty())->Ok_0.0;
    let c4 = p_trait_methods(c3, Seq::empty())->Ok_0.1;
    (name, methods, c1, c2, c3, c4)
}

/// The tokens of an `impl`.
pub open spec fn impl_form(
    c: Cursor,
    first: Seq<char>,
    pair: (Seq<char>, Seq<char>),
    methods: Seq<StmtV>,
    c1: Cursor,
    c2: Cursor,
    c3: Cursor,
    c4: Cursor,
    c5: Cursor,
    end: Cursor,
) -> bool {
    &&& adv(c) == Ok::<Cursor, DiagnosticV>(c1)
    &&& names(c1, first, c2)
    &&& p_impl_for(c2, first) == Ok::<((Seq<char>, Seq<char>), Cursor), DiagnosticV>((pair, c3))
    &&& passes(c3, Token::LBrace, c4)
    &&& c4.size() < c.size()
    &&& p_methods(c4, Seq::empty()) == Ok::<(Seq<StmtV>, Cursor), DiagnosticV>((methods, c5))
    &&& passes(c5, Token::RBrace, end)
}

/// An `impl` is read as its trait, its type and its functions.
pub proof fn law_impl(
    c: Cursor,
    first: Seq<char>,
    pair: (Seq<char>, Seq<char>),
    methods: Seq<StmtV>,
    c1: Cursor,
    c2: Cursor,
    c3: Cursor,
    c4: Cursor,
    c5: Cursor,
    end: Cursor,
)
    requires
        impl_form(c, first, pair, methods, c1, c2, c3, c4, c5, end),
    ensures
        p_impl(c) == Ok::<(StmtKindV, Cursor), DiagnosticV>(((StmtKindV::Impl { trait_name: pair.0, for_type: pair.1, methods: methods }), end)),
{
    assert(p_impl(c) == rule_impl(c));
}

/// Nothing else is read so.
pub proof fn law_impl_only(
    c: Cursor,
) -> (r: (Seq<char>, (Seq<char>, Seq<char>), Seq<StmtV>, Cursor, Cursor, Cursor, Cursor, Cursor))
    ensures
        p_impl(c) matches Ok((x, end)) ==> x == (StmtKindV::Impl { trait_name: r.1.0, for_type: r.1.1, methods: r.2 }) && impl_form(c, r.0, r.1, r.2, r.3, r.4, r.5, r.6, r.7, end),
{
    assert(p_impl(c) == rule_impl(c));
    let c1 = adv(c)->Ok_0;
    let first = c1.cur->Ident_0;
    let c2 = adv(c1)->Ok_0;
    let pair = p_impl_for(c2, first)->Ok_0.0;
    let c3 = p_impl_for(c2, first)->Ok_0.1;
    let c4 = adv(c3)->Ok_0;
    let methods = p_methods(c4, Seq::empty())->Ok_0.0;
    let c5 = p_methods(c4, Seq::empty())->Ok_0.1;
    (first, pair, methods, c1, c2, c3, c4, c5)
}

/// The tokens of a macro.
pub open spec fn macro_form(
    c: Cursor,
    name: Seq<char>,
    params: Seq<Seq<char>>,
    body: Seq<StmtV>,
    c1: Cursor,
    c2: Cursor,
    c3: Cursor,
    c4: Cursor,
    c5: Cursor,
    end: Cursor,
) -> bool {
    &&& adv(c) == Ok::<Cursor, DiagnosticV>(c1)
    &&& names(c1, name, c2)
    &&& passes(c2, Token::LParen, c3)
    &&& p_names_until(c3, Token::RParen, "macro param"@, Seq::empty()) == Ok::<(Seq<Seq<char>>, Cursor), DiagnosticV>((params, c4))
    &&& passes(c4, Token::RParen, c5)
    &&& c5.size() < c.size()
    &&& p_body(c5) == Ok::<(Seq<StmtV>, Cursor), DiagnosticV>((body, end))
}

/// A macro is read as its name, its parameters and its body.
pub proof fn law_macro(
    c: Cursor,
    name: Seq<char>,
    params: Seq<Seq<char>>,
    body: Seq<StmtV>,
    c1: Cursor,
    c2: Cursor,
    c3: Cursor,
    c4: Cursor,
    c5: Cursor,
    end: Cursor,
)
    requires
        macro_form(c, name, params, body, c1, c2, c3, c4, c5, end),
    ensures
        p_macro(c) == Ok::<(StmtKindV, Cursor), DiagnosticV>(((StmtKindV::Macro { name: name, params: params, body: body }), end)),
{
    assert(p_macro(c) == rule_macro(c));
}

/// Nothing else is read so.
pub proof fn law_macro_only(
    c: Cursor,
) -> (r: (Seq<char>, Seq<Seq<char>>, Seq<StmtV>, Cursor, Cursor, Cursor, Cursor, Cursor))
    ensures
        p_macro(c) matches Ok((x, end)) ==> x == (StmtKindV::Macro { name: r.0, params: r.1, body: r.2 }) && macro_form(c, r.0, r.1, r.2, r.3, r.4, r.5, r.6, r.7, end),
{
    assert(p_macro(c) == rule_macro(c));
    let c1 = adv(c)->Ok_0;
    let name = c1.cur->Ident_0;
    let c2 = adv(c1)->Ok_0;
    let c3 = adv(c2)->Ok_0;
    let params = p_names_until(c3, Token::RParen, "macro param"@, Seq::empty())->Ok_0.0;
    let c4 = p_names_until(c3, Token::RParen, "macro param"@, Seq::empty())->Ok_0.1;
    let c5 = adv(c4)->Ok_0;
    let body = p_body(c5)->Ok_0.0;
    (name, params, body, c1, c2, c3, c4, c5)
}

/// The tokens of an `if` statement.
pub open spec fn if_form(
    c: Cursor,
    cond: ExprV,
    then_body: Seq<StmtV>,
    else_body: Option<Seq<StmtV>>,
    c1: Cursor,
    c2: Cursor,
    c3: Cursor,
    end: Cursor,
) -> bool {
    &&& adv(c) == Ok::<Cursor, DiagnosticV>(c1)
    &&& c1.size() < c.size()
    &&& p_expr(c1) == Ok::<(ExprV, Cursor), DiagnosticV>((cond, c2))
    &&& c2.size() < c.size()
    &&& p_body(c2) == Ok::<(Seq<StmtV>, Cursor), DiagnosticV>((then_body, c3))
    &&& c3.size() < c.size()
    &&& p_else(c3) == Ok::<(Option<Seq<StmtV>>, Cursor), DiagnosticV>((else_body, end))
}

/// An `if` statement is read as its condition, its body and its `else`.
pub proof fn law_if(
    c: Cursor,
    cond: ExprV,
    then_body: Seq<StmtV>,
    else_body: Option<Seq<StmtV>>,
    c1: Cursor,
    c2: Cursor,
    c3: Cursor,
    end: Cursor,
)
    requires
        if_form(c, cond, then_body, else_body, c1, c2, c3, end),
    ensures
        p_if(c) == Ok::<(StmtKindV, Cursor), DiagnosticV>(((StmtKindV::If { cond: cond, then_body: then_body, else_body: else_body }), end)),
{
    assert(p_if(c) == rule_if(c));
}

/// Nothing else is read so.
pub proof fn law_if_only(
    c: Cursor,
) -> (r: (ExprV, Seq<StmtV>, Option<Seq<StmtV>>, Cursor, Cursor, Cursor))
    ensures
        p_if(c) matches Ok((x, end)) ==> x == (StmtKindV::If { cond: r.0, then_body: r.1, else_body: r.2 }) && if_form(c, r.0, r.1, r.2, r.3, r.4, r.5, end),
{
    assert(p_if(c) == rule_if(c));
    let c1 = adv(c)->Ok_0;
    let cond = p_expr(c1)->Ok_0.0;
    let c2 = p_expr(c1)->Ok_0.1;
    let then_body = p_body(c2)->Ok_0.0;
    let c3 = p_body(c2)->Ok_0.1;
    let else_body = p_else(c3)->Ok_0.0;
    (cond, then_body, else_body, c1, c2, c3)
}

/// The tokens of a `while`.
pub open spec fn while_form(
    c: Cursor,
    cond: ExprV,
    body: Seq<StmtV>,
    c1: Cursor,
    c2: Cursor,
    end: Cursor,
) -> bool {
    &&& adv(c) == Ok::<Cursor, DiagnosticV>(c1)
    &&& c1.size() < c.size()
    &&& p_expr(c1) == Ok::<(ExprV, Cursor), DiagnosticV>((cond, c2))
    &&& c2.size() < c.size()
    &&& p_body(c2) == Ok::<(Seq<StmtV>, Cursor), DiagnosticV>((body, end))
}

/// A `while` is read as its condition and its body.
pub proof fn law_while(
    c: Cursor,
    cond: ExprV,
    body: Seq<StmtV>,
    c1: Cursor,
    c2: Cursor,
    end: Cursor,
)
    requires
        while_form(c, cond, body, c1, c2, end),
    ensures
        p_while(c) == Ok::<((ExprV, Seq<StmtV>), Cursor), DiagnosticV>(((cond, body), end)),
{
    assert(p_while(c) == rule_while(c));
}

/// Nothing else is read so.
pub proof fn law_while_only(c: Cursor) -> (r: (ExprV, Seq<StmtV>, Cursor, Cursor))
    ensures
        p_while(c) matches Ok((x, end)) ==> x == (r.0, r.1) && while_form(c, r.0, r.1, r.2, r.3, end),
{
    assert(p_while(c) == rule_while(c));
    let c1 = adv(c)->Ok_0;
    let cond = p_expr(c1)->Ok_0.0;
    let c2 = p_expr(c1)->Ok_0.1;
    let body = p_body(c2)->Ok_0.0;
    (cond, body, c1, c2)
}

/// The tokens of a `for`.
pub open spec fn for_form(
    c: Cursor,
    var: Seq<char>,
    iter: ExprV,
    body: Seq<StmtV>,
    c1: Cursor,
    c2: Cursor,
    c3: Cursor,
    c4: Cursor,
    end: Cursor,
) -> bool {
    &&& adv(c) == Ok::<Cursor, DiagnosticV>(c1)
    &&& names(c1, var, c2)
    &&& passes(c2, Token::In, c3)
    &&& c3.size() < c.size()
    &&& p_expr(c3) == Ok::<(ExprV, Cursor), DiagnosticV>((iter, c4))
    &&& c4.size() < c.size()
    &&& p_body(c4) == Ok::<(Seq<StmtV>, Cursor), DiagnosticV>((body, end))
}

/// A `for` is read as its variable, what it walks, and its body.
pub proof fn law_for(
    c: Cursor,
    var: Seq<char>,
    iter: ExprV,
    body: Seq<StmtV>,
    c1: Cursor,
    c2: Cursor,
    c3: Cursor,
    c4: Cursor,
    end: Cursor,
)
    requires
        for_form(c, var, iter, body, c1, c2, c3, c4, end),
    ensures
        p_for(c) == Ok::<((Seq<char>, ExprV, Seq<StmtV>), Cursor), DiagnosticV>(((var, iter, body), end)),
{
    assert(p_for(c) == rule_for(c));
}

/// Nothing else is read so.
pub proof fn law_for_only(
    c: Cursor,
) -> (r: (Seq<char>, ExprV, Seq<StmtV>, Cursor, Cursor, Cursor, Cursor))
    ensures
        p_for(c) matches Ok((x, end)) ==> x == (r.0, r.1, r.2) && for_form(c, r.0, r.1, r.2, r.3, r.4, r.5, r.6, end),
{
    assert(p_for(c) == rule_for(c));
    let c1 = adv(c)->Ok_0;
    let var = c1.cur->Ident_0;
    let c2 = adv(c1)->Ok_0;
    let c3 = adv(c2)->Ok_0;
    let iter = p_expr(c3)->Ok_0.0;
    let c4 = p_expr(c3)->Ok_0.1;
    let body = p_body(c4)->Ok_0.0;
    (var, iter, body, c1, c2, c3, c4)
}

/// The tokens of a `match`.
pub open spec fn match_expr_form(
    c: Cursor,
    scrutinee: ExprV,
    arms: Seq<(Seq<PatternV>, Option<ExprV>, ExprV)>,
    c1: Cursor,
    c2: Cursor,
    c3: Cursor,
    c4: Cursor,
    end: Cursor,
) -> bool {
    &&& adv(c) == Ok::<Cursor, DiagnosticV>(c1)
    &&& c1.size() < c.size()
    &&& p_expr(c1) == Ok::<(ExprV, Cursor), DiagnosticV>((scrutinee, c2))
    &&& passes(c2, Token::LBrace, c3)
    &&& c3.size() < c.size()
    &&& p_arms(c3, Seq::empty()) == Ok::<(Seq<(Seq<PatternV>, Option<ExprV>, ExprV)>, Cursor), DiagnosticV>((arms, c4))
    &&& passes(c4, Token::RBrace, end)
}

/// A `match` is read as its scrutinee and its arms.
pub proof fn law_match_expr(
    c: Cursor,
    scrutinee: ExprV,
    arms: Seq<(Seq<PatternV>, Option<ExprV>, ExprV)>,
    c1: Cursor,
    c2: Cursor,
    c3: Cursor,
    c4: Cursor,
    end: Cursor,
)
    requires
        match_expr_form(c, scrutinee, arms, c1, c2, c3, c4, end),
    ensures
        p_match(c) == Ok::<(ExprV, Cursor), DiagnosticV>((expr_v(ExprKindV::Match { scrutinee: Box::new(scrutinee), arms: arms }, c.span), end)),
{
    assert(p_match(c) == rule_match(c));
}

/// Nothing else is read so.
pub proof fn law_match_expr_only(
    c: Cursor,
) -> (r: (ExprV, Seq<(Seq<PatternV>, Option<ExprV>, ExprV)>, Cursor, Cursor, Cursor, Cursor))
    ensures
        p_match(c) matches Ok((x, end)) ==> x == expr_v(ExprKindV::Match { scrutinee: Box::new(r.0), arms: r.1 }, c.span) && match_expr_form(c, r.0, r.1, r.2, r.3, r.4, r.5, end),
{
    assert(p_match(c) == rule_match(c));
    let c1 = adv(c)->Ok_0;
    let scrutinee = p_expr(c1)->Ok_0.0;
    let c2 = p_expr(c1)->Ok_0.1;
    let c3 = adv(c2)->Ok_0;
    let arms = p_arms(c3, Seq::empty())->Ok_0.0;
    let c4 = p_arms(c3, Seq::empty())->Ok_0.1;
    (scrutinee, arms, c1, c2, c3, c4)
}

/// The tokens of an `if` expression.
pub open spec fn if_expr_form(
    c: Cursor,
    cond: ExprV,
    stmts: Seq<StmtV>,
    else_body: Option<Box<ExprV>>,
    c1: Cursor,
    c2: Cursor,
    c3: Cursor,
    end: Cursor,
) -> bool {
    &&& adv(c) == Ok::<Cursor, DiagnosticV>(c1)
    &&& c1.size() < c.size()
    &&& p_expr(c1) == Ok::<(ExprV, Cursor), DiagnosticV>((cond, c2))
    &&& c2.size() < c.size()
    &&& p_body(c2) == Ok::<(Seq<StmtV>, Cursor), DiagnosticV>((stmts, c3))
    &&& c3.size() < c.size()
    &&& p_else_expr(c3) == Ok::<(Option<Box<ExprV>>, Cursor), DiagnosticV>((else_body, end))
}

/// An `if` expression is read as its condition, the value of its first branch, and its `else`.
pub proof fn law_if_expr(
    c: Cursor,
    cond: ExprV,
    stmts: Seq<StmtV>,
    else_body: Option<Box<ExprV>>,
    c1: Cursor,
    c2: Cursor,
    c3: Cursor,
    end: Cursor,
)
    requires
        if_expr_form(c, cond, stmts, else_body, c1, c2, c3, end),
    ensures
        p_if_expr(c) == Ok::<(ExprV, Cursor), DiagnosticV>((expr_v(ExprKindV::If { cond: Box::new(cond), then_body: Box::new(branch_value(stmts, c.span)), else_body: else_body }, c.span), end)),
{
    assert(p_if_expr(c) == rule_if_expr(c));
}

/// Nothing else is read so.
pub proof fn law_if_expr_only(
    c: Cursor,
) -> (r: (ExprV, Seq<StmtV>, Option<Box<ExprV>>, Cursor, Cursor, Cursor))
    ensures
        p_if_expr(c) matches Ok((x, end)) ==> x == expr_v(ExprKindV::If { cond: Box::new(r.0), then_body: Box::new(branch_value(r.1, c.span)), else_body: r.2 }, c.span) && if_expr_form(c, r.0, r.1, r.2, r.3, r.4, r.5, end),
{
    assert(p_if_expr(c) == rule_if_expr(c));
    let c1 = adv(c)->Ok_0;
    let cond = p_expr(c1)->Ok_0.0;
    let c2 = p_expr(c1)->Ok_0.1;
    let stmts = p_body(c2)->Ok_0.0;
    let c3 = p_body(c2)->Ok_0.1;
    let else_body = p_else_expr(c3)->Ok_0.0;
    (cond, stmts, else_body, c1, c2, c3)
}

/// The tokens of an expression in parentheses.
pub open spec fn paren_form(c: Cursor, e: ExprV, c1: Cursor, c2: Cursor, end: Cursor) -> bool {
    &&& adv(c) == Ok::<Cursor, DiagnosticV>(c1)
    &&& c1.size() < c.size()
    &&& p_expr(c1) == Ok::<(ExprV, Cursor), DiagnosticV>((e, c2))
    &&& passes(c2, Token::RParen, end)
}

/// An expression in parentheses is that expression.
pub proof fn law_paren(c: Cursor, e: ExprV, c1: Cursor, c2: Cursor, end: Cursor)
    requires
        paren_form(c, e, c1, c2, end),
    ensures
        p_paren(c) == Ok::<(ExprV, Cursor), DiagnosticV>((e, end)),
{
    assert(p_paren(c) == rule_paren(c));
}

/// Nothing else is read so.
pub proof fn law_paren_only(c: Cursor) -> (r: (ExprV, Cursor, Cursor))
    ensures
        p_paren(c) matches Ok((x, end)) ==> x == r.0 && paren_form(c, r.0, r.1, r.2, end),
{
    assert(p_paren(c) == rule_paren(c));
    let c1 = adv(c)->Ok_0;
    let e = p_expr(c1)->Ok_0.0;
    let c2 = p_expr(c1)->Ok_0.1;
    (e, c1, c2)
}

/// The tokens of an array literal.
pub open spec fn array_form(
    c: Cursor,
    elems: Seq<ExprV>,
    c1: Cursor,
    c2: Cursor,
    end: Cursor,
) -> bool {
    &&& adv(c) == Ok::<Cursor, DiagnosticV>(c1)
    &&& c1.size() < c.size()
    &&& p_exprs_until(c1, Token::RBrack, Seq::empty()) == Ok::<(Seq<ExprV>, Cursor), DiagnosticV>((elems, c2))
    &&& passes(c2, Token::RBrack, end)
}

/// An array literal is read as its elements.
pub proof fn law_array(c: Cursor, elems: Seq<ExprV>, c1: Cursor, c2: Cursor, end: Cursor)
    requires
        array_form(c, elems, c1, c2, end),
    ensures
        p_array(c) == Ok::<(ExprV, Cursor), DiagnosticV>((expr_v(ExprKindV::ArrayLit(elems), c.span), end)),
{
    assert(p_array(c) == rule_array(c));
}

/// Nothing else is read so.
pub proof fn law_array_only(c: Cursor) -> (r: (Seq<ExprV>, Cursor, Cursor))
    ensures
        p_array(c) matches Ok((x, end)) ==> x == expr_v(ExprKindV::ArrayLit(r.0), c.span) && array_form(c, r.0, r.1, r.2, end),
{
    assert(p_array(c) == rule_array(c));
    let c1 = adv(c)->Ok_0;
    let elems = p_exprs_until(c1, Token::RBrack, Seq::empty())->Ok_0.0;
    let c2 = p_exprs_until(c1, Token::RBrack, Seq::empty())->Ok_0.1;
    (elems, c1, c2)
}

/// The tokens of the fields of a struct literal.
pub open spec fn struct_lit_form(
    c: Cursor,
    name: Seq<char>,
    span: Span,
    fields: Seq<(Seq<char>, ExprV)>,
    c1: Cursor,
    c2: Cursor,
    end: Cursor,
) -> bool {
    &&& adv(c) == Ok::<Cursor, DiagnosticV>(c1)
    &&& c1.size() < c.size()
    &&& p_field_values(c1, Seq::empty()) == Ok::<(Seq<(Seq<char>, ExprV)>, Cursor), DiagnosticV>((fields, c2))
    &&& passes(c2, Token::RBrace, end)
}

/// A struct literal is read as its name and its fields.
pub proof fn law_struct_lit(
    c: Cursor,
    name: Seq<char>,
    span: Span,
    fields: Seq<(Seq<char>, ExprV)>,
    c1: Cursor,
    c2: Cursor,
    end: Cursor,
)
    requires
        struct_lit_form(c, name, span, fields, c1, c2, end),
    ensures
        p_struct_lit(c, name, span) == Ok::<(ExprV, Cursor), DiagnosticV>((expr_v(ExprKindV::StructLit { name: name, fields: fields }, span), end)),
{
    assert(p_struct_lit(c, name, span) == rule_struct_lit(c, name, span));
}

/// Nothing else is read so.
pub proof fn law_struct_lit_only(
    c: Cursor,
    name: Seq<char>,
    span: Span,
) -> (r: (Seq<(Seq<char>, ExprV)>, Cursor, Cursor))
    ensures
        p_struct_lit(c, name, span) matches Ok((x, end)) ==> x == expr_v(ExprKindV::StructLit { name: name, fields: r.0 }, span) && struct_lit_form(c, name, span, r.0, r.1, r.2, end),
{
    assert(p_struct_lit(c, name, span) == rule_struct_lit(c, name, span));
    let c1 = adv(c)->Ok_0;
    let fields = p_field_values(c1, Seq::empty())->Ok_0.0;
    let c2 = p_field_values(c1, Seq::empty())->Ok_0.1;
    (fields, c1, c2)
}

/// The tokens of an assignment behind its left side.
pub open spec fn assign_form(
    c: Cursor,
    left: ExprV,
    value: ExprV,
    c1: Cursor,
    c2: Cursor,
    end: Cursor,
) -> bool {
    &&& adv(c) == Ok::<Cursor, DiagnosticV>(c1)
    &&& c1.size() < c.size()
    &&& p_expr(c1) == Ok::<(ExprV, Cursor), DiagnosticV>((value, c2))
    &&& passes(c2, Token::Semicolon, end)
}

/// An assignment is read as the name on its left and the value.
pub proof fn law_assign(c: Cursor, left: ExprV, value: ExprV, c1: Cursor, c2: Cursor, end: Cursor)
    requires
        assign_form(c, left, value, c1, c2, end),
        name_of(left) is Some,
    ensures
        p_assign(c, left) == Ok::<(StmtKindV, Cursor), DiagnosticV>(((StmtKindV::Assign { name: name_of(left)->Some_0, value: value }), end)),
{
    assert(p_assign(c, left) == rule_assign(c, left));
}

/// Nothing else is read so.
pub proof fn law_assign_only(c: Cursor, left: ExprV) -> (r: (ExprV, Cursor, Cursor))
    requires
        name_of(left) is Some,
    ensures
        p_assign(c, left) matches Ok((x, end)) ==> x == (StmtKindV::Assign { name: name_of(left)->Some_0, value: r.0 }) && assign_form(c, left, r.0, r.1, r.2, end),
{
    assert(p_assign(c, left) == rule_assign(c, left));
    let c1 = adv(c)->Ok_0;
    let value = p_expr(c1)->Ok_0.0;
    let c2 = p_expr(c1)->Ok_0.1;
    (value, c1, c2)
}

/// The tokens of a body.
pub open spec fn body_form(
    c: Cursor,
    stmts: Seq<StmtV>,
    c1: Cursor,
    c2: Cursor,
    end: Cursor,
) -> bool {
    &&& passes(c, Token::LBrace, c1)
    &&& c1.size() < c.size()
    &&& p_stmts_until(c1, Token::RBrace, Seq::empty()) == Ok::<(Seq<StmtV>, Cursor), DiagnosticV>((stmts, c2))
    &&& passes(c2, Token::RBrace, end)
}

/// A body is its statements between braces.
pub proof fn law_body(c: Cursor, stmts: Seq<StmtV>, c1: Cursor, c2: Cursor, end: Cursor)
    requires
        body_form(c, stmts, c1, c2, end),
    ensures
        p_body(c) == Ok::<(Seq<StmtV>, Cursor), DiagnosticV>((stmts, end)),
{
    assert(p_body(c) == rule_body(c));
}

/// Nothing else is read so.
pub proof fn law_body_only(c: Cursor) -> (r: (Seq<StmtV>, Cursor, Cursor))
    ensures
        p_body(c) matches Ok((x, end)) ==> x == r.0 && body_form(c, r.0, r.1, r.2, end),
{
    assert(p_body(c) == rule_body(c));
    let c1 = adv(c)->Ok_0;
    let stmts = p_stmts_until(c1, Token::RBrace, Seq::empty())->Ok_0.0;
    let c2 = p_stmts_until(c1, Token::RBrace, Seq::empty())->Ok_0.1;
    (stmts, c1, c2)
}

/// The tokens of a call.
pub open spec fn call_form(
    c: Cursor,
    name: Seq<char>,
    args: Seq<ExprV>,
    c1: Cursor,
    c2: Cursor,
    c3: Cursor,
    end: Cursor,
) -> bool {
    &&& adv(c) == Ok::<Cursor, DiagnosticV>(c1)
    &&& c1.size() < c.size()
    &&& !(c1.at(Token::LBrace) && capitalised(name))
    &&& passes(c1, Token::LParen, c2)
    &&& c2.size() < c.size()
    &&& p_exprs_until(c2, Token::RParen, Seq::empty()) == Ok::<(Seq<ExprV>, Cursor), DiagnosticV>((args, c3))
    &&& passes(c3, Token::RParen, end)
}

/// A name and arguments in parentheses are a call.
pub proof fn law_call(
    c: Cursor,
    name: Seq<char>,
    args: Seq<ExprV>,
    c1: Cursor,
    c2: Cursor,
    c3: Cursor,
    end: Cursor,
)
    requires
        call_form(c, name, args, c1, c2, c3, end),
        adv(c) is Ok && (adv(c)->Ok_0).at(Token::LParen),
    ensures
        p_named(c, name) == Ok::<(ExprV, Cursor), DiagnosticV>((expr_v(ExprKindV::Call(Box::new(expr_v(ExprKindV::Ident(name), c.span)), args), c.span), end)),
{
    assert(p_named(c, name) == rule_named(c, name));
}

/// Nothing else is read so.
pub proof fn law_call_only(c: Cursor, name: Seq<char>) -> (r: (Seq<ExprV>, Cursor, Cursor, Cursor))
    requires
        adv(c) is Ok && (adv(c)->Ok_0).at(Token::LParen),
    ensures
        p_named(c, name) matches Ok((x, end)) ==> x == expr_v(ExprKindV::Call(Box::new(expr_v(ExprKindV::Ident(name), c.span)), r.0), c.span) && call_form(c, name, r.0, r.1, r.2, r.3, end),
{
    assert(p_named(c, name) == rule_named(c, name));
    let c1 = adv(c)->Ok_0;
    let c2 = adv(c1)->Ok_0;
    let args = p_exprs_until(c2, Token::RParen, Seq::empty())->Ok_0.0;
    let c3 = p_exprs_until(c2, Token::RParen, Seq::empty())->Ok_0.1;
    (args, c1, c2, c3)
}

// ---- choices ----

/// An operator before an operand.
pub proof fn law_unary_reads(c: Cursor, d: Cursor, e: ExprV, end: Cursor)
    requires
        d.size() < c.size(),
        p_unary(d) == Ok::<(ExprV, Cursor), DiagnosticV>((e, end)),
    ensures
        passes(c, Token::Minus, d) ==> p_unary(c) == Ok::<(ExprV, Cursor), DiagnosticV>(
            (expr_v(ExprKindV::Unary(UnaryOp::Neg, Box::new(e)), c.span), end),
        ),
        passes(c, Token::Bang, d) ==> p_unary(c) == Ok::<(ExprV, Cursor), DiagnosticV>(
            (expr_v(ExprKindV::Unary(UnaryOp::Not, Box::new(e)), c.span), end),
        ),
{
    assert(p_unary(c) == rule_unary(c));
}

/// Without such an operator it is what follows a primary expression.
pub proof fn law_no_unary(c: Cursor)
    requires
        !c.at(Token::Minus),
        !c.at(Token::Bang),
    ensures
        p_unary(c) == p_postfix(c),
{
    assert(p_unary(c) == rule_unary(c));
}

/// Behind an expression: `.name` is a field, `.name(args)` a method call, `[index]` an
/// element. Each becomes part of what the next one is applied to.
pub proof fn law_field_reads(e: ExprV, c: Cursor, c1: Cursor, name: Seq<char>, d: Cursor)
    requires
        passes(c, Token::Dot, c1),
        names(c1, name, d),
        d.size() < c.size(),
        !d.at(Token::LParen),
    ensures
        p_postfix_rest(e, c) == p_postfix_rest(
            expr_v(ExprKindV::FieldAccess(Box::new(e), name), e.span),
            d,
        ),
{
    assert(p_postfix_rest(e, c) == rule_postfix_rest(e, c));
}

pub proof fn law_method_reads(
    e: ExprV,
    c: Cursor,
    c1: Cursor,
    name: Seq<char>,
    c2: Cursor,
    c3: Cursor,
    args: Seq<ExprV>,
    c4: Cursor,
    d: Cursor,
)
    requires
        passes(c, Token::Dot, c1),
        names(c1, name, c2),
        c2.size() < c.size(),
        passes(c2, Token::LParen, c3),
        c3.size() < c.size(),
        p_exprs_until(c3, Token::RParen, Seq::empty()) == Ok::<(Seq<ExprV>, Cursor), DiagnosticV>(
            (args, c4),
        ),
        passes(c4, Token::RParen, d),
        d.size() < c.size(),
    ensures
        p_postfix_rest(e, c) == p_postfix_rest(
            expr_v(ExprKindV::MethodCall(Box::new(e), name, args), e.span),
            d,
        ),
{
    assert(p_postfix_rest(e, c) == rule_postfix_rest(e, c));
}

pub proof fn law_index_reads(
    e: ExprV,
    c: Cursor,
    c1: Cursor,
    index: ExprV,
    c2: Cursor,
    d: Cursor,
)
    requires
        passes(c, Token::LBrack, c1),
        c1.size() < c.size(),
        p_expr(c1) == Ok::<(ExprV, Cursor), DiagnosticV>((index, c2)),
        passes(c2, Token::RBrack, d),
        d.size() < c.size(),
    ensures
        p_postfix_rest(e, c) == p_postfix_rest(
            expr_v(ExprKindV::Index(Box::new(e), Box::new(index)), e.span),
            d,
        ),
{
    assert(p_postfix_rest(e, c) == rule_postfix_rest(e, c));
}

/// Nothing of this follows: the expression ends.
pub proof fn law_postfix_ends(e: ExprV, c: Cursor)
    requires
        !c.at(Token::Dot),
        !c.at(Token::LBrack),
    ensures
        p_postfix_rest(e, c) == Ok::<(ExprV, Cursor), DiagnosticV>((e, c)),
{
    assert(p_postfix_rest(e, c) == rule_postfix_rest(e, c));
}

/// A literal token is that literal; a block is the value of its last statement; the other
/// first tokens say which construct it is.
pub proof fn law_primary_reads(c: Cursor, d: Cursor)
    ensures
        adv(c) == Ok::<Cursor, DiagnosticV>(d) ==> {
            &&& c.cur matches TokenV::Int(n) ==> p_primary(c) == Ok::<
                (ExprV, Cursor),
                DiagnosticV,
            >((expr_v(ExprKindV::Int(n), c.span), d))
            &&& c.cur matches TokenV::Float(t) ==> p_primary(c) == Ok::<
                (ExprV, Cursor),
                DiagnosticV,
            >((expr_v(ExprKindV::Float(t), c.span), d))
            &&& c.cur matches TokenV::Bool(b) ==> p_primary(c) == Ok::<
                (ExprV, Cursor),
                DiagnosticV,
            >((expr_v(ExprKindV::Bool(b), c.span), d))
            &&& c.cur matches TokenV::Str(s) ==> p_primary(c) == Ok::<
                (ExprV, Cursor),
                DiagnosticV,
            >((expr_v(ExprKindV::Str(s), c.span), d))
        },
        c.cur matches TokenV::Ident(name) ==> p_primary(c) == p_named(c, name),
        c.at(Token::Match) ==> p_primary(c) == p_match(c),
        c.at(Token::If) ==> p_primary(c) == p_if_expr(c),
        c.at(Token::LParen) ==> p_primary(c) == p_paren(c),
        c.at(Token::LBrack) ==> p_primary(c) == p_array(c),
        c.at(Token::While) ==> (p_while(c) matches Ok(((cond, body), end)) ==> p_primary(c) == Ok::<
            (ExprV, Cursor),
            DiagnosticV,
        >((expr_v(ExprKindV::While { cond: Box::new(cond), body }, c.span), end))),
        c.at(Token::For) ==> (p_for(c) matches Ok(((var, iter, body), end)) ==> p_primary(c)
            == Ok::<(ExprV, Cursor), DiagnosticV>(
            (expr_v(ExprKindV::For { var, iter: Box::new(iter), body }, c.span), end),
        )),
        c.at(Token::LBrace) ==> (p_body(c) matches Ok((stmts, end)) ==> p_primary(c) matches Ok(
            (e, end1),
        ) && end1 == end && (stmts.len() > 0 ==> (stmts.last().kind matches StmtKindV::Expr(x)
            ==> e == x) && (stmts.last().kind matches StmtKindV::Return(Some(x)) ==> e == x))),
        c.at(Token::RParen) || c.at(Token::Semicolon) || c.at(Token::Eof) || c.at(Token::RBrace)
            || c.at(Token::Let) || c.at(Token::Fn) ==> p_primary(c) is Err,
{
    assert(p_primary(c) == rule_primary(c));
    if c.at(Token::While) {
        assert(p_while_expr(c) == rule_while_expr(c));
    }
    if c.at(Token::For) {
        assert(p_for_expr(c) == rule_for_expr(c));
    }
}

/// A name that neither a call nor a struct literal follows is that name; a capitalised
/// name before a brace starts a struct literal.
pub proof fn law_name_reads(c: Cursor, name: Seq<char>, d: Cursor)
    requires
        names(c, name, d),
        d.size() < c.size(),
    ensures
        !d.at(Token::LParen) && !(d.at(Token::LBrace) && capitalised(name)) ==> p_named(c, name)
            == Ok::<(ExprV, Cursor), DiagnosticV>((expr_v(ExprKindV::Ident(name), c.span), d)),
        d.at(Token::LBrace) && capitalised(name) ==> p_named(c, name) == p_struct_lit(
            d,
            name,
            c.span,
        ),
{
    assert(p_named(c, name) == rule_named(c, name));
}

/// The value of a branch of an `if` expression is that of its only statement.
pub proof fn law_branch_value(stmts: Seq<StmtV>, e: ExprV, span: Span)
    requires
        stmts.len() == 1,
        stmts[0].kind == StmtKindV::Expr(e) || stmts[0].kind == StmtKindV::Return(Some(e)),
    ensures
        branch_value(stmts, span) == e,
        block_value(stmts, span) == e,
{
}

/// An `else` holds a body, or another `if`; without one there is none.
pub proof fn law_else_reads(c: Cursor, d: Cursor)
    requires
        c.at(Token::Else) ==> passes(c, Token::Else, d) && d.size() < c.size(),
    ensures
        !c.at(Token::Else) ==> p_else(c) == Ok::<(Option<Seq<StmtV>>, Cursor), DiagnosticV>(
            (None, c),
        ) && p_else_expr(c) == Ok::<(Option<Box<ExprV>>, Cursor), DiagnosticV>((None, c)),
        c.at(Token::Else) && d.at(Token::If) ==> {
            &&& p_stmt(d) matches Ok((s, end)) ==> p_else(c) == Ok::<
                (Option<Seq<StmtV>>, Cursor),
                DiagnosticV,
            >((Some(seq![s]), end))
            &&& p_if_expr(d) matches Ok((e, end)) ==> p_else_expr(c) == Ok::<
                (Option<Box<ExprV>>, Cursor),
                DiagnosticV,
            >((Some(Box::new(e)), end))
        },
        c.at(Token::Else) && !d.at(Token::If) ==> {
            &&& p_body(d) matches Ok((stmts, end)) ==> {
                &&& p_else(c) == Ok::<(Option<Seq<StmtV>>, Cursor), DiagnosticV>((Some(stmts), end))
                &&& p_else_expr(c) == Ok::<(Option<Box<ExprV>>, Cursor), DiagnosticV>(
                    (Some(Box::new(branch_value(stmts, d.span))), end),
                )
            }
            &&& p_body(d) is Err ==> p_else(c) is Err && p_else_expr(c) is Err
        },
{
    assert(p_else(c) == rule_else(c));
    assert(p_else_expr(c) == rule_else_expr(c));
}

/// `if` before the arrow of an arm is a guard.
pub proof fn law_guard_reads(c: Cursor, d: Cursor, e: ExprV, end: Cursor)
    ensures
        !c.at(Token::If) ==> p_guard(c) == Ok::<(Option<ExprV>, Cursor), DiagnosticV>((None, c)),
        passes(c, Token::If, d) && d.size() < c.size() && p_expr(d) == Ok::<
            (ExprV, Cursor),
            DiagnosticV,
        >((e, end)) ==> p_guard(c) == Ok::<(Option<ExprV>, Cursor), DiagnosticV>((Some(e), end)),
{
    assert(p_guard(c) == rule_guard(c));
}

/// `break`, `continue` and `return` end with a semicolon, and may have a value before it.
pub proof fn law_jump_reads(c: Cursor, d: Cursor, e: ExprV, c2: Cursor, end: Cursor)
    requires
        adv(c) == Ok::<Cursor, DiagnosticV>(d),
        d.size() < c.size(),
    ensures
        passes(d, Token::Semicolon, end) ==> p_jump(c) == Ok::<
            (Option<ExprV>, Cursor),
            DiagnosticV,
        >((None, end)),
        !d.at(Token::Semicolon) && p_expr(d) == Ok::<(ExprV, Cursor), DiagnosticV>((e, c2))
            && passes(c2, Token::Semicolon, end) ==> p_jump(c) == Ok::<
            (Option<ExprV>, Cursor),
            DiagnosticV,
        >((Some(e), end)),
        !d.at(Token::Semicolon) && p_expr(d) == Ok::<(ExprV, Cursor), DiagnosticV>((e, c2))
            && !c2.at(Token::Semicolon) ==> p_jump(c) is Err,
{
    assert(p_jump(c) == rule_jump(c));
}

/// The first token of a statement says which statement it is; a statement stands where
/// its first token stands.
pub proof fn law_statement_reads(c: Cursor)
    ensures
        p_stmt(c) is Ok <==> p_stmt_kind(c) is Ok,
        p_stmt(c) matches Ok((s, end)) ==> p_stmt_kind(c) == Ok::<
            (StmtKindV, Cursor),
            DiagnosticV,
        >((s.kind, end)) && s.span == c.span,
        c.at(Token::Let) ==> p_stmt_kind(c) == p_let(c),
        c.at(Token::Fn) ==> p_stmt_kind(c) == p_fn(c),
        c.at(Token::Struct) ==> p_stmt_kind(c) == p_struct(c),
        c.at(Token::Enum) ==> p_stmt_kind(c) == p_enum(c),
        c.at(Token::Trait) ==> p_stmt_kind(c) == p_trait(c),
        c.at(Token::Impl) ==> p_stmt_kind(c) == p_impl(c),
        c.at(Token::Macro) ==> p_stmt_kind(c) == p_macro(c),
        c.at(Token::If) ==> p_stmt_kind(c) == p_if(c),
        c.at(Token::While) ==> (p_while(c) matches Ok(((cond, body), end)) ==> p_stmt_kind(c)
            == Ok::<(StmtKindV, Cursor), DiagnosticV>((StmtKindV::While { cond, body }, end))),
        c.at(Token::For) ==> (p_for(c) matches Ok(((var, iter, body), end)) ==> p_stmt_kind(c)
            == Ok::<(StmtKindV, Cursor), DiagnosticV>((StmtKindV::For { var, iter, body }, end))),
        c.at(Token::Break) ==> (p_jump(c) matches Ok((e, end)) ==> p_stmt_kind(c) == Ok::<
            (StmtKindV, Cursor),
            DiagnosticV,
        >((StmtKindV::Break(e), end))),
        c.at(Token::Continue) ==> (p_jump(c) matches Ok((e, end)) ==> p_stmt_kind(c) == Ok::<
            (StmtKindV, Cursor),
            DiagnosticV,
        >((StmtKindV::Continue(e), end))),
        c.at(Token::Return) ==> (p_jump(c) matches Ok((e, end)) ==> p_stmt_kind(c) == Ok::<
            (StmtKindV, Cursor),
            DiagnosticV,
        >((StmtKindV::Return(e), end))),
        !(c.cur is Fixed) ==> p_stmt_kind(c) == p_expr_stmt(c),
{
    assert(p_stmt(c) == rule_stmt(c));
    assert(p_stmt_kind(c) == rule_stmt_kind(c));
}

/// An expression as a statement ends with a semicolon. Before the end of a block or of the
/// program it is the value of the block. Before `=` it is the left side of an assignment.
pub proof fn law_expression_statement(c: Cursor, e: ExprV, d: Cursor, end: Cursor)
    requires
        p_expr(c) == Ok::<(ExprV, Cursor), DiagnosticV>((e, d)),
        d.size() < c.size(),
    ensures
        passes(d, Token::Semicolon, end) ==> p_expr_stmt(c) == Ok::<
            (StmtKindV, Cursor),
            DiagnosticV,
        >((StmtKindV::Expr(e), end)),
        d.at(Token::RBrace) || d.at(Token::Eof) ==> p_expr_stmt(c) == Ok::<
            (StmtKindV, Cursor),
            DiagnosticV,
        >((StmtKindV::Return(Some(e)), d)),
        d.at(Token::Assign) ==> p_expr_stmt(c) == p_assign(d, e),
        !d.at(Token::Semicolon) && !d.at(Token::RBrace) && !d.at(Token::Eof) && !d.at(
            Token::Assign,
        ) ==> p_expr_stmt(c) is Err,
{
    assert(p_expr_stmt(c) == rule_expr_stmt(c));
}

/// What is assigned to has to be a name.
pub proof fn law_assignment_needs_a_name(c: Cursor, left: ExprV)
    requires
        name_of(left) is None,
    ensures
        p_assign(c, left) is Err,
{
    assert(p_assign(c, left) == rule_assign(c, left));
}

// ---- types, parameters and patterns ----

/// The names of the builtin types; another name is a type of its own, with arguments
/// between `<` and `>` where they follow; `[T]` is an array.
pub proof fn law_type_reads(c: Cursor, n: Seq<char>, d: Cursor)
    requires
        names(c, n, d),
        d.size() < c.size(),
    ensures
        n == "int"@ ==> p_type(c) == Ok::<(TypeV, Cursor), DiagnosticV>((TypeV::Int, d)),
        n == "float"@ ==> p_type(c) == Ok::<(TypeV, Cursor), DiagnosticV>((TypeV::Float, d)),
        n == "bool"@ ==> p_type(c) == Ok::<(TypeV, Cursor), DiagnosticV>((TypeV::Bool, d)),
        n == "string"@ ==> p_type(c) == Ok::<(TypeV, Cursor), DiagnosticV>((TypeV::String, d)),
        n == "range"@ ==> p_type(c) == Ok::<(TypeV, Cursor), DiagnosticV>((TypeV::Range, d)),
        n != "int"@ && n != "float"@ && n != "bool"@ && n != "string"@ && n != "range"@ && !d.at(
            Token::Lt,
        ) ==> p_type(c) == Ok::<(TypeV, Cursor), DiagnosticV>(
            (TypeV::Named(n, Seq::empty()), d),
        ),
{
    reveal_strlit("int");
    reveal_strlit("float");
    reveal_strlit("bool");
    reveal_strlit("string");
    reveal_strlit("range");
    assert("int"@.len() == 3 && "float"@.len() == 5 && "bool"@.len() == 4 && "string"@.len() == 6
        && "range"@.len() == 5);
    assert("float"@[0] == 'f' && "range"@[0] == 'r');
}

pub proof fn law_type_arguments(
    c: Cursor,
    n: Seq<char>,
    c1: Cursor,
    c2: Cursor,
    args: Seq<TypeV>,
    c3: Cursor,
    end: Cursor,
)
    requires
        names(c, n, c1),
        c1.size() < c.size(),
        builtin_type(n) is None,
        passes(c1, Token::Lt, c2),
        c2.size() < c.size(),
        p_types_until(c2, Token::Gt, Seq::empty()) == Ok::<(Seq<TypeV>, Cursor), DiagnosticV>(
            (args, c3),
        ),
        passes(c3, Token::Gt, end),
    ensures
        p_type(c) == Ok::<(TypeV, Cursor), DiagnosticV>((TypeV::Named(n, args), end)),
{
}

pub proof fn law_array_type(c: Cursor, c1: Cursor, el: TypeV, c2: Cursor, end: Cursor)
    requires
        passes(c, Token::LBrack, c1),
        c1.size() < c.size(),
        p_type(c1) == Ok::<(TypeV, Cursor), DiagnosticV>((el, c2)),
        passes(c2, Token::RBrack, end),
    ensures
        p_type(c) == Ok::<(TypeV, Cursor), DiagnosticV>((TypeV::Array(Box::new(el)), end)),
{
}

/// The type behind a mark, or what it is without one.
pub proof fn law_type_after(c: Cursor, mark: Token, default: TypeV, d: Cursor)
    ensures
        c.cur != TokenV::Fixed(mark) ==> p_type_after(c, mark, default) == Ok::<
            (TypeV, Cursor),
            DiagnosticV,
        >((default, c)),
        passes(c, mark, d) && d.size() < c.size() ==> p_type_after(c, mark, default) == p_type(d),
{
}

/// `name: type` is a parameter; a comma goes on with the next; a plain `self` of a method
/// has no type of its own.
pub proof fn law_parameter_reads(
    c: Cursor,
    with_self: bool,
    acc: Seq<(Seq<char>, TypeV)>,
    name: Seq<char>,
    c1: Cursor,
    c2: Cursor,
    ty: TypeV,
    c3: Cursor,
    d: Cursor,
)
    requires
        names(c, name, c1),
        if with_self && name == "self"@ {
            c3 == c1 && ty == TypeV::Named("Self"@, Seq::empty())
        } else {
            passes(c1, Token::Colon, c2) && p_type(c2) == Ok::<(TypeV, Cursor), DiagnosticV>(
                (ty, c3),
            )
        },
    ensures
        !c3.at(Token::Comma) ==> p_params(c, with_self, acc) == Ok::<
            (Seq<(Seq<char>, TypeV)>, Cursor),
            DiagnosticV,
        >((acc.push((name, ty)), c3)),
        passes(c3, Token::Comma, d) && d.size() < c.size() ==> p_params(c, with_self, acc)
            == p_params(d, with_self, acc.push((name, ty))),
{
}

/// Parameters stand in parentheses, and the result type behind an arrow; without one the
/// result is nothing.
pub proof fn law_signature_reads(
    c: Cursor,
    with_self: bool,
    c1: Cursor,
    params: Seq<(Seq<char>, TypeV)>,
    c2: Cursor,
    c3: Cursor,
    ret: TypeV,
    end: Cursor,
)
    requires
        passes(c, Token::LParen, c1),
        if c1.at(Token::RParen) {
            c2 == c1 && params == Seq::<(Seq<char>, TypeV)>::empty()
        } else {
            p_params(c1, with_self, Seq::empty()) == Ok::<
                (Seq<(Seq<char>, TypeV)>, Cursor),
                DiagnosticV,
            >((params, c2))
        },
        passes(c2, Token::RParen, c3),
        p_type_after(c3, Token::Arrow, TypeV::Unit) == Ok::<(TypeV, Cursor), DiagnosticV>(
            (ret, end),
        ),
    ensures
        p_signature(c, with_self) == Ok::<((Seq<(Seq<char>, TypeV)>, TypeV), Cursor), DiagnosticV>(
            ((params, ret), end),
        ),
{
}

/// `impl Trait for Type` is of a trait, `impl Type` is not.
pub proof fn law_impl_for(c: Cursor, first: Seq<char>, c1: Cursor, ty: Seq<char>, end: Cursor)
    ensures
        !c.at(Token::For) ==> p_impl_for(c, first) == Ok::<
            ((Seq<char>, Seq<char>), Cursor),
            DiagnosticV,
        >(((Seq::empty(), first), c)),
        passes(c, Token::For, c1) && names(c1, ty, end) ==> p_impl_for(c, first) == Ok::<
            ((Seq<char>, Seq<char>), Cursor),
            DiagnosticV,
        >(((first, ty), end)),
{
}

/// Type parameters and payloads.
pub proof fn law_brackets_read(
    c: Cursor,
    c1: Cursor,
    ns: Seq<Seq<char>>,
    ts: Seq<TypeV>,
    c2: Cursor,
    end: Cursor,
)
    ensures
        !c.at(Token::Lt) ==> p_generics(c) == Ok::<(Seq<Seq<char>>, Cursor), DiagnosticV>(
            (Seq::empty(), c),
        ),
        passes(c, Token::Lt, c1) && p_names_until(c1, Token::Gt, "generic name"@, Seq::empty())
            == Ok::<(Seq<Seq<char>>, Cursor), DiagnosticV>((ns, c2)) && passes(c2, Token::Gt, end)
            ==> p_generics(c) == Ok::<(Seq<Seq<char>>, Cursor), DiagnosticV>((ns, end)),
        !c.at(Token::LParen) ==> p_payload(c) == Ok::<(Seq<TypeV>, Cursor), DiagnosticV>(
            (Seq::empty(), c),
        ),
        passes(c, Token::LParen, c1) && p_types_until(c1, Token::RParen, Seq::empty()) == Ok::<
            (Seq<TypeV>, Cursor),
            DiagnosticV,
        >((ts, c2)) && passes(c2, Token::RParen, end) ==> p_payload(c) == Ok::<
            (Seq<TypeV>, Cursor),
            DiagnosticV,
        >((ts, end)),
{
}

/// A literal pattern is that literal, and `_` takes anything. A name that starts with an
/// upper-case letter is a variant, another one a variable.
pub proof fn law_pattern_reads(c: Cursor, d: Cursor)
    requires
        adv(c) == Ok::<Cursor, DiagnosticV>(d),
        d.size() < c.size(),
    ensures
        c.cur matches TokenV::Int(n) ==> p_pattern(c) == Ok::<(PatternV, Cursor), DiagnosticV>(
            (PatternV::Literal(expr_v(ExprKindV::Int(n), c.span)), d),
        ),
        c.cur matches TokenV::Str(s) ==> p_pattern(c) == Ok::<(PatternV, Cursor), DiagnosticV>(
            (PatternV::Literal(expr_v(ExprKindV::Str(s), c.span)), d),
        ),
        c.cur matches TokenV::Bool(b) ==> p_pattern(c) == Ok::<(PatternV, Cursor), DiagnosticV>(
            (PatternV::Literal(expr_v(ExprKindV::Bool(b), c.span)), d),
        ),
        c.cur == TokenV::Ident("_"@) ==> p_pattern(c) == Ok::<(PatternV, Cursor), DiagnosticV>(
            (PatternV::Wildcard, d),
        ),
        c.cur matches TokenV::Ident(name) ==> (name != "_"@ && !d.at(Token::ColonColon) && !d.at(
            Token::LParen,
        ) ==> p_pattern(c) == Ok::<(PatternV, Cursor), DiagnosticV>(
            (
                if capitalised(name) {
                    PatternV::EnumVariant { name, inner: Seq::empty() }
                } else {
                    PatternV::Variable(name)
                },
                d,
            ),
        )),
{
    match c.cur {
        TokenV::Ident(name) => if name != "_"@ && !d.at(Token::ColonColon) && !d.at(Token::LParen) {
            assert(p_pattern(c) == p_variant(d, name, capitalised(name)));
        },
        _ => {},
    }
}

/// A variant's patterns stand in parentheses behind its name.
pub proof fn law_variant_reads(
    c: Cursor,
    name: Seq<char>,
    is_variant: bool,
    c1: Cursor,
    inner: Seq<PatternV>,
    c2: Cursor,
    end: Cursor,
)
    requires
        passes(c, Token::LParen, c1),
        c1.size() < c.size(),
        p_patterns_until(c1, Seq::empty()) == Ok::<(Seq<PatternV>, Cursor), DiagnosticV>(
            (inner, c2),
        ),
        passes(c2, Token::RParen, end),
    ensures
        p_variant(c, name, is_variant) == Ok::<(PatternV, Cursor), DiagnosticV>(
            (PatternV::EnumVariant { name, inner }, end),
        ),
{
}

/// `Enum::Variant` is the variant qualified by its enum.
pub proof fn law_qualified_pattern(
    c: Cursor,
    e: Seq<char>,
    c1: Cursor,
    c2: Cursor,
    v: Seq<char>,
    d: Cursor,
)
    requires
        names(c, e, c1),
        e != "_"@,
        passes(c1, Token::ColonColon, c2),
        names(c2, v, d),
        c1.size() < c.size(),
        c2.size() < c.size(),
        d.size() < c.size(),
    ensures
        p_pattern(c) == p_variant(d, e + "::"@ + v, true),
{
}

/// Alternatives stand between bars: a bar goes on with the next one.
pub proof fn law_alternatives_read(
    c: Cursor,
    acc: Seq<PatternV>,
    p: PatternV,
    c1: Cursor,
    d: Cursor,
)
    requires
        p_pattern(c) == Ok::<(PatternV, Cursor), DiagnosticV>((p, c1)),
    ensures
        !c1.at(Token::Pipe) ==> p_alternatives(c, acc) == Ok::<
            (Seq<PatternV>, Cursor),
            DiagnosticV,
        >((acc.push(p), c1)),
        passes(c1, Token::Pipe, d) && d.size() < c.size() ==> p_alternatives(c, acc)
            == p_alternatives(d, acc.push(p)),
{
}

/// A program is its statements, all of them, up to the end of the text.
pub proof fn law_program_reads(src: Seq<char>, c: Cursor, stmts: Seq<StmtV>)
    requires
        start(Scan::of(src)) == Ok::<Cursor, DiagnosticV>(c),
    ensures
        parsed(src) == Ok::<Seq<StmtV>, DiagnosticV>(stmts) <==> exists|cs: Seq<Cursor>| #[trigger]
            stmts_row(cs, stmts, Token::Eof) && cs[0] == c,
{
    let r = law_stmts(c, Token::Eof, Seq::empty(), stmts);
    if exists|cs: Seq<Cursor>| #[trigger] stmts_row(cs, stmts, Token::Eof) && cs[0] == c {
        let cs = choose|cs: Seq<Cursor>| #[trigger]
            stmts_row(cs, stmts, Token::Eof) && cs[0] == c;
        let r2 = law_stmts(c, Token::Eof, cs, stmts);
    }
    if parsed(src) == Ok::<Seq<StmtV>, DiagnosticV>(stmts) {
        assert(stmts_row(r, stmts, Token::Eof));
    }
}

/// `a..b` is a range; without the dots it is the first expression.
pub proof fn law_range_reads(
    c: Cursor,
    a: ExprV,
    c1: Cursor,
    c2: Cursor,
    b: ExprV,
    end: Cursor,
)
    requires
        p_binop(c, 0) == Ok::<(ExprV, Cursor), DiagnosticV>((a, c1)),
    ensures
        !c1.at(Token::DotDot) ==> p_expr(c) == Ok::<(ExprV, Cursor), DiagnosticV>((a, c1)),
        passes(c1, Token::DotDot, c2) && c2.size() < c.size() && p_binop(c2, 0) == Ok::<
            (ExprV, Cursor),
            DiagnosticV,
        >((b, end)) ==> (p_expr(c) matches Ok((e, end1)) && end1 == end && *e.kind
            == ExprKindV::Range(Box::new(a), Box::new(b))),
{
    assert(p_expr(c) == rule_expr(c));
}

/// `import "path";` is an import of that path.
pub proof fn law_import_reads(c: Cursor, c1: Cursor, path: Seq<char>, c2: Cursor, end: Cursor)
    requires
        adv(c) == Ok::<Cursor, DiagnosticV>(c1),
    ensures
        c1.cur == TokenV::Str(path) && adv(c1) == Ok::<Cursor, DiagnosticV>(c2) && passes(
            c2,
            Token::Semicolon,
            end,
        ) ==> p_import(c) == Ok::<(StmtKindV, Cursor), DiagnosticV>((StmtKindV::Import(path), end)),
        !(c1.cur is Str) ==> p_import(c) is Err,
{
}

/// A foreign function is its name, its parameters and its result type; a calling
/// convention before it is passed over.
pub proof fn law_foreign_reads(
    c: Cursor,
    c1: Cursor,
    c2: Cursor,
    c3: Cursor,
    name: Seq<char>,
    c4: Cursor,
    sig: (Seq<(Seq<char>, TypeV)>, TypeV),
    c5: Cursor,
    end: Cursor,
)
    requires
        adv(c) == Ok::<Cursor, DiagnosticV>(c1),
        if c1.cur is Str {
            adv(c1) == Ok::<Cursor, DiagnosticV>(c2)
        } else {
            c2 == c1
        },
        passes(c2, Token::Fn, c3),
        names(c3, name, c4),
        p_signature(c4, false) == Ok::<((Seq<(Seq<char>, TypeV)>, TypeV), Cursor), DiagnosticV>(
            (sig, c5),
        ),
        passes(c5, Token::Semicolon, end),
    ensures
        p_foreign(c) == Ok::<(StmtKindV, Cursor), DiagnosticV>(
            (StmtKindV::ExternFn { name, params: sig.0, ret: sig.1 }, end),
        ),
{
}

/// An arm is its alternatives, its guard and its body behind the arrow; the arms go on
/// with the next one, up to the closing brace.
pub proof fn law_arm_reads(
    c: Cursor,
    acc: Seq<(Seq<PatternV>, Option<ExprV>, ExprV)>,
    ps: Seq<PatternV>,
    c1: Cursor,
    g: Option<ExprV>,
    c2: Cursor,
    c3: Cursor,
    e: ExprV,
    c4: Cursor,
    d: Cursor,
)
    requires
        c.cur != TokenV::Fixed(Token::RBrace),
        p_alternatives(c, Seq::empty()) == Ok::<(Seq<PatternV>, Cursor), DiagnosticV>((ps, c1)),
        c1.size() < c.size(),
        p_guard(c1) == Ok::<(Option<ExprV>, Cursor), DiagnosticV>((g, c2)),
        passes(c2, Token::FatArrow, c3),
        c3.size() < c.size(),
        p_expr(c3) == Ok::<(ExprV, Cursor), DiagnosticV>((e, c4)),
        opt_comma(c4) == Ok::<Cursor, DiagnosticV>(d),
        d.size() < c.size(),
    ensures
        p_arms(c, acc) == p_arms(d, acc.push((ps, g, e))),
{
    assert(p_arms(c, acc) == rule_arms(c, acc));
}

/// The arms end at the closing brace, and without an arrow there is no arm.
pub proof fn law_arms_end(c: Cursor, acc: Seq<(Seq<PatternV>, Option<ExprV>, ExprV)>)
    ensures
        c.cur == TokenV::Fixed(Token::RBrace) ==> p_arms(c, acc) == Ok::<
            (Seq<(Seq<PatternV>, Option<ExprV>, ExprV)>, Cursor),
            DiagnosticV,
        >((acc, c)),
        c.cur != TokenV::Fixed(Token::RBrace) && p_alternatives(c, Seq::empty()) is Err ==> p_arms(
            c,
            acc,
        ) is Err,
        c.cur != TokenV::Fixed(Token::RBrace) ==> (p_alternatives(c, Seq::empty()) matches Ok(
            (ps, c1),
        ) ==> (p_guard(c1) matches Ok((g, c2)) ==> (c2.cur != TokenV::Fixed(Token::FatArrow)
            ==> p_arms(c, acc) is Err))),
{
    assert(p_arms(c, acc) == rule_arms(c, acc));
}

// ---- what is not read ----

/// Where a part of a construct cannot be read, the construct cannot: a value before the
/// semicolon of a jump, a guard, an operand, an index, the arguments of a method, and the
/// expression of a statement.
pub proof fn law_broken_parts(e: ExprV, c: Cursor, d: Cursor)
    requires
        adv(c) == Ok::<Cursor, DiagnosticV>(d),
    ensures
        d.cur != TokenV::Fixed(Token::Semicolon) && p_expr(d) is Err ==> p_jump(c) is Err,
        c.at(Token::If) && p_expr(d) is Err ==> p_guard(c) is Err,
        (c.at(Token::Minus) || c.at(Token::Bang)) && p_unary(d) is Err ==> p_unary(c) is Err,
        c.at(Token::LBrack) && p_expr(d) is Err ==> p_postfix_rest(e, c) is Err,
        c.at(Token::LBrack) ==> (p_expr(d) matches Ok((i, x)) ==> (x.cur != TokenV::Fixed(
            Token::RBrack,
        ) ==> p_postfix_rest(e, c) is Err)),
        c.at(Token::Dot) && !(d.cur is Ident) ==> p_postfix_rest(e, c) is Err,
        p_expr(c) is Err ==> p_expr_stmt(c) is Err,
        c.at(Token::Else) && d.at(Token::If) ==> {
            &&& p_stmt(d) is Err ==> p_else(c) is Err
            &&& p_if_expr(d) is Err ==> p_else_expr(c) is Err
        },
{
    assert(p_jump(c) == rule_jump(c));
    assert(p_guard(c) == rule_guard(c));
    assert(p_unary(c) == rule_unary(c));
    assert(p_postfix_rest(e, c) == rule_postfix_rest(e, c));
    assert(p_expr_stmt(c) == rule_expr_stmt(c));
    assert(p_else(c) == rule_else(c));
    assert(p_else_expr(c) == rule_else_expr(c));
}

/// The parentheses and brackets of types, parameters and patterns have to close, and a
/// parameter has to have a type.
pub proof fn law_broken_types(c: Cursor, with_self: bool, acc: Seq<(Seq<char>, TypeV)>, d: Cursor)
    requires
        adv(c) == Ok::<Cursor, DiagnosticV>(d),
    ensures
        !(c.cur is Ident) && !c.at(Token::LBrack) && !c.at(Token::Fn) ==> p_type(c) is Err,
        c.at(Token::LBrack) ==> (p_type(d) matches Ok((el, x)) ==> (x.cur != TokenV::Fixed(
            Token::RBrack,
        ) ==> p_type(c) is Err)),
        c.cur != TokenV::Fixed(Token::LParen) ==> p_signature(c, with_self) is Err,
        !(c.cur is Ident) ==> p_params(c, with_self, acc) is Err,
        c.cur matches TokenV::Ident(n) ==> (!(with_self && n == "self"@) && d.cur
            != TokenV::Fixed(Token::Colon) ==> p_params(c, with_self, acc) is Err),
        !(c.cur is Int) && !(c.cur is Str) && !(c.cur is Bool) && !(c.cur is Ident) ==> p_pattern(c)
            is Err,
{
}

/// The parameters of a signature have to close.
pub proof fn law_broken_signature(
    c: Cursor,
    with_self: bool,
    c1: Cursor,
    params: Seq<(Seq<char>, TypeV)>,
    c2: Cursor,
)
    requires
        passes(c, Token::LParen, c1),
        !c1.at(Token::RParen),
        p_params(c1, with_self, Seq::empty()) == Ok::<
            (Seq<(Seq<char>, TypeV)>, Cursor),
            DiagnosticV,
        >((params, c2)),
        c2.cur != TokenV::Fixed(Token::RParen),
    ensures
        p_signature(c, with_self) is Err,
{
}

/// The arguments of a method call have to close.
pub proof fn law_broken_method(
    e: ExprV,
    c: Cursor,
    c1: Cursor,
    name: Seq<char>,
    c2: Cursor,
    c3: Cursor,
)
    requires
        passes(c, Token::Dot, c1),
        names(c1, name, c2),
        passes(c2, Token::LParen, c3),
    ensures
        p_exprs_until(c3, Token::RParen, Seq::empty()) is Err ==> p_postfix_rest(e, c) is Err,
{
    assert(p_postfix_rest(e, c) == rule_postfix_rest(e, c));
}

} // verus!
