//! Calls on record do not count: checking gives the same answer whatever calls of
//! generic functions were seen before, and so the same answer twice.

use crate::ast::{ExprKindV, ExprV, PatternV, StmtKindV, StmtV, TypeV};
use crate::builtins::{builtin_method, builtin_signature};
use crate::check_laws::{law_expression_binds_nothing, only_records};
use crate::diagnostic::Span;
use crate::grammar::name_of;
use crate::typing::{
    bind, check_against, check_alternatives, check_arm, check_arms, check_array, check_binary,
    check_block, check_call, check_each, check_elements, check_expr, check_field, check_fields,
    check_fn, check_fn_call, check_for, check_generic, check_if, check_index, check_loop_body,
    check_match, check_method_call, check_opt, check_pattern, check_patterns, check_plain_call,
    check_range, check_return, check_stmt, check_stmt_inner, check_stmts, check_struct_lit,
    check_unary, check_user_method, check_variant_call, check_while, element_type, inside_fn,
    lookup_method, method_params, payload_types, Checked, EnvV, SigV, TypeErrorV,
};
use crate::variants::{lookup_v, LookupV, VariantV};
use vstd::prelude::*;

verus! {

/// What is known is the same, but for the calls on record.
pub open spec fn alike(a: EnvV, b: EnvV) -> bool {
    b == (EnvV { instantiations: b.instantiations, ..a })
}

/// Two checks have the same outcome.
pub open spec fn same<T>(x: Checked<T>, y: Checked<T>) -> bool {
    x.0 == y.0 && alike(x.1, y.1)
}

/// The type of an expression, or what is wrong with it, does not depend on the calls
/// on record; nor does what is known after it.
pub proof fn law_records_do_not_count(e: ExprV, a: EnvV, b: EnvV)
    requires
        alike(a, b),
    ensures
        same(check_expr(e, a), check_expr(e, b)),
    decreases e, 1int,
{
    match *e.kind {
        ExprKindV::Binary(_, _, _) => lemma_pairs(e, a, b),
        ExprKindV::Unary(_, _) => lemma_pairs(e, a, b),
        ExprKindV::Call(_, _) => lemma_call(e, a, b),
        ExprKindV::MethodCall(_, _, _) => lemma_method_call(e, a, b),
        ExprKindV::FieldAccess(_, _) => lemma_pairs(e, a, b),
        ExprKindV::StructLit { .. } => lemma_struct_lit(e, a, b),
        ExprKindV::Match { .. } => lemma_match(e, a, b),
        ExprKindV::If { .. } => lemma_if(e, a, b),
        ExprKindV::While { .. } => lemma_loops(e, a, b),
        ExprKindV::For { .. } => lemma_loops(e, a, b),
        ExprKindV::Range(_, _) => lemma_pairs(e, a, b),
        ExprKindV::ArrayLit(_) => lemma_array(e, a, b),
        ExprKindV::Index(_, _) => lemma_pairs(e, a, b),
        _ => {},
    }
}

proof fn lemma_pairs(e: ExprV, a: EnvV, b: EnvV)
    requires
        alike(a, b),
    ensures
        *e.kind is Binary ==> same(check_binary(e, a), check_binary(e, b)),
        *e.kind is Unary ==> same(check_unary(e, a), check_unary(e, b)),
        *e.kind is FieldAccess ==> same(check_field(e, a), check_field(e, b)),
        *e.kind is Range ==> same(check_range(e, a), check_range(e, b)),
        *e.kind is Index ==> same(check_index(e, a), check_index(e, b)),
    decreases e, 0int,
{
    match *e.kind {
        ExprKindV::Binary(l, _, r) => {
            law_records_do_not_count(*l, a, b);
            law_records_do_not_count(*r, check_expr(*l, a).1, check_expr(*l, b).1);
        },
        ExprKindV::Range(l, r) => {
            law_records_do_not_count(*l, a, b);
            law_records_do_not_count(*r, check_expr(*l, a).1, check_expr(*l, b).1);
        },
        ExprKindV::Index(l, r) => {
            law_records_do_not_count(*l, a, b);
            law_records_do_not_count(*r, check_expr(*l, a).1, check_expr(*l, b).1);
        },
        ExprKindV::Unary(_, x) => law_records_do_not_count(*x, a, b),
        ExprKindV::FieldAccess(x, _) => law_records_do_not_count(*x, a, b),
        _ => {},
    }
}

proof fn lemma_each(es: Seq<ExprV>, i: int, a: EnvV, b: EnvV)
    requires
        alike(a, b),
    ensures
        same(check_each(es, i, a), check_each(es, i, b)),
    decreases es, es.len() - i,
{
    if 0 <= i < es.len() {
        law_records_do_not_count(es[i], a, b);
        lemma_each(es, i + 1, check_expr(es[i], a).1, check_expr(es[i], b).1);
    }
}

proof fn lemma_against(
    es: Seq<ExprV>,
    expected: Seq<TypeV>,
    i: int,
    acc: Seq<TypeV>,
    a: EnvV,
    b: EnvV,
)
    requires
        alike(a, b),
    ensures
        same(check_against(es, expected, i, acc, a), check_against(es, expected, i, acc, b)),
    decreases es, es.len() - i,
{
    if 0 <= i < es.len() {
        law_records_do_not_count(es[i], a, b);
        match check_expr(es[i], a) {
            (Ok(t), a1) => lemma_against(
                es,
                expected,
                i + 1,
                acc.push(t),
                a1,
                check_expr(es[i], b).1,
            ),
            _ => {},
        }
    }
}

proof fn lemma_generic(
    es: Seq<ExprV>,
    sig: SigV,
    i: int,
    m: Map<Seq<char>, TypeV>,
    a: EnvV,
    b: EnvV,
)
    requires
        alike(a, b),
    ensures
        same(check_generic(es, sig, i, m, a), check_generic(es, sig, i, m, b)),
    decreases es, es.len() - i,
{
    if 0 <= i < es.len() {
        law_records_do_not_count(es[i], a, b);
        match check_expr(es[i], a) {
            (Ok(t), a1) => match bind(sig.params[i], t, sig.generics, m) {
                Ok(m1) => lemma_generic(es, sig, i + 1, m1, a1, check_expr(es[i], b).1),
                Err(_) => {},
            },
            _ => {},
        }
    }
}

proof fn lemma_plain_call(
    name: Seq<char>,
    args: Seq<ExprV>,
    arity: nat,
    ret: TypeV,
    a: EnvV,
    b: EnvV,
)
    requires
        alike(a, b),
    ensures
        same(
            check_plain_call(name, args, arity, ret, a),
            check_plain_call(name, args, arity, ret, b),
        ),
    decreases args, args.len() + 1,
{
    lemma_each(args, 0, a, b);
}

proof fn lemma_variant_call(name: Seq<char>, v: VariantV, args: Seq<ExprV>, a: EnvV, b: EnvV)
    requires
        alike(a, b),
    ensures
        same(check_variant_call(name, v, args, a), check_variant_call(name, v, args, b)),
    decreases args, args.len() + 1,
{
    lemma_against(args, v.payload, 0, Seq::empty(), a, b);
}

proof fn lemma_user_method(
    method: Seq<char>,
    params: Seq<TypeV>,
    ret: TypeV,
    args: Seq<ExprV>,
    a: EnvV,
    b: EnvV,
)
    requires
        alike(a, b),
    ensures
        same(
            check_user_method(method, params, ret, args, a),
            check_user_method(method, params, ret, args, b),
        ),
    decreases args, args.len() + 1,
{
    lemma_against(args, params, 0, Seq::empty(), a, b);
}

proof fn lemma_fn_call(
    name: Seq<char>,
    sig: SigV,
    args: Seq<ExprV>,
    span: Span,
    a: EnvV,
    b: EnvV,
)
    requires
        alike(a, b),
    ensures
        same(check_fn_call(name, sig, args, span, a), check_fn_call(name, sig, args, span, b)),
    decreases args, args.len() + 1,
{
    lemma_generic(args, sig, 0, Map::empty(), a, b);
}

proof fn lemma_call(e: ExprV, a: EnvV, b: EnvV)
    requires
        alike(a, b),
    ensures
        *e.kind is Call ==> same(check_call(e, a), check_call(e, b)),
    decreases e, 0int,
{
    match *e.kind {
        ExprKindV::Call(callee, args) => match name_of(*callee) {
            None => {},
            Some(name) => {
                if builtin_signature(name) is Some {
                    let (arity, ret) = builtin_signature(name)->Some_0;
                    lemma_plain_call(name, args, arity, ret, a, b);
                } else if a.macros.contains_key(name) {
                    lemma_plain_call(name, args, a.macros[name], TypeV::Inferred, a, b);
                } else {
                    match lookup_v(a.variants, name) {
                        LookupV::Unique(v) => lemma_variant_call(name, v, args, a, b),
                        LookupV::Ambiguous(_) => {},
                        LookupV::Unknown => {
                            if a.functions.contains_key(name) {
                                lemma_fn_call(name, a.functions[name], args, e.span, a, b);
                            }
                        },
                    }
                }
            },
        },
        _ => {},
    }
}

proof fn lemma_method_call(e: ExprV, a: EnvV, b: EnvV)
    requires
        alike(a, b),
    ensures
        *e.kind is MethodCall ==> same(check_method_call(e, a), check_method_call(e, b)),
    decreases e, 0int,
{
    match *e.kind {
        ExprKindV::MethodCall(obj, method, args) => {
            law_records_do_not_count(*obj, a, b);
            let b1 = check_expr(*obj, b).1;
            match check_expr(*obj, a) {
                (Ok(TypeV::Named(n, targs)), a1) => {
                    if builtin_method(n, targs, method) is Some {
                        let (arity, ret) = builtin_method(n, targs, method)->Some_0;
                        lemma_plain_call(method, args, arity, ret, a1, b1);
                    } else {
                        match lookup_method(a1.impls, n, method, 0) {
                            None => {},
                            Some((params, ret)) => lemma_user_method(
                                method,
                                method_params(params),
                                ret,
                                args,
                                a1,
                                b1,
                            ),
                        }
                    }
                },
                _ => {},
            }
        },
        _ => {},
    }
}

proof fn lemma_fields(
    name: Seq<char>,
    def: Seq<(Seq<char>, TypeV)>,
    fields: Seq<(Seq<char>, ExprV)>,
    i: int,
    a: EnvV,
    b: EnvV,
)
    requires
        alike(a, b),
    ensures
        same(check_fields(name, def, fields, i, a), check_fields(name, def, fields, i, b)),
    decreases fields, fields.len() - i,
{
    if 0 <= i < fields.len() {
        law_records_do_not_count(fields[i].1, a, b);
        lemma_fields(
            name,
            def,
            fields,
            i + 1,
            check_expr(fields[i].1, a).1,
            check_expr(fields[i].1, b).1,
        );
    }
}

proof fn lemma_struct_lit(e: ExprV, a: EnvV, b: EnvV)
    requires
        alike(a, b),
    ensures
        *e.kind is StructLit ==> same(check_struct_lit(e, a), check_struct_lit(e, b)),
    decreases e, 0int,
{
    match *e.kind {
        ExprKindV::StructLit { name, fields } => {
            lemma_fields(name, a.structs[name], fields, 0, a, b);
        },
        _ => {},
    }
}

pub proof fn lemma_pattern(p: PatternV, t: TypeV, a: EnvV, b: EnvV)
    requires
        alike(a, b),
    ensures
        same(check_pattern(p, t, a), check_pattern(p, t, b)),
    decreases p, 1int,
{
    match p {
        PatternV::Literal(e) => law_records_do_not_count(e, a, b),
        PatternV::EnumVariant { name, inner } => match lookup_v(a.variants, name) {
            LookupV::Unique(v) => lemma_patterns(inner, payload_types(v, t), 0, a, b),
            _ => {},
        },
        _ => {},
    }
}

proof fn lemma_patterns(ps: Seq<PatternV>, ts: Seq<TypeV>, i: int, a: EnvV, b: EnvV)
    requires
        alike(a, b),
    ensures
        same(check_patterns(ps, ts, i, a), check_patterns(ps, ts, i, b)),
    decreases ps, ps.len() - i,
{
    if 0 <= i < ps.len() {
        lemma_pattern(ps[i], ts[i], a, b);
        lemma_patterns(
            ps,
            ts,
            i + 1,
            check_pattern(ps[i], ts[i], a).1,
            check_pattern(ps[i], ts[i], b).1,
        );
    }
}

proof fn lemma_alternatives(ps: Seq<PatternV>, t: TypeV, i: int, a: EnvV, b: EnvV)
    requires
        alike(a, b),
    ensures
        same(check_alternatives(ps, t, i, a), check_alternatives(ps, t, i, b)),
    decreases ps, ps.len() - i,
{
    if 0 <= i < ps.len() {
        lemma_pattern(ps[i], t, a, b);
        lemma_alternatives(
            ps,
            t,
            i + 1,
            check_pattern(ps[i], t, a).1,
            check_pattern(ps[i], t, b).1,
        );
    }
}

pub proof fn lemma_opt(e: Option<ExprV>, a: EnvV, b: EnvV)
    requires
        alike(a, b),
    ensures
        same(check_opt(e, a), check_opt(e, b)),
    decreases e, 0int,
{
    match e {
        Some(x) => law_records_do_not_count(x, a, b),
        None => {},
    }
}

pub proof fn lemma_arm(
    arm: (Seq<PatternV>, Option<ExprV>, ExprV),
    t: TypeV,
    a: EnvV,
    b: EnvV,
)
    requires
        alike(a, b),
    ensures
        same(check_arm(arm, t, a), check_arm(arm, t, b)),
    decreases arm, 0int,
{
    lemma_alternatives(arm.0, t, 0, a.push_scope(), b.push_scope());
    let a1 = check_alternatives(arm.0, t, 0, a.push_scope()).1;
    let b1 = check_alternatives(arm.0, t, 0, b.push_scope()).1;
    lemma_opt(arm.1, a1, b1);
    law_records_do_not_count(arm.2, check_opt(arm.1, a1).1, check_opt(arm.1, b1).1);
}

proof fn lemma_arms(
    arms: Seq<(Seq<PatternV>, Option<ExprV>, ExprV)>,
    t: TypeV,
    i: int,
    found: Option<TypeV>,
    a: EnvV,
    b: EnvV,
)
    requires
        alike(a, b),
    ensures
        same(check_arms(arms, t, i, found, a), check_arms(arms, t, i, found, b)),
    decreases arms, arms.len() - i,
{
    if 0 <= i < arms.len() {
        lemma_arm(arms[i], t, a, b);
        match check_arm(arms[i], t, a) {
            (Ok(bt), a1) => {
                let now = match found {
                    None => Some(bt),
                    Some(_) => found,
                };
                lemma_arms(arms, t, i + 1, now, a1, check_arm(arms[i], t, b).1);
            },
            _ => {},
        }
    }
}

proof fn lemma_match(e: ExprV, a: EnvV, b: EnvV)
    requires
        alike(a, b),
    ensures
        *e.kind is Match ==> same(check_match(e, a), check_match(e, b)),
    decreases e, 0int,
{
    match *e.kind {
        ExprKindV::Match { scrutinee, arms } => {
            law_records_do_not_count(*scrutinee, a, b);
            match check_expr(*scrutinee, a) {
                (Ok(t), a1) => lemma_arms(arms, t, 0, None, a1, check_expr(*scrutinee, b).1),
                _ => {},
            }
        },
        _ => {},
    }
}

proof fn lemma_if(e: ExprV, a: EnvV, b: EnvV)
    requires
        alike(a, b),
    ensures
        *e.kind is If ==> same(check_if(e, a), check_if(e, b)),
    decreases e, 0int,
{
    match *e.kind {
        ExprKindV::If { cond, then_body, else_body } => {
            law_records_do_not_count(*cond, a, b);
            let a1 = check_expr(*cond, a).1;
            let b1 = check_expr(*cond, b).1;
            law_records_do_not_count(*then_body, a1, b1);
            match else_body {
                Some(eb) => law_records_do_not_count(
                    *eb,
                    check_expr(*then_body, a1).1,
                    check_expr(*then_body, b1).1,
                ),
                None => {},
            }
        },
        _ => {},
    }
}

proof fn lemma_loops(e: ExprV, a: EnvV, b: EnvV)
    requires
        alike(a, b),
    ensures
        *e.kind is While ==> same(check_while(e, a), check_while(e, b)),
        *e.kind is For ==> same(check_for(e, a), check_for(e, b)),
    decreases e, 0int,
{
    match *e.kind {
        ExprKindV::While { cond, body } => {
            law_records_do_not_count(*cond, a, b);
            lemma_block(body, check_expr(*cond, a).1, check_expr(*cond, b).1);
        },
        ExprKindV::For { var, iter, body } => {
            law_records_do_not_count(*iter, a, b);
            match check_expr(*iter, a) {
                (Ok(t), a1) => lemma_loop_body(var, t, body, a1, check_expr(*iter, b).1),
                _ => {},
            }
        },
        _ => {},
    }
}

proof fn lemma_elements(es: Seq<ExprV>, first: TypeV, i: int, a: EnvV, b: EnvV)
    requires
        alike(a, b),
    ensures
        same(check_elements(es, first, i, a), check_elements(es, first, i, b)),
    decreases es, es.len() - i,
{
    if 0 <= i < es.len() {
        law_records_do_not_count(es[i], a, b);
        lemma_elements(es, first, i + 1, check_expr(es[i], a).1, check_expr(es[i], b).1);
    }
}

proof fn lemma_array(e: ExprV, a: EnvV, b: EnvV)
    requires
        alike(a, b),
    ensures
        *e.kind is ArrayLit ==> same(check_array(e, a), check_array(e, b)),
    decreases e, 0int,
{
    match *e.kind {
        ExprKindV::ArrayLit(es) => if es.len() > 0 {
            law_records_do_not_count(es[0], a, b);
            match check_expr(es[0], a) {
                (Ok(first), a1) => lemma_elements(es, first, 1, a1, check_expr(es[0], b).1),
                _ => {},
            }
        },
        _ => {},
    }
}

proof fn lemma_stmts(ss: Seq<StmtV>, i: int, a: EnvV, b: EnvV)
    requires
        alike(a, b),
    ensures
        same(check_stmts(ss, i, a), check_stmts(ss, i, b)),
    decreases ss, ss.len() - i,
{
    if 0 <= i < ss.len() {
        lemma_stmt(ss[i], a, b);
        lemma_stmts(ss, i + 1, check_stmt(ss[i], a).1, check_stmt(ss[i], b).1);
    }
}

pub proof fn lemma_block(ss: Seq<StmtV>, a: EnvV, b: EnvV)
    requires
        alike(a, b),
    ensures
        same(check_block(ss, a), check_block(ss, b)),
    decreases ss, ss.len() + 1,
{
    lemma_stmts(ss, 0, a.push_scope(), b.push_scope());
}

proof fn lemma_loop_body(var: Seq<char>, t: TypeV, body: Seq<StmtV>, a: EnvV, b: EnvV)
    requires
        alike(a, b),
    ensures
        same(check_loop_body(var, t, body, a), check_loop_body(var, t, body, b)),
    decreases body, body.len() + 1,
{
    match element_type(t) {
        None => {},
        Some(el) => lemma_stmts(
            body,
            0,
            a.push_scope().define(var, el),
            b.push_scope().define(var, el),
        ),
    }
}

proof fn lemma_stmt(s: StmtV, a: EnvV, b: EnvV)
    requires
        alike(a, b),
    ensures
        check_stmt(s, a).0 == check_stmt(s, b).0,
        alike(check_stmt(s, a).1, check_stmt(s, b).1),
    decreases s, 2int,
{
    lemma_stmt_inner(s, a, b);
}

proof fn lemma_stmt_inner(s: StmtV, a: EnvV, b: EnvV)
    requires
        alike(a, b),
    ensures
        same(check_stmt_inner(s, a), check_stmt_inner(s, b)),
    decreases s, 1int,
{
    match s.kind {
        StmtKindV::Let { value, .. } => law_records_do_not_count(value, a, b),
        StmtKindV::Fn { .. } => lemma_fn(s, a, b),
        StmtKindV::While { cond, body } => {
            law_records_do_not_count(cond, a, b);
            lemma_block(body, check_expr(cond, a).1, check_expr(cond, b).1);
        },
        StmtKindV::For { var, iter, body } => {
            law_records_do_not_count(iter, a, b);
            match check_expr(iter, a) {
                (Ok(t), a1) => lemma_loop_body(var, t, body, a1, check_expr(iter, b).1),
                _ => {},
            }
        },
        StmtKindV::Assign { value, .. } => law_records_do_not_count(value, a, b),
        StmtKindV::If { cond, then_body, else_body } => {
            law_records_do_not_count(cond, a, b);
            let a1 = check_expr(cond, a).1;
            let b1 = check_expr(cond, b).1;
            lemma_block(then_body, a1, b1);
            match else_body {
                Some(eb) => lemma_block(
                    eb,
                    check_block(then_body, a1).1,
                    check_block(then_body, b1).1,
                ),
                None => {},
            }
        },
        StmtKindV::Expr(e) => law_records_do_not_count(e, a, b),
        StmtKindV::Return(e) => lemma_return(e, a, b),
        _ => {},
    }
}

proof fn lemma_define_all(a: EnvV, b: EnvV, params: Seq<(Seq<char>, TypeV)>)
    requires
        alike(a, b),
    ensures
        alike(a.define_all(params), b.define_all(params)),
    decreases params.len(),
{
    if params.len() > 0 {
        lemma_define_all(a, b, params.drop_last());
    }
}

proof fn lemma_fn(s: StmtV, a: EnvV, b: EnvV)
    requires
        alike(a, b),
    ensures
        same(check_fn(s, a), check_fn(s, b)),
    decreases s, 0int,
{
    match s.kind {
        StmtKindV::Fn { name, generics, params, ret, body } => {
            lemma_define_all(a.push_scope(), b.push_scope(), params);
            lemma_stmts(
                body,
                0,
                inside_fn(name, generics.len() > 0, params, ret, a),
                inside_fn(name, generics.len() > 0, params, ret, b),
            );
        },
        _ => {},
    }
}

proof fn lemma_return(e: Option<ExprV>, a: EnvV, b: EnvV)
    requires
        alike(a, b),
    ensures
        same(check_return(e, a), check_return(e, b)),
    decreases e, 0int,
{
    match e {
        Some(x) => law_records_do_not_count(x, a, b),
        None => {},
    }
}

/// An expression that checks has the same type when it is checked again with what is
/// known then.
pub proof fn law_checking_again_gives_the_same(e: ExprV, env: EnvV)
    requires
        env.scopes.len() > 0,
    ensures
        check_expr(e, env).0 matches Ok(t) ==> {
            let again = check_expr(e, check_expr(e, env).1);
            again.0 == Ok::<TypeV, TypeErrorV>(t) && only_records(env, again.1)
        },
{
    if check_expr(e, env).0 is Ok {
        law_expression_binds_nothing(e, env);
        let once = check_expr(e, env).1;
        law_records_do_not_count(e, env, once);
        law_expression_binds_nothing(e, once);
    }
}

} // verus!
