//! What checking leaves behind: a checked expression binds nothing, and what a
//! block or a function binds ends with it.

use crate::ast::{ExprKindV, ExprV, PatternV, StmtKindV, StmtV, TypeV};
use crate::builtins::{builtin_method, builtin_signature};
use crate::diagnostic::Span;
use crate::grammar::name_of;
use crate::typing::{
    bind, check_against, check_alternatives, check_arm, check_arms, check_array, check_binary,
    check_block, check_call, check_each, check_elements, check_expr, check_field, check_fields,
    check_fn, check_fn_call, check_for, check_generic, check_if, check_index, check_loop_body,
    check_match, check_method_call, check_opt, check_pattern, check_patterns, check_plain_call,
    check_range, check_return, check_stmt, check_stmt_inner, check_stmts, check_struct_lit,
    check_unary, check_while, element_type, inside_fn, lookup_method, method_params, payload_types,
    recorded, EnvV, SigV,
};
use crate::variants::{lookup_v, LookupV};
use vstd::prelude::*;

verus! {

/// What is known is what was known, but for the calls on record, to which some
/// may have been added.
pub open spec fn only_records(before: EnvV, after: EnvV) -> bool {
    &&& after == (EnvV { instantiations: after.instantiations, ..before })
    &&& before.instantiations.is_prefix_of(after.instantiations)
}

/// The same, but for the innermost scope, in which names may have been
/// defined.
pub open spec fn only_defines(before: EnvV, after: EnvV) -> bool {
    &&& after == (EnvV {
        instantiations: after.instantiations,
        scopes: after.scopes,
        ..before
    })
    &&& before.instantiations.is_prefix_of(after.instantiations)
    &&& after.scopes.len() == before.scopes.len()
    &&& after.scopes.len() > 0
    &&& after.scopes.drop_last() == before.scopes.drop_last()
}

proof fn lemma_chain(a: EnvV, b: EnvV, c: EnvV)
    ensures
        only_records(a, a),
        a.scopes.len() > 0 ==> only_defines(a, a),
        only_records(a, b) && only_records(b, c) ==> only_records(a, c),
        only_defines(a, b) && only_defines(b, c) ==> only_defines(a, c),
        only_records(a, b) && a.scopes.len() > 0 ==> only_defines(a, b),
        only_records(a, b) && only_defines(b, c) ==> only_defines(a, c),
        only_defines(a, b) && only_records(b, c) ==> only_defines(a, c),
{
}

proof fn lemma_scope(env: EnvV, name: Seq<char>, ty: TypeV, after: EnvV)
    ensures
        env.scopes.len() > 0 ==> only_defines(env, env.define(name, ty)),
        env.push_scope().scopes.len() > 0,
        only_defines(env.push_scope(), after) ==> only_records(env, after.pop_scope()),
{
    if env.scopes.len() > 0 {
        assert(env.define(name, ty).scopes.drop_last() =~= env.scopes.drop_last());
    }
    assert(env.push_scope().scopes.drop_last() =~= env.scopes);
}

proof fn lemma_define_all(env: EnvV, params: Seq<(Seq<char>, TypeV)>)
    requires
        env.scopes.len() > 0,
    ensures
        only_defines(env, env.define_all(params)),
    decreases params.len(),
{
    lemma_chain(env, env, env);
    if params.len() > 0 {
        let inner = env.define_all(params.drop_last());
        lemma_define_all(env, params.drop_last());
        lemma_scope(inner, params.last().0, params.last().1, inner);
        lemma_chain(env, inner, env.define_all(params));
    }
}

/// An expression that checks binds no name: what is known after it is what was
/// known before, with the calls of generic functions in it on record.
pub proof fn law_expression_binds_nothing(e: ExprV, env: EnvV)
    requires
        env.scopes.len() > 0,
    ensures
        check_expr(e, env).0 is Ok ==> only_records(env, check_expr(e, env).1),
    decreases e, 1int,
{
    lemma_chain(env, env, env);
    match *e.kind {
        ExprKindV::Binary(_, _, _) => lemma_operands(e, env),
        ExprKindV::Unary(_, _) => lemma_operands(e, env),
        ExprKindV::Call(_, _) => lemma_call(e, env),
        ExprKindV::MethodCall(_, _, _) => lemma_method_call(e, env),
        ExprKindV::FieldAccess(_, _) => lemma_operands(e, env),
        ExprKindV::StructLit { .. } => lemma_struct_lit(e, env),
        ExprKindV::Match { .. } => lemma_match(e, env),
        ExprKindV::If { .. } => lemma_if(e, env),
        ExprKindV::While { .. } => lemma_loops(e, env),
        ExprKindV::For { .. } => lemma_loops(e, env),
        ExprKindV::Range(_, _) => lemma_operands(e, env),
        ExprKindV::ArrayLit(_) => lemma_array(e, env),
        ExprKindV::Index(_, _) => lemma_operands(e, env),
        _ => {},
    }
}

proof fn lemma_operands(e: ExprV, env: EnvV)
    requires
        env.scopes.len() > 0,
    ensures
        *e.kind is Binary && check_binary(e, env).0 is Ok ==> only_records(
            env,
            check_binary(e, env).1,
        ),
        *e.kind is Unary && check_unary(e, env).0 is Ok ==> only_records(env, check_unary(e, env).1),
        *e.kind is FieldAccess && check_field(e, env).0 is Ok ==> only_records(
            env,
            check_field(e, env).1,
        ),
        *e.kind is Range && check_range(e, env).0 is Ok ==> only_records(env, check_range(e, env).1),
        *e.kind is Index && check_index(e, env).0 is Ok ==> only_records(env, check_index(e, env).1),
    decreases e, 0int,
{
    match *e.kind {
        ExprKindV::Binary(l, _, r) => {
            law_expression_binds_nothing(*l, env);
            let env1 = check_expr(*l, env).1;
            if check_expr(*l, env).0 is Ok {
                law_expression_binds_nothing(*r, env1);
                lemma_chain(env, env1, check_expr(*r, env1).1);
            }
        },
        ExprKindV::Range(l, r) => {
            law_expression_binds_nothing(*l, env);
            let env1 = check_expr(*l, env).1;
            if check_expr(*l, env).0 is Ok {
                law_expression_binds_nothing(*r, env1);
                lemma_chain(env, env1, check_expr(*r, env1).1);
            }
        },
        ExprKindV::Index(l, r) => {
            law_expression_binds_nothing(*l, env);
            let env1 = check_expr(*l, env).1;
            if check_expr(*l, env).0 is Ok {
                law_expression_binds_nothing(*r, env1);
                lemma_chain(env, env1, check_expr(*r, env1).1);
            }
        },
        ExprKindV::Unary(_, x) => law_expression_binds_nothing(*x, env),
        ExprKindV::FieldAccess(x, _) => law_expression_binds_nothing(*x, env),
        _ => {},
    }
}

proof fn lemma_each(es: Seq<ExprV>, i: int, env: EnvV)
    requires
        env.scopes.len() > 0,
    ensures
        check_each(es, i, env).0 is Ok ==> only_records(env, check_each(es, i, env).1),
    decreases es, es.len() - i,
{
    lemma_chain(env, env, env);
    if 0 <= i < es.len() {
        law_expression_binds_nothing(es[i], env);
        let env1 = check_expr(es[i], env).1;
        if check_expr(es[i], env).0 is Ok {
            lemma_each(es, i + 1, env1);
            lemma_chain(env, env1, check_each(es, i + 1, env1).1);
        }
    }
}

proof fn lemma_against(
    es: Seq<ExprV>,
    expected: Seq<TypeV>,
    i: int,
    acc: Seq<TypeV>,
    env: EnvV,
)
    requires
        env.scopes.len() > 0,
    ensures
        check_against(es, expected, i, acc, env).0 is Ok ==> only_records(
            env,
            check_against(es, expected, i, acc, env).1,
        ),
    decreases es, es.len() - i,
{
    lemma_chain(env, env, env);
    if 0 <= i < es.len() {
        law_expression_binds_nothing(es[i], env);
        match check_expr(es[i], env) {
            (Ok(t), env1) => {
                lemma_against(es, expected, i + 1, acc.push(t), env1);
                lemma_chain(env, env1, check_against(es, expected, i + 1, acc.push(t), env1).1);
            },
            _ => {},
        }
    }
}

proof fn lemma_generic(
    es: Seq<ExprV>,
    sig: SigV,
    i: int,
    b: Map<Seq<char>, TypeV>,
    env: EnvV,
)
    requires
        env.scopes.len() > 0,
    ensures
        check_generic(es, sig, i, b, env).0 is Ok ==> only_records(
            env,
            check_generic(es, sig, i, b, env).1,
        ),
    decreases es, es.len() - i,
{
    lemma_chain(env, env, env);
    if 0 <= i < es.len() {
        law_expression_binds_nothing(es[i], env);
        match check_expr(es[i], env) {
            (Ok(t), env1) => match bind(sig.params[i], t, sig.generics, b) {
                Ok(b1) => {
                    lemma_generic(es, sig, i + 1, b1, env1);
                    lemma_chain(env, env1, check_generic(es, sig, i + 1, b1, env1).1);
                },
                Err(_) => {},
            },
            _ => {},
        }
    }
}

proof fn lemma_plain_call(name: Seq<char>, args: Seq<ExprV>, arity: nat, ret: TypeV, env: EnvV)
    requires
        env.scopes.len() > 0,
    ensures
        check_plain_call(name, args, arity, ret, env).0 is Ok ==> only_records(
            env,
            check_plain_call(name, args, arity, ret, env).1,
        ),
    decreases args, args.len() + 1,
{
    lemma_each(args, 0, env);
}

proof fn lemma_recorded(
    name: Seq<char>,
    sig: SigV,
    b: Map<Seq<char>, TypeV>,
    span: Span,
    env: EnvV,
)
    ensures
        only_records(env, recorded(name, sig, b, span, env)),
{
    lemma_chain(env, env, env);
}

proof fn lemma_fn_call(name: Seq<char>, sig: SigV, args: Seq<ExprV>, span: Span, env: EnvV)
    requires
        env.scopes.len() > 0,
    ensures
        check_fn_call(name, sig, args, span, env).0 is Ok ==> only_records(
            env,
            check_fn_call(name, sig, args, span, env).1,
        ),
    decreases args, args.len() + 1,
{
    lemma_generic(args, sig, 0, Map::empty(), env);
    match check_generic(args, sig, 0, Map::empty(), env) {
        (Ok(b), env1) => {
            lemma_recorded(name, sig, b, span, env1);
            lemma_chain(env, env1, recorded(name, sig, b, span, env1));
        },
        _ => {},
    }
}

proof fn lemma_call(e: ExprV, env: EnvV)
    requires
        env.scopes.len() > 0,
    ensures
        *e.kind is Call && check_call(e, env).0 is Ok ==> only_records(env, check_call(e, env).1),
    decreases e, 0int,
{
    match *e.kind {
        ExprKindV::Call(callee, args) => match name_of(*callee) {
            None => {},
            Some(name) => {
                if builtin_signature(name) is Some {
                    let (arity, ret) = builtin_signature(name)->Some_0;
                    lemma_plain_call(name, args, arity, ret, env);
                } else if env.macros.contains_key(name) {
                    lemma_plain_call(name, args, env.macros[name], TypeV::Inferred, env);
                } else {
                    match lookup_v(env.variants, name) {
                        LookupV::Unique(v) => lemma_against(args, v.payload, 0, Seq::empty(), env),
                        LookupV::Ambiguous(_) => {},
                        LookupV::Unknown => {
                            if env.functions.contains_key(name) {
                                lemma_fn_call(name, env.functions[name], args, e.span, env);
                            }
                        },
                    }
                }
            },
        },
        _ => {},
    }
}

proof fn lemma_method_call(e: ExprV, env: EnvV)
    requires
        env.scopes.len() > 0,
    ensures
        *e.kind is MethodCall && check_method_call(e, env).0 is Ok ==> only_records(
            env,
            check_method_call(e, env).1,
        ),
    decreases e, 0int,
{
    match *e.kind {
        ExprKindV::MethodCall(obj, method, args) => {
            law_expression_binds_nothing(*obj, env);
            match check_expr(*obj, env) {
                (Ok(TypeV::Named(n, targs)), env1) => {
                    if builtin_method(n, targs, method) is Some {
                        let (arity, ret) = builtin_method(n, targs, method)->Some_0;
                        lemma_plain_call(method, args, arity, ret, env1);
                        lemma_chain(env, env1, check_plain_call(method, args, arity, ret, env1).1);
                    } else {
                        match lookup_method(env1.impls, n, method, 0) {
                            None => {},
                            Some((params, ret)) => {
                                let ps = method_params(params);
                                lemma_against(args, ps, 0, Seq::empty(), env1);
                                lemma_chain(
                                    env,
                                    env1,
                                    check_against(args, ps, 0, Seq::empty(), env1).1,
                                );
                            },
                        }
                    }
                },
                _ => {},
            }
        },
        _ => {},
    }
}

proof fn lemma_fields(
    name: Seq<char>,
    def: Seq<(Seq<char>, TypeV)>,
    fields: Seq<(Seq<char>, ExprV)>,
    i: int,
    env: EnvV,
)
    requires
        env.scopes.len() > 0,
    ensures
        check_fields(name, def, fields, i, env).0 is Ok ==> only_records(
            env,
            check_fields(name, def, fields, i, env).1,
        ),
    decreases fields, fields.len() - i,
{
    lemma_chain(env, env, env);
    if 0 <= i < fields.len() {
        law_expression_binds_nothing(fields[i].1, env);
        let env1 = check_expr(fields[i].1, env).1;
        if check_expr(fields[i].1, env).0 is Ok {
            lemma_fields(name, def, fields, i + 1, env1);
            lemma_chain(env, env1, check_fields(name, def, fields, i + 1, env1).1);
        }
    }
}

proof fn lemma_struct_lit(e: ExprV, env: EnvV)
    requires
        env.scopes.len() > 0,
    ensures
        *e.kind is StructLit && check_struct_lit(e, env).0 is Ok ==> only_records(
            env,
            check_struct_lit(e, env).1,
        ),
    decreases e, 0int,
{
    match *e.kind {
        ExprKindV::StructLit { name, fields } => {
            lemma_fields(name, env.structs[name], fields, 0, env);
        },
        _ => {},
    }
}

proof fn lemma_pattern(p: PatternV, t: TypeV, env: EnvV)
    requires
        env.scopes.len() > 0,
    ensures
        check_pattern(p, t, env).0 is Ok ==> only_defines(env, check_pattern(p, t, env).1),
    decreases p, 1int,
{
    lemma_chain(env, env, env);
    match p {
        PatternV::Literal(e) => {
            law_expression_binds_nothing(e, env);
            lemma_chain(env, check_expr(e, env).1, env);
        },
        PatternV::Variable(name) => lemma_scope(env, name, t, env),
        PatternV::Wildcard => {},
        PatternV::EnumVariant { name, inner } => match lookup_v(env.variants, name) {
            LookupV::Unique(v) => lemma_patterns(inner, payload_types(v, t), 0, env),
            _ => {},
        },
    }
}

proof fn lemma_patterns(ps: Seq<PatternV>, ts: Seq<TypeV>, i: int, env: EnvV)
    requires
        env.scopes.len() > 0,
    ensures
        check_patterns(ps, ts, i, env).0 is Ok ==> only_defines(
            env,
            check_patterns(ps, ts, i, env).1,
        ),
    decreases ps, ps.len() - i,
{
    lemma_chain(env, env, env);
    if 0 <= i < ps.len() {
        lemma_pattern(ps[i], ts[i], env);
        let env1 = check_pattern(ps[i], ts[i], env).1;
        if check_pattern(ps[i], ts[i], env).0 is Ok {
            lemma_patterns(ps, ts, i + 1, env1);
            lemma_chain(env, env1, check_patterns(ps, ts, i + 1, env1).1);
        }
    }
}

pub proof fn lemma_alternatives(ps: Seq<PatternV>, t: TypeV, i: int, env: EnvV)
    requires
        env.scopes.len() > 0,
    ensures
        check_alternatives(ps, t, i, env).0 is Ok ==> only_defines(
            env,
            check_alternatives(ps, t, i, env).1,
        ),
    decreases ps, ps.len() - i,
{
    lemma_chain(env, env, env);
    if 0 <= i < ps.len() {
        lemma_pattern(ps[i], t, env);
        let env1 = check_pattern(ps[i], t, env).1;
        if check_pattern(ps[i], t, env).0 is Ok {
            lemma_alternatives(ps, t, i + 1, env1);
            lemma_chain(env, env1, check_alternatives(ps, t, i + 1, env1).1);
        }
    }
}

proof fn lemma_opt(e: Option<ExprV>, env: EnvV)
    requires
        env.scopes.len() > 0,
    ensures
        check_opt(e, env).0 is Ok ==> only_records(env, check_opt(e, env).1),
    decreases e, 0int,
{
    lemma_chain(env, env, env);
    match e {
        Some(x) => law_expression_binds_nothing(x, env),
        None => {},
    }
}

/// What the patterns of a match arm bind ends with the arm.
pub proof fn law_arm_binds_nothing_outside(
    arm: (Seq<PatternV>, Option<ExprV>, ExprV),
    t: TypeV,
    env: EnvV,
)
    requires
        env.scopes.len() > 0,
    ensures
        check_arm(arm, t, env).0 is Ok ==> only_records(env, check_arm(arm, t, env).1),
    decreases arm, 0int,
{
    let inner = env.push_scope();
    lemma_alternatives(arm.0, t, 0, inner);
    match check_alternatives(arm.0, t, 0, inner) {
        (Ok(_), env1) => {
            lemma_opt(arm.1, env1);
            match check_opt(arm.1, env1) {
                (Ok(_), env2) => {
                    law_expression_binds_nothing(arm.2, env2);
                    match check_expr(arm.2, env2) {
                        (Ok(_), env3) => {
                            lemma_chain(inner, env1, env2);
                            lemma_chain(inner, env2, env3);
                            lemma_scope(env, ""@, t, env3);
                        },
                        _ => {},
                    }
                },
                _ => {},
            }
        },
        _ => {},
    }
}

proof fn lemma_arms(
    arms: Seq<(Seq<PatternV>, Option<ExprV>, ExprV)>,
    t: TypeV,
    i: int,
    found: Option<TypeV>,
    env: EnvV,
)
    requires
        env.scopes.len() > 0,
    ensures
        check_arms(arms, t, i, found, env).0 is Ok ==> only_records(
            env,
            check_arms(arms, t, i, found, env).1,
        ),
    decreases arms, arms.len() - i,
{
    lemma_chain(env, env, env);
    if 0 <= i < arms.len() {
        law_arm_binds_nothing_outside(arms[i], t, env);
        match check_arm(arms[i], t, env) {
            (Ok(bt), env1) => {
                let now = match found {
                    None => Some(bt),
                    Some(_) => found,
                };
                lemma_arms(arms, t, i + 1, now, env1);
                lemma_chain(env, env1, check_arms(arms, t, i + 1, now, env1).1);
            },
            _ => {},
        }
    }
}

proof fn lemma_match(e: ExprV, env: EnvV)
    requires
        env.scopes.len() > 0,
    ensures
        *e.kind is Match && check_match(e, env).0 is Ok ==> only_records(env, check_match(e, env).1),
    decreases e, 0int,
{
    match *e.kind {
        ExprKindV::Match { scrutinee, arms } => {
            law_expression_binds_nothing(*scrutinee, env);
            match check_expr(*scrutinee, env) {
                (Ok(t), env1) => {
                    lemma_arms(arms, t, 0, None, env1);
                    lemma_chain(env, env1, check_arms(arms, t, 0, None, env1).1);
                },
                _ => {},
            }
        },
        _ => {},
    }
}

proof fn lemma_if(e: ExprV, env: EnvV)
    requires
        env.scopes.len() > 0,
    ensures
        *e.kind is If && check_if(e, env).0 is Ok ==> only_records(env, check_if(e, env).1),
    decreases e, 0int,
{
    match *e.kind {
        ExprKindV::If { cond, then_body, else_body } => {
            law_expression_binds_nothing(*cond, env);
            match check_expr(*cond, env) {
                (Ok(_), env1) => {
                    law_expression_binds_nothing(*then_body, env1);
                    match check_expr(*then_body, env1) {
                        (Ok(_), env2) => {
                            lemma_chain(env, env1, env2);
                            match else_body {
                                Some(eb) => {
                                    law_expression_binds_nothing(*eb, env2);
                                    lemma_chain(env, env2, check_expr(*eb, env2).1);
                                },
                                None => {},
                            }
                        },
                        _ => {},
                    }
                },
                _ => {},
            }
        },
        _ => {},
    }
}

proof fn lemma_loops(e: ExprV, env: EnvV)
    requires
        env.scopes.len() > 0,
    ensures
        *e.kind is While && check_while(e, env).0 is Ok ==> only_records(env, check_while(e, env).1),
        *e.kind is For && check_for(e, env).0 is Ok ==> only_records(env, check_for(e, env).1),
    decreases e, 0int,
{
    match *e.kind {
        ExprKindV::While { cond, body } => {
            law_expression_binds_nothing(*cond, env);
            match check_expr(*cond, env) {
                (Ok(_), env1) => {
                    law_block_binds_nothing_outside(body, env1);
                    lemma_chain(env, env1, check_block(body, env1).1);
                },
                _ => {},
            }
        },
        ExprKindV::For { var, iter, body } => {
            law_expression_binds_nothing(*iter, env);
            match check_expr(*iter, env) {
                (Ok(t), env1) => {
                    lemma_loop_body(var, t, body, env1);
                    lemma_chain(env, env1, check_loop_body(var, t, body, env1).1);
                },
                _ => {},
            }
        },
        _ => {},
    }
}

proof fn lemma_elements(es: Seq<ExprV>, first: TypeV, i: int, env: EnvV)
    requires
        env.scopes.len() > 0,
    ensures
        check_elements(es, first, i, env).0 is Ok ==> only_records(
            env,
            check_elements(es, first, i, env).1,
        ),
    decreases es, es.len() - i,
{
    lemma_chain(env, env, env);
    if 0 <= i < es.len() {
        law_expression_binds_nothing(es[i], env);
        let env1 = check_expr(es[i], env).1;
        if check_expr(es[i], env).0 is Ok {
            lemma_elements(es, first, i + 1, env1);
            lemma_chain(env, env1, check_elements(es, first, i + 1, env1).1);
        }
    }
}

proof fn lemma_array(e: ExprV, env: EnvV)
    requires
        env.scopes.len() > 0,
    ensures
        *e.kind is ArrayLit && check_array(e, env).0 is Ok ==> only_records(
            env,
            check_array(e, env).1,
        ),
    decreases e, 0int,
{
    lemma_chain(env, env, env);
    match *e.kind {
        ExprKindV::ArrayLit(es) => {
            if es.len() > 0 {
                law_expression_binds_nothing(es[0], env);
                match check_expr(es[0], env) {
                    (Ok(first), env1) => {
                        lemma_elements(es, first, 1, env1);
                        lemma_chain(env, env1, check_elements(es, first, 1, env1).1);
                    },
                    _ => {},
                }
            }
        },
        _ => {},
    }
}

/// Statements that check define names in the innermost scope only.
pub proof fn law_statements_define_in_their_scope(ss: Seq<StmtV>, i: int, env: EnvV)
    requires
        env.scopes.len() > 0,
    ensures
        check_stmts(ss, i, env).0 is Ok ==> only_defines(env, check_stmts(ss, i, env).1),
    decreases ss, ss.len() - i,
{
    lemma_chain(env, env, env);
    if 0 <= i < ss.len() {
        lemma_stmt(ss[i], env);
        let env1 = check_stmt(ss[i], env).1;
        if check_stmt(ss[i], env).0 is Ok {
            law_statements_define_in_their_scope(ss, i + 1, env1);
            lemma_chain(env, env1, check_stmts(ss, i + 1, env1).1);
        }
    }
}

/// What a block defines ends with it.
pub proof fn law_block_binds_nothing_outside(ss: Seq<StmtV>, env: EnvV)
    requires
        env.scopes.len() > 0,
    ensures
        check_block(ss, env).0 is Ok ==> only_records(env, check_block(ss, env).1),
    decreases ss, ss.len() + 1,
{
    law_statements_define_in_their_scope(ss, 0, env.push_scope());
    lemma_scope(env, ""@, TypeV::Unit, check_stmts(ss, 0, env.push_scope()).1);
}

proof fn lemma_loop_body(var: Seq<char>, t: TypeV, body: Seq<StmtV>, env: EnvV)
    requires
        env.scopes.len() > 0,
    ensures
        check_loop_body(var, t, body, env).0 is Ok ==> only_records(
            env,
            check_loop_body(var, t, body, env).1,
        ),
    decreases body, body.len() + 1,
{
    match element_type(t) {
        None => {},
        Some(el) => {
            let inner = env.push_scope();
            let ready = inner.define(var, el);
            lemma_scope(inner, var, el, inner);
            law_statements_define_in_their_scope(body, 0, ready);
            let done = check_stmts(body, 0, ready).1;
            lemma_chain(inner, ready, done);
            lemma_scope(env, var, el, done);
        },
    }
}

proof fn lemma_stmt(s: StmtV, env: EnvV)
    requires
        env.scopes.len() > 0,
    ensures
        check_stmt(s, env).0 is Ok ==> only_defines(env, check_stmt(s, env).1),
    decreases s, 2int,
{
    lemma_stmt_inner(s, env);
}

proof fn lemma_stmt_inner(s: StmtV, env: EnvV)
    requires
        env.scopes.len() > 0,
    ensures
        check_stmt_inner(s, env).0 is Ok ==> only_defines(env, check_stmt_inner(s, env).1),
    decreases s, 1int,
{
    lemma_chain(env, env, env);
    match s.kind {
        StmtKindV::Let { name, value, .. } => {
            law_expression_binds_nothing(value, env);
            match check_expr(value, env) {
                (Ok(t), env1) => {
                    lemma_scope(env1, name, t, env1);
                    lemma_chain(env, env1, env1.define(name, t));
                },
                _ => {},
            }
        },
        StmtKindV::Fn { .. } => {
            law_function_binds_nothing_outside(s, env);
            lemma_chain(env, check_fn(s, env).1, env);
        },
        StmtKindV::While { cond, body } => {
            law_expression_binds_nothing(cond, env);
            match check_expr(cond, env) {
                (Ok(_), env1) => {
                    law_block_binds_nothing_outside(body, env1);
                    lemma_chain(env, env1, check_block(body, env1).1);
                    lemma_chain(env, check_block(body, env1).1, env);
                },
                _ => {},
            }
        },
        StmtKindV::For { var, iter, body } => {
            law_expression_binds_nothing(iter, env);
            match check_expr(iter, env) {
                (Ok(t), env1) => {
                    lemma_loop_body(var, t, body, env1);
                    lemma_chain(env, env1, check_loop_body(var, t, body, env1).1);
                    lemma_chain(env, check_loop_body(var, t, body, env1).1, env);
                },
                _ => {},
            }
        },
        StmtKindV::Assign { value, .. } => {
            law_expression_binds_nothing(value, env);
            lemma_chain(env, check_expr(value, env).1, env);
        },
        StmtKindV::If { cond, then_body, else_body } => {
            law_expression_binds_nothing(cond, env);
            match check_expr(cond, env) {
                (Ok(_), env1) => {
                    law_block_binds_nothing_outside(then_body, env1);
                    match check_block(then_body, env1) {
                        (Ok(_), env2) => {
                            lemma_chain(env, env1, env2);
                            lemma_chain(env, env2, env);
                            match else_body {
                                Some(eb) => {
                                    law_block_binds_nothing_outside(eb, env2);
                                    lemma_chain(env, env2, check_block(eb, env2).1);
                                    lemma_chain(env, check_block(eb, env2).1, env);
                                },
                                None => {},
                            }
                        },
                        _ => {},
                    }
                },
                _ => {},
            }
        },
        StmtKindV::Expr(e) => {
            law_expression_binds_nothing(e, env);
            lemma_chain(env, check_expr(e, env).1, env);
        },
        StmtKindV::Return(e) => {
            lemma_return(e, env);
            lemma_chain(env, check_return(e, env).1, env);
        },
        _ => {},
    }
}

/// What a function's parameters and body define ends with it, and so does what
/// is particular to its body.
pub proof fn law_function_binds_nothing_outside(s: StmtV, env: EnvV)
    requires
        env.scopes.len() > 0,
    ensures
        s.kind is Fn && check_fn(s, env).0 is Ok ==> {
            let after = check_fn(s, env).1;
            after == (EnvV { instantiations: after.instantiations, ..env })
                && env.instantiations.is_prefix_of(after.instantiations)
        },
    decreases s, 0int,
{
    match s.kind {
        StmtKindV::Fn { name, generics, params, ret, body } => {
            let opened = env.push_scope();
            let start = inside_fn(name, generics.len() > 0, params, ret, env);
            lemma_define_all(opened, params);
            law_statements_define_in_their_scope(body, 0, start);
            let done = check_stmts(body, 0, start).1;
            if check_stmts(body, 0, start).0 is Ok {
                assert(start.scopes.drop_last() =~= opened.scopes.drop_last());
                assert(done.scopes.drop_last() =~= env.scopes);
            }
        },
        _ => {},
    }
}

proof fn lemma_return(e: Option<ExprV>, env: EnvV)
    requires
        env.scopes.len() > 0,
    ensures
        check_return(e, env).0 is Ok ==> only_records(env, check_return(e, env).1),
    decreases e, 0int,
{
    lemma_chain(env, env, env);
    match e {
        Some(x) => law_expression_binds_nothing(x, env),
        None => {},
    }
}

} // verus!
