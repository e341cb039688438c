//! What it takes for a program to type-check, construct by construct: which parts have
//! to check, which of their types have to agree, and what type comes out.

use crate::ast::{
    type_text, BinOp, ExprKindV, ExprV, PatternV, StmtKindV, StmtV, TraitMethodV, TypeV, UnaryOp,
};
use crate::builtins::{builtin_method, builtin_signature};
use crate::check_laws::{
    law_arm_binds_nothing_outside, law_expression_binds_nothing, lemma_alternatives,
};
use crate::diagnostic::DiagnosticV;
use crate::grammar::name_of;
use crate::record_laws::{alike, law_records_do_not_count, lemma_arm};
use crate::typing::{
    bind, bind_from, check_against, check_alternatives, check_arm, check_arms, check_block,
    check_call, check_each, check_elements, check_expr, check_fields, check_fn, check_fn_call,
    check_generic, check_impls, check_loop_body, check_method_call, check_pattern, check_patterns,
    check_plain_call, check_program, check_stmt, check_stmt_inner, check_stmts, check_user_method,
    check_variant_call, compat, compat_from, declared, error_text, impl_error, inside_fn, lacking,
    law_compat_reflexive, law_compat_symmetric, law_subst_nothing, lookup_method, method_in,
    method_params, named_type, payload_types, subst, subst_all, trait_table, unbound, uncovered,
    variant_type, EnvV, ImplV, SigV, TypeErrorV,
};
use crate::variants::{lookup_v, LookupV, VariantV};
use vstd::prelude::*;

verus! {

// ---- helpers ----

/// An expression has a type.
pub open spec fn has_type(e: ExprV, env: EnvV, t: TypeV) -> bool {
    check_expr(e, env).0 == Ok::<TypeV, TypeErrorV>(t)
}

/// An expression has a type that agrees with an expected one.
pub open spec fn agrees(e: ExprV, env: EnvV, want: TypeV) -> bool {
    exists|t: TypeV| #[trigger] has_type(e, env, t) && compat(want, t)
}

/// An expression has some type.
pub open spec fn checks(e: ExprV, env: EnvV) -> bool {
    check_expr(e, env).0 is Ok
}

/// What comes after an expression is checked as if the expression were not there.
proof fn lemma_next(e: ExprV, x: ExprV, base: EnvV, env: EnvV)
    requires
        alike(base, env),
        base.scopes.len() > 0,
    ensures
        check_expr(e, env).0 == check_expr(e, base).0,
        check_expr(e, env).0 is Ok ==> alike(base, check_expr(e, env).1),
        check_expr(e, env).0 is Ok ==> check_expr(x, check_expr(e, env).1).0 == check_expr(
            x,
            base,
        ).0,
{
    law_records_do_not_count(e, base, env);
    law_expression_binds_nothing(e, env);
    if check_expr(e, env).0 is Ok {
        law_records_do_not_count(x, base, check_expr(e, env).1);
    }
}

// ---- agreement of types ----

/// Types agree where they are built alike from parts that agree. What is not known
/// agrees with anything; a named type agrees with one of the same name where one of them
/// states no arguments, or where the arguments agree one by one.
pub proof fn law_agreement(a: TypeV, b: TypeV)
    ensures
        compat(a, b) <==> {
            ||| a is Inferred || b is Inferred
            ||| a is Int && b is Int
            ||| a is Float && b is Float
            ||| a is Bool && b is Bool
            ||| a is String && b is String
            ||| a is Unit && b is Unit
            ||| a is Range && b is Range
            ||| a is Array && b is Array && compat(*a->Array_0, *b->Array_0)
            ||| {
                &&& a is Named && b is Named
                &&& a->Named_0 == b->Named_0
                &&& a->Named_1.len() == 0 || b->Named_1.len() == 0 || (a->Named_1.len()
                    == b->Named_1.len() && forall|i: int|
                    #![trigger a->Named_1[i]]
                    0 <= i < a->Named_1.len() ==> compat(a->Named_1[i], b->Named_1[i]))
            }
            ||| {
                &&& a is Fn && b is Fn
                &&& a->Fn_0.len() == b->Fn_0.len()
                &&& compat(*a->Fn_1, *b->Fn_1)
                &&& forall|i: int|
                    #![trigger a->Fn_0[i]]
                    0 <= i < a->Fn_0.len() ==> compat(a->Fn_0[i], b->Fn_0[i])
            }
        },
{
    match (a, b) {
        (TypeV::Named(n, xs), TypeV::Named(m, ys)) => if xs.len() == ys.len() {
            lemma_each_agrees(xs, ys, 0);
        },
        (TypeV::Fn(xs, r), TypeV::Fn(ys, s)) => if xs.len() == ys.len() {
            lemma_each_agrees(xs, ys, 0);
        },
        _ => {},
    }
}

proof fn lemma_each_agrees(xs: Seq<TypeV>, ys: Seq<TypeV>, i: int)
    requires
        xs.len() == ys.len(),
        0 <= i <= xs.len(),
    ensures
        compat_from(xs, ys, i) <==> forall|k: int|
            #![trigger xs[k]]
            i <= k < xs.len() ==> compat(xs[k], ys[k]),
    decreases xs.len() - i,
{
    if i < xs.len() {
        lemma_each_agrees(xs, ys, i + 1);
        assert(xs[i] == xs[i]);
    }
}

// ---- literals, names and operators ----

/// The types of literals.
pub proof fn law_literals(e: ExprV, env: EnvV)
    ensures
        *e.kind is Int ==> has_type(e, env, TypeV::Int),
        *e.kind is Float ==> has_type(e, env, TypeV::Float),
        *e.kind is Bool ==> has_type(e, env, TypeV::Bool),
        *e.kind is Str ==> has_type(e, env, TypeV::String),
{
}

/// A name that is no variant has the type of the innermost variable of that name, and
/// checks if and only if there is one. A name that two enums share does not check.
pub proof fn law_names(e: ExprV, env: EnvV, name: Seq<char>, t: TypeV)
    requires
        *e.kind == ExprKindV::Ident(name),
    ensures
        lookup_v(env.variants, name) is Unknown ==> (has_type(e, env, t) <==> env.lookup(name)
            == Some(t)),
        lookup_v(env.variants, name) is Ambiguous ==> !checks(e, env),
        lookup_v(env.variants, name) matches LookupV::Unique(v) ==> (has_type(e, env, t) <==> t
            == TypeV::Named(v.enum_name, Seq::empty())),
{
}

/// Both operands of a binary operator have to check and to agree. Arithmetic has the
/// type of the left operand, a comparison is a truth value, and so is what `&&` and `||`
/// give, which take truth values, integers and what is not known.
pub proof fn law_binary(e: ExprV, env: EnvV, l: ExprV, op: BinOp, r: ExprV, t: TypeV)
    requires
        env.scopes.len() > 0,
        *e.kind == ExprKindV::Binary(Box::new(l), op, Box::new(r)),
    ensures
        has_type(e, env, t) <==> exists|lt: TypeV, rt: TypeV|
            {
                &&& #[trigger] has_type(l, env, lt)
                &&& #[trigger] has_type(r, env, rt)
                &&& compat(lt, rt)
                &&& op is And || op is Or ==> (lt is Bool || lt is Int || lt is Inferred) && (
                rt is Bool || rt is Int || rt is Inferred)
                &&& t == if op is Add || op is Sub || op is Mul || op is Div || op is Mod {
                    lt
                } else {
                    TypeV::Bool
                }
            },
{
    lemma_next(l, r, env, env);
    if check_expr(l, env).0 is Ok && check_expr(r, env).0 is Ok {
        let lt = check_expr(l, env).0->Ok_0;
        let rt = check_expr(r, env).0->Ok_0;
        assert(has_type(l, env, lt) && has_type(r, env, rt));
    }
}

/// `-` takes an integer or a float and keeps its type; `!` takes a truth value or an
/// integer and gives a truth value.
pub proof fn law_unary(e: ExprV, env: EnvV, op: UnaryOp, x: ExprV, t: TypeV)
    requires
        *e.kind == ExprKindV::Unary(op, Box::new(x)),
    ensures
        op is Neg ==> (has_type(e, env, t) <==> has_type(x, env, t) && (t is Int || t is Float)),
        op is Not ==> (has_type(e, env, t) <==> t is Bool && (has_type(x, env, TypeV::Bool)
            || has_type(x, env, TypeV::Int))),
{
}

// ---- structs ----

/// The `d`th field of a struct is the one of that name.
pub open spec fn is_field(def: Seq<(Seq<char>, TypeV)>, name: Seq<char>, d: int) -> bool {
    &&& 0 <= d < def.len()
    &&& def[d].0 == name
    &&& forall|k: int| 0 <= k < d ==> (#[trigger] def[k]).0 != name
}

/// A field of a struct literal is declared, and its expression agrees with its type.
pub open spec fn field_fits(
    def: Seq<(Seq<char>, TypeV)>,
    field: (Seq<char>, ExprV),
    env: EnvV,
) -> bool {
    exists|d: int| #[trigger] is_field(def, field.0, d) && agrees(field.1, env, def[d].1)
}

/// The field of a name is found if and only if there is one, and has its declared type.
pub proof fn law_field_of_a_name(def: Seq<(Seq<char>, TypeV)>, name: Seq<char>, i: int)
    requires
        0 <= i <= def.len(),
        forall|k: int| 0 <= k < i ==> (#[trigger] def[k]).0 != name,
    ensures
        named_type(def, name, i) is None <==> forall|d: int|
            0 <= d < def.len() ==> (#[trigger] def[d]).0 != name,
        forall|d: int| #[trigger] is_field(def, name, d) ==> named_type(def, name, i) == Some(
            def[d].1,
        ),
        named_type(def, name, i) is Some ==> exists|d: int| #[trigger] is_field(def, name, d),
    decreases def.len() - i,
{
    if i < def.len() {
        if def[i].0 == name {
            assert(is_field(def, name, i));
            assert forall|d: int| #[trigger] is_field(def, name, d) implies d == i by {
                if d < i {
                    assert(def[d].0 != name);
                } else if d > i {
                    assert(def[i].0 != name);
                }
            }
        } else {
            law_field_of_a_name(def, name, i + 1);
        }
    }
}

proof fn lemma_fields(
    name: Seq<char>,
    def: Seq<(Seq<char>, TypeV)>,
    fields: Seq<(Seq<char>, ExprV)>,
    i: int,
    base: EnvV,
    env: EnvV,
)
    requires
        0 <= i <= fields.len(),
        alike(base, env),
        base.scopes.len() > 0,
    ensures
        check_fields(name, def, fields, i, env).0 is Ok <==> forall|k: int|
            i <= k < fields.len() ==> field_fits(def, #[trigger] fields[k], base),
    decreases fields.len() - i,
{
    if i < fields.len() {
        let f = fields[i];
        law_field_of_a_name(def, f.0, 0);
        lemma_next(f.1, f.1, base, env);
        match check_expr(f.1, env) {
            (Ok(t), env1) => {
                assert(has_type(f.1, base, t));
                lemma_fields(name, def, fields, i + 1, base, env1);
            },
            _ => {},
        }
        match named_type(def, f.0, 0) {
            Some(want) => {
                let d = choose|d: int| #[trigger] is_field(def, f.0, d);
                assert(is_field(def, f.0, d));
                assert(want == def[d].1);
                if check_expr(f.1, env).0 is Ok && compat(want, check_expr(f.1, env).0->Ok_0) {
                    assert(agrees(f.1, base, def[d].1));
                    assert(field_fits(def, f, base));
                } else {
                    assert(!field_fits(def, f, base));
                }
            },
            None => {
                assert(!field_fits(def, f, base));
            },
        }
    }
}

/// A struct literal checks if and only if the struct is declared, there are as many
/// fields as it has, and every field, wherever it stands, is one of its fields with an
/// expression that agrees with the declared type. Its type is the struct.
pub proof fn law_struct_literal(
    e: ExprV,
    env: EnvV,
    name: Seq<char>,
    fields: Seq<(Seq<char>, ExprV)>,
    t: TypeV,
)
    requires
        env.scopes.len() > 0,
        *e.kind == (ExprKindV::StructLit { name, fields }),
    ensures
        has_type(e, env, t) <==> {
            &&& env.structs.contains_key(name)
            &&& env.structs[name].len() == fields.len()
            &&& forall|k: int|
                0 <= k < fields.len() ==> field_fits(env.structs[name], #[trigger] fields[k], env)
            &&& t == TypeV::Named(name, Seq::empty())
        },
{
    if env.structs.contains_key(name) {
        lemma_fields(name, env.structs[name], fields, 0, env, env);
    }
}

/// A field access checks if and only if its object is of a declared struct that has the
/// field, and has that field's type.
pub proof fn law_field_access(e: ExprV, env: EnvV, obj: ExprV, field: Seq<char>, t: TypeV)
    requires
        env.scopes.len() > 0,
        *e.kind == ExprKindV::FieldAccess(Box::new(obj), field),
    ensures
        has_type(e, env, t) <==> exists|n: Seq<char>, targs: Seq<TypeV>, d: int|
            {
                &&& #[trigger] has_type(obj, env, TypeV::Named(n, targs))
                &&& env.structs.contains_key(n)
                &&& #[trigger] is_field(env.structs[n], field, d)
                &&& t == env.structs[n][d].1
            },
{
    lemma_next(obj, obj, env, env);
    match check_expr(obj, env).0 {
        Ok(TypeV::Named(n, targs)) => {
            assert(has_type(obj, env, TypeV::Named(n, targs)));
            law_field_of_a_name(env.structs[n], field, 0);
        },
        _ => {},
    }
}

// ---- calls ----

proof fn lemma_each(es: Seq<ExprV>, i: int, base: EnvV, env: EnvV)
    requires
        0 <= i <= es.len(),
        alike(base, env),
        base.scopes.len() > 0,
    ensures
        check_each(es, i, env).0 is Ok <==> forall|k: int|
            i <= k < es.len() ==> checks(#[trigger] es[k], base),
    decreases es.len() - i,
{
    if i < es.len() {
        lemma_next(es[i], es[i], base, env);
        if check_expr(es[i], env).0 is Ok {
            lemma_each(es, i + 1, base, check_expr(es[i], env).1);
        } else {
            assert(!checks(es[i], base));
        }
    }
}

/// The types of expressions.
pub open spec fn types_in(es: Seq<ExprV>, env: EnvV) -> Seq<TypeV> {
    Seq::new(es.len(), |i: int| check_expr(es[i], env).0->Ok_0)
}

proof fn lemma_against(
    es: Seq<ExprV>,
    want: Seq<TypeV>,
    i: int,
    acc: Seq<TypeV>,
    base: EnvV,
    env: EnvV,
)
    requires
        0 <= i <= es.len(),
        es.len() == want.len(),
        alike(base, env),
        base.scopes.len() > 0,
        acc == types_in(es, base).take(i),
    ensures
        check_against(es, want, i, acc, env).0 is Ok <==> forall|k: int|
            i <= k < es.len() ==> agrees(#[trigger] es[k], base, want[k]),
        check_against(es, want, i, acc, env).0 matches Ok(ts) ==> ts == types_in(es, base),
    decreases es.len() - i,
{
    if i < es.len() {
        lemma_next(es[i], es[i], base, env);
        match check_expr(es[i], env) {
            (Ok(t), env1) => {
                assert(has_type(es[i], base, t));
                assert(acc.push(t) =~= types_in(es, base).take(i + 1));
                lemma_against(es, want, i + 1, acc.push(t), base, env1);
                if compat(want[i], t) {
                    assert(agrees(es[i], base, want[i]));
                } else {
                    assert(!agrees(es[i], base, want[i]));
                }
            },
            _ => {
                assert(!agrees(es[i], base, want[i]));
            },
        }
    } else {
        assert(types_in(es, base).take(i) =~= types_in(es, base));
    }
}

/// A call of a builtin function has as many arguments as the function takes, each of
/// which checks, and the result type of the function.
pub proof fn law_builtin_call(
    e: ExprV,
    env: EnvV,
    callee: ExprV,
    name: Seq<char>,
    args: Seq<ExprV>,
    t: TypeV,
)
    requires
        env.scopes.len() > 0,
        *e.kind == ExprKindV::Call(Box::new(callee), args),
        *callee.kind == ExprKindV::Ident(name),
        builtin_signature(name) is Some,
    ensures
        has_type(e, env, t) <==> {
            &&& args.len() == builtin_signature(name)->Some_0.0
            &&& forall|k: int| 0 <= k < args.len() ==> checks(#[trigger] args[k], env)
            &&& t == builtin_signature(name)->Some_0.1
        },
{
    lemma_each(args, 0, env, env);
    let (arity, ret) = builtin_signature(name)->Some_0;
    assert(name_of(callee) == Some(name));
    assert(check_expr(e, env) == check_call(e, env));
    assert(check_call(e, env) == check_plain_call(name, args, arity, ret, env));
}

/// What a call's name stands for if it is neither a builtin nor a macro.
pub open spec fn calls_by_name(e: ExprV, env: EnvV, name: Seq<char>, args: Seq<ExprV>) -> bool {
    &&& *e.kind matches ExprKindV::Call(callee, xs) && xs == args && *(*callee).kind
        == ExprKindV::Ident(name)
    &&& builtin_signature(name) is None
    &&& !env.macros.contains_key(name)
}

/// A variant with a payload takes as many values as it declares, each of which agrees
/// with its declared type, and is of its enum.
pub proof fn law_variant_call(
    e: ExprV,
    env: EnvV,
    name: Seq<char>,
    v: VariantV,
    args: Seq<ExprV>,
    t: TypeV,
)
    requires
        env.scopes.len() > 0,
        calls_by_name(e, env, name, args),
        lookup_v(env.variants, name) == LookupV::Unique(v),
    ensures
        has_type(e, env, t) <==> {
            &&& args.len() == v.payload.len()
            &&& forall|k: int|
                0 <= k < args.len() ==> agrees(#[trigger] args[k], env, v.payload[k])
            &&& t == variant_type(v, types_in(args, env))
        },
        has_type(e, env, t) ==> t is Named && t->Named_0 == v.enum_name,
{
    assert(check_expr(e, env) == check_call(e, env));
    assert(check_call(e, env) == check_variant_call(name, v, args, env));
    if args.len() == v.payload.len() {
        assert(types_in(args, env).take(0) =~= Seq::empty());
        lemma_against(args, v.payload, 0, Seq::empty(), env, env);
    }
}

/// What the type of `Some`, `Ok` and `Err` says of the payload.
pub proof fn law_wrapper_types(v: VariantV, x: TypeV)
    ensures
        v.enum_name == "Option"@ && v.name == "Some"@ ==> variant_type(v, seq![x])
            == TypeV::Named("Option"@, seq![x]),
        v.enum_name == "Result"@ && v.name == "Ok"@ ==> variant_type(v, seq![x])
            == TypeV::Named("Result"@, seq![x, TypeV::Inferred]),
        v.enum_name == "Result"@ && v.name == "Err"@ ==> variant_type(v, seq![x])
            == TypeV::Named("Result"@, seq![TypeV::Inferred, x]),
{
    reveal_strlit("Option");
    reveal_strlit("Result");
    reveal_strlit("Some");
    reveal_strlit("Ok");
    reveal_strlit("Err");
    assert("Ok"@.len() == 2 && "Err"@.len() == 3);
}

proof fn lemma_plain_arguments(es: Seq<ExprV>, sig: SigV, i: int, base: EnvV, env: EnvV)
    requires
        0 <= i <= es.len(),
        es.len() == sig.params.len(),
        sig.generics.len() == 0,
        alike(base, env),
        base.scopes.len() > 0,
    ensures
        check_generic(es, sig, i, Map::empty(), env).0 is Ok <==> forall|k: int|
            i <= k < es.len() ==> agrees(#[trigger] es[k], base, sig.params[k]),
        check_generic(es, sig, i, Map::empty(), env).0 matches Ok(b) ==> b == Map::<
            Seq<char>,
            TypeV,
        >::empty(),
    decreases es.len() - i,
{
    if i < es.len() {
        lemma_next(es[i], es[i], base, env);
        match check_expr(es[i], env) {
            (Ok(t), env1) => {
                assert(has_type(es[i], base, t));
                lemma_bind_nothing(sig.params[i], t, sig.generics);
                law_subst_nothing(sig.params[i]);
                lemma_plain_arguments(es, sig, i + 1, base, env1);
                if compat(sig.params[i], t) {
                    assert(agrees(es[i], base, sig.params[i]));
                } else {
                    assert(!agrees(es[i], base, sig.params[i]));
                }
            },
            _ => {
                assert(!agrees(es[i], base, sig.params[i]));
            },
        }
    }
}

proof fn lemma_bind_nothing(p: TypeV, a: TypeV, gs: Seq<Seq<char>>)
    requires
        gs.len() == 0,
    ensures
        bind(p, a, gs, Map::empty()) == Ok::<
            Map<Seq<char>, TypeV>,
            (TypeV, TypeV),
        >(Map::empty()),
    decreases p, 0int,
{
    match p {
        TypeV::Named(n, ps) => match a {
            TypeV::Named(m, xs) => if n == m && ps.len() == xs.len() {
                lemma_bind_nothing_from(ps, xs, gs, 0);
            },
            _ => {},
        },
        TypeV::Array(x) => match a {
            TypeV::Array(y) => lemma_bind_nothing(*x, *y, gs),
            _ => {},
        },
        _ => {},
    }
}

proof fn lemma_bind_nothing_from(ps: Seq<TypeV>, xs: Seq<TypeV>, gs: Seq<Seq<char>>, i: int)
    requires
        gs.len() == 0,
        ps.len() == xs.len(),
        0 <= i,
    ensures
        bind_from(ps, xs, gs, Map::empty(), i) == Ok::<
            Map<Seq<char>, TypeV>,
            (TypeV, TypeV),
        >(Map::empty()),
    decreases ps, ps.len() - i,
{
    if i < ps.len() {
        lemma_bind_nothing(ps[i], xs[i], gs);
        lemma_bind_nothing_from(ps, xs, gs, i + 1);
    }
}

/// A call of a declared function without type parameters checks if and only if it has
/// as many arguments as the function has parameters, and each agrees with its parameter.
/// It has the declared result type.
pub proof fn law_function_call(
    e: ExprV,
    env: EnvV,
    name: Seq<char>,
    args: Seq<ExprV>,
    t: TypeV,
)
    requires
        env.scopes.len() > 0,
        calls_by_name(e, env, name, args),
        lookup_v(env.variants, name) is Unknown,
        env.functions.contains_key(name),
        env.functions[name].generics.len() == 0,
    ensures
        has_type(e, env, t) <==> {
            &&& args.len() == env.functions[name].params.len()
            &&& forall|k: int|
                0 <= k < args.len() ==> agrees(
                    #[trigger] args[k],
                    env,
                    env.functions[name].params[k],
                )
            &&& t == env.functions[name].ret
        },
{
    let sig = env.functions[name];
    assert(check_expr(e, env) == check_call(e, env));
    assert(check_call(e, env) == check_fn_call(name, sig, args, e.span, env));
    if args.len() == sig.params.len() {
        lemma_plain_arguments(args, sig, 0, env, env);
        law_subst_nothing(sig.ret);
        assert(unbound(sig.generics, Map::empty(), 0) is None);
    }
}

/// A call of a name that nothing declares does not check, nor does one of a foreign
/// function.
pub proof fn law_undeclared_call(e: ExprV, env: EnvV, name: Seq<char>, args: Seq<ExprV>)
    requires
        calls_by_name(e, env, name, args),
        !(lookup_v(env.variants, name) is Unique),
        !env.functions.contains_key(name),
    ensures
        !checks(e, env),
{
}

// ---- methods ----

/// A function of a name stands in a list.
pub open spec fn is_method(methods: Seq<StmtV>, name: Seq<char>, j: int) -> bool {
    0 <= j < methods.len() && methods[j].kind is Fn && methods[j].kind->Fn_name == name
}

pub proof fn law_method_of_a_list(methods: Seq<StmtV>, name: Seq<char>, i: int)
    requires
        0 <= i,
    ensures
        method_in(methods, name, i) is Some <==> exists|j: int|
            i <= j && #[trigger] is_method(methods, name, j),
        method_in(methods, name, i) matches Some((params, ret)) ==> exists|j: int|
            #[trigger] is_method(methods, name, j) && methods[j].kind->Fn_params == params
                && methods[j].kind->Fn_ret == ret,
    decreases methods.len() - i,
{
    if i < methods.len() {
        law_method_of_a_list(methods, name, i + 1);
        if is_method(methods, name, i) {
            assert(is_method(methods, name, i));
        }
    }
}

/// An `impl` of a type holds a function of a name.
pub open spec fn impl_holds(im: ImplV, for_type: Seq<char>, name: Seq<char>, j: int) -> bool {
    im.for_type == for_type && is_method(im.methods, name, j)
}

/// A type has a method of a name for the checker if and only if one of its `impl`s,
/// whichever it is, holds a function of that name; and what is found is one of those.
pub proof fn law_method_is_looked_up(
    impls: Seq<ImplV>,
    for_type: Seq<char>,
    name: Seq<char>,
    i: int,
)
    requires
        0 <= i,
    ensures
        lookup_method(impls, for_type, name, i) is Some <==> exists|k: int, j: int|
            i <= k < impls.len() && #[trigger] impl_holds(impls[k], for_type, name, j),
        lookup_method(impls, for_type, name, i) matches Some((params, ret)) ==> exists|
            k: int,
            j: int,
        |
            0 <= k < impls.len() && #[trigger] impl_holds(impls[k], for_type, name, j)
                && impls[k].methods[j].kind->Fn_params == params && impls[k].methods[j].kind->Fn_ret
                == ret,
    decreases impls.len() - i,
{
    if i < impls.len() {
        law_method_is_looked_up(impls, for_type, name, i + 1);
        law_method_of_a_list(impls[i].methods, name, 0);
        if impls[i].for_type == for_type && method_in(impls[i].methods, name, 0) is Some {
            let (params, ret) = method_in(impls[i].methods, name, 0)->Some_0;
            let j = choose|j: int|
                #[trigger] is_method(impls[i].methods, name, j) && impls[i].methods[j].kind->Fn_params
                    == params && impls[i].methods[j].kind->Fn_ret == ret;
            assert(impl_holds(impls[i], for_type, name, j));
        }
        assert forall|k: int, j: int|
            i <= k < impls.len() && #[trigger] impl_holds(impls[k], for_type, name, j) implies k
            > i || (impls[i].for_type == for_type && method_in(impls[i].methods, name, 0)
            is Some) by {
            if k == i {
                assert(is_method(impls[i].methods, name, j));
            }
        }
    }
}

/// A call of a declared method checks if and only if its receiver checks, the arguments
/// are as many as the method has parameters besides `self`, and each agrees with its
/// parameter. It has the declared result type.
pub proof fn law_method_call(
    e: ExprV,
    env: EnvV,
    obj: ExprV,
    method: Seq<char>,
    args: Seq<ExprV>,
    n: Seq<char>,
    targs: Seq<TypeV>,
    params: Seq<(Seq<char>, TypeV)>,
    ret: TypeV,
    t: TypeV,
)
    requires
        env.scopes.len() > 0,
        *e.kind == ExprKindV::MethodCall(Box::new(obj), method, args),
        has_type(obj, env, TypeV::Named(n, targs)),
        builtin_method(n, targs, method) is None,
        lookup_method(env.impls, n, method, 0) == Some((params, ret)),
    ensures
        ({
            let skip: int = if params.len() > 0 && params[0].0 == "self"@ {
                1
            } else {
                0
            };
            has_type(e, env, t) <==> {
                &&& args.len() + skip == params.len()
                &&& forall|k: int|
                    0 <= k < args.len() ==> agrees(#[trigger] args[k], env, params[k + skip].1)
                &&& t == ret
            }
        }),
{
    let want = method_params(params);
    let skip: int = if params.len() > 0 && params[0].0 == "self"@ {
        1
    } else {
        0
    };
    lemma_next(obj, obj, env, env);
    let env1 = check_expr(obj, env).1;
    assert(want.len() + skip == params.len());
    assert(check_expr(e, env) == check_method_call(e, env));
    assert(check_method_call(e, env) == check_user_method(method, want, ret, args, env1));
    if args.len() == want.len() {
        assert(types_in(args, env).take(0) =~= Seq::empty());
        lemma_against(args, want, 0, Seq::empty(), env, env1);
        assert forall|k: int| 0 <= k < args.len() implies want[k] == params[k + skip].1 by {}
    }
}

/// A call of a method that the type does not have does not check.
pub proof fn law_unknown_method(
    e: ExprV,
    env: EnvV,
    obj: ExprV,
    method: Seq<char>,
    args: Seq<ExprV>,
    t: TypeV,
)
    requires
        env.scopes.len() > 0,
        *e.kind == ExprKindV::MethodCall(Box::new(obj), method, args),
        has_type(obj, env, t),
        t matches TypeV::Named(n, targs) ==> builtin_method(n, targs, method) is None
            && forall|k: int, j: int|
            0 <= k < env.impls.len() ==> !#[trigger] impl_holds(env.impls[k], n, method, j),
    ensures
        !checks(e, env),
{
    lemma_next(obj, obj, env, env);
    match t {
        TypeV::Named(n, targs) => law_method_is_looked_up(env.impls, n, method, 0),
        _ => {},
    }
}

/// The methods of `Option` and `Result`: `unwrap` gives what the type says is inside,
/// the others give truth values. They take no arguments.
pub proof fn law_wrapper_methods(owner: Seq<char>, targs: Seq<TypeV>, method: Seq<char>)
    ensures
        builtin_method(owner, targs, method) is Some <==> (owner == "Option"@ || owner
            == "Result"@) && (method == "unwrap"@ || method == "is_some"@ || method == "is_none"@
            || method == "is_ok"@ || method == "is_err"@),
        builtin_method(owner, targs, method) matches Some((n, t)) ==> n == 0 && (method
            == "unwrap"@ && targs.len() > 0 ==> t == targs[0]) && (method == "unwrap"@
            && targs.len() == 0 ==> t is Inferred) && (method != "unwrap"@ ==> t is Bool),
{
}

// ---- match ----

proof fn lemma_arms(
    arms: Seq<(Seq<PatternV>, Option<ExprV>, ExprV)>,
    t: TypeV,
    i: int,
    found: Option<TypeV>,
    base: EnvV,
    env: EnvV,
)
    requires
        0 <= i <= arms.len(),
        alike(base, env),
        base.scopes.len() > 0,
        i > 0 ==> found is Some && check_arm(arms[0], t, base).0 == Ok::<TypeV, TypeErrorV>(
            found->Some_0,
        ),
        i == 0 ==> found is None,
    ensures
        check_arms(arms, t, i, found, env).0 is Ok <==> forall|k: int|
            i <= k < arms.len() ==> arm_fits(arms, t, base, k),
        check_arms(arms, t, i, found, env).0 matches Ok(f) ==> {
            &&& alike(base, check_arms(arms, t, i, found, env).1)
            &&& arms.len() == 0 ==> f is None
            &&& arms.len() > 0 ==> f is Some && check_arm(arms[0], t, base).0 == Ok::<
                TypeV,
                TypeErrorV,
            >(f->Some_0)
        },
    decreases arms.len() - i,
{
    if i < arms.len() {
        lemma_arm(arms[i], t, base, env);
        law_arm_binds_nothing_outside(arms[i], t, env);
        match check_arm(arms[i], t, env) {
            (Ok(bt), env1) => {
                if i == 0 {
                    law_compat_reflexive(bt);
                    assert(arm_fits(arms, t, base, 0));
                    lemma_arms(arms, t, 1, Some(bt), base, env1);
                } else if compat(found->Some_0, bt) {
                    assert(arm_fits(arms, t, base, i));
                    lemma_arms(arms, t, i + 1, found, base, env1);
                } else {
                    assert(!arm_fits(arms, t, base, i));
                }
            },
            _ => {
                assert(!arm_fits(arms, t, base, i));
            },
        }
    }
}

/// An arm of a `match` checks, and its type agrees with that of the first one.
pub open spec fn arm_fits(
    arms: Seq<(Seq<PatternV>, Option<ExprV>, ExprV)>,
    t: TypeV,
    env: EnvV,
    k: int,
) -> bool {
    check_arm(arms[0], t, env).0 matches Ok(first) && (check_arm(arms[k], t, env).0 matches Ok(bt)
        && compat(first, bt))
}

/// A `match` checks if and only if its scrutinee does, every arm does, the arms agree
/// with the first, and nothing is left uncovered. It has the type of the first arm.
pub proof fn law_match(
    e: ExprV,
    env: EnvV,
    scrutinee: ExprV,
    arms: Seq<(Seq<PatternV>, Option<ExprV>, ExprV)>,
    st: TypeV,
    t: TypeV,
)
    requires
        env.scopes.len() > 0,
        *e.kind == (ExprKindV::Match { scrutinee: Box::new(scrutinee), arms }),
        has_type(scrutinee, env, st),
    ensures
        has_type(e, env, t) <==> {
            &&& forall|k: int| 0 <= k < arms.len() ==> #[trigger] arm_fits(arms, st, env, k)
            &&& uncovered(st, arms, env.variants) is None
            &&& arms.len() == 0 ==> t is Unit
            &&& arms.len() > 0 ==> check_arm(arms[0], st, env).0 == Ok::<TypeV, TypeErrorV>(t)
        },
{
    lemma_next(scrutinee, scrutinee, env, env);
    let env1 = check_expr(scrutinee, env).1;
    lemma_arms(arms, st, 0, None, env, env1);
}

// ---- the rest of expressions ----

/// An `if` checks if and only if its parts do and its branches agree. Without an `else`
/// it is nothing, else it has the type of its first branch.
pub proof fn law_if(
    e: ExprV,
    env: EnvV,
    cond: ExprV,
    then_body: ExprV,
    else_body: Option<Box<ExprV>>,
    t: TypeV,
)
    requires
        env.scopes.len() > 0,
        *e.kind == (ExprKindV::If {
            cond: Box::new(cond),
            then_body: Box::new(then_body),
            else_body,
        }),
    ensures
        has_type(e, env, t) <==> {
            &&& checks(cond, env)
            &&& match else_body {
                None => checks(then_body, env) && t is Unit,
                Some(eb) => has_type(then_body, env, t) && agrees(*eb, env, t),
            }
        },
{
    lemma_next(cond, then_body, env, env);
    if checks(cond, env) {
        let env1 = check_expr(cond, env).1;
        match else_body {
            Some(eb) => {
                lemma_next(then_body, *eb, env, env1);
                if check_expr(*eb, env).0 is Ok {
                    assert(has_type(*eb, env, check_expr(*eb, env).0->Ok_0));
                }
            },
            None => {
                lemma_next(then_body, then_body, env, env1);
            },
        }
    }
}

/// A range is made of two integers.
pub proof fn law_range(e: ExprV, env: EnvV, a: ExprV, b: ExprV, t: TypeV)
    requires
        env.scopes.len() > 0,
        *e.kind == ExprKindV::Range(Box::new(a), Box::new(b)),
    ensures
        has_type(e, env, t) <==> has_type(a, env, TypeV::Int) && has_type(b, env, TypeV::Int)
            && t is Range,
{
    lemma_next(a, b, env, env);
}

/// An index is an integer, and what is indexed an array, whose element it is.
pub proof fn law_index_type(e: ExprV, env: EnvV, a: ExprV, i: ExprV, t: TypeV)
    requires
        env.scopes.len() > 0,
        *e.kind == ExprKindV::Index(Box::new(a), Box::new(i)),
    ensures
        has_type(e, env, t) <==> has_type(a, env, TypeV::Array(Box::new(t))) && has_type(
            i,
            env,
            TypeV::Int,
        ),
{
    lemma_next(a, i, env, env);
}

proof fn lemma_elements(es: Seq<ExprV>, first: TypeV, i: int, base: EnvV, env: EnvV)
    requires
        0 <= i <= es.len(),
        alike(base, env),
        base.scopes.len() > 0,
    ensures
        check_elements(es, first, i, env).0 is Ok <==> forall|k: int|
            i <= k < es.len() ==> agrees(#[trigger] es[k], base, first),
    decreases es.len() - i,
{
    if i < es.len() {
        lemma_next(es[i], es[i], base, env);
        match check_expr(es[i], env) {
            (Ok(t), env1) => {
                assert(has_type(es[i], base, t));
                law_compat_symmetric(first, t);
                lemma_elements(es, first, i + 1, base, env1);
                if compat(t, first) {
                    assert(agrees(es[i], base, first));
                } else {
                    assert(!agrees(es[i], base, first));
                }
            },
            _ => {
                assert(!agrees(es[i], base, first));
            },
        }
    }
}

/// The elements of an array literal agree with the first, whose type they give the
/// array. Of what an empty one holds nothing is known.
pub proof fn law_array_literal(e: ExprV, env: EnvV, es: Seq<ExprV>, t: TypeV)
    requires
        env.scopes.len() > 0,
        *e.kind == ExprKindV::ArrayLit(es),
    ensures
        es.len() == 0 ==> (has_type(e, env, t) <==> t == TypeV::Array(Box::new(TypeV::Inferred))),
        es.len() > 0 ==> (has_type(e, env, t) <==> t is Array && has_type(es[0], env, *t->Array_0)
            && forall|k: int|
            1 <= k < es.len() ==> agrees(#[trigger] es[k], env, *t->Array_0)),
{
    if es.len() > 0 {
        lemma_next(es[0], es[0], env, env);
        match check_expr(es[0], env) {
            (Ok(first), env1) => {
                lemma_elements(es, first, 1, env, env1);
                assert(has_type(es[0], env, first));
            },
            _ => {},
        }
    }
}

// ---- statements ----

/// A `let` defines its name with the type of its value, which has to agree with the type
/// that it states.
pub proof fn law_let(st: StmtV, env: EnvV, name: Seq<char>, ty: TypeV, value: ExprV)
    requires
        env.scopes.len() > 0,
        st.kind == (StmtKindV::Let { name, ty, value }),
    ensures
        check_stmt(st, env).0 is Ok <==> (if ty is Inferred {
            checks(value, env)
        } else {
            agrees(value, env, ty)
        }),
        check_stmt(st, env).0 is Ok ==> has_type(
            value,
            env,
            check_stmt(st, env).1.lookup(name)->Some_0,
        ) && check_stmt(st, env).1.lookup(name) is Some,
{
    lemma_next(value, value, env, env);
    match check_expr(value, env) {
        (Ok(t), env1) => {
            assert(has_type(value, env, t));
            let after = env1.define(name, t);
            assert(after.scopes.last().contains_key(name));
            assert(after.lookup(name) == Some(t));
        },
        _ => {},
    }
}

/// What is assigned to a known variable has to agree with its type.
pub proof fn law_assign(st: StmtV, env: EnvV, name: Seq<char>, value: ExprV)
    requires
        env.scopes.len() > 0,
        st.kind == (StmtKindV::Assign { name, value }),
    ensures
        check_stmt(st, env).0 is Ok <==> match env.lookup(name) {
            Some(want) => agrees(value, env, want),
            None => checks(value, env),
        },
        check_stmt(st, env).0 is Ok ==> alike(env, check_stmt(st, env).1),
{
    lemma_next(value, value, env, env);
    match check_expr(value, env) {
        (Ok(t), env1) => {
            assert(has_type(value, env, t));
            assert(env1.lookup(name) == env.lookup(name));
        },
        _ => {},
    }
}

/// What is returned has to agree with the result type of the function; at top level that
/// is nothing.
pub proof fn law_return(st: StmtV, env: EnvV, e: Option<ExprV>)
    requires
        st.kind == StmtKindV::Return(e),
    ensures
        ({
            let ret = match env.current_return {
                Some(t) => t,
                None => TypeV::Unit,
            };
            check_stmt(st, env).0 is Ok <==> match e {
                Some(x) => agrees(x, env, ret),
                None => ret is Unit,
            }
        }),
{
    match e {
        Some(x) => match check_expr(x, env) {
            (Ok(t), env1) => {
                assert(has_type(x, env, t));
            },
            _ => {},
        },
        None => {},
    }
}

/// Statements check if and only if each does, with what is known after those before it.
pub proof fn law_every_statement_checks(ss: Seq<StmtV>, env: EnvV)
    ensures
        check_stmts(ss, 0, env).0 is Ok <==> forall|k: int|
            0 <= k < ss.len() ==> #[trigger] known_before(ss, k, env) is Some && check_stmt(
                ss[k],
                known_before(ss, k, env)->Some_0,
            ).0 is Ok,
{
    lemma_statements(ss, 0, env, env);
}

/// What is known before the `k`th statement, where those before it check.
pub open spec fn known_before(ss: Seq<StmtV>, k: int, env: EnvV) -> Option<EnvV>
    decreases k,
{
    if k <= 0 {
        Some(env)
    } else {
        match known_before(ss, k - 1, env) {
            Some(e1) => match check_stmt(ss[k - 1], e1) {
                (Ok(_), e2) => Some(e2),
                _ => None,
            },
            None => None,
        }
    }
}

proof fn lemma_statements(ss: Seq<StmtV>, i: int, start: EnvV, env: EnvV)
    requires
        0 <= i <= ss.len(),
        known_before(ss, i, start) == Some(env),
    ensures
        check_stmts(ss, i, env).0 is Ok <==> forall|k: int|
            i <= k < ss.len() ==> #[trigger] known_before(ss, k, start) is Some && check_stmt(
                ss[k],
                known_before(ss, k, start)->Some_0,
            ).0 is Ok,
    decreases ss.len() - i,
{
    if i < ss.len() {
        match check_stmt(ss[i], env) {
            (Ok(_), env1) => {
                assert(known_before(ss, i + 1, start) == Some(env1));
                lemma_statements(ss, i + 1, start, env1);
            },
            _ => {
                assert(known_before(ss, i, start) is Some);
            },
        }
    }
}

// ---- traits ----

/// Nothing that a trait requires is lacking if and only if there is a method of the name
/// of each.
pub proof fn law_nothing_lacking(required: Seq<TraitMethodV>, methods: Seq<StmtV>, i: int)
    requires
        0 <= i <= required.len(),
    ensures
        lacking(required, methods, i) is None <==> forall|k: int|
            i <= k < required.len() ==> exists|j: int|
                #[trigger] is_method(methods, (#[trigger] required[k]).name, j),
        lacking(required, methods, i) matches Some(name) ==> exists|k: int|
            i <= k < required.len() && (#[trigger] required[k]).name == name,
    decreases required.len() - i,
{
    if i < required.len() {
        law_nothing_lacking(required, methods, i + 1);
        law_method_of_a_list(methods, required[i].name, 0);
        if method_in(methods, required[i].name, 0) is Some {
            let j = choose|j: int| 0 <= j && #[trigger] is_method(methods, required[i].name, j);
            assert(is_method(methods, required[i].name, j));
        } else {
            assert forall|j: int| !#[trigger] is_method(methods, required[i].name, j) by {}
        }
        assert(required[i] == required[i]);
    }
}

/// In a program that checks, every `impl` of a trait is of a declared trait and has all
/// of its methods, and every statement checks.
pub proof fn law_program_checks(ss: Seq<StmtV>, i: int, j: int, name: Seq<char>)
    requires
        check_program(ss) is Ok,
        0 <= i < ss.len(),
    ensures
        known_before(ss, i, declared(ss)) is Some,
        check_stmt(ss[i], known_before(ss, i, declared(ss))->Some_0).0 is Ok,
        ss[i].kind matches StmtKindV::Impl { trait_name, methods, .. } ==> (trait_name.len() > 0
            ==> trait_table(ss).contains_key(trait_name) && (0 <= j < trait_table(
            ss,
        )[trait_name].len() && trait_table(ss)[trait_name][j].name == name ==> exists|k: int|
            #[trigger] is_method(methods, name, k))),
{
    law_every_statement_checks(ss, declared(ss));
    lemma_impls(ss, 0, i);
    match ss[i].kind {
        StmtKindV::Impl { trait_name, methods, .. } => if trait_name.len() > 0 {
            law_nothing_lacking(trait_table(ss)[trait_name], methods, 0);
        },
        _ => {},
    }
}

proof fn lemma_impls(ss: Seq<StmtV>, k: int, i: int)
    requires
        0 <= k <= i < ss.len(),
        check_impls(ss, k, trait_table(ss)) is Ok,
    ensures
        impl_error(ss[i], trait_table(ss)) is None,
    decreases i - k,
{
    if k < i {
        lemma_impls(ss, k + 1, i);
    }
}

// ---- patterns ----

/// A name in a pattern stands for the value, and has its type; `_` defines nothing; a
/// literal has to agree with the value.
pub proof fn law_pattern_types(p: PatternV, t: TypeV, env: EnvV)
    ensures
        p is Wildcard ==> check_pattern(p, t, env) == (Ok::<(), TypeErrorV>(()), env),
        p matches PatternV::Variable(name) ==> check_pattern(p, t, env).0 is Ok && (
        env.scopes.len() > 0 ==> check_pattern(p, t, env).1.lookup(name) == Some(t)),
        p matches PatternV::Literal(e) ==> (check_pattern(p, t, env).0 is Ok <==> agrees(
            e,
            env,
            t,
        )),
{
    match p {
        PatternV::Variable(name) => {
            if env.scopes.len() > 0 {
                assert(env.define(name, t).scopes.last().contains_key(name));
            }
        },
        PatternV::Literal(e) => match check_expr(e, env) {
            (Ok(pt), _) => {
                assert(has_type(e, env, pt));
                law_compat_symmetric(pt, t);
            },
            _ => {},
        },
        _ => {},
    }
}

/// A variant pattern checks if and only if it names one variant, of the enum that the
/// value is of, has as many patterns as the variant carries values, and each of these
/// checks against its type.
pub proof fn law_variant_pattern_types(
    name: Seq<char>,
    inner: Seq<PatternV>,
    t: TypeV,
    env: EnvV,
)
    ensures
        check_pattern(PatternV::EnumVariant { name, inner }, t, env).0 is Ok <==> (lookup_v(
            env.variants,
            name,
        ) matches LookupV::Unique(v) && compat(t, TypeV::Named(v.enum_name, Seq::empty()))
            && inner.len() == v.payload.len() && forall|k: int|
            0 <= k < inner.len() ==> (#[trigger] known_in(
                inner,
                payload_types(v, t),
                k,
                env,
            ) matches Some(e1) && check_pattern(inner[k], payload_types(v, t)[k], e1).0 is Ok)),
{
    match lookup_v(env.variants, name) {
        LookupV::Unique(v) => lemma_patterns(inner, payload_types(v, t), 0, env, env),
        _ => {},
    }
}

/// What is known before the `k`th of some patterns, where those before it check.
pub open spec fn known_in(
    ps: Seq<PatternV>,
    ts: Seq<TypeV>,
    k: int,
    env: EnvV,
) -> Option<EnvV>
    decreases k,
{
    if k <= 0 {
        Some(env)
    } else {
        match known_in(ps, ts, k - 1, env) {
            Some(e1) => match check_pattern(ps[k - 1], ts[k - 1], e1) {
                (Ok(_), e2) => Some(e2),
                _ => None,
            },
            None => None,
        }
    }
}

proof fn lemma_patterns(ps: Seq<PatternV>, ts: Seq<TypeV>, i: int, base: EnvV, env: EnvV)
    requires
        0 <= i <= ps.len(),
        known_in(ps, ts, i, base) == Some(env),
    ensures
        check_patterns(ps, ts, i, env).0 is Ok <==> forall|k: int|
            i <= k < ps.len() ==> (#[trigger] known_in(ps, ts, k, base) matches Some(e1)
                && check_pattern(ps[k], ts[k], e1).0 is Ok),
    decreases ps.len() - i,
{
    if i < ps.len() {
        match check_pattern(ps[i], ts[i], env) {
            (Ok(_), env1) => {
                assert(known_in(ps, ts, i + 1, base) == Some(env1));
                lemma_patterns(ps, ts, i + 1, base, env1);
                assert(known_in(ps, ts, i, base) is Some);
            },
            _ => {
                assert(known_in(ps, ts, i, base) is Some);
            },
        }
    }
}

/// An arm checks if and only if each of its alternatives does, its guard does, and its
/// body does, with what the alternatives define. Its type is that of its body.
pub proof fn law_arm_types(
    arm: (Seq<PatternV>, Option<ExprV>, ExprV),
    t: TypeV,
    env: EnvV,
    bt: TypeV,
)
    requires
        env.scopes.len() > 0,
    ensures
        check_arm(arm, t, env).0 == Ok::<TypeV, TypeErrorV>(bt) <==> (check_alternatives(
            arm.0,
            t,
            0,
            env.push_scope(),
        ) matches (Ok(_), inner) && (arm.1 matches Some(g) ==> checks(g, inner)) && has_type(
            arm.2,
            inner,
            bt,
        )),
{
    match check_alternatives(arm.0, t, 0, env.push_scope()) {
        (Ok(_), inner) => {
            lemma_inner_scopes(arm, t, env);
            match arm.1 {
                Some(g) => lemma_next(g, arm.2, inner, inner),
                None => {},
            }
        },
        _ => {},
    }
}

proof fn lemma_inner_scopes(
    arm: (Seq<PatternV>, Option<ExprV>, ExprV),
    t: TypeV,
    env: EnvV,
)
    requires
        env.scopes.len() > 0,
    ensures
        check_alternatives(arm.0, t, 0, env.push_scope()).0 is Ok ==> check_alternatives(
            arm.0,
            t,
            0,
            env.push_scope(),
        ).1.scopes.len() > 0,
{
    lemma_alternatives(arm.0, t, 0, env.push_scope());
}

// ---- bodies ----

/// A body is checked in a scope of its own, statement by statement; what it defines ends
/// with it.
pub proof fn law_block_checks(ss: Seq<StmtV>, env: EnvV)
    ensures
        check_block(ss, env).0 is Ok <==> check_stmts(ss, 0, env.push_scope()).0 is Ok,
{
}

/// An `if` statement checks if and only if its condition and its bodies do; a `while`, if
/// and only if its condition and its body do.
pub proof fn law_bodies_check(st: StmtV, env: EnvV)
    requires
        env.scopes.len() > 0,
    ensures
        st.kind matches StmtKindV::While { cond, body } ==> (check_stmt(st, env).0 is Ok <==> checks(
            cond,
            env,
        ) && check_block(body, check_expr(cond, env).1).0 is Ok),
        st.kind matches StmtKindV::If { cond, then_body, else_body } ==> (check_stmt(st, env).0
            is Ok <==> checks(cond, env) && (check_block(then_body, check_expr(cond, env).1) matches (
            Ok(_),
            env2,
        ) && (else_body matches Some(eb) ==> check_block(eb, env2).0 is Ok))),
{
}

/// The variable of a `for` is an integer where a range or an integer is walked, and an
/// element where an array is; nothing else is walked. The body is checked with it.
pub proof fn law_for_types(
    st: StmtV,
    env: EnvV,
    var: Seq<char>,
    iter: ExprV,
    body: Seq<StmtV>,
    t: TypeV,
)
    requires
        env.scopes.len() > 0,
        st.kind == (StmtKindV::For { var, iter, body }),
        has_type(iter, env, t),
    ensures
        ({
            let el = match t {
                TypeV::Range => Some(TypeV::Int),
                TypeV::Int => Some(TypeV::Int),
                TypeV::Array(x) => Some(*x),
                TypeV::Inferred => Some(TypeV::Inferred),
                _ => None,
            };
            check_stmt(st, env).0 is Ok <==> (el matches Some(x) && check_stmts(
                body,
                0,
                check_expr(iter, env).1.push_scope().define(var, x),
            ).0 is Ok)
        }),
{
    let env1 = check_expr(iter, env).1;
    assert(check_stmt_inner(st, env) == check_loop_body(var, t, body, env1));
}

/// A function checks if and only if its body does, with its parameters defined and with
/// its result type for what is returned.
pub proof fn law_function_checks(
    st: StmtV,
    env: EnvV,
    name: Seq<char>,
    generics: Seq<Seq<char>>,
    params: Seq<(Seq<char>, TypeV)>,
    ret: TypeV,
    body: Seq<StmtV>,
)
    requires
        st.kind == (StmtKindV::Fn { name, generics, params, ret, body }),
    ensures
        ({
            let inner = inside_fn(name, generics.len() > 0, params, ret, env);
            &&& check_stmt(st, env).0 is Ok <==> check_stmts(body, 0, inner).0 is Ok
            &&& inner.current_return == Some(ret)
            &&& check_stmt(st, env).0 is Ok ==> check_stmt(st, env).1.current_return
                == env.current_return
        }),
{
    assert(check_stmt_inner(st, env) == check_fn(st, env));
}

/// The parameters of a function have their declared types in its body.
pub proof fn law_parameters_are_defined(params: Seq<(Seq<char>, TypeV)>, env: EnvV, k: int)
    requires
        env.scopes.len() > 0,
        0 <= k < params.len(),
        forall|j: int| k < j < params.len() ==> (#[trigger] params[j]).0 != params[k].0,
    ensures
        env.define_all(params).lookup(params[k].0) == Some(params[k].1),
        env.define_all(params).scopes.len() == env.scopes.len(),
    decreases params.len(),
{
    let front = params.drop_last();
    lemma_define_all_scopes(front, env);
    let inner = env.define_all(front);
    let last = params.last();
    assert(env.define_all(params) == inner.define(last.0, last.1));
    assert(inner.define(last.0, last.1).scopes.last().contains_key(last.0));
    if k < front.len() {
        assert(params[params.len() - 1].0 != params[k].0);
        law_parameters_are_defined(front, env, k);
        let after = inner.define(last.0, last.1);
        let name = params[k].0;
        assert(after.scopes.drop_last() =~= inner.scopes.drop_last());
        assert(after.scopes.last().contains_key(name) == inner.scopes.last().contains_key(name));
    }
}

proof fn lemma_define_all_scopes(params: Seq<(Seq<char>, TypeV)>, env: EnvV)
    requires
        env.scopes.len() > 0,
    ensures
        env.define_all(params).scopes.len() == env.scopes.len(),
    decreases params.len(),
{
    if params.len() > 0 {
        lemma_define_all_scopes(params.drop_last(), env);
    }
}

/// An error is reported at the statement that it is found in.
pub proof fn law_error_place(st: StmtV, env: EnvV)
    requires
        check_stmt(st, env).0 is Err,
    ensures
        !(check_stmt_inner(st, env).0 matches Err(TypeErrorV::Located(_))) ==> check_stmt(
            st,
            env,
        ).0->Err_0.span == st.span,
        check_stmt_inner(st, env).0 matches Err(TypeErrorV::Located(d)) ==> check_stmt(st, env).0
            == Err::<(), DiagnosticV>(d),
{
}

// ---- type parameters ----

/// A type parameter is replaced by what it stands for, inside arrays and arguments too;
/// other types stay.
pub proof fn law_substitution(t: TypeV, b: Map<Seq<char>, TypeV>)
    ensures
        t is Int || t is Float || t is Bool || t is String || t is Unit || t is Range
            || t is Inferred ==> subst(t, b) == t,
        t matches TypeV::Named(n, args) ==> {
            &&& args.len() == 0 && b.contains_key(n) ==> subst(t, b) == b[n]
            &&& args.len() == 0 && !b.contains_key(n) ==> subst(t, b) == t
            &&& args.len() > 0 ==> subst(t, b) is Named && subst(t, b)->Named_0 == n && subst(
                t,
                b,
            )->Named_1.len() == args.len() && forall|i: int|
                0 <= i < args.len() ==> #[trigger] subst(t, b)->Named_1[i] == subst(args[i], b)
        },
        t matches TypeV::Array(el) ==> subst(t, b) == TypeV::Array(Box::new(subst(*el, b))),
{
    match t {
        TypeV::Named(n, args) => {
            if args.len() == 0 {
                assert(subst_all(args, b) =~= args);
            } else {
                assert(subst(t, b) == TypeV::Named(n, subst_all(args, b)));
                assert forall|i: int| 0 <= i < args.len() implies #[trigger] subst(
                    t,
                    b,
                )->Named_1[i] == subst(args[i], b) by {
                    assert(subst_all(args, b)[i] == subst(args[i], b));
                }
            }
        },
        _ => {},
    }
}

/// A type parameter stands for the type of the first argument that tells it; a later one
/// has to agree. The element of an array tells it as the array does.
pub proof fn law_type_parameter(
    g: Seq<char>,
    a: TypeV,
    gs: Seq<Seq<char>>,
    b: Map<Seq<char>, TypeV>,
)
    requires
        gs.contains(g),
    ensures
        ({
            let p = TypeV::Named(g, Seq::empty());
            &&& !b.contains_key(g) || b[g] is Inferred ==> bind(p, a, gs, b) == Ok::<
                Map<Seq<char>, TypeV>,
                (TypeV, TypeV),
            >(b.insert(g, a))
            &&& b.contains_key(g) && !(b[g] is Inferred) && compat(b[g], a) ==> bind(p, a, gs, b)
                == Ok::<Map<Seq<char>, TypeV>, (TypeV, TypeV)>(b)
            &&& b.contains_key(g) && !(b[g] is Inferred) && !compat(b[g], a) ==> bind(p, a, gs, b)
                is Err
            &&& bind(TypeV::Array(Box::new(p)), TypeV::Array(Box::new(a)), gs, b) == bind(
                p,
                a,
                gs,
                b,
            )
        }),
{
    let p = TypeV::Named(g, Seq::empty());
    assert(bind(TypeV::Array(Box::new(p)), TypeV::Array(Box::new(a)), gs, b) == bind(p, a, gs, b));
}

/// What the type parameters stand for after each argument of a call.
pub open spec fn told_by(
    args: Seq<ExprV>,
    sig: SigV,
    env: EnvV,
    bs: Seq<Map<Seq<char>, TypeV>>,
) -> bool {
    &&& bs.len() == args.len() + 1
    &&& bs[0] == Map::<Seq<char>, TypeV>::empty()
    &&& forall|k: int| 0 <= k < args.len() ==> #[trigger] arg_tells(args, sig, env, bs, k)
}

pub open spec fn arg_tells(
    args: Seq<ExprV>,
    sig: SigV,
    env: EnvV,
    bs: Seq<Map<Seq<char>, TypeV>>,
    k: int,
) -> bool {
    check_expr(args[k], env).0 matches Ok(t) && bind(sig.params[k], t, sig.generics, bs[k]) == Ok::<
        Map<Seq<char>, TypeV>,
        (TypeV, TypeV),
    >(bs[k + 1]) && compat(subst(sig.params[k], bs[k + 1]), t)
}

proof fn lemma_tells(
    args: Seq<ExprV>,
    sig: SigV,
    i: int,
    b: Map<Seq<char>, TypeV>,
    base: EnvV,
    env: EnvV,
    before: Seq<Map<Seq<char>, TypeV>>,
) -> (bs: Seq<Map<Seq<char>, TypeV>>)
    requires
        0 <= i <= args.len(),
        alike(base, env),
        base.scopes.len() > 0,
        before.len() == i + 1,
        before[0] == Map::<Seq<char>, TypeV>::empty(),
        before[i] == b,
        forall|k: int| 0 <= k < i ==> #[trigger] arg_tells(args, sig, base, before, k),
    ensures
        check_generic(args, sig, i, b, env).0 matches Ok(last) ==> told_by(args, sig, base, bs)
            && bs.last() == last,
    decreases args.len() - i,
{
    if i < args.len() {
        lemma_next(args[i], args[i], base, env);
        match check_expr(args[i], env) {
            (Ok(t), env1) => match bind(sig.params[i], t, sig.generics, b) {
                Ok(b1) => if compat(subst(sig.params[i], b1), t) {
                    let now = before.push(b1);
                    assert forall|k: int| 0 <= k < i + 1 implies #[trigger] arg_tells(
                        args,
                        sig,
                        base,
                        now,
                        k,
                    ) by {
                        if k < i {
                            assert(arg_tells(args, sig, base, before, k));
                        }
                    }
                    lemma_tells(args, sig, i + 1, b1, base, env1, now)
                } else {
                    before
                },
                Err(_) => before,
            },
            _ => before,
        }
    } else {
        before
    }
}

proof fn lemma_told(
    args: Seq<ExprV>,
    sig: SigV,
    i: int,
    base: EnvV,
    env: EnvV,
    bs: Seq<Map<Seq<char>, TypeV>>,
)
    requires
        0 <= i <= args.len(),
        alike(base, env),
        base.scopes.len() > 0,
        told_by(args, sig, base, bs),
    ensures
        check_generic(args, sig, i, bs[i], env).0 == Ok::<Map<Seq<char>, TypeV>, TypeErrorV>(
            bs.last(),
        ),
    decreases args.len() - i,
{
    if i < args.len() {
        assert(arg_tells(args, sig, base, bs, i));
        lemma_next(args[i], args[i], base, env);
        lemma_told(args, sig, i + 1, base, check_expr(args[i], env).1, bs);
    }
}

proof fn lemma_unbound(gs: Seq<Seq<char>>, b: Map<Seq<char>, TypeV>, i: int)
    requires
        0 <= i <= gs.len(),
    ensures
        unbound(gs, b, i) is None <==> forall|k: int|
            i <= k < gs.len() ==> b.contains_key(#[trigger] gs[k]),
    decreases gs.len() - i,
{
    if i < gs.len() {
        lemma_unbound(gs, b, i + 1);
    }
}

/// A call of a function with type parameters checks if and only if it has as many
/// arguments as the function has parameters, each argument agrees with its parameter with
/// the type parameters replaced by what the arguments so far tell, and in the end each of
/// them is told. It has the declared result type, with the type parameters replaced.
pub proof fn law_generic_call(
    e: ExprV,
    env: EnvV,
    name: Seq<char>,
    args: Seq<ExprV>,
    t: TypeV,
    given: Seq<Map<Seq<char>, TypeV>>,
) -> (bs: Seq<Map<Seq<char>, TypeV>>)
    requires
        env.scopes.len() > 0,
        calls_by_name(e, env, name, args),
        lookup_v(env.variants, name) is Unknown,
        env.functions.contains_key(name),
    ensures
        ({
            let sig = env.functions[name];
            &&& has_type(e, env, t) ==> {
                &&& args.len() == sig.params.len()
                &&& told_by(args, sig, env, bs)
                &&& forall|k: int|
                    0 <= k < sig.generics.len() ==> bs.last().contains_key(
                        #[trigger] sig.generics[k],
                    )
                &&& t == subst(sig.ret, bs.last())
            }
            &&& args.len() == sig.params.len() && told_by(args, sig, env, given) && (forall|k: int|
                0 <= k < sig.generics.len() ==> given.last().contains_key(
                    #[trigger] sig.generics[k],
                )) ==> has_type(e, env, subst(sig.ret, given.last()))
        }),
{
    let sig = env.functions[name];
    assert(check_expr(e, env) == check_call(e, env));
    assert(check_call(e, env) == check_fn_call(name, sig, args, e.span, env));
    let bs = lemma_tells(args, sig, 0, Map::empty(), env, env, seq![Map::empty()]);
    match check_generic(args, sig, 0, Map::empty(), env).0 {
        Ok(b) => lemma_unbound(sig.generics, b, 0),
        _ => {},
    }
    if args.len() == sig.params.len() && told_by(args, sig, env, given) {
        lemma_told(args, sig, 0, env, env, given);
        lemma_unbound(sig.generics, given.last(), 0);
    }
    bs
}

// ---- what is said of an error ----

/// The messages name what they are about.
pub proof fn law_error_messages(n: Seq<char>, a: Seq<char>, b: Seq<char>)
    ensures
        error_text(TypeErrorV::UndefinedVariable(n)) == "undefined variable: `"@ + n + "`"@,
        error_text(TypeErrorV::UndefinedFunction(n)) == "undefined function: `"@ + n + "`"@,
        error_text(TypeErrorV::UndefinedType(n)) == "undefined type: `"@ + n + "`"@,
        error_text(TypeErrorV::UndefinedTrait(n)) == "undefined trait: `"@ + n + "`"@,
        error_text(TypeErrorV::TypeMismatch { expected: a, found: b })
            == "type mismatch: expected `"@ + a + "`, found `"@ + b + "`"@,
        error_text(TypeErrorV::UnknownField { ty: a, field: b }) == "type `"@ + a
            + "` has no field `"@ + b + "`"@,
        error_text(TypeErrorV::MissingImpl { trait_name: n, for_type: a, method: b }) == "trait `"@
            + n + "` for `"@ + a + "` missing method `"@ + b + "`"@,
{
}

/// The names of types in messages.
pub proof fn law_type_names(t: TypeV)
    ensures
        t is Int ==> type_text(t) == "int"@,
        t is Float ==> type_text(t) == "float"@,
        t is Bool ==> type_text(t) == "bool"@,
        t is String ==> type_text(t) == "string"@,
        t is Unit ==> type_text(t) == "()"@,
        t is Range ==> type_text(t) == "range"@,
        t matches TypeV::Named(n, args) ==> (args.len() == 0 ==> type_text(t) == n),
        t matches TypeV::Array(el) ==> type_text(t) == "["@ + type_text(*el) + "]"@,
{
}

// ---- names and payloads ----

/// A definition is seen, and hides others of its name; other names stay as they were.
pub proof fn law_definition(env: EnvV, name: Seq<char>, t: TypeV, other: Seq<char>)
    requires
        env.scopes.len() > 0,
    ensures
        env.define(name, t).lookup(name) == Some(t),
        other != name ==> env.define(name, t).lookup(other) == env.lookup(other),
        env.push_scope().lookup(other) == env.lookup(other),
        env.push_scope().define(name, t).pop_scope().lookup(other) == env.lookup(other),
{
    let after = env.define(name, t);
    assert(after.scopes.last().contains_key(name));
    assert(after.scopes.drop_last() =~= env.scopes.drop_last());
    let deeper = env.push_scope();
    assert(deeper.scopes.drop_last() =~= env.scopes);
    assert(deeper.define(name, t).scopes.drop_last() =~= env.scopes);
    assert(deeper.define(name, t).pop_scope().scopes =~= env.scopes);
}

/// What a variant carries, for a pattern: the types that `Option` and `Result` state, and
/// the declared types of other variants.
pub proof fn law_payloads(v: VariantV, x: TypeV, y: TypeV)
    requires
        v.payload.len() == 1,
    ensures
        v.enum_name == "Option"@ && v.name == "Some"@ ==> payload_types(
            v,
            TypeV::Named("Option"@, seq![x]),
        ) == seq![x],
        v.enum_name == "Result"@ && v.name == "Ok"@ ==> payload_types(
            v,
            TypeV::Named("Result"@, seq![x, y]),
        ) == seq![x],
        v.enum_name == "Result"@ && v.name == "Err"@ ==> payload_types(
            v,
            TypeV::Named("Result"@, seq![x, y]),
        ) == seq![y],
        v.enum_name != "Option"@ && v.enum_name != "Result"@ ==> payload_types(
            v,
            TypeV::Named(v.enum_name, seq![x]),
        ) == v.payload,
{
    reveal_strlit("Option");
    reveal_strlit("Result");
    reveal_strlit("Some");
    reveal_strlit("Ok");
    reveal_strlit("Err");
    assert("Ok"@.len() == 2 && "Err"@.len() == 3 && "Some"@.len() == 4);
    assert("Option"@[0] == 'O' && "Result"@[0] == 'R');
}

} // verus!
