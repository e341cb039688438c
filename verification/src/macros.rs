//! Macros as functions, before native code is made. A macro runs as a function does:
//! its parameters are bound to its arguments, and it sees nothing of its caller. What
//! it lacks is types. So each way in which a macro is called, told by the types of its
//! arguments, gets a function of its own.

use crate::ast::{
    dup_params, dup_stmts, dup_texts, dup_types, params_view, stmts_view, types_view, Program,
    Stmt, StmtKind, StmtKindV, StmtV, Type, TypeV,
};
use crate::env::{instances_view, Instance, TypeEnv};
use crate::monomorphize::{declares_fn, has_fn, mangle, mangled, rewrite_stmts, rewritten_stmts};
use crate::text::{cat2, nat_text, nat_to_string, str_eq, texts};
use crate::typecheck::{type_of_element, TypeChecker};
use crate::typing::{
    check_expr, check_stmts, declared, element_type, EnvV, InstanceV,
};
use vstd::prelude::*;

verus! {

broadcast use crate::ast::group_views;

/// How often the program is looked at before it is given up.
pub const LOOKS: usize = 200;

// ---- templates and copies ----

/// The type parameter for the `i`th parameter of a macro.
pub open spec fn hole(i: nat) -> Seq<char> {
    "T$"@ + nat_text(i)
}

/// A macro as a generic function: every parameter has a type of its own. Where it has
/// parameters the body is left out, since it has a meaning only once their types are
/// known.
pub open spec fn template_of(st: StmtV) -> StmtV {
    match st.kind {
        StmtKindV::Macro { name, params, body } => StmtV {
            kind: StmtKindV::Fn {
                name,
                generics: Seq::new(params.len(), |i: int| hole(i as nat)),
                params: Seq::new(
                    params.len(),
                    |i: int| (params[i], TypeV::Named(hole(i as nat), Seq::empty())),
                ),
                ret: TypeV::Inferred,
                body: if params.len() == 0 {
                    body
                } else {
                    Seq::empty()
                },
            },
            span: st.span,
        },
        _ => st,
    }
}

/// The function that a macro is for arguments of some types.
pub open spec fn macro_copy(st: StmtV, args: Seq<TypeV>) -> StmtV {
    match st.kind {
        StmtKindV::Macro { name, params, body } => StmtV {
            kind: StmtKindV::Fn {
                name: mangled(name, args),
                generics: Seq::empty(),
                params: Seq::new(
                    params.len(),
                    |i: int|
                        (
                            params[i],
                            if i < args.len() {
                                args[i]
                            } else {
                                TypeV::Inferred
                            },
                        ),
                ),
                ret: TypeV::Inferred,
                body,
            },
            span: st.span,
        },
        _ => st,
    }
}

/// A program without its macros.
pub open spec fn without_macros(ss: Seq<StmtV>) -> Seq<StmtV>
    decreases ss.len(),
{
    if ss.len() == 0 {
        ss
    } else if ss.last().kind is Macro {
        without_macros(ss.drop_last())
    } else {
        without_macros(ss.drop_last()).push(ss.last())
    }
}

/// The macros of a program.
pub open spec fn macros_of(ss: Seq<StmtV>) -> Seq<StmtV>
    decreases ss.len(),
{
    if ss.len() == 0 {
        ss
    } else if ss.last().kind is Macro {
        macros_of(ss.drop_last()).push(ss.last())
    } else {
        macros_of(ss.drop_last())
    }
}

pub open spec fn templates(ms: Seq<StmtV>) -> Seq<StmtV> {
    Seq::new(ms.len(), |i: int| template_of(ms[i]))
}

/// The last macro of a name.
pub open spec fn macro_named(ms: Seq<StmtV>, name: Seq<char>) -> Option<StmtV>
    decreases ms.len(),
{
    if ms.len() == 0 {
        None
    } else {
        match ms.last().kind {
            StmtKindV::Macro { name: n, .. } => if n == name {
                Some(ms.last())
            } else {
                macro_named(ms.drop_last(), name)
            },
            _ => macro_named(ms.drop_last(), name),
        }
    }
}

/// All of the types are known.
pub open spec fn all_known(ts: Seq<TypeV>) -> bool {
    forall|i: int| 0 <= i < ts.len() ==> !((#[trigger] ts[i]) is Inferred)
}

/// The calls of macros among those on record whose arguments have known types.
pub open spec fn macro_calls(insts: Seq<InstanceV>, ms: Seq<StmtV>) -> Seq<InstanceV>
    decreases insts.len(),
{
    if insts.len() == 0 {
        insts
    } else if macro_named(ms, insts.last().name) is Some && all_known(insts.last().args) {
        macro_calls(insts.drop_last(), ms).push(insts.last())
    } else {
        macro_calls(insts.drop_last(), ms)
    }
}

/// No call of a macro is on record.
pub open spec fn no_macro_calls(insts: Seq<InstanceV>, ms: Seq<StmtV>) -> bool {
    forall|i: int|
        0 <= i < insts.len() ==> macro_named(ms, (#[trigger] insts[i]).name) is None
}

/// The statements with the functions that calls want and that are not there yet.
pub open spec fn with_macro_copies(
    ss: Seq<StmtV>,
    ms: Seq<StmtV>,
    calls: Seq<InstanceV>,
    i: int,
) -> Seq<StmtV>
    decreases calls.len() - i,
{
    if i < 0 || i >= calls.len() {
        ss
    } else {
        match macro_named(ms, calls[i].name) {
            Some(m) => if has_fn(ss, mangled(calls[i].name, calls[i].args)) {
                with_macro_copies(ss, ms, calls, i + 1)
            } else {
                with_macro_copies(ss.push(macro_copy(m, calls[i].args)), ms, calls, i + 1)
            },
            None => with_macro_copies(ss, ms, calls, i + 1),
        }
    }
}

// ---- result types ----

/// The first type that statements return, from the `i`th on, as far as it can be told;
/// and what is known by then. Where something in them has no type, none is told.
pub open spec fn result_type(ss: Seq<StmtV>, i: int, env: EnvV) -> (Option<TypeV>, bool, EnvV)
    decreases ss, ss.len() - i,
{
    if i < 0 || i >= ss.len() {
        (None, true, env)
    } else {
        let (found, fine, env1) = match ss[i].kind {
            StmtKindV::Let { name, value, .. } => match check_expr(value, env) {
                (Ok(t), env1) => (None, true, env1.define(name, t)),
                (Err(_), env1) => (None, false, env1),
            },
            StmtKindV::Return(Some(e)) => match check_expr(e, env) {
                (Ok(t), env1) => if t is Inferred {
                    (None, true, env1)
                } else {
                    (Some(t), true, env1)
                },
                (Err(_), env1) => (None, false, env1),
            },
            StmtKindV::If { then_body, else_body, .. } => match inner_result(
                then_body,
                env.push_scope(),
            ) {
                (None, true, env1) => match else_body {
                    Some(eb) => inner_result(eb, env1.push_scope()),
                    None => (None, true, env1),
                },
                other => other,
            },
            StmtKindV::While { body, .. } => inner_result(body, env.push_scope()),
            StmtKindV::For { var, iter, body } => match check_expr(iter, env) {
                (Ok(t), env1) => match element_type(t) {
                    Some(el) => inner_result(body, env1.push_scope().define(var, el)),
                    None => (None, false, env1),
                },
                (Err(_), env1) => (None, false, env1),
            },
            _ => (None, true, env),
        };
        if found is None && fine {
            result_type(ss, i + 1, env1)
        } else {
            (found, fine, env1)
        }
    }
}

/// The same in a scope that ends with the statements.
pub open spec fn inner_result(ss: Seq<StmtV>, env: EnvV) -> (Option<TypeV>, bool, EnvV)
    decreases ss, ss.len() + 1,
{
    let (found, fine, env1) = result_type(ss, 0, env);
    (found, fine, env1.pop_scope())
}

/// Some statement from the `i`th on returns a value.
pub open spec fn returns_value(ss: Seq<StmtV>, i: int) -> bool
    decreases ss, ss.len() - i,
{
    if i < 0 || i >= ss.len() {
        false
    } else {
        (match ss[i].kind {
            StmtKindV::Return(Some(_)) => true,
            StmtKindV::If { then_body, else_body, .. } => returns_value(then_body, 0) || (
            match else_body {
                Some(eb) => returns_value(eb, 0),
                None => false,
            }),
            StmtKindV::While { body, .. } => returns_value(body, 0),
            StmtKindV::For { body, .. } => returns_value(body, 0),
            _ => false,
        }) || returns_value(ss, i + 1)
    }
}

/// Statements cannot be run to their end: one of them returns a value, whatever its
/// conditions are.
pub open spec fn always_returns(ss: Seq<StmtV>, i: int) -> bool
    decreases ss, ss.len() - i,
{
    if i < 0 || i >= ss.len() {
        false
    } else {
        (match ss[i].kind {
            StmtKindV::Return(Some(_)) => true,
            StmtKindV::If { then_body, else_body: Some(eb), .. } => always_returns(then_body, 0)
                && always_returns(eb, 0),
            _ => false,
        }) || always_returns(ss, i + 1)
    }
}

/// A function whose result type is not known gets the one that can be told by now.
pub open spec fn with_result(st: StmtV, env: EnvV) -> StmtV {
    match st.kind {
        StmtKindV::Fn { name, generics, params, ret, body } => if ret is Inferred && generics.len()
            == 0 {
            StmtV {
                kind: StmtKindV::Fn {
                    name,
                    generics,
                    params,
                    ret: if !returns_value(body, 0) {
                        TypeV::Unit
                    } else {
                        match result_type(body, 0, env.push_scope().define_all(params)).0 {
                            Some(t) => t,
                            None => TypeV::Inferred,
                        }
                    },
                    body,
                },
                span: st.span,
            }
        } else {
            st
        },
        _ => st,
    }
}

pub open spec fn with_results(ss: Seq<StmtV>, from: int, env: EnvV) -> Seq<StmtV> {
    Seq::new(
        ss.len(),
        |i: int|
            if i < from {
                ss[i]
            } else {
                with_result(ss[i], env)
            },
    )
}

/// A function that has no result type yet.
pub open spec fn vague_fn(st: StmtV) -> bool {
    st.kind matches StmtKindV::Fn { generics, ret, .. } && ret is Inferred && generics.len() == 0
}

/// How many functions from the `i`th statement on have no result type yet.
pub open spec fn vague_fns(ss: Seq<StmtV>, i: int) -> nat
    decreases ss.len() - i,
{
    if i < 0 || i >= ss.len() {
        0
    } else {
        (if vague_fn(ss[i]) {
            1nat
        } else {
            0nat
        }) + vague_fns(ss, i + 1)
    }
}

/// A function that gives what its result type says, however it ends.
pub open spec fn ends_well(st: StmtV) -> bool {
    match st.kind {
        StmtKindV::Fn { generics, ret, body, .. } => generics.len() > 0 || ret is Unit || (!(
        ret is Inferred) && always_returns(body, 0)),
        _ => true,
    }
}

// ---- programs ----

/// One look at a program whose statements from `from` on stand for macros: whether
/// nothing is left to do, whether it is in order then, and what it becomes otherwise.
pub closed spec fn looked(ss: Seq<StmtV>, ms: Seq<StmtV>, from: int) -> (bool, bool, Seq<StmtV>) {
    let (r, env) = check_stmts(ss, 0, declared(ss));
    let calls = macro_calls(env.instantiations, ms);
    let changed = rewritten_stmts(ss, calls, ""@);
    let all = with_macro_copies(changed, ms, calls, 0);
    let typed = with_results(all, from, env);
    (
        calls.len() == 0 && vague_fns(typed, from) == vague_fns(ss, from),
        r is Ok && no_macro_calls(env.instantiations, ms) && forall|i: int| from <= i < ss.len() ==> ends_well(#[trigger] ss[i]),
        typed,
    )
}

/// A program in which every call of a macro is one of a function. None where that
/// cannot be had: a macro's body does not check, or its result has no single type.
pub open spec fn macros_settled(ss: Seq<StmtV>, ms: Seq<StmtV>, from: int, looks: nat) -> Option<
    Seq<StmtV>,
>
    decreases looks,
{
    if looks == 0 {
        None
    } else {
        let (done, good, next) = looked(ss, ms, from);
        if !done {
            macros_settled(next, ms, from, (looks - 1) as nat)
        } else if good {
            Some(ss)
        } else {
            None
        }
    }
}

/// A program with its macros as functions. One whose macros cannot be functions stays
/// as it is.
pub open spec fn unfolded_program(ss: Seq<StmtV>) -> Seq<StmtV> {
    let ms = macros_of(ss);
    let base = without_macros(ss);
    if ms.len() == 0 {
        ss
    } else {
        match macros_settled(base + templates(ms), ms, base.len() as int, LOOKS as nat) {
            Some(out) => out,
            None => ss,
        }
    }
}

// ---- the code ----

fn hole_name(i: usize) -> (r: String)
    ensures
        r@ == hole(i as nat),
{
    let n = nat_to_string(i as u64);
    cat2("T$", n.as_str())
}

fn make_template(st: &Stmt) -> (r: Stmt)
    ensures
        r@ == template_of(st@),
{
    assert(st@.kind == st.kind@);
    match &st.kind {
        StmtKind::Macro { name, params, body } => {
            let ghost ps = texts(params@);
            let ghost pv: Seq<(Seq<char>, TypeV)> = Seq::new(
                ps.len(),
                |i: int| (ps[i], TypeV::Named(hole(i as nat), Seq::empty())),
            );
            let ghost gv: Seq<Seq<char>> = Seq::new(ps.len(), |i: int| hole(i as nat));
            let mut generics: Vec<String> = Vec::new();
            let mut typed: Vec<(String, Type)> = Vec::new();
            let mut i: usize = 0;
            assert(ps.len() == params@.len());
            while i < params.len()
                invariant
                    i <= params@.len(),
                    ps == texts(params@),
                    ps.len() == params@.len(),
                    generics@.len() == i,
                    typed@.len() == i,
                    forall|j: int| 0 <= j < i ==> (#[trigger] generics@[j])@ == hole(j as nat),
                    forall|j: int|
                        0 <= j < i ==> (#[trigger] typed@[j]).0@ == ps[j] && typed@[j].1@
                            == TypeV::Named(hole(j as nat), Seq::empty()),
                decreases params@.len() - i,
            {
                assert(ps[i as int] == params@[i as int]@);
                generics.push(hole_name(i));
                let none: Vec<Type> = Vec::new();
                assert(types_view(none@) =~= Seq::empty());
                typed.push((params[i].clone(), Type::Named(hole_name(i), none)));
                i += 1;
            }
            assert(texts(generics@) =~= gv);
            assert(params_view(typed@) =~= pv);
            let ghost bv = stmts_view(body@);
            let body = if params.len() == 0 {
                dup_stmts(body)
            } else {
                Vec::new()
            };
            assert(ps.len() > 0 ==> stmts_view(body@) =~= Seq::empty());
            let ret = Type::Inferred;
            assert(ret@ == TypeV::Inferred);
            let kind = StmtKind::Fn { name: name.clone(), generics, params: typed, ret, body };
            Stmt::new(kind, st.span)
        },
        _ => st.dup(),
    }
}

fn make_copy(st: &Stmt, args: &Vec<Type>) -> (r: Stmt)
    ensures
        r@ == macro_copy(st@, types_view(args@)),
{
    assert(st@.kind == st.kind@);
    match &st.kind {
        StmtKind::Macro { name, params, body } => {
            let ghost ps = texts(params@);
            let ghost av = types_view(args@);
            let ghost pv: Seq<(Seq<char>, TypeV)> = Seq::new(
                ps.len(),
                |i: int|
                    (
                        ps[i],
                        if i < av.len() {
                            av[i]
                        } else {
                            TypeV::Inferred
                        },
                    ),
            );
            let mut typed: Vec<(String, Type)> = Vec::new();
            let mut i: usize = 0;
            assert(ps.len() == params@.len());
            assert(av.len() == args@.len());
            while i < params.len()
                invariant
                    i <= params@.len(),
                    ps == texts(params@),
                    ps.len() == params@.len(),
                    av == types_view(args@),
                    av.len() == args@.len(),
                    typed@.len() == i,
                    forall|j: int|
                        0 <= j < i ==> (#[trigger] typed@[j]).0@ == ps[j] && typed@[j].1@ == (
                        if j < av.len() {
                            av[j]
                        } else {
                            TypeV::Inferred
                        }),
                decreases params@.len() - i,
            {
                assert(ps[i as int] == params@[i as int]@);
                let t = if i < args.len() {
                    assert(av[i as int] == args@[i as int]@);
                    args[i].dup()
                } else {
                    Type::Inferred
                };
                typed.push((params[i].clone(), t));
                i += 1;
            }
            assert(params_view(typed@) =~= pv);
            let generics: Vec<String> = Vec::new();
            assert(texts(generics@) =~= Seq::empty());
            let ret = Type::Inferred;
            assert(ret@ == TypeV::Inferred);
            let kind = StmtKind::Fn {
                name: mangle(name.as_str(), args),
                generics,
                params: typed,
                ret,
                body: dup_stmts(body),
            };
            Stmt::new(kind, st.span)
        },
        _ => st.dup(),
    }
}

/// The macros of a program, and the rest of it.
fn part_macros(ss: &Vec<Stmt>) -> (r: (Vec<Stmt>, Vec<Stmt>))
    ensures
        stmts_view(r.0@) == macros_of(stmts_view(ss@)),
        stmts_view(r.1@) == without_macros(stmts_view(ss@)),
{
    let ghost all = stmts_view(ss@);
    let mut ms: Vec<Stmt> = Vec::new();
    let mut rest: Vec<Stmt> = Vec::new();
    let mut i: usize = 0;
    assert(all.len() == ss@.len());
    assert(all.take(0) =~= Seq::empty());
    assert(stmts_view(ms@) =~= Seq::empty());
    assert(stmts_view(rest@) =~= Seq::empty());
    while i < ss.len()
        invariant
            i <= ss@.len(),
            all == stmts_view(ss@),
            all.len() == ss@.len(),
            stmts_view(ms@) == macros_of(all.take(i as int)),
            stmts_view(rest@) == without_macros(all.take(i as int)),
        decreases ss@.len() - i,
    {
        assert(all[i as int] == ss@[i as int]@);
        assert(ss@[i as int]@.kind == ss@[i as int].kind@);
        assert(all.take(i + 1).drop_last() =~= all.take(i as int));
        let ghost before = (ms@, rest@);
        let st = ss[i].dup();
        let ghost sv = st@;
        if matches!(&ss[i].kind, StmtKind::Macro { .. }) {
            ms.push(st);
            assert(stmts_view(ms@) =~= stmts_view(before.0).push(sv));
        } else {
            rest.push(st);
            assert(stmts_view(rest@) =~= stmts_view(before.1).push(sv));
        }
        i += 1;
    }
    assert(all.take(i as int) =~= all);
    (ms, rest)
}

fn find_macro_named<'a>(ms: &'a Vec<Stmt>, name: &str) -> (r: Option<&'a Stmt>)
    ensures
        match macro_named(stmts_view(ms@), name@) {
            Some(m) => r is Some && r->Some_0@ == m,
            None => r is None,
        },
{
    let ghost all = stmts_view(ms@);
    assert(all.len() == ms@.len());
    let mut i: usize = ms.len();
    assert(all.take(i as int) =~= all);
    while i > 0
        invariant
            i <= ms@.len(),
            all == stmts_view(ms@),
            all.len() == ms@.len(),
            macro_named(all, name@) == macro_named(all.take(i as int), name@),
        decreases i,
    {
        assert(all.take(i as int).drop_last() =~= all.take(i - 1));
        assert(all[i - 1] == ms@[i - 1]@);
        assert(ms@[i - 1]@.kind == ms@[i - 1].kind@);
        i -= 1;
        match &ms[i].kind {
            StmtKind::Macro { name: n, .. } => {
                if str_eq(n.as_str(), name) {
                    return Some(&ms[i]);
                }
            },
            _ => {},
        }
    }
    None
}

fn dup_instance(x: &Instance) -> (r: Instance)
    ensures
        r@ == x@,
{
    Instance {
        enclosing: x.enclosing.clone(),
        span: x.span,
        name: x.name.clone(),
        args: dup_types(&x.args),
    }
}

fn are_known(ts: &Vec<Type>) -> (r: bool)
    ensures
        r == all_known(types_view(ts@)),
{
    let ghost all = types_view(ts@);
    assert(all.len() == ts@.len());
    let mut i: usize = 0;
    while i < ts.len()
        invariant
            i <= ts@.len(),
            all == types_view(ts@),
            all.len() == ts@.len(),
            forall|j: int| 0 <= j < i ==> !((#[trigger] all[j]) is Inferred),
        decreases ts@.len() - i,
    {
        assert(all[i as int] == ts@[i as int]@);
        if matches!(&ts[i], Type::Inferred) {
            assert(all[i as int] is Inferred);
            return false;
        }
        i += 1;
    }
    true
}

fn calls_no_macro(insts: &Vec<Instance>, ms: &Vec<Stmt>) -> (r: bool)
    ensures
        r == no_macro_calls(instances_view(insts@), stmts_view(ms@)),
{
    let ghost all = instances_view(insts@);
    assert(all.len() == insts@.len());
    let mut i: usize = 0;
    while i < insts.len()
        invariant
            i <= insts@.len(),
            all == instances_view(insts@),
            all.len() == insts@.len(),
            forall|j: int|
                0 <= j < i ==> macro_named(stmts_view(ms@), (#[trigger] all[j]).name) is None,
        decreases insts@.len() - i,
    {
        assert(all[i as int] == insts@[i as int]@);
        if find_macro_named(ms, insts[i].name.as_str()).is_some() {
            assert(macro_named(stmts_view(ms@), all[i as int].name) is Some);
            return false;
        }
        i += 1;
    }
    true
}

fn find_macro_calls(insts: &Vec<Instance>, ms: &Vec<Stmt>) -> (r: Vec<Instance>)
    ensures
        instances_view(r@) == macro_calls(instances_view(insts@), stmts_view(ms@)),
{
    let ghost all = instances_view(insts@);
    let mut out: Vec<Instance> = Vec::new();
    let mut i: usize = 0;
    assert(all.take(0) =~= Seq::empty());
    assert(instances_view(out@) =~= Seq::empty());
    while i < insts.len()
        invariant
            i <= insts@.len(),
            all == instances_view(insts@),
            instances_view(out@) == macro_calls(all.take(i as int), stmts_view(ms@)),
        decreases insts@.len() - i,
    {
        assert(all[i as int] == insts@[i as int]@);
        assert(all.take(i + 1).drop_last() =~= all.take(i as int));
        if find_macro_named(ms, insts[i].name.as_str()).is_some() && are_known(&insts[i].args) {
            let ghost before = out@;
            let x = dup_instance(&insts[i]);
            let ghost xv = x@;
            out.push(x);
            assert(instances_view(out@) =~= instances_view(before).push(xv));
        }
        i += 1;
    }
    assert(all.take(i as int) =~= all);
    out
}

fn is_there(ss: &Vec<Stmt>, name: &str) -> (r: bool)
    ensures
        r == has_fn(stmts_view(ss@), name@),
{
    let ghost all = stmts_view(ss@);
    assert(all.len() == ss@.len());
    let mut i: usize = 0;
    while i < ss.len()
        invariant
            i <= ss@.len(),
            all == stmts_view(ss@),
            all.len() == ss@.len(),
            forall|j: int| 0 <= j < i ==> !declares_fn(#[trigger] all[j], name@),
        decreases ss@.len() - i,
    {
        assert(all[i as int] == ss@[i as int]@);
        assert(ss@[i as int]@.kind == ss@[i as int].kind@);
        match &ss[i].kind {
            StmtKind::Fn { name: n, .. } => {
                if str_eq(n.as_str(), name) {
                    assert(declares_fn(all[i as int], name@));
                    return true;
                }
            },
            _ => {},
        }
        i += 1;
    }
    false
}

fn add_macro_copies(ss: Vec<Stmt>, ms: &Vec<Stmt>, calls: &Vec<Instance>) -> (r: Vec<Stmt>)
    ensures
        stmts_view(r@) == with_macro_copies(
            stmts_view(ss@),
            stmts_view(ms@),
            instances_view(calls@),
            0,
        ),
{
    let ghost cv = instances_view(calls@);
    let ghost mv = stmts_view(ms@);
    let ghost start = stmts_view(ss@);
    let mut out = ss;
    let mut i: usize = 0;
    while i < calls.len()
        invariant
            i <= calls@.len(),
            cv == instances_view(calls@),
            mv == stmts_view(ms@),
            with_macro_copies(stmts_view(out@), mv, cv, i as int) == with_macro_copies(
                start,
                mv,
                cv,
                0,
            ),
        decreases calls@.len() - i,
    {
        assert(cv[i as int] == calls@[i as int]@);
        match find_macro_named(ms, calls[i].name.as_str()) {
            Some(m) => {
                let name = mangle(calls[i].name.as_str(), &calls[i].args);
                if !is_there(&out, name.as_str()) {
                    let ghost before = out@;
                    let c = make_copy(m, &calls[i].args);
                    let ghost c2 = c@;
                    out.push(c);
                    assert(stmts_view(out@) =~= stmts_view(before).push(c2));
                }
            },
            None => {},
        }
        i += 1;
    }
    out
}

fn find_result(ss: &Vec<Stmt>, i: usize, env: &mut TypeEnv) -> (r: (Option<Type>, bool))
    requires
        old(env)@.scopes.len() > 0,
    ensures
        ({
            let want = result_type(stmts_view(ss@), i as int, old(env)@);
            &&& final(env)@ == want.2
            &&& r.1 == want.1
            &&& match want.0 {
                Some(t) => r.0 is Some && r.0->Some_0@ == t,
                None => r.0 is None,
            }
        }),
        final(env)@.scopes.len() >= old(env)@.scopes.len(),
        r.0 is None && r.1 ==> final(env)@.scopes.len() == old(env)@.scopes.len(),
    decreases ss, ss@.len() - i,
{
    assert(stmts_view(ss@).len() == ss@.len());
    if i >= ss.len() {
        return (None, true);
    }
    assert(stmts_view(ss@)[i as int] == ss@[i as int]@);
    assert(ss@[i as int]@.kind == ss@[i as int].kind@);
    let (found, fine) = match &ss[i].kind {
        StmtKind::Let { name, value, .. } => match TypeChecker::check_expr(value, env) {
            Ok(t) => {
                env.define(name.as_str(), t);
                (None, true)
            },
            Err(_) => (None, false),
        },
        StmtKind::Return(Some(e)) => match TypeChecker::check_expr(e, env) {
            Ok(t) => {
                if matches!(t, Type::Inferred) {
                    (None, true)
                } else {
                    (Some(t), true)
                }
            },
            Err(_) => (None, false),
        },
        StmtKind::If { then_body, else_body, .. } => {
            env.push_scope();
            let (f, ok) = find_inner(then_body, env);
            if f.is_none() && ok {
                match else_body {
                    Some(eb) => {
                        env.push_scope();
                        find_inner(eb, env)
                    },
                    None => (None, true),
                }
            } else {
                (f, ok)
            }
        },
        StmtKind::While { body, .. } => {
            env.push_scope();
            find_inner(body, env)
        },
        StmtKind::For { var, iter, body } => match TypeChecker::check_expr(iter, env) {
            Ok(t) => match type_of_element(&t) {
                Some(el) => {
                    env.push_scope();
                    env.define(var.as_str(), el);
                    find_inner(body, env)
                },
                None => (None, false),
            },
            Err(_) => (None, false),
        },
        _ => (None, true),
    };
    if found.is_none() && fine {
        find_result(ss, i + 1, env)
    } else {
        (found, fine)
    }
}

fn find_inner(ss: &Vec<Stmt>, env: &mut TypeEnv) -> (r: (Option<Type>, bool))
    requires
        old(env)@.scopes.len() > 1,
    ensures
        ({
            let want = inner_result(stmts_view(ss@), old(env)@);
            &&& final(env)@ == want.2
            &&& r.1 == want.1
            &&& match want.0 {
                Some(t) => r.0 is Some && r.0->Some_0@ == t,
                None => r.0 is None,
            }
        }),
        final(env)@.scopes.len() >= old(env)@.scopes.len() - 1,
        r.0 is None && r.1 ==> final(env)@.scopes.len() == old(env)@.scopes.len() - 1,
    decreases ss, ss@.len() + 1,
{
    let r = find_result(ss, 0, env);
    env.pop_scope();
    r
}

fn has_value(ss: &Vec<Stmt>, i: usize) -> (r: bool)
    ensures
        r == returns_value(stmts_view(ss@), i as int),
    decreases ss, ss@.len() - i,
{
    assert(stmts_view(ss@).len() == ss@.len());
    if i >= ss.len() {
        false
    } else {
        assert(stmts_view(ss@)[i as int] == ss@[i as int]@);
        assert(ss@[i as int]@.kind == ss@[i as int].kind@);
        let here = match &ss[i].kind {
            StmtKind::Return(Some(_)) => true,
            StmtKind::If { then_body, else_body, .. } => has_value(then_body, 0) || (
            match else_body {
                Some(eb) => has_value(eb, 0),
                None => false,
            }),
            StmtKind::While { body, .. } => has_value(body, 0),
            StmtKind::For { body, .. } => has_value(body, 0),
            _ => false,
        };
        here || has_value(ss, i + 1)
    }
}

fn surely_returns(ss: &Vec<Stmt>, i: usize) -> (r: bool)
    ensures
        r == always_returns(stmts_view(ss@), i as int),
    decreases ss, ss@.len() - i,
{
    assert(stmts_view(ss@).len() == ss@.len());
    if i >= ss.len() {
        false
    } else {
        assert(stmts_view(ss@)[i as int] == ss@[i as int]@);
        assert(ss@[i as int]@.kind == ss@[i as int].kind@);
        let here = match &ss[i].kind {
            StmtKind::Return(Some(_)) => true,
            StmtKind::If { then_body, else_body: Some(eb), .. } => surely_returns(then_body, 0)
                && surely_returns(eb, 0),
            _ => false,
        };
        here || surely_returns(ss, i + 1)
    }
}

/// What is known of a program, and whether it checks.
fn look(program: &Program) -> (r: (bool, TypeEnv))
    ensures
        r.0 == (check_stmts(program@, 0, declared(program@)).0 is Ok),
        r.1@ == check_stmts(program@, 0, declared(program@)).1,
        r.1@.scopes.len() > 0,
{
    let mut env = TypeChecker::env_for(program);
    let ok = TypeChecker::check_stmts(&program.stmts, &mut env).is_ok();
    (ok, env)
}

/// The function with the result type that can be told of it from a program.
fn give_result(st: &Stmt, program: &Program) -> (r: Stmt)
    ensures
        r@ == with_result(st@, check_stmts(program@, 0, declared(program@)).1),
{
    assert(st@.kind == st.kind@);
    match &st.kind {
        StmtKind::Fn { name, generics, params, ret, body } => {
            assert(texts(generics@).len() == generics@.len());
            if matches!(ret, Type::Inferred) && generics.len() == 0 {
                let known = if !has_value(body, 0) {
                    Type::Unit
                } else {
                    let (_, env) = look(program);
                    let mut env = env;
                    env.push_scope();
                    env.define_all(params);
                    match find_result(body, 0, &mut env).0 {
                        Some(t) => t,
                        None => Type::Inferred,
                    }
                };
                let kind = StmtKind::Fn {
                    name: name.clone(),
                    generics: dup_texts(generics),
                    params: dup_params(params),
                    ret: known,
                    body: dup_stmts(body),
                };
                Stmt::new(kind, st.span)
            } else {
                st.dup()
            }
        },
        _ => st.dup(),
    }
}

fn give_results(ss: &Vec<Stmt>, from: usize, program: &Program) -> (r: Vec<Stmt>)
    ensures
        stmts_view(r@) == with_results(
            stmts_view(ss@),
            from as int,
            check_stmts(program@, 0, declared(program@)).1,
        ),
{
    let ghost all = stmts_view(ss@);
    let ghost env = check_stmts(program@, 0, declared(program@)).1;
    assert(all.len() == ss@.len());
    let mut out: Vec<Stmt> = Vec::new();
    let mut i: usize = 0;
    while i < ss.len()
        invariant
            i <= ss@.len(),
            out@.len() == i,
            all == stmts_view(ss@),
            all.len() == ss@.len(),
            env == check_stmts(program@, 0, declared(program@)).1,
            forall|j: int|
                0 <= j < i ==> (#[trigger] out@[j])@ == with_results(all, from as int, env)[j],
        decreases ss@.len() - i,
    {
        assert(all[i as int] == ss@[i as int]@);
        let st = if i < from {
            ss[i].dup()
        } else {
            give_result(&ss[i], program)
        };
        out.push(st);
        i += 1;
    }
    assert(stmts_view(out@) =~= with_results(all, from as int, env));
    out
}

fn count_vague(ss: &Vec<Stmt>, from: usize) -> (n: usize)
    ensures
        n == vague_fns(stmts_view(ss@), from as int),
        n <= ss@.len(),
    decreases ss@.len() - from,
{
    assert(stmts_view(ss@).len() == ss@.len());
    let mut n: usize = 0;
    let total = ss.len();
    let mut i: usize = total;
    if from >= i {
        return 0;
    }
    while i > from
        invariant
            from <= i <= total,
            total == ss@.len(),
            stmts_view(ss@).len() == ss@.len(),
            n == vague_fns(stmts_view(ss@), i as int),
            n <= ss@.len() - i,
        decreases i,
    {
        i -= 1;
        assert(stmts_view(ss@)[i as int] == ss@[i as int]@);
        assert(ss@[i as int]@.kind == ss@[i as int].kind@);
        let vague = match &ss[i].kind {
            StmtKind::Fn { generics, ret, .. } => {
                assert(texts(generics@).len() == generics@.len());
                matches!(ret, Type::Inferred) && generics.len() == 0
            },
            _ => false,
        };
        assert(vague == vague_fn(stmts_view(ss@)[i as int]));
        if vague {
            n += 1;
        }
    }
    n
}

fn all_end_well(ss: &Vec<Stmt>, from: usize) -> (r: bool)
    ensures
        r == forall|i: int|
            from <= i < stmts_view(ss@).len() ==> ends_well(#[trigger] stmts_view(ss@)[i]),
{
    let ghost all = stmts_view(ss@);
    assert(all.len() == ss@.len());
    let mut i: usize = from;
    while i < ss.len()
        invariant
            from <= i,
            all == stmts_view(ss@),
            all.len() == ss@.len(),
            forall|j: int| from <= j < i && j < all.len() ==> ends_well(#[trigger] all[j]),
        decreases ss@.len() - i,
    {
        assert(all[i as int] == ss@[i as int]@);
        assert(ss@[i as int]@.kind == ss@[i as int].kind@);
        let well = match &ss[i].kind {
            StmtKind::Fn { generics, ret, body, .. } => {
                assert(texts(generics@).len() == generics@.len());
                generics.len() > 0 || matches!(ret, Type::Unit) || (!matches!(ret, Type::Inferred)
                    && surely_returns(body, 0))
            },
            _ => true,
        };
        assert(well == ends_well(all[i as int]));
        if !well {
            return false;
        }
        i += 1;
    }
    true
}

fn look_once(current: &Program, ms: &Vec<Stmt>, from: usize) -> (r: (bool, bool, Vec<Stmt>))
    ensures
        (r.0, r.1, stmts_view(r.2@)) == looked(current@, stmts_view(ms@), from as int),
{
    let (ok, env) = look(current);
    let calls = find_macro_calls(env.instantiations(), ms);
    assert(instances_view(calls@).len() == calls@.len());
    let changed = rewrite_stmts(&current.stmts, &calls, "");
    let all = add_macro_copies(changed, ms, &calls);
    let typed = give_results(&all, from, current);
    let done = calls.len() == 0 && count_vague(&typed, from) == count_vague(&current.stmts, from);
    let good = ok && calls_no_macro(env.instantiations(), ms) && all_end_well(
        &current.stmts,
        from,
    );
    (done, good, typed)
}

/// Every call of a macro as one of a function.
fn settle_macros(start: Program, ms: &Vec<Stmt>, from: usize) -> (r: Option<Program>)
    ensures
        match macros_settled(start@, stmts_view(ms@), from as int, LOOKS as nat) {
            Some(out) => r is Some && r->Some_0@ == out,
            None => r is None,
        },
{
    let ghost mv = stmts_view(ms@);
    let ghost first = start@;
    let mut current = start;
    let mut looks: usize = LOOKS;
    while looks > 0
        invariant
            looks <= LOOKS,
            first == start@,
            mv == stmts_view(ms@),
            macros_settled(current@, mv, from as int, looks as nat) == macros_settled(
                first,
                mv,
                from as int,
                LOOKS as nat,
            ),
        decreases looks,
    {
        let (done, good, next) = look_once(&current, ms, from);
        if done {
            if good {
                return Some(current);
            }
            return None;
        }
        current = Program { stmts: next };
        looks -= 1;
    }
    None
}

pub fn expand_macros_program(program: &Program) -> (r: Program)
    ensures
        r@ == unfolded_program(program@),
{
    let (ms, base) = part_macros(&program.stmts);
    let ghost mv = stmts_view(ms@);
    let ghost bv = stmts_view(base@);
    assert(mv.len() == ms@.len());
    assert(bv.len() == base@.len());
    if ms.len() == 0 {
        return Program { stmts: dup_stmts(&program.stmts) };
    }
    let from = base.len();
    let mut all = base;
    let mut i: usize = 0;
    assert(stmts_view(all@) =~= bv + templates(mv).take(0));
    while i < ms.len()
        invariant
            i <= ms@.len(),
            mv == stmts_view(ms@),
            mv.len() == ms@.len(),
            stmts_view(all@) == bv + templates(mv).take(i as int),
        decreases ms@.len() - i,
    {
        assert(mv[i as int] == ms@[i as int]@);
        let t = make_template(&ms[i]);
        let ghost tv = t@;
        let ghost before = all@;
        all.push(t);
        assert(stmts_view(all@) =~= stmts_view(before).push(tv));
        assert(templates(mv).take(i + 1) =~= templates(mv).take(i as int).push(tv));
        assert(stmts_view(all@) =~= bv + templates(mv).take(i + 1));
        i += 1;
    }
    assert(templates(mv).take(i as int) =~= templates(mv));
    match settle_macros(Program { stmts: all }, &ms, from) {
        Some(p) => p,
        None => Program { stmts: dup_stmts(&program.stmts) },
    }
}

// ---- laws ----

/// A program without macros stays as it is.
pub proof fn law_program_without_macros(ss: Seq<StmtV>)
    requires
        forall|i: int| 0 <= i < ss.len() ==> !((#[trigger] ss[i]).kind is Macro),
    ensures
        unfolded_program(ss) == ss,
{
    lemma_no_macros(ss);
}

proof fn lemma_no_macros(ss: Seq<StmtV>)
    requires
        forall|i: int| 0 <= i < ss.len() ==> !((#[trigger] ss[i]).kind is Macro),
    ensures
        macros_of(ss).len() == 0,
    decreases ss.len(),
{
    if ss.len() > 0 {
        assert(!(ss[ss.len() - 1].kind is Macro));
        assert forall|i: int| 0 <= i < ss.drop_last().len() implies !((
        #[trigger] ss.drop_last()[i]).kind is Macro) by {
            assert(ss.drop_last()[i] == ss[i]);
        }
        lemma_no_macros(ss.drop_last());
    }
}

/// The function that a macro becomes for arguments of some types has the parameters of
/// the macro in their order, each with the type of its argument, and the body of the
/// macro.
pub proof fn law_macro_copy(st: StmtV, args: Seq<TypeV>)
    requires
        st.kind is Macro,
        st.kind->Macro_params.len() == args.len(),
    ensures
        ({
            let c = macro_copy(st, args).kind;
            &&& c is Fn
            &&& c->Fn_params.len() == args.len()
            &&& forall|k: int|
                0 <= k < args.len() ==> (#[trigger] c->Fn_params[k]) == (
                    st.kind->Macro_params[k],
                    args[k],
                )
            &&& c->Fn_body == st.kind->Macro_body
            &&& c->Fn_generics.len() == 0
            &&& c->Fn_name == mangled(st.kind->Macro_name, args)
        }),
{
}

} // verus!
