//! The interpreter, used as the default backend: it runs a program one small
//! step at a time, and hands its host whatever needs the outside.

use crate::ast::{
    arm_view, arms_view, exprs_view, fields_view, params_view, patterns_view, stmts_view, Expr,
    ExprKind, Pattern, PatternV, Stmt, StmtKind, Type,
};
use crate::builtins;
use crate::interp_state::{
    refs_view, text_refs, took, Action, BlockKind, Ctl, Frame, Interpreter, Loop, Task, Walk,
};
use crate::names::NameMap;
use crate::primitives::{call_builtin, get_element, Builtin};
use crate::semantics::{
    ambiguous_text, answered, apply, arity_text, arranged, begin_call, block_end, block_next,
    block_step, bound, builtin_call, call_step, declared_call, eval_step, exec_step, extern_call,
    field_exprs, field_names, field_result, find_fn, find_macro, find_method, find_struct, fn_in,
    for_start, given, has_extern, in_order, invoke_method, is_declaration, literal_value, loop_end,
    loop_next, loop_signal, matched, matched_from, method_owner, method_step, name_step, needs,
    next_step, param_names, put, ready_step, receiver_frame, signal, slot, step, steps, try_arms,
    undeclared, unwrapped, value_step, TaskV,
};
use crate::text::{cat2, cat3, cat5, join, nat_to_string, str_eq, texts};
use crate::typing::named_type;
use crate::value::{
    does_choose, does_hold, eval_binop, eval_unop, opt_value_view, slots_view, values_equal,
    values_view, Value, ValueV,
};
use crate::variants::Lookup;
use vstd::prelude::*;

verus! {

broadcast use {crate::ast::group_views, crate::value::lemma_values_push, crate::value::lemma_slots_push};

// ---- declarations ----

fn names_of_params<'a>(params: &'a Vec<(String, Type)>) -> (r: Vec<&'a String>)
    ensures
        text_refs(r@) == param_names(params_view(params@)),
{
    let mut out: Vec<&'a String> = Vec::new();
    let mut i: usize = 0;
    while i < params.len()
        invariant
            i <= params@.len(),
            out@.len() == i,
            forall|j: int| 0 <= j < i ==> (#[trigger] out@[j])@ == params@[j].0@,
        decreases params@.len() - i,
    {
        out.push(&params[i].0);
        i += 1;
    }
    assert(text_refs(out@) =~= param_names(params_view(params@)));
    out
}

fn refs_to_texts<'a>(names: &'a Vec<String>) -> (r: Vec<&'a String>)
    ensures
        text_refs(r@) == texts(names@),
{
    let mut out: Vec<&'a String> = Vec::new();
    let mut i: usize = 0;
    while i < names.len()
        invariant
            i <= names@.len(),
            out@.len() == i,
            forall|j: int| 0 <= j < i ==> (#[trigger] out@[j])@ == names@[j]@,
        decreases names@.len() - i,
    {
        out.push(&names[i]);
        i += 1;
    }
    assert(text_refs(out@) =~= texts(names@));
    out
}

/// A function's parameters and body.
fn get_fn<'a>(stmts: &'a Vec<Stmt>, name: &str) -> (r: Option<(Vec<&'a String>, &'a Vec<Stmt>)>)
    ensures
        match find_fn(stmts_view(stmts@), name@) {
            Some((params, body)) => r is Some && text_refs(r->Some_0.0@) == params && stmts_view(
                r->Some_0.1@,
            ) == body,
            None => r is None,
        },
{
    let ghost all = stmts_view(stmts@);
    let mut i: usize = stmts.len();
    assert(all.take(i as int) =~= all);
    while i > 0
        invariant
            i <= stmts@.len(),
            all == stmts_view(stmts@),
            find_fn(all.take(i as int), name@) == find_fn(all, name@),
        decreases i,
    {
        proof {
            assert(all.take(i as int).drop_last() =~= all.take(i - 1));
            assert(all.take(i as int).last() == stmts@[i - 1]@);
        }
        i -= 1;
        match &stmts[i].kind {
            StmtKind::Fn { name: n, params, body, .. } => {
                if str_eq(n.as_str(), name) {
                    return Some((names_of_params(params), body));
                }
            },
            _ => {},
        }
    }
    None
}

/// A macro's parameters and body.
fn get_macro<'a>(stmts: &'a Vec<Stmt>, name: &str) -> (r: Option<(Vec<&'a String>, &'a Vec<Stmt>)>)
    ensures
        match find_macro(stmts_view(stmts@), name@) {
            Some((params, body)) => r is Some && text_refs(r->Some_0.0@) == params && stmts_view(
                r->Some_0.1@,
            ) == body,
            None => r is None,
        },
{
    let ghost all = stmts_view(stmts@);
    let mut i: usize = stmts.len();
    assert(all.take(i as int) =~= all);
    while i > 0
        invariant
            i <= stmts@.len(),
            all == stmts_view(stmts@),
            find_macro(all.take(i as int), name@) == find_macro(all, name@),
        decreases i,
    {
        proof {
            assert(all.take(i as int).drop_last() =~= all.take(i - 1));
            assert(all.take(i as int).last() == stmts@[i - 1]@);
        }
        i -= 1;
        match &stmts[i].kind {
            StmtKind::Macro { name: n, params, body } => {
                if str_eq(n.as_str(), name) {
                    return Some((refs_to_texts(params), body));
                }
            },
            _ => {},
        }
    }
    None
}

/// Whether a foreign function is declared.
fn is_extern(stmts: &Vec<Stmt>, name: &str) -> (r: bool)
    ensures
        r == has_extern(stmts_view(stmts@), name@),
{
    let ghost all = stmts_view(stmts@);
    let mut i: usize = stmts.len();
    assert(all.take(i as int) =~= all);
    while i > 0
        invariant
            i <= stmts@.len(),
            all == stmts_view(stmts@),
            has_extern(all.take(i as int), name@) == has_extern(all, name@),
        decreases i,
    {
        proof {
            assert(all.take(i as int).drop_last() =~= all.take(i - 1));
            assert(all.take(i as int).last() == stmts@[i - 1]@);
        }
        i -= 1;
        match &stmts[i].kind {
            StmtKind::ExternFn { name: n, .. } => {
                if str_eq(n.as_str(), name) {
                    return true;
                }
            },
            _ => {},
        }
    }
    false
}

/// A struct's fields.
fn get_struct<'a>(stmts: &'a Vec<Stmt>, name: &str) -> (r: Option<&'a Vec<(String, Type)>>)
    ensures
        match find_struct(stmts_view(stmts@), name@) {
            Some(fields) => r is Some && params_view(r->Some_0@) == fields,
            None => r is None,
        },
{
    let ghost all = stmts_view(stmts@);
    let mut i: usize = stmts.len();
    assert(all.take(i as int) =~= all);
    while i > 0
        invariant
            i <= stmts@.len(),
            all == stmts_view(stmts@),
            find_struct(all.take(i as int), name@) == find_struct(all, name@),
        decreases i,
    {
        proof {
            assert(all.take(i as int).drop_last() =~= all.take(i - 1));
            assert(all.take(i as int).last() == stmts@[i - 1]@);
        }
        i -= 1;
        match &stmts[i].kind {
            StmtKind::Struct { name: n, fields, .. } => {
                if str_eq(n.as_str(), name) {
                    return Some(fields);
                }
            },
            _ => {},
        }
    }
    None
}

fn get_fn_in<'a>(methods: &'a Vec<Stmt>, name: &str) -> (r: Option<
    (Vec<&'a String>, &'a Vec<Stmt>),
>)
    ensures
        match fn_in(stmts_view(methods@), name@, 0) {
            Some((params, body)) => r is Some && text_refs(r->Some_0.0@) == params && stmts_view(
                r->Some_0.1@,
            ) == body,
            None => r is None,
        },
{
    let ghost all = stmts_view(methods@);
    let mut i: usize = 0;
    while i < methods.len()
        invariant
            i <= methods@.len(),
            all == stmts_view(methods@),
            fn_in(all, name@, i as int) == fn_in(all, name@, 0),
        decreases methods@.len() - i,
    {
        assert(all[i as int] == methods@[i as int]@);
        match &methods[i].kind {
            StmtKind::Fn { name: n, params, body, .. } => {
                if str_eq(n.as_str(), name) {
                    return Some((names_of_params(params), body));
                }
            },
            _ => {},
        }
        i += 1;
    }
    None
}

/// The method of a type.
fn get_method<'a>(stmts: &'a Vec<Stmt>, owner: &str, name: &str) -> (r: Option<
    (Vec<&'a String>, &'a Vec<Stmt>),
>)
    ensures
        match find_method(stmts_view(stmts@), owner@, name@, 0) {
            Some((params, body)) => r is Some && text_refs(r->Some_0.0@) == params && stmts_view(
                r->Some_0.1@,
            ) == body,
            None => r is None,
        },
{
    let ghost all = stmts_view(stmts@);
    let mut i: usize = 0;
    while i < stmts.len()
        invariant
            i <= stmts@.len(),
            all == stmts_view(stmts@),
            find_method(all, owner@, name@, i as int) == find_method(all, owner@, name@, 0),
        decreases stmts@.len() - i,
    {
        assert(all[i as int] == stmts@[i as int]@);
        match &stmts[i].kind {
            StmtKind::Impl { for_type, methods, .. } => {
                if str_eq(for_type.as_str(), owner) {
                    let found = get_fn_in(methods, name);
                    if found.is_some() {
                        return found;
                    }
                }
            },
            _ => {},
        }
        i += 1;
    }
    None
}

/// A statement that only declares something.
fn declares(s: &Stmt) -> (r: bool)
    ensures
        r == is_declaration(s@),
{
    matches!(
        s.kind,
        StmtKind::Fn { .. } | StmtKind::Struct { .. } | StmtKind::Enum { .. }
            | StmtKind::Trait { .. } | StmtKind::Macro { .. } | StmtKind::ExternFn { .. }
            | StmtKind::Impl { .. }
    )
}

// ---- struct values ----

/// A field's value.
fn get_slot<'b>(fields: &'b Vec<(String, Value)>, name: &str) -> (r: Option<&'b Value>)
    ensures
        match slot(slots_view(fields@), name@, 0) {
            Some(v) => r is Some && r->Some_0@ == v,
            None => r is None,
        },
{
    let ghost all = slots_view(fields@);
    let mut i: usize = 0;
    while i < fields.len()
        invariant
            i <= fields@.len(),
            all == slots_view(fields@),
            slot(all, name@, i as int) == slot(all, name@, 0),
        decreases fields@.len() - i,
    {
        assert(all[i as int] == (fields@[i as int].0@, fields@[i as int].1@));
        if str_eq(fields[i].0.as_str(), name) {
            return Some(&fields[i].1);
        }
        i += 1;
    }
    None
}

fn put_slot(fields: &mut Vec<(String, Value)>, name: &String, v: Value)
    ensures
        slots_view(final(fields)@) == put(slots_view(old(fields)@), name@, v@, 0),
{
    let ghost all = slots_view(fields@);
    let mut i: usize = 0;
    while i < fields.len()
        invariant
            i <= fields@.len(),
            fields@ == old(fields)@,
            all == slots_view(fields@),
            put(all, name@, v@, i as int) == put(all, name@, v@, 0),
        decreases fields@.len() - i,
    {
        assert(all[i as int] == (fields@[i as int].0@, fields@[i as int].1@));
        if str_eq(fields[i].0.as_str(), name.as_str()) {
            let ghost vv = v@;
            fields.set(i, (name.clone(), v));
            assert(slots_view(fields@) =~= all.update(i as int, (name@, vv)));
            return;
        }
        i += 1;
    }
    fields.push((name.clone(), v));
}

/// The fields that a struct literal gives, paired with their values.
fn pair_fields(names: &Vec<&String>, vals: &Vec<Value>) -> (r: Vec<(String, Value)>)
    requires
        names@.len() <= vals@.len(),
    ensures
        slots_view(r@) == given(text_refs(names@), values_view(vals@), names@.len() as int),
{
    let mut out: Vec<(String, Value)> = Vec::new();
    assert(slots_view(out@) =~= Seq::empty());
    let mut i: usize = 0;
    while i < names.len()
        invariant
            i <= names@.len() <= vals@.len(),
            slots_view(out@) == given(text_refs(names@), values_view(vals@), i as int),
        decreases names@.len() - i,
    {
        assert(text_refs(names@)[i as int] == names@[i as int]@);
        assert(values_view(vals@)[i as int] == vals@[i as int]@);
        put_slot(&mut out, names[i], vals[i].dup());
        i += 1;
    }
    out
}

fn is_declared(def: &Vec<(String, Type)>, name: &str) -> (r: bool)
    ensures
        r == named_type(params_view(def@), name@, 0) is Some,
{
    let ghost all = params_view(def@);
    let mut i: usize = 0;
    while i < def.len()
        invariant
            i <= def@.len(),
            all == params_view(def@),
            named_type(all, name@, i as int) == named_type(all, name@, 0),
        decreases def@.len() - i,
    {
        assert(all[i as int] == (def@[i as int].0@, def@[i as int].1@));
        if str_eq(def[i].0.as_str(), name) {
            return true;
        }
        i += 1;
    }
    false
}

/// The fields of a struct value, in declaration order.
fn arrange(def: Option<&Vec<(String, Type)>>, fields: Vec<(String, Value)>) -> (r: Vec<
    (String, Value),
>)
    ensures
        slots_view(r@) == arranged(
            match def {
                Some(d) => Some(params_view(d@)),
                None => None,
            },
            slots_view(fields@),
        ),
{
    let d = match def {
        Some(d) => d,
        None => {
            return fields;
        },
    };
    let ghost dv = params_view(d@);
    let ghost fv = slots_view(fields@);
    let mut out: Vec<(String, Value)> = Vec::new();
    assert(slots_view(out@) =~= Seq::empty());
    let mut i: usize = 0;
    while i < d.len()
        invariant
            i <= d@.len(),
            dv == params_view(d@),
            fv == slots_view(fields@),
            in_order(dv, fv, i as int, slots_view(out@)) == in_order(dv, fv, 0, Seq::empty()),
        decreases d@.len() - i,
    {
        assert(dv[i as int] == (d@[i as int].0@, d@[i as int].1@));
        match get_slot(&fields, d[i].0.as_str()) {
            Some(v) => {
                out.push((d[i].0.clone(), v.dup()));
            },
            None => {},
        }
        i += 1;
    }
    assert(dv.len() == d@.len());
    let ghost front = slots_view(out@);
    assert(front == in_order(dv, fv, 0, Seq::empty()));
    let mut k: usize = 0;
    while k < fields.len()
        invariant
            k <= fields@.len(),
            dv == params_view(d@),
            fv == slots_view(fields@),
            undeclared(dv, fv, k as int, slots_view(out@)) == undeclared(dv, fv, 0, front),
        decreases fields@.len() - k,
    {
        assert(fv[k as int] == (fields@[k as int].0@, fields@[k as int].1@));
        if !is_declared(d, fields[k].0.as_str()) {
            out.push((fields[k].0.clone(), fields[k].1.dup()));
        }
        k += 1;
    }
    assert(fv.len() == fields@.len());
    out
}

// ---- expressions as references ----

fn one_ref<'a>(e: &'a Expr) -> (v: Vec<&'a Expr>)
    ensures
        refs_view(v@) == seq![e@],
{
    let mut v: Vec<&'a Expr> = Vec::new();
    v.push(e);
    assert(refs_view(v@) =~= seq![e@]);
    v
}

fn two_refs<'a>(a: &'a Expr, b: &'a Expr) -> (v: Vec<&'a Expr>)
    ensures
        refs_view(v@) == seq![a@, b@],
{
    let mut v: Vec<&'a Expr> = Vec::new();
    v.push(a);
    v.push(b);
    assert(refs_view(v@) =~= seq![a@, b@]);
    v
}

fn first_refs<'a>(es: &'a Vec<Expr>, n: usize) -> (v: Vec<&'a Expr>)
    requires
        n <= es@.len(),
    ensures
        refs_view(v@) == exprs_view(es@).take(n as int),
{
    let mut v: Vec<&'a Expr> = Vec::new();
    let mut i: usize = 0;
    while i < n
        invariant
            i <= n <= es@.len(),
            v@.len() == i,
            forall|j: int| 0 <= j < i ==> (#[trigger] v@[j])@ == es@[j]@,
        decreases n - i,
    {
        v.push(&es[i]);
        i += 1;
    }
    assert(refs_view(v@) =~= exprs_view(es@).take(n as int));
    v
}

fn all_refs<'a>(es: &'a Vec<Expr>) -> (v: Vec<&'a Expr>)
    ensures
        refs_view(v@) == exprs_view(es@),
{
    let v = first_refs(es, es.len());
    assert(exprs_view(es@).take(es@.len() as int) =~= exprs_view(es@));
    v
}

fn names_of_fields<'a>(fields: &'a Vec<(String, Expr)>) -> (v: Vec<&'a String>)
    ensures
        text_refs(v@) == field_names(fields_view(fields@)),
{
    let mut v: Vec<&'a String> = Vec::new();
    let mut i: usize = 0;
    while i < fields.len()
        invariant
            i <= fields@.len(),
            v@.len() == i,
            forall|j: int| 0 <= j < i ==> (#[trigger] v@[j])@ == fields@[j].0@,
        decreases fields@.len() - i,
    {
        v.push(&fields[i].0);
        i += 1;
    }
    assert(text_refs(v@) =~= field_names(fields_view(fields@)));
    v
}

fn exprs_of_fields<'a>(fields: &'a Vec<(String, Expr)>) -> (v: Vec<&'a Expr>)
    ensures
        refs_view(v@) == field_exprs(fields_view(fields@)),
{
    let mut v: Vec<&'a Expr> = Vec::new();
    let mut i: usize = 0;
    while i < fields.len()
        invariant
            i <= fields@.len(),
            v@.len() == i,
            forall|j: int| 0 <= j < i ==> (#[trigger] v@[j])@ == fields@[j].1@,
        decreases fields@.len() - i,
    {
        v.push(&fields[i].1);
        i += 1;
    }
    assert(refs_view(v@) =~= field_exprs(fields_view(fields@)));
    v
}

// ---- patterns ----

fn describe_ambiguity(name: &str, candidates: &Vec<String>) -> (s: String)
    ensures
        s@ == ambiguous_text(name@, texts(candidates@)),
{
    cat5(
        "variant `",
        name,
        "` is declared by ",
        join(candidates, " and ").as_str(),
        "; rename one of them to disambiguate",
    )
}

fn value_of_literal(e: &Expr) -> (r: Option<Value>)
    ensures
        opt_value_view(r) == literal_value(e@),
{
    assert(*e@.kind == (*e.kind)@);
    match &*e.kind {
        ExprKind::Int(n) => Some(Value::Int(*n)),
        ExprKind::Bool(b) => Some(Value::Bool(*b)),
        ExprKind::Str(s) => Some(Value::Str(s.clone())),
        _ => None,
    }
}

/// Whether a value matches a pattern. The pattern's variables are added to
/// what is bound.
fn match_pattern(p: &Pattern, v: &Value, interp: &Interpreter, bs: &mut Vec<(String, Value)>) -> (r:
    Result<bool, String>)
    requires
        interp.wf(),
    ensures
        match matched(p@, v@, interp@.variants(), slots_view(old(bs)@)) {
            Err(m) => r is Err && r->Err_0@ == m,
            Ok(None) => r is Ok && !r->Ok_0,
            Ok(Some(all)) => r is Ok && r->Ok_0 && slots_view(final(bs)@) == all,
        },
    decreases p, 0int,
{
    match p {
        Pattern::Literal(e) => match value_of_literal(e) {
            Some(w) => Ok(values_equal(&w, v)),
            None => Ok(false),
        },
        Pattern::Variable(name) => {
            bs.push((name.clone(), v.dup()));
            Ok(true)
        },
        Pattern::Wildcard => Ok(true),
        Pattern::EnumVariant { name, inner } => {
            assert(p@ == (PatternV::EnumVariant { name: name@, inner: patterns_view(inner@) }));
            assert(patterns_view(inner@).len() == inner@.len());
            match interp.lookup_variant(name.as_str()) {
                Lookup::Ambiguous(candidates) => Err(
                    describe_ambiguity(name.as_str(), &candidates),
                ),
                Lookup::Unknown => Ok(false),
                Lookup::Unique(w) => match v {
                    Value::EnumVariant { enum_name, variant, args } => {
                        assert(values_view(args@).len() == args@.len());
                        if str_eq(enum_name.as_str(), w.enum_name.as_str()) && str_eq(
                            variant.as_str(),
                            w.name.as_str(),
                        ) && args.len() == inner.len() {
                            match_patterns(inner, args, interp, bs)
                        } else {
                            Ok(false)
                        }
                    },
                    _ => Ok(false),
                },
            }
        },
    }
}

fn match_patterns(
    ps: &Vec<Pattern>,
    vs: &Vec<Value>,
    interp: &Interpreter,
    bs: &mut Vec<(String, Value)>,
) -> (r: Result<bool, String>)
    requires
        interp.wf(),
        ps@.len() == vs@.len(),
    ensures
        match matched_from(
            patterns_view(ps@),
            values_view(vs@),
            interp@.variants(),
            0,
            slots_view(old(bs)@),
        ) {
            Err(m) => r is Err && r->Err_0@ == m,
            Ok(None) => r is Ok && !r->Ok_0,
            Ok(Some(all)) => r is Ok && r->Ok_0 && slots_view(final(bs)@) == all,
        },
    decreases ps, 0int,
{
    let ghost pv = patterns_view(ps@);
    let ghost vv = values_view(vs@);
    let ghost all = interp@.variants();
    let ghost start = slots_view(bs@);
    let mut i: usize = 0;
    while i < ps.len()
        invariant
            i <= ps@.len(),
            ps@.len() == vs@.len(),
            interp.wf(),
            pv == patterns_view(ps@),
            vv == values_view(vs@),
            all == interp@.variants(),
            start == slots_view(old(bs)@),
            matched_from(pv, vv, all, i as int, slots_view(bs@)) == matched_from(
                pv,
                vv,
                all,
                0,
                start,
            ),
        decreases ps@.len() - i,
    {
        assert(pv[i as int] == ps@[i as int]@);
        assert(vv[i as int] == vs@[i as int]@);
        match match_pattern(&ps[i], &vs[i], interp, bs) {
            Err(m) => {
                return Err(m);
            },
            Ok(false) => {
                return Ok(false);
            },
            Ok(true) => {},
        }
        i += 1;
    }
    assert(pv.len() == ps@.len());
    Ok(true)
}

fn describe_arity(name: &str, expected: usize, found: usize) -> (s: String)
    ensures
        s@ == arity_text(name@, expected as nat, found as nat),
{
    let head = cat5(
        "`",
        name,
        "` expects ",
        nat_to_string(expected as u64).as_str(),
        " args, found ",
    );
    cat2(head.as_str(), nat_to_string(found as u64).as_str())
}

/// What `unwrap` gives.
fn unwrap_value(enum_name: &str, variant: &str, args: &Vec<Value>) -> (r: Result<Value, String>)
    ensures
        match unwrapped(enum_name@, variant@, values_view(args@)) {
            Ok(v) => r is Ok && r->Ok_0@ == v,
            Err(m) => r is Err && r->Err_0@ == m,
        },
{
    assert(values_view(args@).len() == args@.len());
    let option = str_eq(enum_name, "Option");
    let full = if option {
        str_eq(variant, "Some")
    } else {
        str_eq(variant, "Ok")
    };
    if full {
        if args.len() > 0 {
            assert(values_view(args@)[0] == args@[0]@);
            Ok(args[0].dup())
        } else {
            Err("unwrap() found no payload".to_owned())
        }
    } else if option {
        Err("unwrap() called on None".to_owned())
    } else if str_eq(variant, "Err") {
        Err("unwrap() called on Err".to_owned())
    } else {
        Err(cat2("unknown Result variant: ", variant))
    }
}

/// The builtin methods of enum values.
fn call_builtin_method(obj: &Value, method: &str) -> (r: Option<Result<Value, String>>)
    ensures
        match builtin_call(obj@, method@) {
            None => r is None,
            Some(Ok(v)) => r is Some && r->Some_0 is Ok && r->Some_0->Ok_0@ == v,
            Some(Err(m)) => r is Some && r->Some_0 is Err && r->Some_0->Err_0@ == m,
        },
{
    match obj {
        Value::EnumVariant { enum_name, variant, args } => {
            let v = variant.as_str();
            if str_eq(method, "unwrap") && (str_eq(enum_name.as_str(), "Option") || str_eq(
                enum_name.as_str(),
                "Result",
            )) {
                Some(unwrap_value(enum_name.as_str(), v, args))
            } else if str_eq(method, "is_some") {
                Some(Ok(Value::Bool(str_eq(v, "Some"))))
            } else if str_eq(method, "is_none") {
                Some(Ok(Value::Bool(str_eq(v, "None"))))
            } else if str_eq(method, "is_ok") {
                Some(Ok(Value::Bool(str_eq(v, "Ok"))))
            } else if str_eq(method, "is_err") {
                Some(Ok(Value::Bool(str_eq(v, "Err"))))
            } else {
                None
            }
        },
        _ => None,
    }
}

/// The type whose methods a value has.
fn owner_of(obj: &Value) -> (r: Option<String>)
    ensures
        match method_owner(obj@) {
            Some(n) => r is Some && r->Some_0@ == n,
            None => r is None,
        },
{
    match obj {
        Value::Struct { name, .. } => Some(name.clone()),
        Value::EnumVariant { enum_name, .. } => Some(enum_name.clone()),
        _ => None,
    }
}

/// The value of a field.
fn get_field(v: &Value, field: &str) -> (r: Result<Value, String>)
    ensures
        match field_result(v@, field@) {
            Ok(x) => r is Ok && r->Ok_0@ == x,
            Err(m) => r is Err && r->Err_0@ == m,
        },
{
    match v {
        Value::Struct { fields, .. } => match get_slot(fields, field) {
            Some(x) => Ok(x.dup()),
            None => Err(cat3("field `", field, "` not found")),
        },
        _ => Err("cannot access field on non-struct".to_owned()),
    }
}

/// Parameters bound to values, on top of the receiver.
fn bind_frame(params: &Vec<&String>, vals: &Vec<Value>, receiver: Option<Value>) -> (frame: NameMap<
    Value,
>)
    requires
        params@.len() <= vals@.len(),
    ensures
        frame@ == bound(
            receiver_frame(opt_value_view(receiver)),
            text_refs(params@),
            values_view(vals@),
            params@.len() as int,
        ),
{
    let mut frame: NameMap<Value> = NameMap::new();
    let ghost base = receiver_frame(opt_value_view(receiver));
    match receiver {
        Some(obj) => {
            frame.insert("self".to_owned(), obj);
        },
        None => {},
    }
    let mut i: usize = 0;
    while i < params.len()
        invariant
            i <= params@.len() <= vals@.len(),
            frame@ == bound(base, text_refs(params@), values_view(vals@), i as int),
        decreases params@.len() - i,
    {
        assert(text_refs(params@)[i as int] == params@[i as int]@);
        assert(values_view(vals@)[i as int] == vals@[i as int]@);
        frame.insert(params[i].clone(), vals[i].dup());
        i += 1;
    }
    frame
}

impl<'a> Interpreter<'a> {
    // ---- loops ----

    /// The next turn of a loop, or its end.
    fn loop_next(&mut self, l: Loop<'a>) -> (r: Action)
        requires
            old(self).wf(),
        ensures
            final(self).wf(),
            took(final(self)@, r, loop_next(old(self)@, l@)),
    {
        let Loop { is_expr, walk, body, result } = l;
        match walk {
            Walk::Cond(c) => self.begin(
                Task::WhileTest(Loop { is_expr, walk: Walk::Cond(c), body, result }),
                one_ref(c),
            ),
            Walk::Range(var, i, end) => {
                if i < end {
                    self.push_scope();
                    self.declare(var.as_str(), Value::Int(i));
                    self.run_block(
                        BlockKind::Loop(
                            Loop { is_expr, walk: Walk::Range(var, i + 1, end), body, result },
                        ),
                        body,
                    )
                } else {
                    self.loop_end(is_expr, result)
                }
            },
            Walk::Items(var, vs, k) => {
                assert(values_view(vs@).len() == vs@.len());
                if k < vs.len() {
                    assert(values_view(vs@)[k as int] == vs@[k as int]@);
                    self.push_scope();
                    let item = vs[k].dup();
                    self.declare(var.as_str(), item);
                    self.run_block(
                        BlockKind::Loop(
                            Loop { is_expr, walk: Walk::Items(var, vs, k + 1), body, result },
                        ),
                        body,
                    )
                } else {
                    self.loop_end(is_expr, result)
                }
            },
        }
    }

    fn loop_end(&mut self, is_expr: bool, result: Value) -> (r: Action)
        requires
            old(self).wf(),
        ensures
            final(self).wf(),
            is_expr ==> took(final(self)@, r, old(self)@.give(result@)),
            !is_expr ==> took(final(self)@, r, old(self)@.next()),
    {
        if is_expr {
            self.give(result)
        } else {
            self.next()
        }
    }

    /// What a `for` loop does with the value that it is to walk.
    fn for_start(&mut self, is_expr: bool, var: &'a String, body: &'a Vec<Stmt>, v: Value) -> (r:
        Action)
        requires
            old(self).wf(),
        ensures
            final(self).wf(),
            took(final(self)@, r, for_start(old(self)@, is_expr, var@, stmts_view(body@), v@)),
    {
        let walk = match v {
            Value::Range(a, b) => Walk::Range(var, a, b),
            Value::Int(n) => Walk::Range(var, 0, n),
            Value::Array(vs) => Walk::Items(var, vs, 0),
            _ => {
                return self.fail("for loop requires range, array or int".to_owned());
            },
        };
        self.loop_next(Loop { is_expr, walk, body, result: Value::Unit })
    }

    /// After a statement of a loop's body: what a `return`, `continue` or
    /// `break` in it does. Gives the loop back when there was none of them.
    fn loop_signal(&mut self, l: Loop<'a>) -> (r: Result<Action, Loop<'a>>)
        requires
            old(self).wf(),
        ensures
            final(self).wf(),
            match loop_signal(old(self)@, l@) {
                Some(want) => r is Ok && took(final(self)@, r->Ok_0, want),
                None => r is Err && r->Err_0 == l && final(self)@ == old(self)@,
            },
    {
        if l.is_expr {
            if self.breaks() {
                let v = self.clear_break();
                self.pop_scope();
                return Ok(
                    self.give(
                        match v {
                            Some(v) => v,
                            None => l.result,
                        },
                    ),
                );
            }
            if self.continues() {
                self.set_continue(false);
                self.pop_scope();
                return Ok(self.loop_next(l));
            }
            if self.has_returned() {
                let v = self.take_returned();
                self.pop_scope();
                return Ok(
                    self.give(
                        match v {
                            Some(v) => v,
                            None => Value::Unit,
                        },
                    ),
                );
            }
            return Err(l);
        }
        if self.has_returned() {
            self.pop_scope();
            return Ok(self.next());
        }
        if self.continues() {
            self.set_continue(false);
            self.pop_scope();
            return Ok(self.loop_next(l));
        }
        if self.breaks() {
            let _ = self.clear_break();
            self.pop_scope();
            return Ok(self.next());
        }
        Err(l)
    }

    // ---- blocks ----

    /// After a statement of a block: what a `return`, `break` or `continue` in
    /// it does to the block. Gives the block back when there was none of them.
    fn signal(&mut self, kind: BlockKind<'a>) -> (r: Result<Action, BlockKind<'a>>)
        requires
            old(self).wf(),
        ensures
            final(self).wf(),
            match signal(old(self)@, kind@) {
                Some(want) => r is Ok && took(final(self)@, r->Ok_0, want),
                None => r is Err && r->Err_0@ == kind@ && final(self)@ == old(self)@,
            },
    {
        match kind {
            BlockKind::Top => Err(BlockKind::Top),
            BlockKind::Call(saved) => {
                if self.has_returned() {
                    let v = self.take_returned();
                    self.restore_scopes(saved);
                    return Ok(
                        self.give(
                            match v {
                                Some(v) => v,
                                None => Value::Unit,
                            },
                        ),
                    );
                }
                Err(BlockKind::Call(saved))
            },
            BlockKind::If => {
                if self.has_returned() || self.breaks() || self.continues() {
                    self.pop_scope();
                    return Ok(self.next());
                }
                Err(BlockKind::If)
            },
            BlockKind::Loop(l) => match self.loop_signal(l) {
                Ok(a) => Ok(a),
                Err(l) => Err(BlockKind::Loop(l)),
            },
        }
    }

    /// The end of a block.
    fn block_end(&mut self, kind: BlockKind<'a>) -> (r: Action)
        requires
            old(self).wf(),
        ensures
            final(self).wf(),
            took(final(self)@, r, block_end(old(self)@, kind@)),
    {
        match kind {
            BlockKind::Top => match get_fn(&self.program().stmts, "main") {
                Some((_, body)) => {
                    self.push(Frame::End);
                    let frame: NameMap<Value> = NameMap::new();
                    self.call_frame(frame, body)
                },
                None => {
                    self.set_ctl(Ctl::Stopped);
                    Action::Done
                },
            },
            BlockKind::Call(saved) => {
                self.restore_scopes(saved);
                self.give(Value::Unit)
            },
            BlockKind::If => {
                self.pop_scope();
                self.next()
            },
            BlockKind::Loop(l) => {
                self.pop_scope();
                self.loop_next(l)
            },
        }
    }

    /// The next statement of a block.
    fn block_next(&mut self, kind: BlockKind<'a>, stmts: &'a Vec<Stmt>, next: usize) -> (r: Action)
        requires
            old(self).wf(),
        ensures
            final(self).wf(),
            took(
                final(self)@,
                r,
                block_next(old(self)@, kind@, stmts_view(stmts@), next as int),
            ),
    {
        assert(stmts_view(stmts@).len() == stmts@.len());
        if matches!(kind, BlockKind::Top) {
            let _ = self.take_returned();
        }
        if next < stmts.len() {
            assert(stmts_view(stmts@)[next as int] == stmts@[next as int]@);
            let passed = matches!(kind, BlockKind::Top) && declares(&stmts[next]);
            let span = self.get_span();
            self.push(Frame::Block { kind, stmts, next: next + 1, span });
            if passed {
                self.next()
            } else {
                self.set_ctl(Ctl::Exec(&stmts[next]));
                Action::Continue
            }
        } else {
            self.block_end(kind)
        }
    }

    fn block_step(&mut self, kind: BlockKind<'a>, stmts: &'a Vec<Stmt>, next: usize) -> (r: Action)
        requires
            old(self).wf(),
        ensures
            final(self).wf(),
            took(
                final(self)@,
                r,
                block_step(old(self)@, kind@, stmts_view(stmts@), next as int),
            ),
    {
        if next > 0 {
            match self.signal(kind) {
                Ok(a) => a,
                Err(kind) => self.block_next(kind, stmts, next),
            }
        } else {
            self.block_next(kind, stmts, next)
        }
    }

    // ---- statements ----

    /// The first step of a statement.
    fn eval_stmt(&mut self, stmt: &'a Stmt) -> (r: Action)
        requires
            old(self).wf(),
        ensures
            final(self).wf(),
            took(final(self)@, r, exec_step(old(self)@, stmt@)),
    {
        assert(stmt@.kind == stmt.kind@);
        self.set_span(stmt.span);
        match &stmt.kind {
            StmtKind::Let { name, value, .. } => self.begin(Task::Let(name), one_ref(value)),
            StmtKind::Assign { name, value } => self.begin(Task::Assign(name), one_ref(value)),
            StmtKind::Expr(e) => self.begin(Task::Discard, one_ref(e)),
            StmtKind::Return(e) => match e {
                Some(x) => self.begin(Task::Return, one_ref(x)),
                None => {
                    self.set_returned(Value::Unit);
                    self.next()
                },
            },
            StmtKind::Break(e) => match e {
                Some(x) => self.begin(Task::Break, one_ref(x)),
                None => {
                    self.set_break();
                    self.next()
                },
            },
            StmtKind::Continue(_) => {
                self.set_continue(true);
                self.next()
            },
            StmtKind::While { cond, body } => self.loop_next(
                Loop { is_expr: false, walk: Walk::Cond(cond), body, result: Value::Unit },
            ),
            StmtKind::For { var, iter, body } => self.begin(
                Task::ForStart(false, var, body),
                one_ref(iter),
            ),
            StmtKind::If { cond, then_body, else_body } => self.begin(
                Task::IfStmt(
                    then_body,
                    match else_body {
                        Some(b) => Some(b),
                        None => None,
                    },
                ),
                one_ref(cond),
            ),
            _ => self.next(),
        }
    }

    // ---- expressions ----

    /// The first `n` expressions, evaluated for a task.
    fn begin_call(&mut self, task: Task<'a>, name: &str, n: usize, args: &'a Vec<Expr>) -> (r:
        Action)
        requires
            old(self).wf(),
        ensures
            final(self).wf(),
            took(
                final(self)@,
                r,
                begin_call(old(self)@, task@, name@, n as nat, exprs_view(args@)),
            ),
    {
        assert(exprs_view(args@).len() == args@.len());
        if args.len() < n {
            self.fail(describe_arity(name, n, args.len()))
        } else {
            self.begin(task, first_refs(args, n))
        }
    }

    fn call_extern_fn(&mut self, name: &'a String, args: &'a Vec<Expr>) -> (r: Action)
        requires
            old(self).wf(),
        ensures
            final(self).wf(),
            took(final(self)@, r, extern_call(old(self)@, name@, exprs_view(args@))),
    {
        if str_eq(name.as_str(), "clock") {
            self.ask(Action::Clock)
        } else if str_eq(name.as_str(), "sleep_ms") {
            self.begin_call(Task::Sleep, name.as_str(), 1, args)
        } else {
            self.fail(
                cat3("extern fn `", name.as_str(), "` not yet implemented in interpreter"),
            )
        }
    }

    fn call_declared(&mut self, name: &'a String, args: &'a Vec<Expr>) -> (r: Action)
        requires
            old(self).wf(),
        ensures
            final(self).wf(),
            took(final(self)@, r, declared_call(old(self)@, name@, exprs_view(args@))),
    {
        let program = self.program();
        match get_macro(&program.stmts, name.as_str()) {
            Some((params, body)) => {
                let n = params.len();
                assert(text_refs(params@).len() == n);
                return self.begin_call(
                    Task::Invoke(params, body, None),
                    name.as_str(),
                    n,
                    args,
                );
            },
            None => {},
        }
        if is_extern(&program.stmts, name.as_str()) {
            return self.call_extern_fn(name, args);
        }
        match get_fn(&program.stmts, name.as_str()) {
            Some((params, body)) => {
                // Arguments are evaluated in the caller's frame, then bound in
                // a fresh one.
                let n = params.len();
                assert(text_refs(params@).len() == n);
                self.begin_call(Task::Invoke(params, body, None), name.as_str(), n, args)
            },
            None => self.fail(cat2("undefined function: ", name.as_str())),
        }
    }

    fn eval_call(&mut self, name: &'a String, args: &'a Vec<Expr>) -> (r: Action)
        requires
            old(self).wf(),
        ensures
            final(self).wf(),
            took(final(self)@, r, call_step(old(self)@, name@, exprs_view(args@))),
    {
        match builtins::signature(name.as_str()) {
            Some((arity, _)) => {
                return self.begin_call(Task::Builtin(name), name.as_str(), arity, args);
            },
            None => {},
        }
        match self.lookup_variant(name.as_str()) {
            Lookup::Ambiguous(candidates) => self.fail(
                describe_ambiguity(name.as_str(), &candidates),
            ),
            Lookup::Unique(v) => self.begin(
                Task::Variant(v.enum_name, v.name),
                all_refs(args),
            ),
            Lookup::Unknown => self.call_declared(name, args),
        }
    }

    fn eval_name(&mut self, name: &'a String) -> (r: Action)
        requires
            old(self).wf(),
        ensures
            final(self).wf(),
            took(final(self)@, r, name_step(old(self)@, name@)),
    {
        match self.lookup_variant(name.as_str()) {
            Lookup::Ambiguous(candidates) => self.fail(
                describe_ambiguity(name.as_str(), &candidates),
            ),
            Lookup::Unique(v) => {
                let args: Vec<Value> = Vec::new();
                assert(values_view(args@) =~= Seq::empty());
                self.give(
                    Value::EnumVariant { enum_name: v.enum_name, variant: v.name, args },
                )
            },
            Lookup::Unknown => match self.lookup(name.as_str()) {
                Some(v) => self.give(v),
                None => self.fail(cat2("undefined variable: ", name.as_str())),
            },
        }
    }

    /// The first step of an expression.
    fn eval_expr(&mut self, expr: &'a Expr) -> (r: Action)
        requires
            old(self).wf(),
        ensures
            final(self).wf(),
            took(final(self)@, r, eval_step(old(self)@, expr@)),
    {
        assert(*expr@.kind == (*expr.kind)@);
        match &*expr.kind {
            ExprKind::Int(n) => self.give(Value::Int(*n)),
            ExprKind::Float(t) => self.ask(Action::FloatLit(t.clone())),
            ExprKind::Bool(b) => self.give(Value::Bool(*b)),
            ExprKind::Str(s) => self.give(Value::Str(s.clone())),
            ExprKind::Ident(name) => self.eval_name(name),
            ExprKind::Binary(l, op, r) => self.begin(Task::Bin(*op), two_refs(l, r)),
            ExprKind::Unary(op, x) => self.begin(Task::Un(*op), one_ref(x)),
            ExprKind::Range(a, b) => self.begin(Task::Range, two_refs(a, b)),
            ExprKind::ArrayLit(es) => self.begin(Task::Array, all_refs(es)),
            ExprKind::Index(a, i) => self.begin(Task::Index, two_refs(a, i)),
            ExprKind::Call(callee, args) => {
                assert(*callee@.kind == (*callee.kind)@);
                match &*callee.kind {
                    ExprKind::Ident(name) => self.eval_call(name, args),
                    _ => self.fail("cannot call non-function".to_owned()),
                }
            },
            ExprKind::FieldAccess(obj, field) => self.begin(Task::Field(field), one_ref(obj)),
            ExprKind::MethodCall(obj, method, args) => self.begin(
                Task::Method(method, args),
                one_ref(obj),
            ),
            ExprKind::StructLit { name, fields } => self.begin(
                Task::Struct(name, names_of_fields(fields)),
                exprs_of_fields(fields),
            ),
            ExprKind::Match { scrutinee, arms } => self.begin(
                Task::MatchOn(arms),
                one_ref(scrutinee),
            ),
            ExprKind::If { cond, then_body, else_body } => self.begin(
                Task::IfExpr(
                    then_body,
                    match else_body {
                        Some(x) => Some(x),
                        None => None,
                    },
                ),
                one_ref(cond),
            ),
            ExprKind::While { cond, body } => self.loop_next(
                Loop { is_expr: true, walk: Walk::Cond(cond), body, result: Value::Unit },
            ),
            ExprKind::For { var, iter, body } => self.begin(
                Task::ForStart(true, var, body),
                one_ref(iter),
            ),
        }
    }

    fn declare_all(&mut self, bs: Vec<(String, Value)>)
        requires
            old(self).wf(),
        ensures
            final(self).wf(),
            final(self)@ == old(self)@.declare_all(slots_view(bs@)),
    {
        let ghost all = slots_view(bs@);
        let ghost start = self@;
        let mut i: usize = 0;
        while i < bs.len()
            invariant
                self.wf(),
                i <= bs@.len(),
                all == slots_view(bs@),
                self@ == start.declare_all(all.take(i as int)),
            decreases bs@.len() - i,
        {
            proof {
                assert(all.take(i + 1).drop_last() =~= all.take(i as int));
                assert(all.take(i + 1).last() == (bs@[i as int].0@, bs@[i as int].1@));
            }
            self.declare(bs[i].0.as_str(), bs[i].1.dup());
            i += 1;
        }
        assert(all.take(i as int) =~= all);
    }

    /// Try the arms of a match from pattern `from` of arm `first` on.
    fn try_arms(
        &mut self,
        arms: &'a Vec<(Vec<Pattern>, Option<Expr>, Expr)>,
        first: usize,
        from: usize,
        v: Value,
    ) -> (r: Action)
        requires
            old(self).wf(),
        ensures
            final(self).wf(),
            took(
                final(self)@,
                r,
                try_arms(old(self)@, arms_view(arms@), first as int, from as int, v@),
            ),
    {
        let ghost all = arms_view(arms@);
        let ghost start = self@;
        let mut i: usize = first;
        let mut j: usize = from;
        while i < arms.len()
            invariant
                self.wf(),
                self@ == start,
                start == old(self)@,
                all == arms_view(arms@),
                try_arms(start, all, i as int, j as int, v@) == try_arms(
                    start,
                    all,
                    first as int,
                    from as int,
                    v@,
                ),
            decreases
                    (if i < arms@.len() {
                        arms@.len() - i
                    } else {
                        0
                    }),
                    (if i < arms@.len() && j < arms@[i as int].0@.len() {
                        arms@[i as int].0@.len() - j
                    } else {
                        0
                    }),
        {
            assert(all[i as int] == arm_view(arms@[i as int]));
            assert(all[i as int].0 == patterns_view(arms@[i as int].0@));
            assert(patterns_view(arms@[i as int].0@).len() == arms@[i as int].0@.len());
            if j >= arms[i].0.len() {
                i += 1;
                j = 0;
            } else {
                assert(all[i as int].0[j as int] == arms@[i as int].0@[j as int]@);
                let mut bs: Vec<(String, Value)> = Vec::new();
                assert(slots_view(bs@) =~= Seq::empty());
                match match_pattern(&arms[i].0[j], &v, self, &mut bs) {
                    Err(message) => {
                        self.push_scope();
                        return self.fail(message);
                    },
                    Ok(false) => {
                        j += 1;
                    },
                    Ok(true) => {
                        self.push_scope();
                        self.declare_all(bs);
                        return match &arms[i].1 {
                            Some(g) => self.begin(Task::Guard(arms, i, j + 1, v), one_ref(g)),
                            None => {
                                self.push(Frame::Arm);
                                self.eval(&arms[i].2)
                            },
                        };
                    },
                }
            }
        }
        assert(all.len() == arms@.len());
        self.fail("no matching pattern".to_owned())
    }

    fn invoke_method(
        &mut self,
        obj: Value,
        method: &str,
        params: Vec<&'a String>,
        body: &'a Vec<Stmt>,
        args: &'a Vec<Expr>,
    ) -> (r: Action)
        requires
            old(self).wf(),
        ensures
            final(self).wf(),
            took(
                final(self)@,
                r,
                invoke_method(
                    old(self)@,
                    obj@,
                    method@,
                    text_refs(params@),
                    stmts_view(body@),
                    exprs_view(args@),
                ),
            ),
    {
        let ghost all = text_refs(params@);
        assert(all.len() == params@.len());
        assert(exprs_view(args@).len() == args@.len());
        let mut rest = params;
        let mut receiver: Option<Value> = None;
        if rest.len() > 0 {
            assert(all[0] == rest@[0]@);
            if str_eq(rest[0].as_str(), "self") {
                let ghost before = rest@;
                let _ = rest.remove(0);
                receiver = Some(obj);
                assert(text_refs(rest@) =~= all.skip(1));
            }
        }
        assert(text_refs(rest@).len() == rest@.len());
        if args.len() < rest.len() {
            return self.fail(describe_arity(method, rest.len(), args.len()));
        }
        self.begin(Task::Invoke(rest, body, receiver), all_refs(args))
    }

    /// A method call on a value.
    fn eval_method(&mut self, obj: Value, method: &'a String, args: &'a Vec<Expr>) -> (r: Action)
        requires
            old(self).wf(),
        ensures
            final(self).wf(),
            took(final(self)@, r, method_step(old(self)@, obj@, method@, exprs_view(args@))),
    {
        match call_builtin_method(&obj, method.as_str()) {
            Some(o) => {
                return self.of_result(o);
            },
            None => {},
        }
        let owner = match owner_of(&obj) {
            Some(n) => n,
            None => {
                return self.fail("no methods on this value".to_owned());
            },
        };
        let program = self.program();
        match get_method(&program.stmts, owner.as_str(), method.as_str()) {
            Some((params, body)) => self.invoke_method(obj, method.as_str(), params, body, args),
            None => self.fail(
                cat5("method `", method.as_str(), "` not found for `", owner.as_str(), "`"),
            ),
        }
    }

    /// What an operation, a call or a construction does once its values are
    /// known.
    fn apply_value(&mut self, task: Task<'a>, vals: Vec<Value>) -> (r: Action)
        requires
            old(self).wf(),
            vals@.len() >= needs(task@),
            task is Bin || task is Un || task is Range || task is Array || task is Index
                || task is Builtin || task is Variant || task is Struct || task is Field
                || task is Method || task is Invoke || task is Sleep,
        ensures
            final(self).wf(),
            took(final(self)@, r, apply(old(self)@, task@, values_view(vals@))),
    {
        let ghost vs = values_view(vals@);
        assert(vs.len() == vals@.len());
        match task {
            Task::Bin(op) => {
                assert(vs[0] == vals@[0]@ && vs[1] == vals@[1]@);
                let o = eval_binop(&vals[0], op, &vals[1]);
                self.of_op(o)
            },
            Task::Un(op) => {
                assert(vs[0] == vals@[0]@);
                let o = eval_unop(op, &vals[0]);
                self.of_op(o)
            },
            Task::Range => {
                assert(vs[0] == vals@[0]@ && vs[1] == vals@[1]@);
                match (&vals[0], &vals[1]) {
                    (Value::Int(a), Value::Int(b)) => self.give(Value::Range(*a, *b)),
                    _ => self.fail("range requires two ints".to_owned()),
                }
            },
            Task::Array => self.give(Value::Array(vals)),
            Task::Index => {
                assert(vs[0] == vals@[0]@ && vs[1] == vals@[1]@);
                match (&vals[0], &vals[1]) {
                    (Value::Array(a), Value::Int(i)) => self.of_result(get_element(a, *i)),
                    _ => self.fail("array indexing requires array and int".to_owned()),
                }
            },
            Task::Builtin(name) => self.apply_builtin(name, &vals),
            Task::Variant(enum_name, variant) => self.give(
                Value::EnumVariant { enum_name, variant, args: vals },
            ),
            Task::Struct(name, names) => {
                assert(text_refs(names@).len() == names@.len());
                let fields = pair_fields(&names, &vals);
                let def = get_struct(&self.program().stmts, name.as_str());
                self.give(Value::Struct { name: name.clone(), fields: arrange(def, fields) })
            },
            Task::Field(field) => {
                assert(vs[0] == vals@[0]@);
                self.of_result(get_field(&vals[0], field.as_str()))
            },
            Task::Method(method, args) => {
                assert(vs[0] == vals@[0]@);
                self.eval_method(vals[0].dup(), method, args)
            },
            Task::Invoke(params, body, receiver) => {
                assert(text_refs(params@).len() == params@.len());
                let frame = bind_frame(&params, &vals, receiver);
                self.call_frame(frame, body)
            },
            _ => {
                assert(vs[0] == vals@[0]@);
                match &vals[0] {
                    Value::Int(ms) => self.ask(Action::Sleep(*ms)),
                    _ => self.give(Value::Unit),
                }
            },
        }
    }

    fn apply_builtin(&mut self, name: &String, vals: &Vec<Value>) -> (r: Action)
        requires
            old(self).wf(),
            vals@.len() >= needs(TaskV::Builtin(name@)),
        ensures
            final(self).wf(),
            took(
                final(self)@,
                r,
                apply(old(self)@, TaskV::Builtin(name@), values_view(vals@)),
            ),
    {
        if builtins::signature(name.as_str()).is_none() {
            return self.fail(cat2("undefined function: ", name.as_str()));
        }
        match call_builtin(name.as_str(), vals) {
            Builtin::Done(v) => self.give(v),
            Builtin::Fail(message) => self.fail(message),
            Builtin::Print(line) => {
                self.set_ctl(Ctl::Value(Value::Unit));
                Action::Print(line)
            },
        }
    }

    /// What a statement or a control structure does once the value that it
    /// waits for is known.
    fn apply_control(&mut self, task: Task<'a>, v: Value) -> (r: Action)
        requires
            old(self).wf(),
            task is IfExpr || task is MatchOn || task is Guard || task is WhileTest
                || task is ForStart || task is Let || task is Assign || task is Discard
                || task is Return || task is Break || task is IfStmt,
        ensures
            final(self).wf(),
            forall|vals: Seq<ValueV>|
                vals.len() > 0 && vals[0] == v@ ==> took(
                    final(self)@,
                    r,
                    #[trigger] apply(old(self)@, task@, vals),
                ),
    {
        match task {
            Task::IfExpr(then_body, else_body) => {
                if does_choose(&v) {
                    self.eval(then_body)
                } else {
                    match else_body {
                        Some(x) => self.eval(x),
                        None => self.give(Value::Unit),
                    }
                }
            },
            Task::MatchOn(arms) => self.try_arms(arms, 0, 0, v),
            Task::Guard(arms, i, j, sv) => {
                assert(arms_view(arms@).len() == arms@.len());
                if does_hold(&v) && i < arms.len() {
                    assert(arms_view(arms@)[i as int] == arm_view(arms@[i as int]));
                    self.push(Frame::Arm);
                    self.eval(&arms[i].2)
                } else {
                    self.pop_scope();
                    self.try_arms(arms, i, j, sv)
                }
            },
            Task::WhileTest(l) => {
                if does_hold(&v) {
                    self.push_scope();
                    let body = l.body;
                    self.run_block(BlockKind::Loop(l), body)
                } else {
                    self.loop_end(l.is_expr, l.result)
                }
            },
            Task::ForStart(is_expr, var, body) => self.for_start(is_expr, var, body, v),
            Task::Let(name) => {
                self.declare(name.as_str(), v);
                self.next()
            },
            Task::Assign(name) => {
                self.assign(name.as_str(), v);
                self.next()
            },
            Task::Return => {
                self.set_returned(v);
                self.next()
            },
            Task::Break => {
                self.set_break_value(v);
                self.next()
            },
            Task::IfStmt(then_body, else_body) => {
                if does_choose(&v) {
                    self.push_scope();
                    self.run_block(BlockKind::If, then_body)
                } else {
                    match else_body {
                        Some(b) => {
                            self.push_scope();
                            self.run_block(BlockKind::If, b)
                        },
                        None => self.next(),
                    }
                }
            },
            _ => self.next(),
        }
    }

    fn apply(&mut self, task: Task<'a>, vals: Vec<Value>) -> (r: Action)
        requires
            old(self).wf(),
            vals@.len() >= needs(task@),
        ensures
            final(self).wf(),
            took(final(self)@, r, apply(old(self)@, task@, values_view(vals@))),
    {
        let control = matches!(
            task,
            Task::IfExpr(_, _) | Task::MatchOn(_) | Task::Guard(_, _, _, _) | Task::WhileTest(_)
                | Task::ForStart(_, _, _) | Task::Let(_) | Task::Assign(_) | Task::Discard
                | Task::Return | Task::Break | Task::IfStmt(_, _)
        );
        if control {
            let mut vals = vals;
            let ghost all = vals@;
            assert(values_view(all).len() == all.len());
            assert(values_view(all)[0] == all[0]@);
            let v = vals.remove(0);
            self.apply_control(task, v)
        } else {
            self.apply_value(task, vals)
        }
    }

    // ---- steps ----

    fn ready_step(&mut self) -> (r: Action)
        requires
            old(self).wf(),
        ensures
            final(self).wf(),
            took(final(self)@, r, ready_step(old(self)@)),
    {
        match self.pop() {
            Some(Frame::Collect { task, exprs, vals }) => {
                assert(values_view(vals@).len() == vals@.len());
                if has_enough(&task, vals.len()) {
                    self.apply(task, vals)
                } else {
                    Action::Done
                }
            },
            _ => Action::Done,
        }
    }

    fn next_step(&mut self) -> (r: Action)
        requires
            old(self).wf(),
        ensures
            final(self).wf(),
            took(final(self)@, r, next_step(old(self)@)),
    {
        match self.pop() {
            Some(Frame::Block { kind, stmts, next, span }) => {
                self.set_span(span);
                self.block_step(kind, stmts, next)
            },
            _ => Action::Done,
        }
    }

    fn value_step(&mut self, v: Value) -> (r: Action)
        requires
            old(self).wf(),
        ensures
            final(self).wf(),
            took(final(self)@, r, value_step(old(self)@, v@)),
    {
        match self.pop() {
            Some(Frame::Collect { task, exprs, vals }) => {
                let mut vals = vals;
                let ghost before = vals@;
                let ghost vv = v@;
                vals.push(v);
                assert(values_view(vals@) == values_view(before).push(vv));
                assert(values_view(vals@).len() == vals@.len());
                assert(refs_view(exprs@).len() == exprs@.len());
                let ctl = if vals.len() < exprs.len() {
                    assert(refs_view(exprs@)[vals@.len() as int] == exprs@[vals@.len() as int]@);
                    Ctl::Eval(exprs[vals.len()])
                } else {
                    Ctl::Ready
                };
                self.push(Frame::Collect { task, exprs, vals });
                self.set_ctl(ctl);
                Action::Continue
            },
            Some(Frame::Arm) => {
                self.pop_scope();
                self.give(v)
            },
            _ => Action::Done,
        }
    }

    /// One step of the program.
    pub fn step(&mut self) -> (r: Action)
        requires
            old(self).wf(),
        ensures
            final(self).wf(),
            took(final(self)@, r, step(old(self)@)),
    {
        match self.take_ctl() {
            Ctl::Eval(e) => self.eval_expr(e),
            Ctl::Exec(s) => self.eval_stmt(s),
            Ctl::Value(v) => self.value_step(v),
            Ctl::Ready => self.ready_step(),
            Ctl::Next => self.next_step(),
            Ctl::Wait => {
                self.set_ctl(Ctl::Wait);
                Action::Continue
            },
            Ctl::Stopped => Action::Done,
        }
    }

    /// The host's answer to an action.
    pub fn answer(&mut self, v: Value)
        requires
            old(self).wf(),
        ensures
            final(self).wf(),
            final(self)@ == answered(old(self)@, v@),
    {
        if self.is_waiting() {
            self.set_ctl(Ctl::Value(v));
        }
    }

    /// Run for at most `limit` steps, up to the first after which the host has
    /// something to do.
    pub fn run(&mut self, limit: u64) -> (r: Action)
        requires
            old(self).wf(),
        ensures
            final(self).wf(),
            took(final(self)@, r, steps(old(self)@, limit as nat)),
    {
        let ghost start = self@;
        let mut left: u64 = limit;
        while left > 0 && !self.is_waiting()
            invariant
                self.wf(),
                left <= limit,
                start == old(self)@,
                steps(self@, left as nat) == steps(start, limit as nat),
            decreases left,
        {
            match self.step() {
                Action::Continue => {},
                action => {
                    return action;
                },
            }
            left -= 1;
        }
        Action::Continue
    }
}

fn has_enough(task: &Task, n: usize) -> (r: bool)
    ensures
        r == (n >= needs(task@)),
{
    match task {
        Task::Bin(_) | Task::Range | Task::Index => n >= 2,
        Task::Array | Task::Variant(_, _) => true,
        Task::Builtin(name) => match builtins::signature(name.as_str()) {
            Some((arity, _)) => n >= arity,
            None => true,
        },
        Task::Struct(_, names) => {
            assert(text_refs(names@).len() == names@.len());
            n >= names.len()
        },
        Task::Invoke(params, _, _) => {
            assert(text_refs(params@).len() == params@.len());
            n >= params.len()
        },
        _ => n >= 1,
    }
}

} // verus!
