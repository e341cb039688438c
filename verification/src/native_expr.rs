//! Native code for expressions.

use crate::agreement::{law_plain_types, lemma_linked_later, linked, of_outcome, plain, worth};
use crate::ast::{
    arm_view, arms_view, exprs_view, fields_view, opt_expr_view, params_view, patterns_view,
    types_view, BinOp, Expr, ExprKind, ExprKindV, ExprV, Pattern, PatternV, Type, TypeV,
};
use crate::builtins;
use crate::builtins::builtin_signature;
use crate::ir::{Arith, Cast, Cond, Op, OpV, Room, Ty, Val};
use crate::ir_semantics::{computed, given, is_fresh, operand, Datum, Memory, Outcome};
use crate::native::{
    adds, code_between, continues, countable, keeps, law_code_follows_code, lemma_adds_chain,
    lemma_blocks, lemma_emit, lemma_keeps_chain, lemma_kept_word, lemma_no_run, lemma_stopped_then,
    lemma_then, open_here, runs, settled, stays_in, stops, stops_with, CgV, CgValue, Codegen,
    LoopCtx,
};
use crate::builtins::prints;
use crate::semantics::{builtin_call, MachineV};
use crate::native_ops::{
    array_at, asked, asks, bind_element, bind_local, close_scope, field_index, find_field,
    gen_char_at, gen_cond, gen_contains, gen_copy_array, gen_element, gen_field_of, gen_ident,
    gen_phi, gen_same, gen_substring, gen_tag, gen_text, gen_trim, gen_typed_operation,
    gen_unary_op, gen_word_text, gen_wrapper_method, gives, hold, holds_word, known_type,
    law_element, law_field_place, law_literal_is_compared, law_local_is_read, law_operation,
    law_tag_is_read, law_unary_operation, law_unless, law_wrapper_tags, law_wrapper_truth,
    lemma_compare_code, lemma_copy_adds, lemma_element_adds, lemma_known_type, lemma_owners_add,
    lemma_retain_nothing, lemma_spend_nothing, lemma_tag_code, lemma_typed_operation_adds,
    lemma_unary_op_adds, lemma_unless_grows, load_word, own, owned, plain_type, print_value,
    release_open, retain_value, scratch_tagged, spend, store_word, turn_head, turn_step, unless,
    valueless, walk_bounds, word_of, wrapper_at, ForBounds,
};
use crate::native_rt::{
    fields_of, gen_abort, gen_float_to_owned, gen_int_to_str, lemma_values_add, lemma_word_kept,
    out_of_bounds, release_word, scratch_slots, stack_mark, stack_release, tag_of, tag_val,
    typed_value, vals0, vals1, vals2, value_to_int, value_to_ptr,
};
use crate::native_stmt::gen_block;
use crate::text::{cat2, cat5, str_eq};
use crate::typecheck::types_of_payload;
use crate::typing::{
    check_binary, check_expr, check_unary, compat, lookup_method, payload_types, EnvV,
};
use crate::typing_laws::is_field;
use crate::value::{binop_result, unop_result, ValueV};
use crate::variants::{lookup_v, Lookup, LookupV, Variant, VariantV};
use vstd::prelude::*;

verus! {

/// A truth value as a word.
pub open spec fn bool_value(b: bool) -> CgValue {
    CgValue::Int(
        Val::Word(
            if b {
                1
            } else {
                0
            },
        ),
    )
}

fn value_of_bool(b: bool) -> (r: CgValue)
    ensures
        r == bool_value(b),
{
    if b {
        CgValue::Int(Val::Word(1))
    } else {
        CgValue::Int(Val::Word(0))
    }
}

/// A loop, as its body sees it.
pub open spec fn loop_ctx(s: CgV, exit: usize, next: usize, result: Option<Val>) -> LoopCtx {
    LoopCtx { exit, next, depth: s.scopes.len() as usize, result }
}

/// What the elements are of what a loop walks.
pub open spec fn elem_of(t: TypeV) -> TypeV {
    match t {
        TypeV::Array(el) => *el,
        _ => TypeV::Int,
    }
}

pub(crate) fn elem_type(t: &Type) -> (r: Type)
    ensures
        r@ == elem_of(t@),
{
    match t {
        Type::Array(el) => el.dup(),
        _ => Type::Int,
    }
}

/// The fields of a struct type.
pub open spec fn struct_defs(s: CgV, t: TypeV) -> Seq<(Seq<char>, TypeV)> {
    match t {
        TypeV::Named(n, _) => match fields_of(s.types, n) {
            Some(defs) => defs,
            None => Seq::empty(),
        },
        _ => Seq::empty(),
    }
}

/// A type of which nothing but the name is known.
fn named(name: &String) -> (t: Type)
    ensures
        t@ == TypeV::Named(name@, Seq::empty()),
{
    let none: Vec<Type> = Vec::new();
    assert(types_view(none@) =~= Seq::empty());
    Type::Named(name.clone(), none)
}

/// The type of a part of a payload.
pub open spec fn payload_at(payload: Seq<TypeV>, i: int) -> TypeV {
    if 0 <= i < payload.len() {
        payload[i]
    } else {
        TypeV::Inferred
    }
}

fn type_at(payload: &Vec<Type>, i: usize) -> (t: Type)
    ensures
        t@ == payload_at(types_view(payload@), i as int),
{
    assert(types_view(payload@).len() == payload@.len());
    if i < payload.len() {
        assert(types_view(payload@)[i as int] == payload@[i as int]@);
        payload[i].dup()
    } else {
        Type::Inferred
    }
}

/// How many patterns of an arm are left from one on.
pub open spec fn arms_left(
    arms: Seq<(Seq<PatternV>, Option<ExprV>, ExprV)>,
    i: int,
    j: int,
) -> int {
    if 0 <= i < arms.len() {
        arms[i].0.len() - j
    } else {
        0
    }
}

/// The result type of a function.
pub open spec fn fn_ret(env: EnvV, name: Seq<char>) -> Option<TypeV> {
    if env.functions.contains_key(name) {
        Some(env.functions[name].ret)
    } else {
        None
    }
}

/// Whether a call is of a method that `Option` and `Result` have by themselves.
pub open spec fn is_wrapper(t: TypeV, method: Seq<char>) -> bool {
    match t {
        TypeV::Named(n, _) => (n == "Option"@ || n == "Result"@) && (method == "unwrap"@ || method
            == "is_some"@ || method == "is_none"@ || method == "is_ok"@ || method == "is_err"@),
        _ => false,
    }
}

fn is_wrapper_call(t: &Type, method: &str) -> (r: bool)
    ensures
        r == is_wrapper(t@, method@),
{
    match t {
        Type::Named(n, _) => (str_eq(n.as_str(), "Option") || str_eq(n.as_str(), "Result")) && (
        str_eq(method, "unwrap") || str_eq(method, "is_some") || str_eq(method, "is_none")
            || str_eq(method, "is_ok") || str_eq(method, "is_err")),
        _ => false,
    }
}

/// A method: the name of its function, whether it takes the receiver, and its
/// result type.
pub struct MethodV {
    pub name: Seq<char>,
    pub has_self: bool,
    pub ret: TypeV,
}

/// The function name of a method.
pub open spec fn method_name(owner: Seq<char>, method: Seq<char>) -> Seq<char> {
    "zr."@ + owner + "."@ + method + ""@
}

/// The method that a value of a type has.
pub open spec fn method_of(env: EnvV, t: TypeV, method: Seq<char>) -> Option<MethodV> {
    match t {
        TypeV::Named(n, _) => match lookup_method(env.impls, n, method, 0) {
            Some((params, ret)) => Some(
                MethodV {
                    name: method_name(n, method),
                    has_self: params.len() > 0 && params[0].0 == "self"@,
                    ret,
                },
            ),
            None => None,
        },
        _ => None,
    }
}

struct MethodRef {
    name: String,
    has_self: bool,
    ret: Type,
}

/// No branch has arrived yet.
fn phis0() -> (r: Vec<(Val, usize)>)
    ensures
        r@ == Seq::<(Val, usize)>::empty(),
{
    Vec::new()
}

fn push_phi(acc: Vec<(Val, usize)>, word: Val, from: usize) -> (r: Vec<(Val, usize)>)
    ensures
        r@ == acc@.push((word, from)),
{
    let mut acc = acc;
    acc.push((word, from));
    acc
}

fn push_val(acc: Vec<Val>, word: Val) -> (r: Vec<Val>)
    ensures
        r@ == acc@.push(word),
{
    let mut acc = acc;
    acc.push(word);
    acc
}

fn dup_vals(v: &Vec<Val>) -> (r: Vec<Val>)
    ensures
        r@ == v@,
{
    let mut out: Vec<Val> = Vec::new();
    let mut i: usize = 0;
    while i < v.len()
        invariant
            i <= v@.len(),
            out@ == v@.take(i as int),
        decreases v@.len() - i,
    {
        out.push(v[i]);
        assert(out@ =~= v@.take(i + 1));
        i += 1;
    }
    assert(v@.take(i as int) =~= v@);
    out
}

/// Make code for an expression, and say where its value is.
pub closed spec fn gen_expr(s: CgV, e: ExprV) -> (CgV, CgValue)
    decreases e, 2int, 0int,
{
    let (s, x) = match *e.kind {
        ExprKindV::Int(n) => {
            (s, CgValue::Int(Val::Word(n)))
        },
        ExprKindV::Float(t) => {
            let (s, r) = s.number(t);
            (s, CgValue::Float(r))
        },
        ExprKindV::Bool(b) => {
            (s, bool_value(b))
        },
        ExprKindV::Str(t) => {
            let (s, r) = s.string_global(t);
            (s, CgValue::Str(r))
        },
        ExprKindV::Ident(n) => {
            let (s, v) = gen_ident(s, n);
            (s, v)
        },
        ExprKindV::Binary(_, _, _) => {
            let (s, v) = gen_binary(s, e);
            (s, v)
        },
        ExprKindV::Unary(_, _) => {
            let (s, v) = gen_unary(s, e);
            (s, v)
        },
        ExprKindV::Range(_, _) => {
            let (s, v) = gen_range(s, e);
            (s, v)
        },
        ExprKindV::ArrayLit(_) => {
            let (s, v) = gen_array(s, e);
            (s, v)
        },
        ExprKindV::Index(_, _) => {
            let (s, v) = gen_index(s, e);
            (s, v)
        },
        ExprKindV::Call(_, _) => {
            let (s, v) = gen_call(s, e);
            (s, v)
        },
        ExprKindV::FieldAccess(_, _) => {
            let (s, v) = gen_field(s, e);
            (s, v)
        },
        ExprKindV::MethodCall(_, _, _) => {
            let (s, v) = gen_method(s, e);
            (s, v)
        },
        ExprKindV::StructLit { .. } => {
            let (s, v) = gen_struct(s, e);
            (s, v)
        },
        ExprKindV::Match { .. } => {
            let (s, v) = gen_match(s, e);
            (s, v)
        },
        ExprKindV::If { .. } => {
            let (s, v) = gen_if(s, e);
            (s, v)
        },
        ExprKindV::While { .. } => {
            let (s, v) = gen_while(s, e);
            (s, v)
        },
        ExprKindV::For { .. } => {
            let (s, v) = gen_for(s, e);
            (s, v)
        },
    };
    (s, x)
}

/// Joining and comparing read both sides and keep neither.
pub closed spec fn gen_binary(s: CgV, e: ExprV) -> (CgV, CgValue)
    decreases e, 1int, 0int,
{
    let (s, x) = match *e.kind {
        ExprKindV::Binary(l, op, q) => {
            let (s, lt) = known_type(s, *l);
            let (s, qt) = known_type(s, *q);
            let (s, lv) = gen_expr(s, *l);
            let (s, qv) = gen_expr(s, *q);
            let (s, v) = gen_typed_operation(s, lv, lt, op, qv, qt);
            let s = spend(s, lv, lt, *l);
            let s = spend(s, qv, qt, *q);
            (s, v)
        },
        _ => {
            (s, CgValue::Int(Val::Word(0)))
        },
    };
    (s, x)
}

pub closed spec fn gen_unary(s: CgV, e: ExprV) -> (CgV, CgValue)
    decreases e, 1int, 0int,
{
    let (s, x) = match *e.kind {
        ExprKindV::Unary(op, a) => {
            let (s, av) = gen_expr(s, *a);
            let (s, v) = gen_unary_op(s, op, av);
            (s, v)
        },
        _ => {
            (s, CgValue::Int(Val::Word(0)))
        },
    };
    (s, x)
}

pub closed spec fn gen_range(s: CgV, e: ExprV) -> (CgV, CgValue)
    decreases e, 1int, 0int,
{
    let (s, x) = match *e.kind {
        ExprKindV::Range(a, b) => {
            let (s, av) = gen_expr(s, *a);
            let (s, from) = value_to_int(s, av);
            let (s, bv) = gen_expr(s, *b);
            let (s, to) = value_to_int(s, bv);
            let (s, p) = scratch_slots(s, 2, "range"@);
            let s = store_word(s, p, 0, from);
            let s = store_word(s, p, 1, to);
            let (s, word) = s.emit(OpV::Cast(Cast::PtrToWord, p), "range_ptr"@);
            (s, CgValue::Int(word))
        },
        _ => {
            (s, CgValue::Int(Val::Word(0)))
        },
    };
    (s, x)
}

/// The layout is the length, then the elements.
pub closed spec fn gen_array(s: CgV, e: ExprV) -> (CgV, CgValue)
    decreases e, 1int, 0int,
{
    let (s, x) = match *e.kind {
        ExprKindV::ArrayLit(es) => {
            let (s, p) = scratch_tagged(s, es.len() as int, "arr_alloc"@);
            let s = s.emit(OpV::Store(p, Val::Word(es.len() as i64)), ""@).0;
            let s = store_args(s, p, es, 0);
            let (s, word) = s.emit(OpV::Cast(Cast::PtrToWord, p), "arr_buf"@);
            (s, CgValue::Int(word))
        },
        _ => {
            (s, CgValue::Int(Val::Word(0)))
        },
    };
    (s, x)
}

/// The values of expressions, in the words after the first. An aggregate becomes an
/// owner of what it is given.
pub closed spec fn store_args(s: CgV, p: Val, args: Seq<ExprV>, i: int) -> CgV
    decreases args, args.len() - i, 0int,
{
    let s = if 0 <= i < args.len() {
        let (s, t) = known_type(s, args[i]);
        let (s, v) = gen_expr(s, args[i]);
        let s = own(s, v, t, args[i]);
        let (s, word) = value_to_int(s, v);
        let s = store_word(s, p, i + 1, word);
        let s = store_args(s, p, args, i + 1);
        s
    } else {
        s
    };
    s
}

/// Elements keep their declared type, as struct fields do.
pub closed spec fn gen_index(s: CgV, e: ExprV) -> (CgV, CgValue)
    decreases e, 1int, 0int,
{
    let (s, x) = match *e.kind {
        ExprKindV::Index(a, idx) => {
            let (s, at_) = known_type(s, *a);
            let (s, et) = known_type(s, e);
            let (s, av) = gen_expr(s, *a);
            let (s, iv) = gen_expr(s, *idx);
            let (s, p) = value_to_ptr(s, av);
            let (s, i) = value_to_int(s, iv);
            let (s, place) = gen_element(s, p, i);
            let (s, raw) = s.emit(OpV::Load(Ty::Word, place), "arr_elem"@);
            let (s, v) = typed_value(s, raw, et);
            let s = if owned(s, *a) {
                let s = retain_value(s, v, et);
                let s = spend(s, av, at_, *a);
                s
            } else {
                s
            };
            (s, v)
        },
        _ => {
            (s, CgValue::Int(Val::Word(0)))
        },
    };
    (s, x)
}

pub closed spec fn gen_field(s: CgV, e: ExprV) -> (CgV, CgValue)
    decreases e, 1int, 0int,
{
    let (s, x) = match *e.kind {
        ExprKindV::FieldAccess(obj, field) => {
            let (s, ot) = known_type(s, *obj);
            let (s, ft) = known_type(s, e);
            let (s, ov) = gen_expr(s, *obj);
            let (s, p) = value_to_ptr(s, ov);
            let (s, v) = gen_field_of(s, p, struct_defs(s, ot), field);
            let s = if owned(s, *obj) {
                let s = retain_value(s, v, ft);
                let s = spend(s, ov, ot, *obj);
                s
            } else {
                s
            };
            (s, v)
        },
        _ => {
            (s, CgValue::Int(Val::Word(0)))
        },
    };
    (s, x)
}

/// Fields stand in the order of their declaration, whatever order the literal lists them in.
pub closed spec fn gen_struct(s: CgV, e: ExprV) -> (CgV, CgValue)
    decreases e, 1int, 0int,
{
    let (s, x) = match *e.kind {
        ExprKindV::StructLit { name, fields } => {
            let (s, p) = scratch_slots(s, struct_defs(s, TypeV::Named(name, Seq::empty())).len() as int, "struct"@);
            let s = store_fields(s, p, struct_defs(s, TypeV::Named(name, Seq::empty())), fields, 0);
            let (s, word) = s.emit(OpV::Cast(Cast::PtrToWord, p), "struct_ptr"@);
            (s, CgValue::Int(word))
        },
        _ => {
            (s, CgValue::Int(Val::Word(0)))
        },
    };
    (s, x)
}

pub closed spec fn store_fields(s: CgV, p: Val, defs: Seq<(Seq<char>, TypeV)>, fields: Seq<(Seq<char>, ExprV)>, i: int) -> CgV
    decreases fields, fields.len() - i, 0int,
{
    let s = if 0 <= i < fields.len() {
        let (s, t) = known_type(s, fields[i].1);
        let (s, v) = gen_expr(s, fields[i].1);
        let s = own(s, v, t, fields[i].1);
        let (s, word) = value_to_int(s, v);
        let s = match field_index(defs, fields[i].0, 0) {
            Some(k) => {
                let s = store_word(s, p, k, word);
                s
            },
            None => {
                s
            },
        };
        let s = store_fields(s, p, defs, fields, i + 1);
        s
    } else {
        s
    };
    s
}

pub closed spec fn gen_if(s: CgV, e: ExprV) -> (CgV, CgValue)
    decreases e, 1int, 0int,
{
    let (s, x) = match *e.kind {
        ExprKindV::If { cond, then_body, else_body } => {
            let (s, t) = known_type(s, e);
            let (s, ct) = known_type(s, *cond);
            let (s, cv) = gen_expr(s, *cond);
            let (s, c) = gen_cond(s, cv, ct, *cond, true);
            let (s, then_bb) = s.block("if.then"@);
            let (s, else_bb) = s.block("if.else"@);
            let (s, merge) = s.block("if.merge"@);
            let s = s.emit(OpV::Branch(c, then_bb, else_bb), ""@).0;
            let s = s.position(then_bb);
            let (s, one) = gen_branch(s, *then_body, merge, Seq::empty());
            let s = s.position(else_bb);
            let (s, both) = match else_body {
                Some(eb) => {
                    let (s, r2) = gen_branch(s, *eb, merge, one);
                    (s, r2)
                },
                None => {
                    let (s, r2) = gen_arrival(s, Val::Word(0), merge, one);
                    (s, r2)
                },
            };
            let s = s.position(merge);
            let (s, phi) = gen_phi(s, both);
            let (s, v) = typed_value(s, phi, t);
            (s, v)
        },
        _ => {
            (s, CgValue::Int(Val::Word(0)))
        },
    };
    (s, x)
}

/// A value reaches the place where branches meet, from wherever control stands.
pub closed spec fn gen_arrival(s: CgV, word: Val, merge: usize, acc: Seq<(Val, usize)>) -> (CgV, Seq<(Val, usize)>)
{
    let here = s.here();
    let gone = s.left();
    let s = s.emit(OpV::Jump(merge), ""@).0;
    let (s, x) = if gone {
        (s, acc)
    } else {
        (s, acc.push((word, here)))
    };
    (s, x)
}

/// One branch of an expression. What it gives is owned.
pub closed spec fn gen_branch(s: CgV, e: ExprV, merge: usize, acc: Seq<(Val, usize)>) -> (CgV, Seq<(Val, usize)>)
    decreases e, 3int, 0int,
{
    let (s, t) = known_type(s, e);
    let (s, v) = gen_expr(s, e);
    let s = own(s, v, t, e);
    let (s, word) = value_to_int(s, v);
    let (s, x) = gen_arrival(s, word, merge, acc);
    (s, x)
}

pub closed spec fn gen_match(s: CgV, e: ExprV) -> (CgV, CgValue)
    decreases e, 1int, 0int,
{
    let (s, x) = match *e.kind {
        ExprKindV::Match { scrutinee, arms } => {
            let (s, st) = known_type(s, *scrutinee);
            let (s, mt) = known_type(s, e);
            let (s, sv) = gen_expr(s, *scrutinee);
            let (s, word) = value_to_int(s, sv);
            let (s, merge) = s.block("match_merge"@);
            let (s, phis) = gen_arms(s, arms, 0, 0, word, st, merge, Seq::empty());
            let s = gen_abort(s, "no matching pattern"@, Val::Word(0), Val::Word(0));
            let s = s.position(merge);
            let (s, phi) = gen_phi(s, phis);
            let (s, v) = typed_value(s, phi, mt);
            let s = spend(s, sv, st, *scrutinee);
            (s, v)
        },
        _ => {
            (s, CgValue::Int(Val::Word(0)))
        },
    };
    (s, x)
}

/// The arms of a match, from pattern `j` of arm `i` on. A pattern that does not
/// match, or a guard that does not hold, goes on to the next.
pub closed spec fn gen_arms(s: CgV, arms: Seq<(Seq<PatternV>, Option<ExprV>, ExprV)>, i: int, j: int, word: Val, st: TypeV, merge: usize, acc: Seq<(Val, usize)>) -> (CgV, Seq<(Val, usize)>)
    decreases arms, arms.len() - i, arms_left(arms, i, j),
{
    let (s, x) = if !(0 <= i < arms.len()) || j < 0 {
        (s, acc)
    } else {
        let (s, y) = if j >= arms[i].0.len() {
            let (s, r2) = gen_arms(s, arms, i + 1, 0, word, st, merge, acc);
            (s, r2)
        } else {
            let (s, next) = s.block("match_next"@);
            let s = s.open_scope();
            let s = test_pattern(s, arms[i].0[j], word, st, next);
            let s = bind_pattern(s, arms[i].0[j], word, st);
            let s = gen_guard(s, arms[i].1, next);
            let (s, bt) = known_type(s, arms[i].2);
            let (s, v) = gen_expr(s, arms[i].2);
            let s = own(s, v, bt, arms[i].2);
            let (s, w2) = value_to_int(s, v);
            let s = close_scope(s);
            let (s, acc2) = gen_arrival(s, w2, merge, acc);
            let s = s.position(next);
            let (s, r2) = gen_arms(s, arms, i, j + 1, word, st, merge, acc2);
            (s, r2)
        };
        (s, y)
    };
    (s, x)
}

/// A guard that does not hold lets go of what the pattern bound.
pub closed spec fn gen_guard(s: CgV, g: Option<ExprV>, next: usize) -> CgV
    decreases g, 1int, 0int,
{
    let s = match g {
        Some(x) => {
            let (s, gt) = known_type(s, x);
            let (s, gv) = gen_expr(s, x);
            let (s, c) = gen_cond(s, gv, gt, x, false);
            let (s, ok) = s.block("guard_ok"@);
            let (s, no) = s.block("guard_fail"@);
            let s = s.emit(OpV::Branch(c, ok, no), ""@).0;
            let s = s.position(no);
            let s = release_open(s, s.scopes.len() as int, (if s.scopes.len() > 0 { s.scopes.len() - 1 } else { 0 }));
            let s = s.emit(OpV::Jump(next), ""@).0;
            let s = s.position(ok);
            s
        },
        None => {
            s
        },
    };
    s
}

/// Go to a block unless a word of a type matches a pattern.
pub closed spec fn test_pattern(s: CgV, p: PatternV, word: Val, ty: TypeV, fail: usize) -> CgV
    decreases p, 1int, 0int,
{
    let s = match p {
        PatternV::Literal(e) => {
            let (s, lit) = gen_expr(s, e);
            let (s, c) = gen_same(s, word, lit);
            let s = unless(s, c, fail);
            s
        },
        PatternV::EnumVariant { name, inner } => {
            let s = match lookup_v(s.types.variants, name) {
                LookupV::Unique(v) => {
                    let (s, tag) = gen_tag(s, word, v.enum_has_payload);
                    let (s, c) = s.emit(OpV::Compare(Cond::Eq, tag, tag_val(v)), "match_cmp"@);
                    let s = unless(s, c, fail);
                    let s = test_patterns(s, inner, payload_types(v, ty), word, fail, 0);
                    s
                },
                _ => {
                    let s = s.refuse("unknown variant: "@ + name);
                    s
                },
            };
            s
        },
        _ => {
            s
        },
    };
    s
}

pub closed spec fn test_patterns(s: CgV, ps: Seq<PatternV>, payload: Seq<TypeV>, word: Val, fail: usize, i: int) -> CgV
    decreases ps, ps.len() - i, 0int,
{
    let s = if 0 <= i < ps.len() {
        let (s, p) = s.emit(OpV::Cast(Cast::WordToPtr, word), "enum_ptr"@);
        let (s, raw) = load_word(s, p, i + 1);
        let s = test_pattern(s, ps[i], raw, payload_at(payload, i), fail);
        let s = test_patterns(s, ps, payload, word, fail, i + 1);
        s
    } else {
        s
    };
    s
}

/// Bind the variables of a pattern that a word of a type matches. Each owns what it holds.
pub closed spec fn bind_pattern(s: CgV, p: PatternV, word: Val, ty: TypeV) -> CgV
    decreases p, 1int, 0int,
{
    let s = match p {
        PatternV::Variable(name) => {
            let (s, v) = typed_value(s, word, ty);
            let s = retain_value(s, v, ty);
            let s = bind_local(s, name, ty, v);
            s
        },
        PatternV::EnumVariant { name, inner } => {
            let s = match lookup_v(s.types.variants, name) {
                LookupV::Unique(v) => {
                    let s = bind_patterns(s, inner, payload_types(v, ty), word, 0);
                    s
                },
                _ => {
                    s
                },
            };
            s
        },
        _ => {
            s
        },
    };
    s
}

pub closed spec fn bind_patterns(s: CgV, ps: Seq<PatternV>, payload: Seq<TypeV>, word: Val, i: int) -> CgV
    decreases ps, ps.len() - i, 0int,
{
    let s = if 0 <= i < ps.len() {
        let (s, p) = s.emit(OpV::Cast(Cast::WordToPtr, word), "enum_ptr"@);
        let (s, raw) = load_word(s, p, i + 1);
        let s = bind_pattern(s, ps[i], raw, payload_at(payload, i));
        let s = bind_patterns(s, ps, payload, word, i + 1);
        s
    } else {
        s
    };
    s
}

/// A loop runs statements, which may keep what they build, so nothing in it goes on the frame.
pub closed spec fn gen_while(s: CgV, e: ExprV) -> (CgV, CgValue)
    decreases e, 1int, 0int,
{
    let (s, x) = match *e.kind {
        ExprKindV::While { cond, body } => {
            let outer = s.transient;
            let s = s.set_transient(false);
            let (s, res) = s.slot(Room::Word, "while_result"@);
            let s = s.emit(OpV::Store(res, Val::Word(0)), ""@).0;
            let (s, head) = s.block("while_expr"@);
            let (s, body_bb) = s.block("while_expr_body"@);
            let (s, after) = s.block("while_expr_end"@);
            let s = s.emit(OpV::Jump(head), ""@).0;
            let s = s.position(head);
            let (s, ct) = known_type(s, *cond);
            let (s, cv) = gen_expr(s, *cond);
            let (s, c) = gen_cond(s, cv, ct, *cond, false);
            let s = s.emit(OpV::Branch(c, body_bb, after), ""@).0;
            let s = s.push_loop(loop_ctx(s, after, head, Some(res)));
            let s = s.position(body_bb);
            let s = gen_block(s, body);
            let s = s.emit(OpV::Jump(head), ""@).0;
            let s = s.pop_loop();
            let s = s.position(after);
            let s = s.set_transient(outer);
            let (s, raw) = s.emit(OpV::Load(Ty::Word, res), "while_result"@);
            (s, CgValue::Int(raw))
        },
        _ => {
            (s, CgValue::Int(Val::Word(0)))
        },
    };
    (s, x)
}

pub closed spec fn gen_for(s: CgV, e: ExprV) -> (CgV, CgValue)
    decreases e, 1int, 0int,
{
    let (s, x) = match *e.kind {
        ExprKindV::For { var, iter, body } => {
            let outer = s.transient;
            let s = s.set_transient(false);
            let (s, res) = s.slot(Room::Word, "for_result"@);
            let s = s.emit(OpV::Store(res, Val::Word(0)), ""@).0;
            let s = s.open_scope();
            let (s, it) = known_type(s, *iter);
            let (s, b) = for_bounds(s, *iter);
            let (s, i_ptr) = s.slot(Room::Word, "for_idx"@);
            let s = s.emit(OpV::Store(i_ptr, b.from), ""@).0;
            let (s, head) = s.block("for_entry"@);
            let (s, body_bb) = s.block("for_body"@);
            let (s, cont) = s.block("for_cont"@);
            let (s, after) = s.block("for_exit"@);
            let s = s.emit(OpV::Jump(head), ""@).0;
            let (s, i) = turn_head(s, i_ptr, b.to, head, body_bb, after);
            let s = s.push_loop(loop_ctx(s, after, cont, Some(res)));
            let s = s.position(body_bb);
            let s = s.open_scope();
            let s = bind_element(s, var, i, b, elem_of(it));
            let s = gen_block(s, body);
            let s = close_scope(s);
            let s = s.emit(OpV::Jump(cont), ""@).0;
            let s = s.pop_loop();
            let s = turn_step(s, i_ptr, head, cont);
            let s = s.position(after);
            let s = close_scope(s);
            let s = s.set_transient(outer);
            let (s, raw) = s.emit(OpV::Load(Ty::Word, res), "for_result"@);
            (s, CgValue::Int(raw))
        },
        _ => {
            (s, CgValue::Int(Val::Word(0)))
        },
    };
    (s, x)
}

/// What a loop runs through. A range that is written out in the loop's head is not built.
pub closed spec fn for_bounds(s: CgV, e: ExprV) -> (CgV, ForBounds)
    decreases e, 3int, 0int,
{
    let (s, x) = match *e.kind {
        ExprKindV::Range(a, b) => {
            let (s, av) = gen_expr(s, *a);
            let (s, from) = value_to_int(s, av);
            let (s, bv) = gen_expr(s, *b);
            let (s, to) = value_to_int(s, bv);
            (s, ForBounds { from, to, arr: None })
        },
        _ => {
            let (s, t) = known_type(s, e);
            let (s, v) = gen_expr(s, e);
            let s = hold(s, v, t, e);
            let (s, y) = walk_bounds(s, v, t);
            (s, y)
        },
    };
    (s, x)
}

pub closed spec fn gen_call(s: CgV, e: ExprV) -> (CgV, CgValue)
    decreases e, 1int, 0int,
{
    let (s, x) = match *e.kind {
        ExprKindV::Call(callee, args) => {
            let (s, v) = match *callee.kind {
                ExprKindV::Ident(name) => {
                    let (s, y) = gen_named_call(s, name, args);
                    (s, y)
                },
                _ => {
                    let s = s.refuse("cannot call non-function"@);
                    (s, CgValue::Int(Val::Word(0)))
                },
            };
            (s, v)
        },
        _ => {
            (s, CgValue::Int(Val::Word(0)))
        },
    };
    (s, x)
}

/// A call by name: of a builtin, a variant or a function.
pub closed spec fn gen_named_call(s: CgV, name: Seq<char>, args: Seq<ExprV>) -> (CgV, CgValue)
    decreases args, args.len() + 3, 0int,
{
    let (s, x) = if builtin_signature(name) is Some {
        let (s, v) = gen_builtin(s, name, args);
        (s, v)
    } else {
        let (s, y) = match lookup_v(s.types.variants, name) {
            LookupV::Unique(v) => {
                let (s, r2) = gen_variant(s, v, args);
                (s, r2)
            },
            LookupV::Ambiguous(_) => {
                let s = s.refuse("ambiguous variant: "@ + name);
                (s, CgValue::Int(Val::Word(0)))
            },
            LookupV::Unknown => {
                let (s, r2) = gen_fn_call(s, name, args);
                (s, r2)
            },
        };
        (s, y)
    };
    (s, x)
}

pub closed spec fn gen_fn_call(s: CgV, name: Seq<char>, args: Seq<ExprV>) -> (CgV, CgValue)
    decreases args, args.len() + 2, 0int,
{
    let (s, x) = match fn_ret(s.types, name) {
        Some(ret) => {
            let (s, v) = finish_call(s, "zr."@ + name, Seq::empty(), args, ret);
            (s, v)
        },
        None => {
            let s = s.refuse(unmade_text(s.types, name));
            (s, CgValue::Int(Val::Word(0)))
        },
    };
    (s, x)
}

/// Why there is no code for a call.
pub open spec fn unmade_text(env: EnvV, name: Seq<char>) -> Seq<char> {
    if env.macros.contains_key(name) {
        "no type for what a macro gives: "@ + name
    } else {
        "undefined function: "@ + name
    }
}

/// Call a function with the words in hand and the values of some expressions. Every
/// parameter is a word, packed the same way as the callee unpacks it. What was built
/// for the call alone is let go of after it.
pub closed spec fn finish_call(s: CgV, name: Seq<char>, first: Seq<Val>, args: Seq<ExprV>, ret: TypeV) -> (CgV, CgValue)
    decreases args, args.len() + 1, 0int,
{
    let skip = first.len();
    let (s, words) = gen_args(s, args, 0, first);
    let (s, x) = if ret is Unit {
        let s = s.emit(OpV::Run(name, words), ""@).0;
        (s, CgValue::Int(Val::Word(0)))
    } else {
        let (s, raw) = s.emit(OpV::Call(Ty::Word, name, words), "call"@);
        let (s, v) = typed_value(s, raw, ret);
        (s, v)
    };
    let s = spend_args(s, args, words, skip as int, 0);
    (s, x)
}

pub closed spec fn gen_args(s: CgV, args: Seq<ExprV>, i: int, acc: Seq<Val>) -> (CgV, Seq<Val>)
    decreases args, args.len() - i, 0int,
{
    let (s, x) = if 0 <= i < args.len() {
        let (s, v) = gen_expr(s, args[i]);
        let (s, word) = value_to_int(s, v);
        let (s, y) = gen_args(s, args, i + 1, acc.push(word));
        (s, y)
    } else {
        (s, acc)
    };
    (s, x)
}

pub closed spec fn spend_args(s: CgV, args: Seq<ExprV>, words: Seq<Val>, skip: int, i: int) -> CgV
    decreases args, args.len() - i, 0int,
{
    let s = if 0 <= i < args.len() && 0 <= skip && skip + i < words.len() {
        let (s, t) = known_type(s, args[i]);
        let s = spend(s, CgValue::Int(words[skip + i]), t, args[i]);
        let s = spend_args(s, args, words, skip, i + 1);
        s
    } else {
        s
    };
    s
}

/// A variant with its payload: the tag, then the values.
pub closed spec fn gen_variant(s: CgV, v: VariantV, args: Seq<ExprV>) -> (CgV, CgValue)
    decreases args, args.len() + 1, 0int,
{
    let (s, x) = if v.enum_has_payload {
        let (s, p) = scratch_tagged(s, args.len() as int, "enum"@);
        let s = s.emit(OpV::Store(p, tag_val(v)), ""@).0;
        let s = store_args(s, p, args, 0);
        let (s, word) = s.emit(OpV::Cast(Cast::PtrToWord, p), "enum_ptr"@);
        (s, CgValue::Int(word))
    } else {
        (s, CgValue::Int(tag_val(v)))
    };
    (s, x)
}

/// The type of the receiver says which method is meant.
pub closed spec fn gen_method(s: CgV, e: ExprV) -> (CgV, CgValue)
    decreases e, 1int, 0int,
{
    let (s, x) = match *e.kind {
        ExprKindV::MethodCall(obj, method, args) => {
            let (s, ot) = known_type(s, *obj);
            let (s, rt) = known_type(s, e);
            let (s, ov) = gen_expr(s, *obj);
            let (s, v) = if is_wrapper(ot, method) {
                let (s, y) = gen_wrapper_method(s, ov, ot, method, rt);
                (s, y)
            } else {
                let (s, y) = match method_of(s.types, ot, method) {
                    Some(m) => {
                        let (s, word) = value_to_int(s, ov);
                        let (s, r2) = finish_call(s, m.name, (if m.has_self { Seq::empty().push(word) } else { Seq::empty() }), args, m.ret);
                        (s, r2)
                    },
                    None => {
                        let s = s.refuse("undefined method: "@ + method);
                        (s, CgValue::Int(Val::Word(0)))
                    },
                };
                (s, y)
            };
            let s = spend(s, ov, ot, *obj);
            (s, v)
        },
        _ => {
            (s, CgValue::Int(Val::Word(0)))
        },
    };
    (s, x)
}

/// Print one value. It is consumed here and kept by nobody, so what is built for it
/// goes on the frame.
pub closed spec fn gen_print(s: CgV, args: Seq<ExprV>) -> (CgV, CgValue)
    decreases args, 1int, 0int,
{
    let (s, x) = if args.len() >= 1 {
        let outer = s.transient;
        let (s, mark) = stack_mark(s);
        let s = s.set_transient(true);
        let (s, t) = known_type(s, args[0]);
        let (s, v) = gen_expr(s, args[0]);
        let s = print_value(s, v, t);
        let s = spend(s, v, t, args[0]);
        let s = s.set_transient(outer);
        let s = stack_release(s, mark);
        (s, CgValue::Int(Val::Word(0)))
    } else {
        (s, CgValue::Int(Val::Word(0)))
    };
    (s, x)
}

pub closed spec fn gen_panic(s: CgV, args: Seq<ExprV>) -> (CgV, CgValue)
    decreases args, 1int, 0int,
{
    let (s, x) = if args.len() >= 1 {
        let (s, t) = known_type(s, args[0]);
        let (s, v) = gen_expr(s, args[0]);
        let (s, p) = gen_text(s, v, t);
        let (s, word) = s.emit(OpV::Cast(Cast::PtrToWord, p), "panic_str"@);
        let s = gen_abort(s, "\u{2}"@, word, Val::Word(0));
        let (s, dead) = s.block("after_panic"@);
        let s = s.position(dead);
        (s, CgValue::Int(Val::Word(0)))
    } else {
        (s, CgValue::Int(Val::Word(0)))
    };
    (s, x)
}

pub closed spec fn gen_len(s: CgV, args: Seq<ExprV>) -> (CgV, CgValue)
    decreases args, 1int, 0int,
{
    let (s, x) = if args.len() >= 1 {
        let (s, t) = known_type(s, args[0]);
        let (s, v) = gen_expr(s, args[0]);
        let (s, n) = match v {
            CgValue::Str(p) => {
                let (s, r2) = s.emit(OpV::Call(Ty::Word, "zarrin.chars"@, Seq::empty().push(p)), "len_call"@);
                (s, r2)
            },
            _ => {
                let (s, p) = value_to_ptr(s, v);
                let (s, r2) = s.emit(OpV::Load(Ty::Word, p), "arr_len"@);
                (s, r2)
            },
        };
        let s = spend(s, v, t, args[0]);
        (s, CgValue::Int(n))
    } else {
        (s, CgValue::Int(Val::Word(0)))
    };
    (s, x)
}

pub closed spec fn gen_to_string(s: CgV, args: Seq<ExprV>) -> (CgV, CgValue)
    decreases args, 1int, 0int,
{
    let (s, x) = if args.len() >= 1 {
        let (s, t) = known_type(s, args[0]);
        let (s, v) = gen_expr(s, args[0]);
        let (s, y) = match v {
            CgValue::Str(p) => {
                let s = own(s, v, t, args[0]);
                (s, p)
            },
            CgValue::Float(f) => {
                let (s, r2) = gen_float_to_owned(s, f);
                (s, r2)
            },
            CgValue::Int(word) => {
                let (s, r2) = gen_word_text(s, word, t);
                let s = spend(s, v, t, args[0]);
                (s, r2)
            },
        };
        (s, CgValue::Str(y))
    } else {
        (s, CgValue::Int(Val::Word(0)))
    };
    (s, x)
}

pub closed spec fn gen_int_text(s: CgV, args: Seq<ExprV>) -> (CgV, CgValue)
    decreases args, 1int, 0int,
{
    let (s, x) = if args.len() >= 1 {
        let (s, v) = gen_expr(s, args[0]);
        let (s, word) = value_to_int(s, v);
        let (s, p) = gen_int_to_str(s, word);
        (s, CgValue::Str(p))
    } else {
        (s, CgValue::Int(Val::Word(0)))
    };
    (s, x)
}

pub closed spec fn gen_array_get(s: CgV, args: Seq<ExprV>) -> (CgV, CgValue)
    decreases args, 1int, 0int,
{
    let (s, x) = if args.len() >= 2 {
        let (s, t) = known_type(s, args[0]);
        let (s, av) = gen_expr(s, args[0]);
        let (s, iv) = gen_expr(s, args[1]);
        let (s, p) = value_to_ptr(s, av);
        let (s, i) = value_to_int(s, iv);
        let (s, place) = gen_element(s, p, i);
        let (s, raw) = s.emit(OpV::Load(Ty::Word, place), "arr_elem"@);
        let (s, v) = typed_value(s, raw, elem_of(t));
        let s = retain_value(s, v, elem_of(t));
        let s = spend(s, av, t, args[0]);
        (s, v)
    } else {
        (s, CgValue::Int(Val::Word(0)))
    };
    (s, x)
}

pub closed spec fn gen_array_set(s: CgV, args: Seq<ExprV>) -> (CgV, CgValue)
    decreases args, 1int, 0int,
{
    let (s, x) = if args.len() >= 3 {
        let (s, t) = known_type(s, args[0]);
        let (s, nt) = known_type(s, args[2]);
        let (s, av) = gen_expr(s, args[0]);
        let (s, iv) = gen_expr(s, args[1]);
        let (s, nv) = gen_expr(s, args[2]);
        let (s, p) = value_to_ptr(s, av);
        let (s, i) = value_to_int(s, iv);
        let (s, old_place) = gen_element(s, p, i);
        let (s, buf) = gen_copy_array(s, p, elem_of(t));
        let (s, off) = s.emit(OpV::Arith(Arith::Add, i, Val::Word(1)), "elem_off"@);
        let (s, place) = s.emit(OpV::Offset(Ty::Word, buf, off), "elem_ptr"@);
        let s = release_word(s, place, elem_of(t));
        let s = own(s, nv, nt, args[2]);
        let (s, word) = value_to_int(s, nv);
        let s = s.emit(OpV::Store(place, word), ""@).0;
        let s = spend(s, av, t, args[0]);
        let (s, all) = s.emit(OpV::Cast(Cast::PtrToWord, buf), "new_arr_ptr"@);
        (s, CgValue::Int(all))
    } else {
        (s, CgValue::Int(Val::Word(0)))
    };
    (s, x)
}

pub closed spec fn gen_substring_call(s: CgV, args: Seq<ExprV>) -> (CgV, CgValue)
    decreases args, 1int, 0int,
{
    let (s, x) = if args.len() >= 3 {
        let (s, t) = known_type(s, args[0]);
        let (s, sv) = gen_expr(s, args[0]);
        let (s, bv) = gen_expr(s, args[1]);
        let (s, ev) = gen_expr(s, args[2]);
        let (s, p) = value_to_ptr(s, sv);
        let (s, from) = value_to_int(s, bv);
        let (s, to) = value_to_int(s, ev);
        let (s, r2) = gen_substring(s, p, from, to);
        let s = spend(s, sv, t, args[0]);
        (s, CgValue::Str(r2))
    } else {
        (s, CgValue::Int(Val::Word(0)))
    };
    (s, x)
}

pub closed spec fn gen_contains_call(s: CgV, args: Seq<ExprV>) -> (CgV, CgValue)
    decreases args, 1int, 0int,
{
    let (s, x) = if args.len() >= 2 {
        let (s, t) = known_type(s, args[0]);
        let (s, nt) = known_type(s, args[1]);
        let (s, sv) = gen_expr(s, args[0]);
        let (s, nv) = gen_expr(s, args[1]);
        let (s, p) = value_to_ptr(s, sv);
        let (s, q) = value_to_ptr(s, nv);
        let (s, v) = gen_contains(s, p, q);
        let s = spend(s, sv, t, args[0]);
        let s = spend(s, nv, nt, args[1]);
        (s, v)
    } else {
        (s, CgValue::Int(Val::Word(0)))
    };
    (s, x)
}

pub closed spec fn gen_split_call(s: CgV, args: Seq<ExprV>) -> (CgV, CgValue)
    decreases args, 1int, 0int,
{
    let (s, x) = if args.len() >= 2 {
        let (s, t) = known_type(s, args[0]);
        let (s, nt) = known_type(s, args[1]);
        let (s, sv) = gen_expr(s, args[0]);
        let (s, nv) = gen_expr(s, args[1]);
        let (s, p) = value_to_ptr(s, sv);
        let (s, q) = value_to_ptr(s, nv);
        let s = s.want_split();
        let (s, word) = s.emit(OpV::Call(Ty::Word, "zarrin.split"@, Seq::empty().push(p).push(q)), "split_call"@);
        let s = spend(s, sv, t, args[0]);
        let s = spend(s, nv, nt, args[1]);
        (s, CgValue::Int(word))
    } else {
        (s, CgValue::Int(Val::Word(0)))
    };
    (s, x)
}

pub closed spec fn gen_trim_call(s: CgV, args: Seq<ExprV>) -> (CgV, CgValue)
    decreases args, 1int, 0int,
{
    let (s, x) = if args.len() >= 1 {
        let (s, t) = known_type(s, args[0]);
        let (s, sv) = gen_expr(s, args[0]);
        let (s, p) = value_to_ptr(s, sv);
        let (s, r2) = gen_trim(s, p);
        let s = spend(s, sv, t, args[0]);
        (s, CgValue::Str(r2))
    } else {
        (s, CgValue::Int(Val::Word(0)))
    };
    (s, x)
}

pub closed spec fn gen_char_at_call(s: CgV, args: Seq<ExprV>) -> (CgV, CgValue)
    decreases args, 1int, 0int,
{
    let (s, x) = if args.len() >= 2 {
        let (s, t) = known_type(s, args[0]);
        let (s, sv) = gen_expr(s, args[0]);
        let (s, iv) = gen_expr(s, args[1]);
        let (s, p) = value_to_ptr(s, sv);
        let (s, i) = value_to_int(s, iv);
        let (s, r2) = gen_char_at(s, p, i);
        let s = spend(s, sv, t, args[0]);
        (s, CgValue::Str(r2))
    } else {
        (s, CgValue::Int(Val::Word(0)))
    };
    (s, x)
}

/// A call of a builtin.
pub closed spec fn gen_builtin(s: CgV, name: Seq<char>, args: Seq<ExprV>) -> (CgV, CgValue)
    decreases args, 2int, 0int,
{
    if name == "print"@ {
        gen_print(s, args)
    } else if name == "panic"@ {
        gen_panic(s, args)
    } else if name == "len"@ {
        gen_len(s, args)
    } else if name == "to_string"@ {
        gen_to_string(s, args)
    } else if name == "int_to_str"@ {
        gen_int_text(s, args)
    } else if name == "substring"@ {
        gen_substring_call(s, args)
    } else if name == "contains"@ {
        gen_contains_call(s, args)
    } else if name == "split"@ {
        gen_split_call(s, args)
    } else if name == "trim"@ {
        gen_trim_call(s, args)
    } else if name == "char_at"@ {
        gen_char_at_call(s, args)
    } else if name == "array_len"@ {
        gen_len(s, args)
    } else if name == "array_get"@ {
        gen_array_get(s, args)
    } else {
        gen_array_set(s, args)
    }
}

impl Codegen {
    pub(crate) fn loop_here(&self, exit: usize, next: usize, result: Option<Val>) -> (l: LoopCtx)
        ensures
            l == loop_ctx(self@, exit, next, result),
    {
        LoopCtx { exit, next, depth: self.depth(), result }
    }

    fn struct_of(&self, t: &Type) -> (defs: Vec<(String, Type)>)
        ensures
            params_view(defs@) == struct_defs(self@, t@),
    {
        let none: Vec<(String, Type)> = Vec::new();
        assert(params_view(none@) =~= Seq::empty());
        match t {
            Type::Named(n, _) => match self.types().struct_fields(n.as_str()) {
                Some(defs) => defs,
                None => none,
            },
            _ => none,
        }
    }

    fn ret_of(&self, name: &str) -> (r: Option<Type>)
        ensures
            match fn_ret(self@.types, name@) {
                Some(t) => r is Some && r->Some_0@ == t,
                None => r is None,
            },
    {
        match self.types().function(name) {
            Some(sig) => Some(sig.ret),
            None => None,
        }
    }

    fn method_for(&self, t: &Type, method: &str) -> (r: Option<MethodRef>)
        ensures
            match method_of(self@.types, t@, method@) {
                Some(m) => r is Some && r->Some_0.name@ == m.name && r->Some_0.has_self
                    == m.has_self && r->Some_0.ret@ == m.ret,
                None => r is None,
            },
    {
        match t {
            Type::Named(n, _) => match self.types().lookup_method(n.as_str(), method) {
                Some((params, ret)) => {
                    assert(params_view(params@).len() == params@.len());
                    let mut has_self = false;
                    if params.len() > 0 {
                        assert(params_view(params@)[0] == (params@[0].0@, params@[0].1@));
                        has_self = str_eq(params[0].0.as_str(), "self");
                    }
                    Some(
                        MethodRef { name: cat5("zr.", n.as_str(), ".", method, ""), has_self, ret },
                    )
                },
                None => None,
            },
            _ => None,
        }
    }

    /// Make code for an expression, and say where its value is.
    pub(crate) fn gen_expr(&mut self, e: &Expr) -> (r: CgValue)
        requires
            old(self).wf(),
        ensures
            final(self).wf(),
            stays_in(old(self)@, final(self)@),
            (final(self)@, r) == gen_expr(old(self)@, e@),
        decreases e, 2int, 0int,
    {
        assert(*e@.kind == (*e.kind)@);
        let x = match &*e.kind {
            ExprKind::Int(n) => {
                CgValue::Int(Val::Word(*n))
            },
            ExprKind::Float(t) => {
                let r = self.number(t.as_str());
                CgValue::Float(r)
            },
            ExprKind::Bool(b) => {
                value_of_bool(*b)
            },
            ExprKind::Str(t) => {
                let r = self.string_global(t.as_str());
                CgValue::Str(r)
            },
            ExprKind::Ident(n) => {
                let v = self.gen_ident(n.as_str());
                v
            },
            ExprKind::Binary(_, _, _) => {
                let v = self.gen_binary(e);
                v
            },
            ExprKind::Unary(_, _) => {
                let v = self.gen_unary(e);
                v
            },
            ExprKind::Range(_, _) => {
                let v = self.gen_range(e);
                v
            },
            ExprKind::ArrayLit(_) => {
                let v = self.gen_array(e);
                v
            },
            ExprKind::Index(_, _) => {
                let v = self.gen_index(e);
                v
            },
            ExprKind::Call(_, _) => {
                let v = self.gen_call(e);
                v
            },
            ExprKind::FieldAccess(_, _) => {
                let v = self.gen_field(e);
                v
            },
            ExprKind::MethodCall(_, _, _) => {
                let v = self.gen_method(e);
                v
            },
            ExprKind::StructLit { .. }  => {
                let v = self.gen_struct(e);
                v
            },
            ExprKind::Match { .. }  => {
                let v = self.gen_match(e);
                v
            },
            ExprKind::If { .. }  => {
                let v = self.gen_if(e);
                v
            },
            ExprKind::While { .. }  => {
                let v = self.gen_while(e);
                v
            },
            ExprKind::For { .. }  => {
                let v = self.gen_for(e);
                v
            },
        };
        x
    }

    /// Joining and comparing read both sides and keep neither.
    pub(crate) fn gen_binary(&mut self, e: &Expr) -> (r: CgValue)
        requires
            old(self).wf(),
        ensures
            final(self).wf(),
            stays_in(old(self)@, final(self)@),
            (final(self)@, r) == gen_binary(old(self)@, e@),
        decreases e, 1int, 0int,
    {
        assert(*e@.kind == (*e.kind)@);
        let x = match &*e.kind {
            ExprKind::Binary(l, op, q)  => {
                let lt = self.known_type(l);
                let qt = self.known_type(q);
                let lv = self.gen_expr(l);
                let qv = self.gen_expr(q);
                let v = self.gen_typed_operation(lv, &lt, *op, qv, &qt);
                self.spend(lv, &lt, l);
                self.spend(qv, &qt, q);
                v
            },
            _ => {
                CgValue::Int(Val::Word(0))
            },
        };
        x
    }

    pub(crate) fn gen_unary(&mut self, e: &Expr) -> (r: CgValue)
        requires
            old(self).wf(),
        ensures
            final(self).wf(),
            stays_in(old(self)@, final(self)@),
            (final(self)@, r) == gen_unary(old(self)@, e@),
        decreases e, 1int, 0int,
    {
        assert(*e@.kind == (*e.kind)@);
        let x = match &*e.kind {
            ExprKind::Unary(op, a)  => {
                let av = self.gen_expr(a);
                let v = self.gen_unary_op(*op, av);
                v
            },
            _ => {
                CgValue::Int(Val::Word(0))
            },
        };
        x
    }

    pub(crate) fn gen_range(&mut self, e: &Expr) -> (r: CgValue)
        requires
            old(self).wf(),
        ensures
            final(self).wf(),
            stays_in(old(self)@, final(self)@),
            (final(self)@, r) == gen_range(old(self)@, e@),
        decreases e, 1int, 0int,
    {
        assert(*e@.kind == (*e.kind)@);
        let x = match &*e.kind {
            ExprKind::Range(a, b)  => {
                let av = self.gen_expr(a);
                let from = self.value_to_int(av);
                let bv = self.gen_expr(b);
                let to = self.value_to_int(bv);
                let p = self.scratch_slots(2, "range");
                self.store_word(p, 0, from);
                self.store_word(p, 1, to);
                let word = self.emit(Op::Cast(Cast::PtrToWord, p), "range_ptr");
                CgValue::Int(word)
            },
            _ => {
                CgValue::Int(Val::Word(0))
            },
        };
        x
    }

    /// The layout is the length, then the elements.
    pub(crate) fn gen_array(&mut self, e: &Expr) -> (r: CgValue)
        requires
            old(self).wf(),
        ensures
            final(self).wf(),
            stays_in(old(self)@, final(self)@),
            (final(self)@, r) == gen_array(old(self)@, e@),
        decreases e, 1int, 0int,
    {
        assert(*e@.kind == (*e.kind)@);
        let x = match &*e.kind {
            ExprKind::ArrayLit(es)  => {
                assert(exprs_view(es@).len() == es@.len());
                let p = self.scratch_tagged(es.len(), "arr_alloc");
                let _ = self.emit(Op::Store(p, Val::Word(es.len() as i64)), "");
                self.store_args(p, es, 0);
                let word = self.emit(Op::Cast(Cast::PtrToWord, p), "arr_buf");
                CgValue::Int(word)
            },
            _ => {
                CgValue::Int(Val::Word(0))
            },
        };
        x
    }

    /// The values of expressions, in the words after the first. An aggregate becomes
    /// an owner of what it is given.
    pub(crate) fn store_args(&mut self, p: Val, args: &Vec<Expr>, i: usize)
        requires
            old(self).wf(),
        ensures
            final(self).wf(),
            stays_in(old(self)@, final(self)@),
            final(self)@ == store_args(old(self)@, p, exprs_view(args@), i as int),
        decreases args, args@.len() - i, 0int,
    {
        assert(exprs_view(args@).len() == args@.len());
        if i < args.len() {
            assert(exprs_view(args@)[i as int] == args@[i as int]@);
            let t = self.known_type(&args[i]);
            let v = self.gen_expr(&args[i]);
            self.own(v, &t, &args[i]);
            let word = self.value_to_int(v);
            self.store_word(p, i + 1, word);
            self.store_args(p, args, i + 1);
        }
    }

    /// Elements keep their declared type, as struct fields do.
    pub(crate) fn gen_index(&mut self, e: &Expr) -> (r: CgValue)
        requires
            old(self).wf(),
        ensures
            final(self).wf(),
            stays_in(old(self)@, final(self)@),
            (final(self)@, r) == gen_index(old(self)@, e@),
        decreases e, 1int, 0int,
    {
        assert(*e@.kind == (*e.kind)@);
        let x = match &*e.kind {
            ExprKind::Index(a, idx)  => {
                let at_ = self.known_type(a);
                let et = self.known_type(e);
                let av = self.gen_expr(a);
                let iv = self.gen_expr(idx);
                let p = self.value_to_ptr(av);
                let i = self.value_to_int(iv);
                let place = self.gen_element(p, i);
                let raw = self.emit(Op::Load(Ty::Word, place), "arr_elem");
                let v = self.typed_value(raw, &et);
                if self.produces_owned(a) {
                    self.retain_value(v, &et);
                    self.spend(av, &at_, a);
                }
                v
            },
            _ => {
                CgValue::Int(Val::Word(0))
            },
        };
        x
    }

    pub(crate) fn gen_field(&mut self, e: &Expr) -> (r: CgValue)
        requires
            old(self).wf(),
        ensures
            final(self).wf(),
            stays_in(old(self)@, final(self)@),
            (final(self)@, r) == gen_field(old(self)@, e@),
        decreases e, 1int, 0int,
    {
        assert(*e@.kind == (*e.kind)@);
        let x = match &*e.kind {
            ExprKind::FieldAccess(obj, field)  => {
                let ot = self.known_type(obj);
                let ft = self.known_type(e);
                let ov = self.gen_expr(obj);
                let p = self.value_to_ptr(ov);
                let defs = self.struct_of(&ot);
                let v = self.gen_field_of(p, &defs, field.as_str());
                if self.produces_owned(obj) {
                    self.retain_value(v, &ft);
                    self.spend(ov, &ot, obj);
                }
                v
            },
            _ => {
                CgValue::Int(Val::Word(0))
            },
        };
        x
    }

    /// Fields stand in the order of their declaration, whatever order the literal lists them in.
    pub(crate) fn gen_struct(&mut self, e: &Expr) -> (r: CgValue)
        requires
            old(self).wf(),
        ensures
            final(self).wf(),
            stays_in(old(self)@, final(self)@),
            (final(self)@, r) == gen_struct(old(self)@, e@),
        decreases e, 1int, 0int,
    {
        assert(*e@.kind == (*e.kind)@);
        let x = match &*e.kind {
            ExprKind::StructLit { name, fields }  => {
                let t = named(name);
                let defs = self.struct_of(&t);
                assert(params_view(defs@).len() == defs@.len());
                let p = self.scratch_slots(defs.len(), "struct");
                let defs = self.struct_of(&t);
                self.store_fields(p, &defs, fields, 0);
                let word = self.emit(Op::Cast(Cast::PtrToWord, p), "struct_ptr");
                CgValue::Int(word)
            },
            _ => {
                CgValue::Int(Val::Word(0))
            },
        };
        x
    }

    pub(crate) fn store_fields(&mut self, p: Val, defs: &Vec<(String, Type)>, fields: &Vec<(String, Expr)>, i: usize)
        requires
            old(self).wf(),
        ensures
            final(self).wf(),
            stays_in(old(self)@, final(self)@),
            final(self)@ == store_fields(old(self)@, p, params_view(defs@), fields_view(fields@), i as int),
        decreases fields, fields@.len() - i, 0int,
    {
        assert(fields_view(fields@).len() == fields@.len());
        if i < fields.len() {
            assert(fields_view(fields@)[i as int] == (fields@[i as int].0@, fields@[i as int].1@));
            let t = self.known_type(&fields[i].1);
            let v = self.gen_expr(&fields[i].1);
            self.own(v, &t, &fields[i].1);
            let word = self.value_to_int(v);
            match find_field(defs, fields[i].0.as_str()) {
                Some(k) => {
                    self.store_word(p, k, word);
                },
                None => {
                },
            }
            self.store_fields(p, defs, fields, i + 1);
        }
    }

    pub(crate) fn gen_if(&mut self, e: &Expr) -> (r: CgValue)
        requires
            old(self).wf(),
        ensures
            final(self).wf(),
            stays_in(old(self)@, final(self)@),
            (final(self)@, r) == gen_if(old(self)@, e@),
        decreases e, 1int, 0int,
    {
        assert(*e@.kind == (*e.kind)@);
        let x = match &*e.kind {
            ExprKind::If { cond, then_body, else_body }  => {
                let t = self.known_type(e);
                let ct = self.known_type(cond);
                let cv = self.gen_expr(cond);
                let c = self.gen_cond(cv, &ct, cond, true);
                let then_bb = self.block("if.then");
                let else_bb = self.block("if.else");
                let merge = self.block("if.merge");
                let _ = self.emit(Op::Branch(c, then_bb, else_bb), "");
                self.position(then_bb);
                let one = self.gen_branch(then_body, merge, phis0());
                self.position(else_bb);
                let both = match else_body {
                    Some(eb) => {
                        let r2 = self.gen_branch(eb, merge, one);
                        r2
                    },
                    None => {
                        let r2 = self.gen_arrival(Val::Word(0), merge, one);
                        r2
                    },
                };
                self.position(merge);
                let phi = self.gen_phi(both);
                let v = self.typed_value(phi, &t);
                v
            },
            _ => {
                CgValue::Int(Val::Word(0))
            },
        };
        x
    }

    /// A value reaches the place where branches meet, from wherever control stands.
    pub(crate) fn gen_arrival(&mut self, word: Val, merge: usize, acc: Vec<(Val, usize)>) -> (r: Vec<(Val, usize)>)
        requires
            old(self).wf(),
        ensures
            final(self).wf(),
            stays_in(old(self)@, final(self)@),
            (final(self)@, r@) == gen_arrival(old(self)@, word, merge, acc@),
    {
        let here = self.here();
        let gone = self.left();
        let _ = self.emit(Op::Jump(merge), "");
        let x = if gone {
            acc
        } else {
            push_phi(acc, word, here)
        };
        x
    }

    /// One branch of an expression. What it gives is owned.
    pub(crate) fn gen_branch(&mut self, e: &Expr, merge: usize, acc: Vec<(Val, usize)>) -> (r: Vec<(Val, usize)>)
        requires
            old(self).wf(),
        ensures
            final(self).wf(),
            stays_in(old(self)@, final(self)@),
            (final(self)@, r@) == gen_branch(old(self)@, e@, merge, acc@),
        decreases e, 3int, 0int,
    {
        let t = self.known_type(e);
        let v = self.gen_expr(e);
        self.own(v, &t, e);
        let word = self.value_to_int(v);
        let x = self.gen_arrival(word, merge, acc);
        x
    }

    pub(crate) fn gen_match(&mut self, e: &Expr) -> (r: CgValue)
        requires
            old(self).wf(),
        ensures
            final(self).wf(),
            stays_in(old(self)@, final(self)@),
            (final(self)@, r) == gen_match(old(self)@, e@),
        decreases e, 1int, 0int,
    {
        assert(*e@.kind == (*e.kind)@);
        let x = match &*e.kind {
            ExprKind::Match { scrutinee, arms }  => {
                let st = self.known_type(scrutinee);
                let mt = self.known_type(e);
                let sv = self.gen_expr(scrutinee);
                let word = self.value_to_int(sv);
                let merge = self.block("match_merge");
                let phis = self.gen_arms(arms, 0, 0, word, &st, merge, phis0());
                self.gen_abort("no matching pattern", Val::Word(0), Val::Word(0));
                self.position(merge);
                let phi = self.gen_phi(phis);
                let v = self.typed_value(phi, &mt);
                self.spend(sv, &st, scrutinee);
                v
            },
            _ => {
                CgValue::Int(Val::Word(0))
            },
        };
        x
    }

    /// The arms of a match, from pattern `j` of arm `i` on. A pattern that does not
    /// match, or a guard that does not hold, goes on to the next.
    pub(crate) fn gen_arms(&mut self, arms: &Vec<(Vec<Pattern>, Option<Expr>, Expr)>, i: usize, j: usize, word: Val, st: &Type, merge: usize, acc: Vec<(Val, usize)>) -> (r: Vec<(Val, usize)>)
        requires
            old(self).wf(),
        ensures
            final(self).wf(),
            stays_in(old(self)@, final(self)@),
            (final(self)@, r@) == gen_arms(old(self)@, arms_view(arms@), i as int, j as int, word, st@, merge, acc@),
        decreases arms, arms@.len() - i, (if i < arms@.len() { arms@[i as int].0@.len() - j } else { 0 }),
    {
        assert(arms_view(arms@).len() == arms@.len());
        let x = if i >= arms.len() {
            acc
        } else {
            assert(arms_view(arms@)[i as int] == arm_view(arms@[i as int]));
            assert(arms_view(arms@)[i as int].0 == patterns_view(arms@[i as int].0@));
            assert(patterns_view(arms@[i as int].0@).len() == arms@[i as int].0@.len());
            let y = if j >= arms[i].0.len() {
                let r2 = self.gen_arms(arms, i + 1, 0, word, st, merge, acc);
                r2
            } else {
                assert(patterns_view(arms@[i as int].0@)[j as int] == arms@[i as int].0@[j as int]@);
                let next = self.block("match_next");
                self.open_scope();
                self.test_pattern(&arms[i].0[j], word, st, next);
                self.bind_pattern(&arms[i].0[j], word, st);
                self.gen_guard(&arms[i].1, next);
                let bt = self.known_type(&arms[i].2);
                let v = self.gen_expr(&arms[i].2);
                self.own(v, &bt, &arms[i].2);
                let w2 = self.value_to_int(v);
                self.close_scope();
                let acc2 = self.gen_arrival(w2, merge, acc);
                self.position(next);
                let r2 = self.gen_arms(arms, i, j + 1, word, st, merge, acc2);
                r2
            };
            y
        };
        x
    }

    /// A guard that does not hold lets go of what the pattern bound.
    pub(crate) fn gen_guard(&mut self, g: &Option<Expr>, next: usize)
        requires
            old(self).wf(),
        ensures
            final(self).wf(),
            stays_in(old(self)@, final(self)@),
            final(self)@ == gen_guard(old(self)@, opt_expr_view(*g), next),
        decreases g, 1int, 0int,
    {
        match g {
            Some(x) => {
                let gt = self.known_type(x);
                let gv = self.gen_expr(x);
                let c = self.gen_cond(gv, &gt, x, false);
                let ok = self.block("guard_ok");
                let no = self.block("guard_fail");
                let _ = self.emit(Op::Branch(c, ok, no), "");
                self.position(no);
                let n = self.depth();
                self.release_open(n, (if n > 0 { n - 1 } else { 0 }));
                let _ = self.emit(Op::Jump(next), "");
                self.position(ok);
            },
            None => {
            },
        }
    }

    /// Go to a block unless a word of a type matches a pattern.
    pub(crate) fn test_pattern(&mut self, p: &Pattern, word: Val, ty: &Type, fail: usize)
        requires
            old(self).wf(),
        ensures
            final(self).wf(),
            stays_in(old(self)@, final(self)@),
            final(self)@ == test_pattern(old(self)@, p@, word, ty@, fail),
        decreases p, 1int, 0int,
    {
        match p {
            Pattern::Literal(e) => {
                let lit = self.gen_expr(e);
                let c = self.gen_same(word, lit);
                self.unless(c, fail);
            },
            Pattern::EnumVariant { name, inner }  => {
                assert(p@ == (PatternV::EnumVariant { name: name@, inner: patterns_view(inner@) }));
                match self.types().lookup_variant(name.as_str()) {
                    Lookup::Unique(v) => {
                        let tag = self.gen_tag(word, v.enum_has_payload);
                        let c = self.emit(Op::Compare(Cond::Eq, tag, tag_of(&v)), "match_cmp");
                        self.unless(c, fail);
                        let payload = types_of_payload(&v, ty);
                        self.test_patterns(inner, &payload, word, fail, 0);
                    },
                    _ => {
                        let why = cat2("unknown variant: ", name.as_str());
                        self.refuse(why);
                    },
                }
            },
            _ => {
            },
        }
    }

    pub(crate) fn test_patterns(&mut self, ps: &Vec<Pattern>, payload: &Vec<Type>, word: Val, fail: usize, i: usize)
        requires
            old(self).wf(),
        ensures
            final(self).wf(),
            stays_in(old(self)@, final(self)@),
            final(self)@ == test_patterns(old(self)@, patterns_view(ps@), types_view(payload@), word, fail, i as int),
        decreases ps, ps@.len() - i, 0int,
    {
        assert(patterns_view(ps@).len() == ps@.len());
        if i < ps.len() {
            assert(patterns_view(ps@)[i as int] == ps@[i as int]@);
            let p = self.emit(Op::Cast(Cast::WordToPtr, word), "enum_ptr");
            let raw = self.load_word(p, i + 1);
            let t = type_at(payload, i);
            self.test_pattern(&ps[i], raw, &t, fail);
            self.test_patterns(ps, payload, word, fail, i + 1);
        }
    }

    /// Bind the variables of a pattern that a word of a type matches. Each owns what it holds.
    pub(crate) fn bind_pattern(&mut self, p: &Pattern, word: Val, ty: &Type)
        requires
            old(self).wf(),
        ensures
            final(self).wf(),
            stays_in(old(self)@, final(self)@),
            final(self)@ == bind_pattern(old(self)@, p@, word, ty@),
        decreases p, 1int, 0int,
    {
        match p {
            Pattern::Variable(name) => {
                let v = self.typed_value(word, ty);
                self.retain_value(v, ty);
                self.bind_local(name.as_str(), ty, v);
            },
            Pattern::EnumVariant { name, inner }  => {
                assert(p@ == (PatternV::EnumVariant { name: name@, inner: patterns_view(inner@) }));
                match self.types().lookup_variant(name.as_str()) {
                    Lookup::Unique(v) => {
                        let payload = types_of_payload(&v, ty);
                        self.bind_patterns(inner, &payload, word, 0);
                    },
                    _ => {
                    },
                }
            },
            _ => {
            },
        }
    }

    pub(crate) fn bind_patterns(&mut self, ps: &Vec<Pattern>, payload: &Vec<Type>, word: Val, i: usize)
        requires
            old(self).wf(),
        ensures
            final(self).wf(),
            stays_in(old(self)@, final(self)@),
            final(self)@ == bind_patterns(old(self)@, patterns_view(ps@), types_view(payload@), word, i as int),
        decreases ps, ps@.len() - i, 0int,
    {
        assert(patterns_view(ps@).len() == ps@.len());
        if i < ps.len() {
            assert(patterns_view(ps@)[i as int] == ps@[i as int]@);
            let p = self.emit(Op::Cast(Cast::WordToPtr, word), "enum_ptr");
            let raw = self.load_word(p, i + 1);
            let t = type_at(payload, i);
            self.bind_pattern(&ps[i], raw, &t);
            self.bind_patterns(ps, payload, word, i + 1);
        }
    }

    /// A loop runs statements, which may keep what they build, so nothing in it goes on the frame.
    pub(crate) fn gen_while(&mut self, e: &Expr) -> (r: CgValue)
        requires
            old(self).wf(),
        ensures
            final(self).wf(),
            stays_in(old(self)@, final(self)@),
            (final(self)@, r) == gen_while(old(self)@, e@),
        decreases e, 1int, 0int,
    {
        assert(*e@.kind == (*e.kind)@);
        let x = match &*e.kind {
            ExprKind::While { cond, body }  => {
                let outer = self.is_transient();
                self.set_transient(false);
                let res = self.slot(Room::Word, "while_result");
                let _ = self.emit(Op::Store(res, Val::Word(0)), "");
                let head = self.block("while_expr");
                let body_bb = self.block("while_expr_body");
                let after = self.block("while_expr_end");
                let _ = self.emit(Op::Jump(head), "");
                self.position(head);
                let ct = self.known_type(cond);
                let cv = self.gen_expr(cond);
                let c = self.gen_cond(cv, &ct, cond, false);
                let _ = self.emit(Op::Branch(c, body_bb, after), "");
                let ghost around = self@.loops;
                self.push_loop(self.loop_here(after, head, Some(res)));
                self.position(body_bb);
                self.gen_block(body);
                let _ = self.emit(Op::Jump(head), "");
                self.pop_loop();
                assert(self@.loops =~= around);
                self.position(after);
                self.set_transient(outer);
                let raw = self.emit(Op::Load(Ty::Word, res), "while_result");
                CgValue::Int(raw)
            },
            _ => {
                CgValue::Int(Val::Word(0))
            },
        };
        x
    }

    pub(crate) fn gen_for(&mut self, e: &Expr) -> (r: CgValue)
        requires
            old(self).wf(),
        ensures
            final(self).wf(),
            stays_in(old(self)@, final(self)@),
            (final(self)@, r) == gen_for(old(self)@, e@),
        decreases e, 1int, 0int,
    {
        assert(*e@.kind == (*e.kind)@);
        let x = match &*e.kind {
            ExprKind::For { var, iter, body }  => {
                let outer = self.is_transient();
                self.set_transient(false);
                let res = self.slot(Room::Word, "for_result");
                let _ = self.emit(Op::Store(res, Val::Word(0)), "");
                self.open_scope();
                let it = self.known_type(iter);
                let b = self.for_bounds(iter);
                let i_ptr = self.slot(Room::Word, "for_idx");
                let _ = self.emit(Op::Store(i_ptr, b.from), "");
                let head = self.block("for_entry");
                let body_bb = self.block("for_body");
                let cont = self.block("for_cont");
                let after = self.block("for_exit");
                let _ = self.emit(Op::Jump(head), "");
                let i = self.turn_head(i_ptr, b.to, head, body_bb, after);
                let ghost around = self@.loops;
                self.push_loop(self.loop_here(after, cont, Some(res)));
                self.position(body_bb);
                self.open_scope();
                self.bind_element(var.as_str(), i, b, &elem_type(&it));
                self.gen_block(body);
                self.close_scope();
                let _ = self.emit(Op::Jump(cont), "");
                self.pop_loop();
                assert(self@.loops =~= around);
                self.turn_step(i_ptr, head, cont);
                self.position(after);
                self.close_scope();
                self.set_transient(outer);
                let raw = self.emit(Op::Load(Ty::Word, res), "for_result");
                CgValue::Int(raw)
            },
            _ => {
                CgValue::Int(Val::Word(0))
            },
        };
        x
    }

    /// What a loop runs through. A range that is written out in the loop's head is not built.
    pub(crate) fn for_bounds(&mut self, e: &Expr) -> (r: ForBounds)
        requires
            old(self).wf(),
        ensures
            final(self).wf(),
            stays_in(old(self)@, final(self)@),
            (final(self)@, r) == for_bounds(old(self)@, e@),
        decreases e, 3int, 0int,
    {
        assert(*e@.kind == (*e.kind)@);
        let x = match &*e.kind {
            ExprKind::Range(a, b) => {
                let av = self.gen_expr(a);
                let from = self.value_to_int(av);
                let bv = self.gen_expr(b);
                let to = self.value_to_int(bv);
                ForBounds { from, to, arr: None }
            },
            _ => {
                let t = self.known_type(e);
                let v = self.gen_expr(e);
                self.hold(v, &t, e);
                let y = self.walk_bounds(v, &t);
                y
            },
        };
        x
    }

    pub(crate) fn gen_call(&mut self, e: &Expr) -> (r: CgValue)
        requires
            old(self).wf(),
        ensures
            final(self).wf(),
            stays_in(old(self)@, final(self)@),
            (final(self)@, r) == gen_call(old(self)@, e@),
        decreases e, 1int, 0int,
    {
        assert(*e@.kind == (*e.kind)@);
        let x = match &*e.kind {
            ExprKind::Call(callee, args)  => {
                assert(*callee@.kind == (*callee.kind)@);
                let v = match &*callee.kind {
                    ExprKind::Ident(name) => {
                        let y = self.gen_named_call(name.as_str(), args);
                        y
                    },
                    _ => {
                        self.refuse("cannot call non-function".to_owned());
                        CgValue::Int(Val::Word(0))
                    },
                };
                v
            },
            _ => {
                CgValue::Int(Val::Word(0))
            },
        };
        x
    }

    /// A call by name: of a builtin, a variant or a function.
    pub(crate) fn gen_named_call(&mut self, name: &str, args: &Vec<Expr>) -> (r: CgValue)
        requires
            old(self).wf(),
        ensures
            final(self).wf(),
            stays_in(old(self)@, final(self)@),
            (final(self)@, r) == gen_named_call(old(self)@, name@, exprs_view(args@)),
        decreases args, args@.len() + 3, 0int,
    {
        assert(exprs_view(args@).len() == args@.len());
        let x = if builtins::signature(name).is_some() {
            let v = self.gen_builtin(name, args);
            v
        } else {
            let y = match self.types().lookup_variant(name) {
                Lookup::Unique(v) => {
                    let r2 = self.gen_variant(&v, args);
                    r2
                },
                Lookup::Ambiguous(_) => {
                    let why = cat2("ambiguous variant: ", name);
                    self.refuse(why);
                    CgValue::Int(Val::Word(0))
                },
                Lookup::Unknown => {
                    let r2 = self.gen_fn_call(name, args);
                    r2
                },
            };
            y
        };
        x
    }

    pub(crate) fn gen_fn_call(&mut self, name: &str, args: &Vec<Expr>) -> (r: CgValue)
        requires
            old(self).wf(),
        ensures
            final(self).wf(),
            stays_in(old(self)@, final(self)@),
            (final(self)@, r) == gen_fn_call(old(self)@, name@, exprs_view(args@)),
        decreases args, args@.len() + 2, 0int,
    {
        let x = match self.ret_of(name) {
            Some(ret) => {
                let full = cat2("zr.", name);
                let v = self.finish_call(full.as_str(), vals0(), args, &ret);
                v
            },
            None => {
                let why = if self.types().macro_arity(name).is_some() {
                    cat2("no type for what a macro gives: ", name)
                } else {
                    cat2("undefined function: ", name)
                };
                self.refuse(why);
                CgValue::Int(Val::Word(0))
            },
        };
        x
    }

    /// Call a function with the words in hand and the values of some expressions.
    /// Every parameter is a word, packed the same way as the callee unpacks it. What
    /// was built for the call alone is let go of after it.
    pub(crate) fn finish_call(&mut self, name: &str, first: Vec<Val>, args: &Vec<Expr>, ret: &Type) -> (r: CgValue)
        requires
            old(self).wf(),
        ensures
            final(self).wf(),
            stays_in(old(self)@, final(self)@),
            (final(self)@, r) == finish_call(old(self)@, name@, first@, exprs_view(args@), ret@),
        decreases args, args@.len() + 1, 0int,
    {
        assert(exprs_view(args@).len() == args@.len());
        let skip = first.len();
        let words = self.gen_args(args, 0, first);
        let x = if matches!(ret, Type::Unit) {
            let _ = self.emit(Op::Run(name.to_owned(), dup_vals(&words)), "");
            CgValue::Int(Val::Word(0))
        } else {
            let raw = self.emit(Op::Call(Ty::Word, name.to_owned(), dup_vals(&words)), "call");
            let v = self.typed_value(raw, ret);
            v
        };
        self.spend_args(args, &words, skip, 0);
        x
    }

    pub(crate) fn gen_args(&mut self, args: &Vec<Expr>, i: usize, acc: Vec<Val>) -> (r: Vec<Val>)
        requires
            old(self).wf(),
        ensures
            final(self).wf(),
            stays_in(old(self)@, final(self)@),
            (final(self)@, r@) == gen_args(old(self)@, exprs_view(args@), i as int, acc@),
        decreases args, args@.len() - i, 0int,
    {
        assert(exprs_view(args@).len() == args@.len());
        let x = if i < args.len() {
            assert(exprs_view(args@)[i as int] == args@[i as int]@);
            let v = self.gen_expr(&args[i]);
            let word = self.value_to_int(v);
            let y = self.gen_args(args, i + 1, push_val(acc, word));
            y
        } else {
            acc
        };
        x
    }

    pub(crate) fn spend_args(&mut self, args: &Vec<Expr>, words: &Vec<Val>, skip: usize, i: usize)
        requires
            old(self).wf(),
        ensures
            final(self).wf(),
            stays_in(old(self)@, final(self)@),
            final(self)@ == spend_args(old(self)@, exprs_view(args@), words@, skip as int, i as int),
        decreases args, args@.len() - i, 0int,
    {
        assert(exprs_view(args@).len() == args@.len());
        if i < args.len() && skip < words.len() && i < words.len() - skip {
            assert(exprs_view(args@)[i as int] == args@[i as int]@);
            let t = self.known_type(&args[i]);
            self.spend(CgValue::Int(words[skip + i]), &t, &args[i]);
            self.spend_args(args, words, skip, i + 1);
        }
    }

    /// A variant with its payload: the tag, then the values.
    pub(crate) fn gen_variant(&mut self, v: &Variant, args: &Vec<Expr>) -> (r: CgValue)
        requires
            old(self).wf(),
        ensures
            final(self).wf(),
            stays_in(old(self)@, final(self)@),
            (final(self)@, r) == gen_variant(old(self)@, v@, exprs_view(args@)),
        decreases args, args@.len() + 1, 0int,
    {
        assert(exprs_view(args@).len() == args@.len());
        let x = if v.enum_has_payload {
            let p = self.scratch_tagged(args.len(), "enum");
            let _ = self.emit(Op::Store(p, tag_of(v)), "");
            self.store_args(p, args, 0);
            let word = self.emit(Op::Cast(Cast::PtrToWord, p), "enum_ptr");
            CgValue::Int(word)
        } else {
            CgValue::Int(tag_of(v))
        };
        x
    }

    /// The type of the receiver says which method is meant.
    pub(crate) fn gen_method(&mut self, e: &Expr) -> (r: CgValue)
        requires
            old(self).wf(),
        ensures
            final(self).wf(),
            stays_in(old(self)@, final(self)@),
            (final(self)@, r) == gen_method(old(self)@, e@),
        decreases e, 1int, 0int,
    {
        assert(*e@.kind == (*e.kind)@);
        let x = match &*e.kind {
            ExprKind::MethodCall(obj, method, args)  => {
                let ot = self.known_type(obj);
                let rt = self.known_type(e);
                let ov = self.gen_expr(obj);
                let v = if is_wrapper_call(&ot, method.as_str()) {
                    let y = self.gen_wrapper_method(ov, &ot, method.as_str(), &rt);
                    y
                } else {
                    let y = match self.method_for(&ot, method.as_str()) {
                        Some(m) => {
                            let word = self.value_to_int(ov);
                            let r2 = self.finish_call(m.name.as_str(), (if m.has_self { vals1(word) } else { vals0() }), args, &m.ret);
                            r2
                        },
                        None => {
                            let why = cat2("undefined method: ", method.as_str());
                            self.refuse(why);
                            CgValue::Int(Val::Word(0))
                        },
                    };
                    y
                };
                self.spend(ov, &ot, obj);
                v
            },
            _ => {
                CgValue::Int(Val::Word(0))
            },
        };
        x
    }

    /// Print one value. It is consumed here and kept by nobody, so what is built for
    /// it goes on the frame.
    pub(crate) fn gen_print(&mut self, args: &Vec<Expr>) -> (r: CgValue)
        requires
            old(self).wf(),
        ensures
            final(self).wf(),
            stays_in(old(self)@, final(self)@),
            (final(self)@, r) == gen_print(old(self)@, exprs_view(args@)),
        decreases args, 1int, 0int,
    {
        assert(exprs_view(args@).len() == args@.len());
        let x = if args.len() >= 1 {
            assert(exprs_view(args@)[0] == args@[0]@);
            let outer = self.is_transient();
            let mark = self.stack_mark();
            self.set_transient(true);
            let t = self.known_type(&args[0]);
            let v = self.gen_expr(&args[0]);
            self.print_value(v, &t);
            self.spend(v, &t, &args[0]);
            self.set_transient(outer);
            self.stack_release(mark);
            CgValue::Int(Val::Word(0))
        } else {
            CgValue::Int(Val::Word(0))
        };
        x
    }

    pub(crate) fn gen_panic(&mut self, args: &Vec<Expr>) -> (r: CgValue)
        requires
            old(self).wf(),
        ensures
            final(self).wf(),
            stays_in(old(self)@, final(self)@),
            (final(self)@, r) == gen_panic(old(self)@, exprs_view(args@)),
        decreases args, 1int, 0int,
    {
        assert(exprs_view(args@).len() == args@.len());
        let x = if args.len() >= 1 {
            assert(exprs_view(args@)[0] == args@[0]@);
            let t = self.known_type(&args[0]);
            let v = self.gen_expr(&args[0]);
            let p = self.gen_text(v, &t);
            let word = self.emit(Op::Cast(Cast::PtrToWord, p), "panic_str");
            self.gen_abort("\u{2}", word, Val::Word(0));
            let dead = self.block("after_panic");
            self.position(dead);
            CgValue::Int(Val::Word(0))
        } else {
            CgValue::Int(Val::Word(0))
        };
        x
    }

    pub(crate) fn gen_len(&mut self, args: &Vec<Expr>) -> (r: CgValue)
        requires
            old(self).wf(),
        ensures
            final(self).wf(),
            stays_in(old(self)@, final(self)@),
            (final(self)@, r) == gen_len(old(self)@, exprs_view(args@)),
        decreases args, 1int, 0int,
    {
        assert(exprs_view(args@).len() == args@.len());
        let x = if args.len() >= 1 {
            assert(exprs_view(args@)[0] == args@[0]@);
            let t = self.known_type(&args[0]);
            let v = self.gen_expr(&args[0]);
            let n = match v {
                CgValue::Str(p) => {
                    let r2 = self.emit(Op::Call(Ty::Word, "zarrin.chars".to_owned(), vals1(p)), "len_call");
                    r2
                },
                _ => {
                    let p = self.value_to_ptr(v);
                    let r2 = self.emit(Op::Load(Ty::Word, p), "arr_len");
                    r2
                },
            };
            self.spend(v, &t, &args[0]);
            CgValue::Int(n)
        } else {
            CgValue::Int(Val::Word(0))
        };
        x
    }

    pub(crate) fn gen_to_string(&mut self, args: &Vec<Expr>) -> (r: CgValue)
        requires
            old(self).wf(),
        ensures
            final(self).wf(),
            stays_in(old(self)@, final(self)@),
            (final(self)@, r) == gen_to_string(old(self)@, exprs_view(args@)),
        decreases args, 1int, 0int,
    {
        assert(exprs_view(args@).len() == args@.len());
        let x = if args.len() >= 1 {
            assert(exprs_view(args@)[0] == args@[0]@);
            let t = self.known_type(&args[0]);
            let v = self.gen_expr(&args[0]);
            let y = match v {
                CgValue::Str(p) => {
                    self.own(v, &t, &args[0]);
                    p
                },
                CgValue::Float(f) => {
                    let r2 = self.gen_float_to_owned(f);
                    r2
                },
                CgValue::Int(word) => {
                    let r2 = self.gen_word_text(word, &t);
                    self.spend(v, &t, &args[0]);
                    r2
                },
            };
            CgValue::Str(y)
        } else {
            CgValue::Int(Val::Word(0))
        };
        x
    }

    pub(crate) fn gen_int_text(&mut self, args: &Vec<Expr>) -> (r: CgValue)
        requires
            old(self).wf(),
        ensures
            final(self).wf(),
            stays_in(old(self)@, final(self)@),
            (final(self)@, r) == gen_int_text(old(self)@, exprs_view(args@)),
        decreases args, 1int, 0int,
    {
        assert(exprs_view(args@).len() == args@.len());
        let x = if args.len() >= 1 {
            assert(exprs_view(args@)[0] == args@[0]@);
            let v = self.gen_expr(&args[0]);
            let word = self.value_to_int(v);
            let p = self.gen_int_to_str(word);
            CgValue::Str(p)
        } else {
            CgValue::Int(Val::Word(0))
        };
        x
    }

    pub(crate) fn gen_array_get(&mut self, args: &Vec<Expr>) -> (r: CgValue)
        requires
            old(self).wf(),
        ensures
            final(self).wf(),
            stays_in(old(self)@, final(self)@),
            (final(self)@, r) == gen_array_get(old(self)@, exprs_view(args@)),
        decreases args, 1int, 0int,
    {
        assert(exprs_view(args@).len() == args@.len());
        let x = if args.len() >= 2 {
            assert(exprs_view(args@)[0] == args@[0]@);
            assert(exprs_view(args@)[1] == args@[1]@);
            let t = self.known_type(&args[0]);
            let av = self.gen_expr(&args[0]);
            let iv = self.gen_expr(&args[1]);
            let p = self.value_to_ptr(av);
            let i = self.value_to_int(iv);
            let place = self.gen_element(p, i);
            let raw = self.emit(Op::Load(Ty::Word, place), "arr_elem");
            let v = self.typed_value(raw, &elem_type(&t));
            self.retain_value(v, &elem_type(&t));
            self.spend(av, &t, &args[0]);
            v
        } else {
            CgValue::Int(Val::Word(0))
        };
        x
    }

    pub(crate) fn gen_array_set(&mut self, args: &Vec<Expr>) -> (r: CgValue)
        requires
            old(self).wf(),
        ensures
            final(self).wf(),
            stays_in(old(self)@, final(self)@),
            (final(self)@, r) == gen_array_set(old(self)@, exprs_view(args@)),
        decreases args, 1int, 0int,
    {
        assert(exprs_view(args@).len() == args@.len());
        let x = if args.len() >= 3 {
            assert(exprs_view(args@)[0] == args@[0]@);
            assert(exprs_view(args@)[1] == args@[1]@);
            assert(exprs_view(args@)[2] == args@[2]@);
            let t = self.known_type(&args[0]);
            let nt = self.known_type(&args[2]);
            let av = self.gen_expr(&args[0]);
            let iv = self.gen_expr(&args[1]);
            let nv = self.gen_expr(&args[2]);
            let p = self.value_to_ptr(av);
            let i = self.value_to_int(iv);
            let old_place = self.gen_element(p, i);
            let buf = self.gen_copy_array(p, &elem_type(&t));
            let off = self.emit(Op::Arith(Arith::Add, i, Val::Word(1)), "elem_off");
            let place = self.emit(Op::Offset(Ty::Word, buf, off), "elem_ptr");
            self.release_word(place, &elem_type(&t));
            self.own(nv, &nt, &args[2]);
            let word = self.value_to_int(nv);
            let _ = self.emit(Op::Store(place, word), "");
            self.spend(av, &t, &args[0]);
            let all = self.emit(Op::Cast(Cast::PtrToWord, buf), "new_arr_ptr");
            CgValue::Int(all)
        } else {
            CgValue::Int(Val::Word(0))
        };
        x
    }

    pub(crate) fn gen_substring_call(&mut self, args: &Vec<Expr>) -> (r: CgValue)
        requires
            old(self).wf(),
        ensures
            final(self).wf(),
            stays_in(old(self)@, final(self)@),
            (final(self)@, r) == gen_substring_call(old(self)@, exprs_view(args@)),
        decreases args, 1int, 0int,
    {
        assert(exprs_view(args@).len() == args@.len());
        let x = if args.len() >= 3 {
            assert(exprs_view(args@)[0] == args@[0]@);
            assert(exprs_view(args@)[1] == args@[1]@);
            assert(exprs_view(args@)[2] == args@[2]@);
            let t = self.known_type(&args[0]);
            let sv = self.gen_expr(&args[0]);
            let bv = self.gen_expr(&args[1]);
            let ev = self.gen_expr(&args[2]);
            let p = self.value_to_ptr(sv);
            let from = self.value_to_int(bv);
            let to = self.value_to_int(ev);
            let r2 = self.gen_substring(p, from, to);
            self.spend(sv, &t, &args[0]);
            CgValue::Str(r2)
        } else {
            CgValue::Int(Val::Word(0))
        };
        x
    }

    pub(crate) fn gen_contains_call(&mut self, args: &Vec<Expr>) -> (r: CgValue)
        requires
            old(self).wf(),
        ensures
            final(self).wf(),
            stays_in(old(self)@, final(self)@),
            (final(self)@, r) == gen_contains_call(old(self)@, exprs_view(args@)),
        decreases args, 1int, 0int,
    {
        assert(exprs_view(args@).len() == args@.len());
        let x = if args.len() >= 2 {
            assert(exprs_view(args@)[0] == args@[0]@);
            assert(exprs_view(args@)[1] == args@[1]@);
            let t = self.known_type(&args[0]);
            let nt = self.known_type(&args[1]);
            let sv = self.gen_expr(&args[0]);
            let nv = self.gen_expr(&args[1]);
            let p = self.value_to_ptr(sv);
            let q = self.value_to_ptr(nv);
            let v = self.gen_contains(p, q);
            self.spend(sv, &t, &args[0]);
            self.spend(nv, &nt, &args[1]);
            v
        } else {
            CgValue::Int(Val::Word(0))
        };
        x
    }

    pub(crate) fn gen_split_call(&mut self, args: &Vec<Expr>) -> (r: CgValue)
        requires
            old(self).wf(),
        ensures
            final(self).wf(),
            stays_in(old(self)@, final(self)@),
            (final(self)@, r) == gen_split_call(old(self)@, exprs_view(args@)),
        decreases args, 1int, 0int,
    {
        assert(exprs_view(args@).len() == args@.len());
        let x = if args.len() >= 2 {
            assert(exprs_view(args@)[0] == args@[0]@);
            assert(exprs_view(args@)[1] == args@[1]@);
            let t = self.known_type(&args[0]);
            let nt = self.known_type(&args[1]);
            let sv = self.gen_expr(&args[0]);
            let nv = self.gen_expr(&args[1]);
            let p = self.value_to_ptr(sv);
            let q = self.value_to_ptr(nv);
            self.want_split();
            let word = self.emit(Op::Call(Ty::Word, "zarrin.split".to_owned(), vals2(p, q)), "split_call");
            self.spend(sv, &t, &args[0]);
            self.spend(nv, &nt, &args[1]);
            CgValue::Int(word)
        } else {
            CgValue::Int(Val::Word(0))
        };
        x
    }

    pub(crate) fn gen_trim_call(&mut self, args: &Vec<Expr>) -> (r: CgValue)
        requires
            old(self).wf(),
        ensures
            final(self).wf(),
            stays_in(old(self)@, final(self)@),
            (final(self)@, r) == gen_trim_call(old(self)@, exprs_view(args@)),
        decreases args, 1int, 0int,
    {
        assert(exprs_view(args@).len() == args@.len());
        let x = if args.len() >= 1 {
            assert(exprs_view(args@)[0] == args@[0]@);
            let t = self.known_type(&args[0]);
            let sv = self.gen_expr(&args[0]);
            let p = self.value_to_ptr(sv);
            let r2 = self.gen_trim(p);
            self.spend(sv, &t, &args[0]);
            CgValue::Str(r2)
        } else {
            CgValue::Int(Val::Word(0))
        };
        x
    }

    pub(crate) fn gen_char_at_call(&mut self, args: &Vec<Expr>) -> (r: CgValue)
        requires
            old(self).wf(),
        ensures
            final(self).wf(),
            stays_in(old(self)@, final(self)@),
            (final(self)@, r) == gen_char_at_call(old(self)@, exprs_view(args@)),
        decreases args, 1int, 0int,
    {
        assert(exprs_view(args@).len() == args@.len());
        let x = if args.len() >= 2 {
            assert(exprs_view(args@)[0] == args@[0]@);
            assert(exprs_view(args@)[1] == args@[1]@);
            let t = self.known_type(&args[0]);
            let sv = self.gen_expr(&args[0]);
            let iv = self.gen_expr(&args[1]);
            let p = self.value_to_ptr(sv);
            let i = self.value_to_int(iv);
            let r2 = self.gen_char_at(p, i);
            self.spend(sv, &t, &args[0]);
            CgValue::Str(r2)
        } else {
            CgValue::Int(Val::Word(0))
        };
        x
    }

    /// A call of a builtin.
    pub(crate) fn gen_builtin(&mut self, name: &str, args: &Vec<Expr>) -> (r: CgValue)
        requires
            old(self).wf(),
        ensures
            final(self).wf(),
            stays_in(old(self)@, final(self)@),
            (final(self)@, r) == gen_builtin(old(self)@, name@, exprs_view(args@)),
        decreases args, 2int, 0int,
    {
        if str_eq(name, "print") {
            self.gen_print(args)
        } else if str_eq(name, "panic") {
            self.gen_panic(args)
        } else if str_eq(name, "len") {
            self.gen_len(args)
        } else if str_eq(name, "to_string") {
            self.gen_to_string(args)
        } else if str_eq(name, "int_to_str") {
            self.gen_int_text(args)
        } else if str_eq(name, "substring") {
            self.gen_substring_call(args)
        } else if str_eq(name, "contains") {
            self.gen_contains_call(args)
        } else if str_eq(name, "split") {
            self.gen_split_call(args)
        } else if str_eq(name, "trim") {
            self.gen_trim_call(args)
        } else if str_eq(name, "char_at") {
            self.gen_char_at_call(args)
        } else if str_eq(name, "array_len") {
            self.gen_len(args)
        } else if str_eq(name, "array_get") {
            self.gen_array_get(args)
        } else {
            self.gen_array_set(args)
        }
    }
}

// ---- running the code that is made ----

/// Code for a plain expression adds to what is there, and leaves a word.
#[verifier::rlimit(50)]
pub proof fn lemma_plain_expression_adds(e: ExprV, s: CgV, m: MachineV, mem: Memory)
    requires
        plain(e),
        linked(e, s, m, mem),
        check_expr(e, s.types).0 is Ok,
    ensures
        adds(s, gen_expr(s, e).0),
        continues(s, gen_expr(s, e).0),
        gen_expr(s, e).1 is Int,
    decreases e,
{
    lemma_no_run(s, mem);
    match *e.kind {
        ExprKindV::Ident(name) => {
            let l = s.local(name)->Some_0;
            law_local_is_read(s, name, l.slot->Slot_0, mem, m.lookup(name)->Some_0);
        },
        ExprKindV::Binary(l, op, r) => {
            law_plain_types(e, s, m, mem);
            assert(check_expr(e, s.types) == check_binary(e, s.types));
            law_plain_types(*l, s, m, mem);
            law_plain_types(*r, s, m, mem);
            let lt = check_expr(*l, s.types).0->Ok_0;
            let rt = check_expr(*r, s.types).0->Ok_0;
            lemma_no_loop(*l);
            lemma_no_loop(*r);
            lemma_known_type(s, *l, lt);
            lemma_known_type(s, *r, rt);
            lemma_plain_expression_adds(*l, s, m, mem);
            let (s1, lv) = gen_expr(s, *l);
            lemma_linked_later(*r, s, s1, m, mem, mem);
            lemma_plain_expression_adds(*r, s1, m, mem);
            let (s2, rv) = gen_expr(s1, *r);
            lemma_adds_chain(s, s1, s2);
            let (s3, v) = gen_typed_operation(s2, lv, lt, op, rv, rt);
            lemma_typed_operation_adds(s2, lv->Int_0, lt, op, rv->Int_0, rt);
            lemma_adds_chain(s, s2, s3);
            lemma_spend_nothing(s3, lv, lt, *l);
            lemma_spend_nothing(s3, rv, rt, *r);
            assert(gen_expr(s, e) == (s3, v));
        },
        ExprKindV::Unary(op, x) => {
            assert(check_expr(e, s.types) == check_unary(e, s.types));
            lemma_plain_expression_adds(*x, s, m, mem);
            let (s1, av) = gen_expr(s, *x);
            lemma_unary_op_adds(s1, op, av->Int_0);
            lemma_adds_chain(s, s1, gen_unary_op(s1, op, av).0);
            assert(gen_expr(s, e) == gen_unary_op(s1, op, av));
        },
        _ => {},
    }
}

/// The code for a plain expression leaves the word for its value, or stops the
/// program with the message that it fails with.
pub proof fn law_plain_expression_compiles(e: ExprV, s: CgV, m: MachineV, mem: Memory) -> (after:
    Memory)
    requires
        plain(e),
        linked(e, s, m, mem),
        check_expr(e, s.types).0 is Ok,
        open_here(s),
        countable(gen_expr(s, e).0),
    ensures
        match worth(e, m) {
            Ok(v) => gives(s, gen_expr(s, e).0, gen_expr(s, e).1, mem, after, v),
            Err(x) => stops(s, gen_expr(s, e).0, mem, x),
        },
    decreases e, 1int,
{
    match *e.kind {
        ExprKindV::Ident(name) => {
            let l = s.local(name)->Some_0;
            law_local_is_read(s, name, l.slot->Slot_0, mem, m.lookup(name)->Some_0)
        },
        ExprKindV::Binary(_, _, _) => lemma_plain_binary_compiles(e, s, m, mem),
        ExprKindV::Unary(_, _) => lemma_plain_unary_compiles(e, s, m, mem),
        _ => {
            lemma_no_run(s, mem);
            mem
        },
    }
}

#[verifier::rlimit(50)]
proof fn lemma_plain_binary_compiles(e: ExprV, s: CgV, m: MachineV, mem: Memory) -> (after: Memory)
    requires
        *e.kind is Binary,
        plain(e),
        linked(e, s, m, mem),
        check_expr(e, s.types).0 is Ok,
        open_here(s),
        countable(gen_expr(s, e).0),
    ensures
        match worth(e, m) {
            Ok(v) => gives(s, gen_expr(s, e).0, gen_expr(s, e).1, mem, after, v),
            Err(x) => stops(s, gen_expr(s, e).0, mem, x),
        },
    decreases e, 0int,
{
    let l = *(*e.kind)->Binary_0;
    let op = (*e.kind)->Binary_1;
    let r = *(*e.kind)->Binary_2;
    law_plain_types(e, s, m, mem);
    assert(check_expr(e, s.types) == check_binary(e, s.types));
    law_plain_types(l, s, m, mem);
    law_plain_types(r, s, m, mem);
    let lt = check_expr(l, s.types).0->Ok_0;
    let rt = check_expr(r, s.types).0->Ok_0;
    assert(compat(lt, rt));
    let (s1, lv) = gen_expr(s, l);
    let (s2, rv) = gen_expr(s1, r);
    let (s3, v) = gen_typed_operation(s2, lv, lt, op, rv, rt);
    assert(gen_expr(s, e) == (s3, v)) by {
        lemma_no_loop(l);
        lemma_no_loop(r);
        lemma_known_type(s, l, lt);
        lemma_known_type(s, r, rt);
        lemma_spend_nothing(s3, lv, lt, l);
        lemma_spend_nothing(s3, rv, rt, r);
    }
    assert(adds(s, s1) && lv is Int) by {
        lemma_plain_expression_adds(l, s, m, mem);
    }
    assert(adds(s1, s2) && rv is Int) by {
        lemma_linked_later(r, s, s1, m, mem, mem);
        lemma_plain_expression_adds(r, s1, m, mem);
    }
    assert(adds(s2, s3)) by {
        lemma_typed_operation_adds(s2, lv->Int_0, lt, op, rv->Int_0, rt);
    }
    lemma_adds_chain(s1, s2, s3);
    let m1 = law_plain_expression_compiles(l, s, m, mem);
    match worth(l, m) {
        Err(x) => {
            lemma_stopped_then(s, s1, s3, mem, x);
            m1
        },
        Ok(a) => {
            lemma_linked_later(r, s, s1, m, mem, m1);
            let m2 = law_plain_expression_compiles(r, s1, m, m1);
            lemma_then(s, s1, s2, mem, m1);
            match worth(r, m) {
                Err(x) => {
                    lemma_stopped_then(s, s2, s3, mem, x);
                    m2
                },
                Ok(b) => lemma_plain_operands(s, s1, s2, lv->Int_0, op, rv->Int_0, mem, m1, m2, a, b),
            }
        },
    }
}

/// Both operands are there, and the operation follows.
#[verifier::rlimit(50)]
proof fn lemma_plain_operands(
    s: CgV,
    s1: CgV,
    s2: CgV,
    l: Val,
    op: BinOp,
    r: Val,
    mem: Memory,
    m1: Memory,
    m2: Memory,
    a: ValueV,
    b: ValueV,
) -> (after: Memory)
    requires
        gives(s, s1, CgValue::Int(l), mem, m1, a),
        gives(s1, s2, CgValue::Int(r), m1, m2, b),
        (a is Int && b is Int) || (a is Bool && b is Bool),
        countable(
            gen_typed_operation(
                s2,
                CgValue::Int(l),
                plain_type(a),
                op,
                CgValue::Int(r),
                plain_type(b),
            ).0,
        ),
    ensures
        ({
            let t = gen_typed_operation(
                s2,
                CgValue::Int(l),
                plain_type(a),
                op,
                CgValue::Int(r),
                plain_type(b),
            );
            match of_outcome(binop_result(a, op, b)) {
                Ok(v) => gives(s, t.0, t.1, mem, after, v),
                Err(x) => stops(s, t.0, mem, x),
            }
        }),
{
    let n = s.m.func.insts.len() as int;
    let n1 = s1.m.func.insts.len() as int;
    let n2 = s2.m.func.insts.len() as int;
    lemma_kept_word(m1, m2, l, n1);
    lemma_then(s, s1, s2, mem, m1);
    let t = gen_typed_operation(
        s2,
        CgValue::Int(l),
        plain_type(a),
        op,
        CgValue::Int(r),
        plain_type(b),
    );
    let m3 = law_operation(s2, l, op, r, m2, a, b);
    lemma_then(s, s2, t.0, mem, m2);
    lemma_keeps_chain(mem, m1, m2, n, n1);
    if of_outcome(binop_result(a, op, b)) is Ok {
        lemma_keeps_chain(mem, m2, m3, n, n2);
    }
    m3
}

#[verifier::rlimit(50)]
proof fn lemma_plain_unary_compiles(e: ExprV, s: CgV, m: MachineV, mem: Memory) -> (after: Memory)
    requires
        *e.kind is Unary,
        plain(e),
        linked(e, s, m, mem),
        check_expr(e, s.types).0 is Ok,
        open_here(s),
        countable(gen_expr(s, e).0),
    ensures
        match worth(e, m) {
            Ok(v) => gives(s, gen_expr(s, e).0, gen_expr(s, e).1, mem, after, v),
            Err(x) => stops(s, gen_expr(s, e).0, mem, x),
        },
    decreases e, 0int,
{
    let op = (*e.kind)->Unary_0;
    let x = *(*e.kind)->Unary_1;
    assert(check_expr(e, s.types) == check_unary(e, s.types));
    law_plain_types(x, s, m, mem);
    let (s1, av) = gen_expr(s, x);
    let (s2, v) = gen_unary_op(s1, op, av);
    assert(gen_expr(s, e) == (s2, v));
    assert(adds(s, s1) && av is Int) by {
        lemma_plain_expression_adds(x, s, m, mem);
    }
    assert(adds(s1, s2)) by {
        lemma_unary_op_adds(s1, op, av->Int_0);
    }
    let m1 = law_plain_expression_compiles(x, s, m, mem);
    match worth(x, m) {
        Err(message) => {
            lemma_stopped_then(s, s1, s2, mem, message);
            m1
        },
        Ok(a) => {
            let m2 = law_unary_operation(s1, op, av->Int_0, m1, a);
            lemma_then(s, s1, s2, mem, m1);
            if unop_result(op, a) is Done {
                lemma_keeps_chain(
                    mem,
                    m1,
                    m2,
                    s.m.func.insts.len() as int,
                    s1.m.func.insts.len() as int,
                );
            }
            m2
        },
    }
}

/// A plain expression is no loop.
proof fn lemma_no_loop(e: ExprV)
    requires
        plain(e),
    ensures
        !valueless(e),
{
}

/// The code for a call of `print`.
pub proof fn lemma_print_call(s: CgV, e: ExprV, x: ExprV)
    requires
        prints(e),
        *e.kind matches ExprKindV::Call(_, args) && args == seq![x],
    ensures
        gen_expr(s, e) == ({
            let (s1, mark) = stack_mark(s);
            let (s2, t) = known_type(s1.set_transient(true), x);
            let (s3, v) = gen_expr(s2, x);
            let s4 = spend(print_value(s3, v, t), v, t, x);
            (
                stack_release(s4.set_transient(s.transient), mark),
                CgValue::Int(Val::Word(0)),
            )
        }),
{
    let args = (*e.kind)->Call_1;
    assert(args[0] == x);
    assert(gen_print(s, args) == ({
        let (s1, mark) = stack_mark(s);
        let (s2, t) = known_type(s1.set_transient(true), x);
        let (s3, v) = gen_expr(s2, x);
        let s4 = spend(print_value(s3, v, t), v, t, x);
        (stack_release(s4.set_transient(s.transient), mark), CgValue::Int(Val::Word(0)))
    }));
    assert(gen_builtin(s, "print"@, args) == gen_print(s, args));
    assert(gen_named_call(s, "print"@, args) == gen_builtin(s, "print"@, args));
    assert(gen_call(s, e) == gen_named_call(s, "print"@, args));
}

// ---- indexing ----

/// The state in which the two operands of an index are known, and the operands.
pub open spec fn index_operands(s: CgV, e: ExprV) -> (CgV, CgValue, CgValue) {
    match *e.kind {
        ExprKindV::Index(a, idx) => {
            let s1 = known_type(s, *a).0;
            let s2 = known_type(s1, e).0;
            let (s3, av) = gen_expr(s2, *a);
            let (s4, iv) = gen_expr(s3, *idx);
            (s4, av, iv)
        },
        _ => (s, CgValue::Int(Val::Word(0)), CgValue::Int(Val::Word(0))),
    }
}

/// The same of `array_get` and, with the new element, of `array_set`.
pub open spec fn get_operands(s: CgV, args: Seq<ExprV>) -> (CgV, CgValue, CgValue) {
    let s1 = known_type(s, args[0]).0;
    let (s2, av) = gen_expr(s1, args[0]);
    let (s3, iv) = gen_expr(s2, args[1]);
    (s3, av, iv)
}

pub open spec fn set_operands(s: CgV, args: Seq<ExprV>) -> (CgV, CgValue, CgValue) {
    let s1 = known_type(s, args[0]).0;
    let s2 = known_type(s1, args[2]).0;
    let (s3, av) = gen_expr(s2, args[0]);
    let (s4, iv) = gen_expr(s3, args[1]);
    (gen_expr(s4, args[2]).0, av, iv)
}

/// The state in which the address of the element is known, and that address.
pub open spec fn element_found(s: CgV, av: CgValue, iv: CgValue) -> (CgV, Val) {
    let (s, p) = s.emit(OpV::Cast(Cast::WordToPtr, av->Int_0), "as_ptr"@);
    gen_element(s, p, iv->Int_0)
}

/// The operands of an index are known: an array of `n` elements at an address, and an
/// index.
pub open spec fn operands_known(
    s: CgV,
    av: CgValue,
    iv: CgValue,
    mem: Memory,
    p: i64,
    i: i64,
    n: i64,
) -> bool {
    &&& open_here(s)
    &&& av is Int
    &&& iv is Int
    &&& operand(mem, av->Int_0) == Some(Datum::Word(p))
    &&& operand(mem, iv->Int_0) == Some(Datum::Word(i))
    &&& settled(av->Int_0, s.m.func.insts.len() as int)
    &&& settled(iv->Int_0, s.m.func.insts.len() as int)
    &&& array_at(mem, p, n)
}

proof fn lemma_element_found(
    s: CgV,
    av: CgValue,
    iv: CgValue,
    mem: Memory,
    p: i64,
    i: i64,
    n: i64,
) -> (after: Memory)
    requires
        operands_known(s, av, iv, mem, p, i, n),
        countable(element_found(s, av, iv).0),
    ensures
        adds(s, element_found(s, av, iv).0),
        0 <= i < n ==> {
            &&& runs(s, element_found(s, av, iv).0, mem, after)
            &&& keeps(mem, after, s.m.func.insts.len() as int)
            &&& operand(after, element_found(s, av, iv).1) == Some(
                Datum::Word((p + 8 * (i + 1)) as i64),
            )
            &&& after.heap.contains_key(p + 8 * (i + 1))
            &&& element_found(s, av, iv).1 is Reg
        },
        !(0 <= i < n) ==> stops_with(
            s,
            element_found(s, av, iv).0,
            mem,
            out_of_bounds("array"@),
            i,
            n,
        ),
{
    let k = s.m.func.insts.len() as int;
    let op = OpV::Cast(Cast::WordToPtr, av->Int_0);
    lemma_emit(s, op, "as_ptr"@, mem);
    let (s1, q) = s.emit(op, "as_ptr"@);
    let mem1 = given(mem, k, Datum::Word(p));
    let t = element_found(s, av, iv).0;
    lemma_element_adds(s1, q, iv->Int_0);
    assert(s1.m.func.insts.len() <= t.m.func.insts.len());
    assert(q == Val::Reg(k as usize));
    assert(operand(mem1, iv->Int_0) == Some(Datum::Word(i)));
    assert(array_at(mem1, p, n));
    let after = law_element(s1, q, iv->Int_0, mem1, p, i, n);
    lemma_then(s, s1, t, mem, mem1);
    lemma_adds_chain(s, s1, t);
    law_code_follows_code(s, s1, t, mem);
    after
}

/// The code of an index expression `a[i]` reads an element if and only if the index lies
/// within the array; it reads that element and nothing outside the array. Elsewhere the
/// program stops with the message that speaks of the index and of the length.
pub proof fn law_index(e: ExprV, s: CgV, mem: Memory, known: Memory, p: i64, i: i64, n: i64) -> (
    after: Memory)
    requires
        *e.kind is Index,
        runs(s, index_operands(s, e).0, mem, known),
        operands_known(
            index_operands(s, e).0,
            index_operands(s, e).1,
            index_operands(s, e).2,
            known,
            p,
            i,
            n,
        ),
        countable(gen_index(s, e).0),
    ensures
        ({
            let (s1, av, iv) = index_operands(s, e);
            let (s2, place) = element_found(s1, av, iv);
            let s3 = s2.emit(OpV::Load(Ty::Word, place), "arr_elem"@).0;
            &&& adds(s3, gen_index(s, e).0)
            &&& 0 <= i < n ==> runs(s, s3, mem, after) && after.regs.contains_key(
                s2.m.func.insts.len() as int,
            ) && after.regs[s2.m.func.insts.len() as int] == Datum::Word(
                known.heap[p + 8 * (i + 1)],
            )
            &&& !(0 <= i < n) ==> stops_with(
                s,
                gen_index(s, e).0,
                mem,
                out_of_bounds("array"@),
                i,
                n,
            )
        }),
{
    let (s1, av, iv) = index_operands(s, e);
    let a = (*e.kind)->Index_0;
    let idx = (*e.kind)->Index_1;
    let (x1, at_) = known_type(s, *a);
    let (x2, et) = known_type(x1, e);
    lemma_values_add(s1, av, Val::Null, et, ""@);
    let (s1p, q) = value_to_ptr(s1, av);
    lemma_values_add(s1p, iv, Val::Null, et, ""@);
    let (s2, place) = element_found(s1, av, iv);
    let load = OpV::Load(Ty::Word, place);
    let (s3, raw) = s2.emit(load, "arr_elem"@);
    let (s4, v) = typed_value(s3, raw, et);
    lemma_values_add(s3, av, raw, et, ""@);
    lemma_owners_add(s4, v, et, *a);
    let s5 = retain_value(s4, v, et);
    lemma_owners_add(s5, av, at_, *a);
    let t = gen_index(s, e).0;
    lemma_adds_chain(s3, s4, s5);
    lemma_adds_chain(s3, s5, spend(s5, av, at_, *a));
    assert(adds(s3, t));
    lemma_load_ends(s, s1, av, iv, t, mem, known, p, i, n)
}

proof fn lemma_load_ends(
    s: CgV,
    s1: CgV,
    av: CgValue,
    iv: CgValue,
    t: CgV,
    mem: Memory,
    known: Memory,
    p: i64,
    i: i64,
    n: i64,
) -> (after: Memory)
    requires
        runs(s, s1, mem, known),
        operands_known(s1, av, iv, known, p, i, n),
        countable(t),
        ({
            let (s2, place) = element_found(s1, av, iv);
            adds(s2.emit(OpV::Load(Ty::Word, place), "arr_elem"@).0, t)
        }),
    ensures
        ({
            let (s2, place) = element_found(s1, av, iv);
            let s3 = s2.emit(OpV::Load(Ty::Word, place), "arr_elem"@).0;
            &&& 0 <= i < n ==> runs(s, s3, mem, after) && after.regs.contains_key(
                s2.m.func.insts.len() as int,
            ) && after.regs[s2.m.func.insts.len() as int] == Datum::Word(
                known.heap[p + 8 * (i + 1)],
            )
            &&& !(0 <= i < n) ==> stops_with(s, t, mem, out_of_bounds("array"@), i, n)
        }),
{
    let (s2, place) = element_found(s1, av, iv);
    let load = OpV::Load(Ty::Word, place);
    let s3 = s2.emit(load, "arr_elem"@).0;
    lemma_emit(s2, load, "arr_elem"@, known);
    assert(s2.m.func.insts.len() <= s3.m.func.insts.len());
    assert(countable(s2));
    let found = lemma_element_found(s1, av, iv, known, p, i, n);
    lemma_then(s, s1, s2, mem, known);
    law_code_follows_code(s, s1, s2, mem);
    if 0 <= i < n {
        lemma_emit(s2, load, "arr_elem"@, found);
        assert(found.heap == known.heap);
        let d = Datum::Word(known.heap[p + 8 * (i + 1)]);
        assert(computed(load, found) == Some(d));
        let after = given(found, s2.m.func.insts.len() as int, d);
        lemma_then(s, s2, s3, mem, found);
        after
    } else {
        lemma_adds_chain(s2, s3, t);
        law_code_follows_code(s, s2, t, mem);
        mem
    }
}

/// The same of `array_get`.
pub proof fn law_array_get(
    args: Seq<ExprV>,
    s: CgV,
    mem: Memory,
    known: Memory,
    p: i64,
    i: i64,
    n: i64,
) -> (after: Memory)
    requires
        args.len() >= 2,
        runs(s, get_operands(s, args).0, mem, known),
        operands_known(
            get_operands(s, args).0,
            get_operands(s, args).1,
            get_operands(s, args).2,
            known,
            p,
            i,
            n,
        ),
        countable(gen_array_get(s, args).0),
    ensures
        ({
            let (s1, av, iv) = get_operands(s, args);
            let (s2, place) = element_found(s1, av, iv);
            let s3 = s2.emit(OpV::Load(Ty::Word, place), "arr_elem"@).0;
            &&& adds(s3, gen_array_get(s, args).0)
            &&& 0 <= i < n ==> runs(s, s3, mem, after) && after.regs.contains_key(
                s2.m.func.insts.len() as int,
            ) && after.regs[s2.m.func.insts.len() as int] == Datum::Word(
                known.heap[p + 8 * (i + 1)],
            )
            &&& !(0 <= i < n) ==> stops_with(
                s,
                gen_array_get(s, args).0,
                mem,
                out_of_bounds("array"@),
                i,
                n,
            )
        }),
{
    let (s1, av, iv) = get_operands(s, args);
    let t0 = known_type(s, args[0]).1;
    let et = elem_of(t0);
    lemma_values_add(s1, av, Val::Null, et, ""@);
    let s1p = value_to_ptr(s1, av).0;
    lemma_values_add(s1p, iv, Val::Null, et, ""@);
    let (s2, place) = element_found(s1, av, iv);
    let (s3, raw) = s2.emit(OpV::Load(Ty::Word, place), "arr_elem"@);
    let (s4, v) = typed_value(s3, raw, et);
    lemma_values_add(s3, av, raw, et, ""@);
    lemma_owners_add(s4, v, et, args[0]);
    let s5 = retain_value(s4, v, et);
    lemma_owners_add(s5, av, t0, args[0]);
    let t = gen_array_get(s, args).0;
    lemma_adds_chain(s3, s4, s5);
    lemma_adds_chain(s3, s5, t);
    lemma_load_ends(s, s1, av, iv, t, mem, known, p, i, n)
}

/// The same of `array_set`, which goes on to the copy that it changes.
pub proof fn law_array_set(
    args: Seq<ExprV>,
    s: CgV,
    mem: Memory,
    known: Memory,
    p: i64,
    i: i64,
    n: i64,
) -> (after: Memory)
    requires
        args.len() >= 3,
        runs(s, set_operands(s, args).0, mem, known),
        operands_known(
            set_operands(s, args).0,
            set_operands(s, args).1,
            set_operands(s, args).2,
            known,
            p,
            i,
            n,
        ),
        countable(gen_array_set(s, args).0),
    ensures
        ({
            let (s1, av, iv) = set_operands(s, args);
            let (s2, place) = element_found(s1, av, iv);
            &&& adds(s2, gen_array_set(s, args).0)
            &&& 0 <= i < n ==> runs(s, s2, mem, after)
            &&& !(0 <= i < n) ==> stops_with(
                s,
                gen_array_set(s, args).0,
                mem,
                out_of_bounds("array"@),
                i,
                n,
            )
        }),
{
    let (s1, av, iv) = set_operands(s, args);
    let (x1, t0) = known_type(s, args[0]);
    let (x2, nt) = known_type(x1, args[2]);
    let nv = gen_expr(gen_expr(gen_expr(x2, args[0]).0, args[1]).0, args[2]).1;
    let et = elem_of(t0);
    lemma_values_add(s1, av, Val::Null, et, ""@);
    let (s1p, q) = value_to_ptr(s1, av);
    lemma_values_add(s1p, iv, Val::Null, et, ""@);
    let (s2, _) = element_found(s1, av, iv);
    lemma_copy_adds(s2, q, et);
    let (c1, buf) = gen_copy_array(s2, q, et);
    let op1 = OpV::Arith(Arith::Add, iv->Int_0, Val::Word(1));
    lemma_emit(c1, op1, "elem_off"@, mem);
    let (c2, off) = c1.emit(op1, "elem_off"@);
    let op2 = OpV::Offset(Ty::Word, buf, off);
    lemma_emit(c2, op2, "elem_ptr"@, mem);
    let (c3, place) = c2.emit(op2, "elem_ptr"@);
    lemma_values_add(c3, nv, place, et, ""@);
    let c4 = release_word(c3, place, et);
    lemma_owners_add(c4, nv, nt, args[2]);
    let c5 = own(c4, nv, nt, args[2]);
    lemma_values_add(c5, nv, place, et, ""@);
    let (c6, word) = value_to_int(c5, nv);
    let op3 = OpV::Store(place, word);
    lemma_emit(c6, op3, ""@, mem);
    let c7 = c6.emit(op3, ""@).0;
    lemma_owners_add(c7, av, t0, args[0]);
    let c8 = spend(c7, av, t0, args[0]);
    let op4 = OpV::Cast(Cast::PtrToWord, buf);
    lemma_emit(c8, op4, "new_arr_ptr"@, mem);
    let t = c8.emit(op4, "new_arr_ptr"@).0;
    assert(t == gen_array_set(s, args).0);
    lemma_adds_chain(s2, c1, c2);
    lemma_adds_chain(s2, c2, c3);
    lemma_adds_chain(s2, c3, c4);
    lemma_adds_chain(s2, c4, c5);
    lemma_adds_chain(s2, c5, c6);
    lemma_adds_chain(s2, c6, c7);
    lemma_adds_chain(s2, c7, c8);
    lemma_adds_chain(s2, c8, t);
    let after = lemma_element_found(s1, av, iv, known, p, i, n);
    lemma_then(s, s1, s2, mem, known);
    law_code_follows_code(s, s1, s2, mem);
    law_code_follows_code(s, s2, t, mem);
    after
}

/// A call of a function that has no parameters and gives nothing.
pub proof fn lemma_bare_call(s: CgV, name: Seq<char>)
    requires
        fn_ret(s.types, name) == Some(TypeV::Unit),
    ensures
        gen_fn_call(s, name, Seq::empty()).0 == s.emit(
            OpV::Run("zr."@ + name, Seq::empty()),
            ""@,
        ).0,
{
}

// ---- methods of `Option` and `Result` ----

/// The code of a method call up to its receiver, the value of the receiver, and the types
/// of the receiver and of the call.
pub open spec fn receiver(s: CgV, e: ExprV) -> (CgV, CgValue, TypeV, TypeV) {
    match *e.kind {
        ExprKindV::MethodCall(obj, method, args) => {
            let (s1, ot) = known_type(s, *obj);
            let (s2, rt) = known_type(s1, e);
            let (s3, ov) = gen_expr(s2, *obj);
            (s3, ov, ot, rt)
        },
        _ => (s, CgValue::Int(Val::Word(0)), TypeV::Inferred, TypeV::Inferred),
    }
}

/// A call of `is_some`, `is_none`, `is_ok` or `is_err` on an `Option` or a `Result`
/// compiles to code that computes what the interpreter gives of the same receiver, and
/// then lets go of the receiver.
pub proof fn law_wrapper_call(
    e: ExprV,
    s: CgV,
    mem: Memory,
    known: Memory,
    w: Val,
    p: i64,
    v: VariantV,
    args: Seq<ValueV>,
) -> (after: Memory)
    requires
        *e.kind is MethodCall,
        asks((*e.kind)->MethodCall_1),
        runs(s, receiver(s, e).0, mem, known),
        receiver(s, e).1 == CgValue::Int(w),
        receiver(s, e).2 is Named && receiver(s, e).2->Named_0 == v.enum_name,
        holds_word(receiver(s, e).0, known, w, p),
        wrapper_at(known, p, v),
        countable(gen_expr(s, e).0),
    ensures
        ({
            let (s1, ov, ot, rt) = receiver(s, e);
            let method = (*e.kind)->MethodCall_1;
            let (s2, r) = gen_wrapper_method(s1, ov, ot, method, rt);
            &&& gen_expr(s, e).1 == r
            &&& runs(s, s2, mem, after)
            &&& adds(s2, gen_expr(s, e).0)
            &&& r matches CgValue::Int(x) && operand(after, x) == Some(
                Datum::Word(word_of(ValueV::Bool(asked(v.name, method)))),
            )
            &&& builtin_call(
                ValueV::EnumVariant { enum_name: v.enum_name, variant: v.name, args },
                method,
            ) == Some(Ok::<ValueV, Seq<char>>(ValueV::Bool(asked(v.name, method))))
        }),
{
    let (s1, ov, ot, rt) = receiver(s, e);
    let method = (*e.kind)->MethodCall_1;
    let obj = (*e.kind)->MethodCall_0;
    law_wrapper_tags(v);
    assert(is_wrapper(ot, method));
    let (s2, r) = gen_wrapper_method(s1, ov, ot, method, rt);
    lemma_owners_add(s2, ov, ot, *obj);
    let t = spend(s2, ov, ot, *obj);
    assert(gen_expr(s, e) == gen_method(s, e));
    assert(gen_method(s, e) == (t, r));
    assert(s2.m.func.insts.len() <= t.m.func.insts.len());
    let after = law_wrapper_truth(s1, w, ot, method, rt, known, p, v, args);
    lemma_then(s, s1, s2, mem, known);
    after
}

// ---- patterns, arguments and parts of values in native code ----

/// `_` and a name take any value: nothing is tested.
pub proof fn law_any_pattern_code(s: CgV, p: PatternV, word: Val, ty: TypeV, fail: usize)
    requires
        p is Wildcard || p is Variable,
    ensures
        test_pattern(s, p, word, ty, fail) == s,
{
}

/// A block that code can still go to, and that is not the current one.
pub open spec fn awaits(s: CgV, fail: usize) -> bool {
    &&& fail != s.m.at
    &&& fail < s.m.func.blocks.len()
    &&& is_fresh(s.m.func.insts, fail, s.m.func.insts.len() as int)
}

proof fn lemma_still_awaits(s: CgV, t: CgV, fail: usize)
    requires
        awaits(s, fail),
        open_here(s),
        open_here(t),
        adds(s, t),
        t.m.at == s.m.at,
        t.m.func.blocks.len() >= s.m.func.blocks.len(),
        forall|i: int|
            s.m.func.insts.len() <= i < t.m.func.insts.len() ==> (#[trigger] t.m.func.insts[i]).block
                == s.m.at,
    ensures
        awaits(t, fail),
{
    let insts = t.m.func.insts;
    assert forall|i: int| 0 <= i < insts.len() implies (#[trigger] insts[i]).block != fail by {
        if i < s.m.func.insts.len() {
            assert(insts[i] == s.m.func.insts[i]);
        }
    }
}

/// The test of a value against an integer or a truth value goes on if and only if they
/// are the same, and to the next alternative elsewhere.
pub proof fn law_literal_pattern_code(
    s: CgV,
    e: ExprV,
    word: Val,
    ty: TypeV,
    fail: usize,
    mem: Memory,
    x: i64,
) -> (after: Memory)
    requires
        *e.kind is Int || *e.kind is Bool,
        open_here(s),
        countable(test_pattern(s, PatternV::Literal(e), word, ty, fail)),
        awaits(s, fail),
        holds_word(s, mem, word, x),
    ensures
        ({
            let t = test_pattern(s, PatternV::Literal(e), word, ty, fail);
            let same = match *e.kind {
                ExprKindV::Int(n) => x == n,
                ExprKindV::Bool(b) => x == word_of(ValueV::Bool(b)),
                _ => false,
            };
            &&& adds(s, t)
            &&& open_here(t)
            &&& t.m.at != fail
            &&& code_between(s, t, mem) == Outcome::Reached(
                if same {
                    t.m.at
                } else {
                    fail
                },
                after,
            )
        }),
{
    let n: i64 = match *e.kind {
        ExprKindV::Int(n) => n,
        ExprKindV::Bool(b) => word_of(ValueV::Bool(b)),
        _ => 0,
    };
    let lit = Val::Word(n);
    assert(gen_expr(s, e) == (s, CgValue::Int(lit)));
    let (s1, c) = gen_same(s, word, CgValue::Int(lit));
    let t = unless(s1, c, fail);
    assert(test_pattern(s, PatternV::Literal(e), word, ty, fail) == t);
    lemma_same_code(s, word, lit);
    lemma_unless_grows(s1, c, fail);
    let after = law_literal_is_compared(s, word, lit, mem, x, n);
    lemma_still_awaits(s, s1, fail);
    law_unless(s1, c, fail, after, x == n);
    law_code_follows_code(s, s1, t, mem);
    after
}

proof fn lemma_same_code(s: CgV, word: Val, lit: Val)
    requires
        open_here(s),
    ensures
        ({
            let t = gen_same(s, word, CgValue::Int(lit)).0;
            &&& t.m.func.insts.len() == s.m.func.insts.len() + 1
            &&& t.m.func.insts[s.m.func.insts.len() as int].block == s.m.at
            &&& t.m.texts == s.m.texts
            &&& t.m.func.blocks == s.m.func.blocks
        }),
{
    lemma_compare_code(s, word, lit);
}

/// The test of a value against a variant that carries nothing goes on if and only if the
/// value has the variant's tag, and to the next alternative elsewhere.
pub proof fn law_variant_pattern_code(
    s: CgV,
    p: PatternV,
    name: Seq<char>,
    v: VariantV,
    word: Val,
    ty: TypeV,
    fail: usize,
    mem: Memory,
    q: i64,
    tag: i64,
) -> (after: Memory)
    requires
        p == (PatternV::EnumVariant { name, inner: Seq::empty() }),
        lookup_v(s.types.variants, name) == LookupV::Unique(v),
        0 <= v.tag <= i64::MAX,
        open_here(s),
        countable(test_pattern(s, p, word, ty, fail)),
        awaits(s, fail),
        holds_word(s, mem, word, q),
        if v.enum_has_payload {
            mem.heap.contains_key(q as int) && mem.heap[q as int] == tag
        } else {
            q == tag
        },
    ensures
        ({
            let t = test_pattern(s, p, word, ty, fail);
            &&& adds(s, t)
            &&& open_here(t)
            &&& t.m.at != fail
            &&& code_between(s, t, mem) == Outcome::Reached(
                if tag == v.tag {
                    t.m.at
                } else {
                    fail
                },
                after,
            )
        }),
{
    let (s1, r) = gen_tag(s, word, v.enum_has_payload);
    let op = OpV::Compare(Cond::Eq, r, tag_val(v));
    let (s2, c) = s1.emit(op, "match_cmp"@);
    let t = unless(s2, c, fail);
    assert(test_patterns(t, Seq::<PatternV>::empty(), payload_types(v, ty), word, fail, 0) == t);
    assert(test_pattern(s, p, word, ty, fail) == t);
    lemma_tag_code(s, word, v.enum_has_payload);
    lemma_emit(s1, op, "match_cmp"@, mem);
    lemma_blocks(s1, op, "match_cmp"@, 0, arbitrary());
    lemma_unless_grows(s2, c, fail);
    let mem1 = law_tag_is_read(s, word, v.enum_has_payload, mem, q, tag);
    lemma_emit(s1, op, "match_cmp"@, mem1);
    let k = s1.m.func.insts.len() as int;
    let mem2 = given(mem1, k, Datum::Truth(tag == v.tag as i64));
    assert(computed(op, mem1) == Some(Datum::Truth(tag == v.tag as i64)));
    lemma_then(s, s1, s2, mem, mem1);
    lemma_adds_chain(s, s1, s2);
    lemma_still_awaits(s, s2, fail);
    law_unless(s2, c, fail, mem2, tag == v.tag as i64);
    law_code_follows_code(s, s2, t, mem);
    mem2
}

/// The patterns for what a variant carries are tested one by one, each against the word
/// at its place behind the tag.
pub proof fn law_payload_is_tested(
    s: CgV,
    ps: Seq<PatternV>,
    payload: Seq<TypeV>,
    word: Val,
    fail: usize,
    i: int,
)
    requires
        0 <= i < ps.len(),
        ps.len() == payload.len(),
    ensures
        ({
            let (s1, p) = s.emit(OpV::Cast(Cast::WordToPtr, word), "enum_ptr"@);
            let (s2, raw) = load_word(s1, p, i + 1);
            &&& test_patterns(s, ps, payload, word, fail, i) == test_patterns(
                test_pattern(s2, ps[i], raw, payload[i], fail),
                ps,
                payload,
                word,
                fail,
                i + 1,
            )
            &&& bind_patterns(s, ps, payload, word, i) == bind_patterns(
                bind_pattern(s2, ps[i], raw, payload[i]),
                ps,
                payload,
                word,
                i + 1,
            )
        }),
{
}

/// A name in a pattern becomes a local that holds the word it stands for.
pub proof fn law_name_is_bound_code(s: CgV, name: Seq<char>, word: Val, ty: TypeV)
    requires
        ty is Int || ty is Bool,
    ensures
        bind_pattern(s, PatternV::Variable(name), word, ty) == bind_local(
            s,
            name,
            ty,
            CgValue::Int(word),
        ),
{
    lemma_word_kept(s, word);
    lemma_retain_nothing(s, CgValue::Int(word), ty);
}

/// The state of code generation before the `k`th argument of a call.
pub open spec fn before_arg(s: CgV, args: Seq<ExprV>, k: int) -> CgV
    decreases k,
{
    if k <= 0 {
        s
    } else {
        let (s1, v) = gen_expr(before_arg(s, args, k - 1), args[k - 1]);
        value_to_int(s1, v).0
    }
}

/// The word of the `k`th argument.
pub open spec fn arg_word(s: CgV, args: Seq<ExprV>, k: int) -> Val {
    let (s1, v) = gen_expr(before_arg(s, args, k), args[k]);
    value_to_int(s1, v).1
}

proof fn lemma_args(s: CgV, args: Seq<ExprV>, i: int, acc: Seq<Val>)
    requires
        0 <= i <= args.len(),
    ensures
        ({
            let (t, words) = gen_args(before_arg(s, args, i), args, i, acc);
            &&& t == before_arg(s, args, args.len() as int)
            &&& words.len() == acc.len() + args.len() - i
            &&& forall|k: int| 0 <= k < acc.len() ==> #[trigger] words[k] == acc[k]
            &&& forall|k: int|
                acc.len() <= k < words.len() ==> #[trigger] words[k] == arg_word(
                    s,
                    args,
                    i + k - acc.len(),
                )
        }),
    decreases args.len() - i,
{
    if i < args.len() {
        let b = before_arg(s, args, i);
        let (s1, v) = gen_expr(b, args[i]);
        let (s2, word) = value_to_int(s1, v);
        assert(before_arg(s, args, i + 1) == s2);
        assert(word == arg_word(s, args, i));
        lemma_args(s, args, i + 1, acc.push(word));
        let words = gen_args(s2, args, i + 1, acc.push(word)).1;
        assert(gen_args(b, args, i, acc) == gen_args(s2, args, i + 1, acc.push(word)));
        assert forall|k: int| 0 <= k < acc.len() implies #[trigger] words[k] == acc[k] by {
            assert(words[k] == acc.push(word)[k]);
        }
        assert forall|k: int| acc.len() <= k < words.len() implies #[trigger] words[k] == arg_word(
            s,
            args,
            i + k - acc.len(),
        ) by {
            if k == acc.len() {
                assert(words[k] == acc.push(word)[k]);
            }
        }
    }
}

/// The code of a call evaluates the arguments from left to right, and hands their words
/// over in that order, after the receiver where there is one.
pub proof fn law_call_code(
    s: CgV,
    name: Seq<char>,
    first: Seq<Val>,
    args: Seq<ExprV>,
    ret: TypeV,
)
    requires
        open_here(before_arg(s, args, args.len() as int)),
    ensures
        ({
            let s1 = before_arg(s, args, args.len() as int);
            let n = s1.m.func.insts.len() as int;
            let words = first + Seq::new(args.len(), |k: int| arg_word(s, args, k));
            let op = if ret is Unit {
                OpV::Run(name, words)
            } else {
                OpV::Call(Ty::Word, name, words)
            };
            let label = if ret is Unit {
                ""@
            } else {
                "call"@
            };
            let (s2, raw) = s1.emit(op, label);
            &&& s2.m.func.insts.len() == n + 1
            &&& s2.m.func.insts[n].op == op
            &&& finish_call(s, name, first, args, ret) == (if ret is Unit {
                (spend_args(s2, args, words, first.len() as int, 0), CgValue::Int(Val::Word(0)))
            } else {
                let (s3, v) = typed_value(s2, raw, ret);
                (spend_args(s3, args, words, first.len() as int, 0), v)
            })
        }),
{
    lemma_args(s, args, 0, first);
    let (s1, words) = gen_args(s, args, 0, first);
    assert(words =~= first + Seq::new(args.len(), |k: int| arg_word(s, args, k)));
    let mem: Memory = arbitrary();
    let op = if ret is Unit {
        OpV::Run(name, words)
    } else {
        OpV::Call(Ty::Word, name, words)
    };
    let label = if ret is Unit {
        ""@
    } else {
        "call"@
    };
    lemma_blocks(s1, op, label, 0, arbitrary());
}

/// The value of a field of a struct literal goes to the place that the field has in the
/// declaration, wherever it stands in the literal.
pub proof fn law_field_is_stored(
    s: CgV,
    p: Val,
    defs: Seq<(Seq<char>, TypeV)>,
    fields: Seq<(Seq<char>, ExprV)>,
    i: int,
    d: int,
)
    requires
        0 <= i < fields.len(),
        is_field(defs, fields[i].0, d),
    ensures
        ({
            let (s1, t) = known_type(s, fields[i].1);
            let (s2, v) = gen_expr(s1, fields[i].1);
            let (s3, word) = value_to_int(own(s2, v, t, fields[i].1), v);
            store_fields(s, p, defs, fields, i) == store_fields(
                store_word(s3, p, d, word),
                p,
                defs,
                fields,
                i + 1,
            )
        }),
{
    law_field_place(defs, fields[i].0, 0);
}

/// The `i`th value of an array literal or of a variant goes behind the first word, in its
/// place.
pub proof fn law_value_is_stored(s: CgV, p: Val, args: Seq<ExprV>, i: int)
    requires
        0 <= i < args.len(),
    ensures
        ({
            let (s1, t) = known_type(s, args[i]);
            let (s2, v) = gen_expr(s1, args[i]);
            let (s3, word) = value_to_int(own(s2, v, t, args[i]), v);
            store_args(s, p, args, i) == store_args(store_word(s3, p, i + 1, word), p, args, i + 1)
        }),
{
}

/// A variant of an enum in which none carries values is its tag; otherwise the tag comes
/// first, and what the variant carries behind it.
pub proof fn law_variant_code(s: CgV, v: VariantV, args: Seq<ExprV>)
    ensures
        !v.enum_has_payload ==> gen_variant(s, v, args) == (
            s,
            CgValue::Int(Val::Word(v.tag as i64)),
        ),
        v.enum_has_payload ==> ({
            let (s1, p) = scratch_tagged(s, args.len() as int, "enum"@);
            let s2 = s1.emit(OpV::Store(p, Val::Word(v.tag as i64)), ""@).0;
            let (s3, word) = store_args(s2, p, args, 0).emit(
                OpV::Cast(Cast::PtrToWord, p),
                "enum_ptr"@,
            );
            gen_variant(s, v, args) == (s3, CgValue::Int(word))
        }),
{
}

/// The branches of an `if` expression meet in one place: control goes to the first where
/// the condition holds, and each branch brings its own value.
pub proof fn law_if_code(e: ExprV, s: CgV, cond: ExprV, a: ExprV, b: ExprV)
    requires
        *e.kind == (ExprKindV::If {
            cond: Box::new(cond),
            then_body: Box::new(a),
            else_body: Some(Box::new(b)),
        }),
    ensures
        ({
            let (s1, t) = known_type(s, e);
            let (s2, ct) = known_type(s1, cond);
            let (s3, cv) = gen_expr(s2, cond);
            let (s4, c) = gen_cond(s3, cv, ct, cond, true);
            let (s5, yes) = s4.block("if.then"@);
            let (s6, no) = s5.block("if.else"@);
            let (s7, merge) = s6.block("if.merge"@);
            let s8 = s7.emit(OpV::Branch(c, yes, no), ""@).0;
            let (s9, one) = gen_branch(s8.position(yes), a, merge, Seq::empty());
            let (s10, both) = gen_branch(s9.position(no), b, merge, one);
            let (s11, phi) = gen_phi(s10.position(merge), both);
            gen_expr(s, e) == typed_value(s11, phi, t)
        }),
{
    assert(gen_expr(s, e) == gen_if(s, e));
}

/// A branch arrives with the word of its value from where it ends.
pub proof fn law_branch_code(s: CgV, e: ExprV, merge: usize, acc: Seq<(Val, usize)>)
    ensures
        ({
            let (s1, t) = known_type(s, e);
            let (s2, v) = gen_expr(s1, e);
            let (s3, word) = value_to_int(own(s2, v, t, e), v);
            let (s4, arrived) = gen_branch(s, e, merge, acc);
            &&& s4 == s3.emit(OpV::Jump(merge), ""@).0
            &&& s3.left() ==> arrived == acc
            &&& !s3.left() ==> arrived == acc.push((word, s3.here()))
        }),
{
}

/// The arms of a `match` are tried in order: where a pattern does not take the value, or
/// its guard does not hold, control goes on to the next alternative; the value of the
/// body goes to where the arms meet.
pub proof fn law_arm_code(
    s: CgV,
    arms: Seq<(Seq<PatternV>, Option<ExprV>, ExprV)>,
    i: int,
    j: int,
    word: Val,
    st: TypeV,
    merge: usize,
    acc: Seq<(Val, usize)>,
)
    requires
        0 <= i < arms.len(),
        0 <= j,
    ensures
        j >= arms[i].0.len() ==> gen_arms(s, arms, i, j, word, st, merge, acc) == gen_arms(
            s,
            arms,
            i + 1,
            0,
            word,
            st,
            merge,
            acc,
        ),
        j < arms[i].0.len() ==> ({
            let p = arms[i].0[j];
            let body = arms[i].2;
            let (s1, next) = s.block("match_next"@);
            let s2 = test_pattern(s1.open_scope(), p, word, st, next);
            let s3 = gen_guard(bind_pattern(s2, p, word, st), arms[i].1, next);
            let (s4, bt) = known_type(s3, body);
            let (s5, v) = gen_expr(s4, body);
            let (s6, w) = value_to_int(own(s5, v, bt, body), v);
            let (s7, arrived) = gen_arrival(close_scope(s6), w, merge, acc);
            gen_arms(s, arms, i, j, word, st, merge, acc) == gen_arms(
                s7.position(next),
                arms,
                i,
                j + 1,
                word,
                st,
                merge,
                arrived,
            )
        }),
{
}

/// A `match` evaluates its scrutinee once, tries its arms from the first on, and stops the
/// program where none takes the value.
pub proof fn law_match_code(
    e: ExprV,
    s: CgV,
    scrutinee: ExprV,
    arms: Seq<(Seq<PatternV>, Option<ExprV>, ExprV)>,
)
    requires
        *e.kind == (ExprKindV::Match { scrutinee: Box::new(scrutinee), arms }),
    ensures
        ({
            let (s1, st) = known_type(s, scrutinee);
            let (s2, mt) = known_type(s1, e);
            let (s3, sv) = gen_expr(s2, scrutinee);
            let (s4, word) = value_to_int(s3, sv);
            let (s5, merge) = s4.block("match_merge"@);
            let (s6, phis) = gen_arms(s5, arms, 0, 0, word, st, merge, Seq::empty());
            let s7 = gen_abort(s6, "no matching pattern"@, Val::Word(0), Val::Word(0));
            let (s8, phi) = gen_phi(s7.position(merge), phis);
            let (s9, v) = typed_value(s8, phi, mt);
            gen_expr(s, e) == (spend(s9, sv, st, scrutinee), v)
        }),
{
    assert(gen_expr(s, e) == gen_match(s, e));
}

/// A struct literal is new space for the fields that the struct declares, with the
/// fields of the literal put there.
pub proof fn law_struct_code(
    e: ExprV,
    s: CgV,
    name: Seq<char>,
    fields: Seq<(Seq<char>, ExprV)>,
    defs: Seq<(Seq<char>, TypeV)>,
)
    requires
        *e.kind == (ExprKindV::StructLit { name, fields }),
        s.types.structs.contains_key(name),
        s.types.structs[name] == defs,
    ensures
        ({
            let (s1, p) = scratch_slots(s, defs.len() as int, "struct"@);
            let (s2, word) = store_fields(s1, p, defs, fields, 0).emit(
                OpV::Cast(Cast::PtrToWord, p),
                "struct_ptr"@,
            );
            s1.types == s.types ==> gen_expr(s, e) == (s2, CgValue::Int(word))
        }),
{
    assert(gen_expr(s, e) == gen_struct(s, e));
}

/// A call of a declared function in native code is a call of the function made for it.
pub proof fn law_function_call_code(s: CgV, name: Seq<char>, args: Seq<ExprV>)
    requires
        s.types.functions.contains_key(name),
    ensures
        gen_fn_call(s, name, args) == finish_call(
            s,
            "zr."@ + name,
            Seq::empty(),
            args,
            s.types.functions[name].ret,
        ),
{
}

/// A call of a declared method in native code is a call of the function made for it, with
/// the receiver first where the method takes `self`.
pub proof fn law_method_call_code(
    e: ExprV,
    s: CgV,
    obj: ExprV,
    method: Seq<char>,
    args: Seq<ExprV>,
)
    requires
        *e.kind == ExprKindV::MethodCall(Box::new(obj), method, args),
        !is_wrapper(receiver(s, e).2, method),
    ensures
        ({
            let (s1, ov, ot, rt) = receiver(s, e);
            method_of(s1.types, ot, method) matches Some(m) ==> ({
                let (s2, word) = value_to_int(s1, ov);
                let first = if m.has_self {
                    seq![word]
                } else {
                    Seq::empty()
                };
                let (s3, v) = finish_call(s2, m.name, first, args, m.ret);
                gen_expr(s, e) == (spend(s3, ov, ot, obj), v)
            })
        }),
{
    assert(gen_expr(s, e) == gen_method(s, e));
    let (s1, ov, ot, rt) = receiver(s, e);
    let (s2, word) = value_to_int(s1, ov);
    assert(Seq::<Val>::empty().push(word) =~= seq![word]);
}

} // verus!
