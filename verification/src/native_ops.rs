//! Native code for single operations on values that have been built: ownership,
//! locals and scopes, arithmetic, texts, and the parts of loops and matches.

use crate::ast::{
    params_view, stmts_view, BinOp, Expr, ExprKind, ExprKindV, ExprV, Stmt, StmtKind, StmtKindV,
    StmtV, Type, TypeV, UnaryOp,
};
use crate::ir::{
    law_push_keeps_order, Arith, Cast, Cond, FloatArith, FloatCond, InstV, Op, OpV, Room, Ty, Val,
};
use crate::ir_semantics::{
    compared, computed, given, is_fresh, law_product_overflow, law_sum_overflow, law_wrapped,
    operand, run, wrapped, Datum, Memory, Outcome,
};
use crate::native::{
    adds, code_between, continues, countable, keeps, law_code_follows_code, lemma_adds_chain,
    lemma_blocks, lemma_continues, lemma_continues_itself, lemma_emit, lemma_local_parts,
    lemma_no_code, lemma_no_code_continues, lemma_no_run, lemma_same_diagnostic, lemma_state,
    lemma_stopped_then, lemma_then, lemma_then_emit, lemma_type_of, lemma_type_state,
    lemma_wants_add, open_here, runs, settled, stays_in, stops, stops_with, CgV, CgValue, Codegen,
    Global, GlobalV, LocalV,
};
use crate::native_rt::{
    as_float, from_i1, gen_abort, gen_abort_if, gen_bool_to_str, gen_bounds_check,
    gen_float_to_str, gen_int_to_str, gen_release, gen_retain, gen_slice, gen_string_concat,
    law_bounds_check, lemma_abort, lemma_abort_if, lemma_bounds_adds, lemma_from_i1,
    lemma_scratch_adds, lemma_values_add, lemma_word_kept, managed, out_of_bounds, scratch_bytes,
    scratch_slots, show_fn, show_name, tag_of, tag_val, to_i1, typed_value, vals1, vals2, vals3,
    value_to_int, value_to_ptr,
};
use crate::semantics::builtin_call;
use crate::text::{cat2, str_eq};
use crate::typing::{check_expr, TypeErrorV};
use crate::typing_laws::is_field;
use crate::value::{
    binop_result, int_op, magnitude, quotient, remainder, unop_result, OpV as ValueOpV, ValueV,
};
use crate::variants::{
    any_payload, builtin_enums_v, enum_variants, enums_variants, lookup_v, Lookup, LookupV,
    Variant, VariantV,
};
use vstd::prelude::*;

verus! {

/// The divisor with which one division overflows.
pub const MINUS_ONE: i64 = -1;

/// What a loop runs through: the numbers from one up to another, or the elements
/// of an array at them.
#[derive(Debug, Clone, Copy, PartialEq, Eq, Structural)]
pub struct ForBounds {
    pub from: Val,
    pub to: Val,
    pub arr: Option<Val>,
}

/// The place of a field in a struct.
pub open spec fn field_index(defs: Seq<(Seq<char>, TypeV)>, name: Seq<char>, i: int) -> Option<int>
    decreases defs.len() - i,
{
    if i < 0 || i >= defs.len() {
        None
    } else if defs[i].0 == name {
        Some(i)
    } else {
        field_index(defs, name, i + 1)
    }
}

pub(crate) fn find_field(defs: &Vec<(String, Type)>, name: &str) -> (r: Option<usize>)
    ensures
        match field_index(params_view(defs@), name@, 0) {
            Some(k) => r is Some && r->Some_0 == k && k < defs@.len(),
            None => r is None,
        },
{
    let ghost all = params_view(defs@);
    let mut i: usize = 0;
    while i < defs.len()
        invariant
            i <= defs@.len(),
            all == params_view(defs@),
            field_index(all, name@, i as int) == field_index(all, name@, 0),
        decreases defs@.len() - i,
    {
        assert(all[i as int] == (defs@[i as int].0@, defs@[i as int].1@));
        if str_eq(defs[i].0.as_str(), name) {
            return Some(i);
        }
        i += 1;
    }
    assert(all.len() == defs@.len());
    None
}

/// Whether a type is `Result`.
pub open spec fn is_result(t: TypeV) -> bool {
    match t {
        TypeV::Named(n, _) => n == "Result"@,
        _ => false,
    }
}

fn is_result_type(t: &Type) -> (r: bool)
    ensures
        r == is_result(t@),
{
    match t {
        Type::Named(n, _) => str_eq(n.as_str(), "Result"),
        _ => false,
    }
}

/// Does evaluating this expression hand back a reference nobody else holds? A
/// fresh allocation does; naming something that already exists does not.
pub open spec fn owned(s: CgV, e: ExprV) -> bool
    decreases e,
{
    match *e.kind {
        ExprKindV::Ident(n) => lookup_v(s.types.variants, n) is Unique || (s.local(n) is None
            && s.global(n) is None),
        ExprKindV::FieldAccess(o, _) => owned(s, *o),
        ExprKindV::Index(a, _) => owned(s, *a),
        _ => true,
    }
}

/// Whether statements, from the `i`th on, give a value to the loop that they are
/// the body of. A `break` in a loop inside of it belongs to that loop.
pub open spec fn gives_loop_value(ss: Seq<StmtV>, i: int, own: bool) -> bool
    decreases ss, ss.len() - i,
{
    if i < 0 || i >= ss.len() {
        false
    } else {
        (match ss[i].kind {
            StmtKindV::Break(Some(_)) => own,
            StmtKindV::Return(Some(_)) => true,
            StmtKindV::If { then_body, else_body, .. } => gives_loop_value(then_body, 0, own) || (
            match else_body {
                Some(eb) => gives_loop_value(eb, 0, own),
                None => false,
            }),
            StmtKindV::While { body, .. } => gives_loop_value(body, 0, false),
            StmtKindV::For { body, .. } => gives_loop_value(body, 0, false),
            _ => false,
        }) || gives_loop_value(ss, i + 1, own)
    }
}

/// A loop as an expression that never has a value.
pub open spec fn valueless(e: ExprV) -> bool {
    match *e.kind {
        ExprKindV::While { body, .. } => !gives_loop_value(body, 0, true),
        ExprKindV::For { body, .. } => !gives_loop_value(body, 0, true),
        _ => false,
    }
}

fn has_loop_value(ss: &Vec<Stmt>, i: usize, own: bool) -> (r: bool)
    ensures
        r == gives_loop_value(stmts_view(ss@), i as int, own),
    decreases ss, ss@.len() - i,
{
    assert(stmts_view(ss@).len() == ss@.len());
    if i >= ss.len() {
        false
    } else {
        assert(stmts_view(ss@)[i as int] == ss@[i as int]@);
        assert(ss@[i as int]@.kind == ss@[i as int].kind@);
        let here = match &ss[i].kind {
            StmtKind::Break(Some(_)) => own,
            StmtKind::Return(Some(_)) => true,
            StmtKind::If { then_body, else_body, .. } => has_loop_value(then_body, 0, own) || (
            match else_body {
                Some(eb) => has_loop_value(eb, 0, own),
                None => false,
            }),
            StmtKind::While { body, .. } => has_loop_value(body, 0, false),
            StmtKind::For { body, .. } => has_loop_value(body, 0, false),
            _ => false,
        };
        here || has_loop_value(ss, i + 1, own)
    }
}

fn is_valueless(e: &Expr) -> (r: bool)
    ensures
        r == valueless(e@),
{
    assert(*e@.kind == (*e.kind)@);
    match &*e.kind {
        ExprKind::While { body, .. } => !has_loop_value(body, 0, true),
        ExprKind::For { body, .. } => !has_loop_value(body, 0, true),
        _ => false,
    }
}

/// The type of an expression, where it can be told. A loop that never has a value
/// gives nothing.
pub closed spec fn known_type(s: CgV, e: ExprV) -> (CgV, TypeV) {
    (
        s.type_of(e).0,
        if valueless(e) {
            TypeV::Unit
        } else {
            match s.type_of(e).1 {
                Some(t) => t,
                None => TypeV::Inferred,
            }
        },
    )
}

/// How a value is tested by a condition.
#[derive(Debug, Clone, Copy, PartialEq, Eq, Structural)]
pub enum Test {
    /// By whether its word is zero.
    Word,
    /// By whether it is empty.
    Text,
    Holds,
    Fails,
}

/// How a value is tested, by an `if` or elsewhere.
pub open spec fn tested_by(v: CgValue, t: TypeV, by_if: bool) -> Test {
    match v {
        CgValue::Float(_) => Test::Holds,
        CgValue::Str(_) => if by_if {
            Test::Text
        } else {
            Test::Holds
        },
        CgValue::Int(_) => match t {
            TypeV::Unit => if by_if {
                Test::Fails
            } else {
                Test::Holds
            },
            TypeV::Named(_, _) => Test::Holds,
            TypeV::Array(_) => Test::Holds,
            TypeV::Range => Test::Holds,
            TypeV::Fn(_, _) => Test::Holds,
            _ => Test::Word,
        },
    }
}

fn test_of(v: CgValue, t: &Type, by_if: bool) -> (r: Test)
    ensures
        r == tested_by(v, t@, by_if),
{
    match v {
        CgValue::Float(_) => Test::Holds,
        CgValue::Str(_) => if by_if {
            Test::Text
        } else {
            Test::Holds
        },
        CgValue::Int(_) => match t {
            Type::Unit => if by_if {
                Test::Fails
            } else {
                Test::Holds
            },
            Type::Named(_, _) => Test::Holds,
            Type::Array(_) => Test::Holds,
            Type::Range => Test::Holds,
            Type::Fn(_, _) => Test::Holds,
            _ => Test::Word,
        },
    }
}

/// A value as a condition. It is not kept.
pub closed spec fn gen_cond(s: CgV, v: CgValue, t: TypeV, e: ExprV, by_if: bool) -> (CgV, Val)
{
    let (s, c) = match tested_by(v, t, by_if) {
        Test::Word => {
            let (s, w) = value_to_int(s, v);
            let (s, c) = to_i1(s, w);
            (s, c)
        },
        Test::Text => {
            let (s, p) = value_to_ptr(s, v);
            let (s, n) = s.emit(OpV::Call(Ty::Word, "strlen"@, Seq::empty().push(p)), "length"@);
            let (s, c) = to_i1(s, n);
            (s, c)
        },
        Test::Holds => {
            let (s, c) = s.emit(OpV::Compare(Cond::Eq, Val::Word(0), Val::Word(0)), "holds"@);
            (s, c)
        },
        Test::Fails => {
            let (s, c) = s.emit(OpV::Compare(Cond::Ne, Val::Word(0), Val::Word(0)), "fails"@);
            (s, c)
        },
    };
    let s = spend(s, v, t, e);
    (s, c)
}

/// The value gets an owner: one built on the spot hands over the reference it already
/// has; one that is merely named still belongs to whoever named it, so it is
/// retained.
pub closed spec fn own(s: CgV, v: CgValue, t: TypeV, e: ExprV) -> CgV
{
    let s = if managed(s.types, t) && !owned(s, e) {
        let (s, p) = value_to_ptr(s, v);
        let s = gen_retain(s, p);
        s
    } else {
        s
    };
    s
}

/// The value is not kept: what was built on the spot has no owner any more.
pub closed spec fn spend(s: CgV, v: CgValue, t: TypeV, e: ExprV) -> CgV
{
    let s = if managed(s.types, t) && owned(s, e) {
        let (s, p) = value_to_ptr(s, v);
        let s = gen_release(s, p, t);
        s
    } else {
        s
    };
    s
}

/// Retain a value of a type, if it is counted at all.
pub closed spec fn retain_value(s: CgV, v: CgValue, t: TypeV) -> CgV
{
    let s = if managed(s.types, t) {
        let (s, p) = value_to_ptr(s, v);
        let s = gen_retain(s, p);
        s
    } else {
        s
    };
    s
}

/// A slot for a value of a type: a double for a float, a pointer for a string, a word otherwise.
pub closed spec fn new_slot(s: CgV, ty: TypeV, name: Seq<char>) -> (CgV, Val)
{
    let (s, x) = match ty {
        TypeV::Float => {
            let (s, p) = s.slot(Room::Real, name);
            (s, p)
        },
        TypeV::String => {
            let (s, p) = s.slot(Room::Ptr, name);
            (s, p)
        },
        _ => {
            let (s, p) = s.slot(Room::Word, name);
            (s, p)
        },
    };
    (s, x)
}

/// Put a value into a local's slot, in the representation its type calls for.
pub closed spec fn store_into(s: CgV, place: Val, ty: TypeV, v: CgValue) -> CgV
{
    let s = match ty {
        TypeV::Float => {
            let (s, f) = as_float(s, v);
            let s = s.emit(OpV::Store(place, f), ""@).0;
            s
        },
        TypeV::String => {
            let (s, p) = value_to_ptr(s, v);
            let s = s.emit(OpV::Store(place, p), ""@).0;
            s
        },
        _ => {
            let (s, raw) = value_to_int(s, v);
            let s = s.emit(OpV::Store(place, raw), ""@).0;
            s
        },
    };
    s
}

/// Read a local's slot.
pub closed spec fn load_slot(s: CgV, place: Val, ty: TypeV) -> (CgV, CgValue)
{
    let (s, x) = match ty {
        TypeV::Float => {
            let (s, f) = s.emit(OpV::Load(Ty::Real, place), "local"@);
            (s, CgValue::Float(f))
        },
        TypeV::String => {
            let (s, p) = s.emit(OpV::Load(Ty::Ptr, place), "local"@);
            (s, CgValue::Str(p))
        },
        _ => {
            let (s, raw) = s.emit(OpV::Load(Ty::Word, place), "local"@);
            (s, CgValue::Int(raw))
        },
    };
    (s, x)
}

/// Declare a local of a type and give it a value. The slot belongs to the frame: a
/// `let` inside a loop runs every iteration, and a slot made there would grow the
/// stack.
pub closed spec fn bind_local(s: CgV, name: Seq<char>, ty: TypeV, v: CgValue) -> CgV
{
    let (s, place) = new_slot(s, ty, name);
    let s = store_into(s, place, ty, v);
    let s = s.declare(name, place, ty);
    s
}

/// Release what a local holds.
pub closed spec fn release_local(s: CgV, place: Val, ty: TypeV) -> CgV
{
    let s = if managed(s.types, ty) {
        let (s, v) = load_slot(s, place, ty);
        let (s, p) = value_to_ptr(s, v);
        let s = gen_release(s, p, ty);
        s
    } else {
        s
    };
    s
}

/// Release the first `i` locals of a scope, the last of them first.
pub closed spec fn release_names(s: CgV, k: int, i: int) -> CgV
    decreases i,
{
    let s = if 0 <= k < s.scopes.len() && 0 < i <= s.scopes[k].len() {
        let s = release_local(s, s.scopes[k][i - 1].slot, s.scopes[k][i - 1].ty);
        let s = release_names(s, k, i - 1);
        s
    } else {
        s
    };
    s
}

/// Release everything that a scope introduced.
pub closed spec fn release_scope(s: CgV, k: int) -> CgV
{
    let s = if 0 <= k < s.scopes.len() {
        let s = release_names(s, k, s.scopes[k].len() as int);
        s
    } else {
        s
    };
    s
}

/// Leaving early: everything that the scopes from `low` on introduced goes, but they
/// stay open because code is still being made inside them.
pub closed spec fn release_open(s: CgV, n: int, low: int) -> CgV
    decreases n,
{
    let s = if n > low && n > 0 {
        let s = release_scope(s, n - 1);
        let s = release_open(s, n - 1, low);
        s
    } else {
        s
    };
    s
}

/// The start of a turn of a loop that counts up to a bound: what it has counted to.
/// There is a turn while that is less than the bound.
pub open spec fn turn_head(s: CgV, i_ptr: Val, to: Val, head: usize, body: usize, exit: usize) -> (CgV, Val)
{
    let s = s.position(head);
    let (s, i) = s.emit(OpV::Load(Ty::Word, i_ptr), "for_cur"@);
    let (s, more) = s.emit(OpV::Compare(Cond::Lt, i, to), "for_cmp"@);
    let s = s.emit(OpV::Branch(more, body, exit), ""@).0;
    (s, i)
}

/// The end of a turn: one more.
pub open spec fn turn_step(s: CgV, i_ptr: Val, head: usize, next: usize) -> CgV
{
    let s = s.position(next);
    let (s, j) = s.emit(OpV::Load(Ty::Word, i_ptr), "for_at"@);
    let (s, j1) = s.emit(OpV::Arith(Arith::Add, j, Val::Word(1)), "for_next"@);
    let s = s.emit(OpV::Store(i_ptr, j1), ""@).0;
    let s = s.emit(OpV::Jump(head), ""@).0;
    s
}

/// The end of a block: everything that it introduced goes.
pub closed spec fn close_scope(s: CgV) -> CgV
{
    let s = if s.scopes.len() > 0 && !s.left() {
        let s = release_scope(s, s.scopes.len() - 1);
        s
    } else {
        s
    };
    let s = s.drop_scope();
    s
}

/// Where control came from decides on the value.
pub closed spec fn gen_phi(s: CgV, phis: Seq<(Val, usize)>) -> (CgV, Val)
{
    let (s, x) = if phis.len() == 0 {
        (s, Val::Word(0))
    } else {
        let (s, r) = s.emit(OpV::Phi(phis), "merged"@);
        (s, r)
    };
    (s, x)
}

/// Two words compared.
pub closed spec fn gen_compare(s: CgV, c: Cond, a: Val, b: Val) -> (CgV, CgValue)
{
    let (s, r) = s.emit(OpV::Compare(c, a, b), "cmp"@);
    let (s, v) = from_i1(s, r);
    (s, v)
}

/// A binary operation on two integers. Where the result does not fit, and where there
/// is none, the program stops.
pub closed spec fn gen_int_op(s: CgV, a: Val, op: BinOp, b: Val) -> (CgV, CgValue)
{
    let (s, x) = match op {
        BinOp::Add => {
            let (s, r) = s.emit(OpV::Arith(Arith::Add, a, b), "add"@);
            let s = gen_sum_check(s, a, r, Cond::Lt, b, "addition overflowed"@);
            (s, CgValue::Int(r))
        },
        BinOp::Sub => {
            let (s, r) = s.emit(OpV::Arith(Arith::Sub, a, b), "sub"@);
            let s = gen_sum_check(s, a, r, Cond::Gt, b, "subtraction overflowed"@);
            (s, CgValue::Int(r))
        },
        BinOp::Mul => {
            let (s, r) = s.emit(OpV::Arith(Arith::Mul, a, b), "mul"@);
            let s = gen_product_check(s, a, b, r);
            (s, CgValue::Int(r))
        },
        BinOp::Div => {
            let s = gen_division_check(s, a, b, "division by zero"@, "division overflowed"@);
            let (s, r) = s.emit(OpV::Arith(Arith::Div, a, b), "div"@);
            (s, CgValue::Int(r))
        },
        BinOp::Mod => {
            let s = gen_division_check(s, a, b, "remainder by zero"@, "remainder overflowed"@);
            let (s, r) = s.emit(OpV::Arith(Arith::Rem, a, b), "rem"@);
            (s, CgValue::Int(r))
        },
        BinOp::Eq => {
            let (s, v) = gen_compare(s, Cond::Eq, a, b);
            (s, v)
        },
        BinOp::Ne => {
            let (s, v) = gen_compare(s, Cond::Ne, a, b);
            (s, v)
        },
        BinOp::Lt => {
            let (s, v) = gen_compare(s, Cond::Lt, a, b);
            (s, v)
        },
        BinOp::Le => {
            let (s, v) = gen_compare(s, Cond::Le, a, b);
            (s, v)
        },
        BinOp::Gt => {
            let (s, v) = gen_compare(s, Cond::Gt, a, b);
            (s, v)
        },
        BinOp::Ge => {
            let (s, v) = gen_compare(s, Cond::Ge, a, b);
            (s, v)
        },
        BinOp::And => {
            let (s, l) = s.emit(OpV::Compare(Cond::Ne, a, Val::Word(0)), "left"@);
            let (s, r) = s.emit(OpV::Compare(Cond::Ne, b, Val::Word(0)), "right"@);
            let (s, both) = s.emit(OpV::Arith(Arith::And, l, r), "and"@);
            let (s, v) = from_i1(s, both);
            (s, v)
        },
        BinOp::Or => {
            let (s, l) = s.emit(OpV::Compare(Cond::Ne, a, Val::Word(0)), "left"@);
            let (s, r) = s.emit(OpV::Compare(Cond::Ne, b, Val::Word(0)), "right"@);
            let (s, any) = s.emit(OpV::Arith(Arith::Or, l, r), "or"@);
            let (s, v) = from_i1(s, any);
            (s, v)
        },
    };
    (s, x)
}

/// A sum, or a difference, that went past the end of the integers comes out on the
/// wrong side of its first operand.
pub closed spec fn gen_sum_check(s: CgV, a: Val, r: Val, down: Cond, b: Val, over: Seq<char>) -> CgV
{
    let (s, falls) = s.emit(OpV::Compare(down, b, Val::Word(0)), "falls"@);
    let (s, fell) = s.emit(OpV::Compare(Cond::Lt, r, a), "fell"@);
    let (s, x) = s.emit(OpV::Cast(Cast::BoolToWord, falls), "falls_word"@);
    let (s, y) = s.emit(OpV::Cast(Cast::BoolToWord, fell), "fell_word"@);
    let (s, bad) = s.emit(OpV::Compare(Cond::Ne, x, y), "overflows"@);
    let s = gen_abort_if(s, bad, over, Val::Word(0), Val::Word(0));
    s
}

/// A product that did not fit does not give its second operand back when divided by
/// its first. Dividing by zero, or the least integer by minus one, is left out.
pub closed spec fn gen_product_check(s: CgV, a: Val, b: Val, r: Val) -> CgV
{
    let (s, is_zero) = s.emit(OpV::Compare(Cond::Eq, a, Val::Word(0)), "is_zero"@);
    let (s, is_minus) = s.emit(OpV::Compare(Cond::Eq, a, Val::Word(MINUS_ONE)), "is_minus_one"@);
    let (s, least) = s.emit(OpV::Compare(Cond::Eq, b, Val::Word(i64::MIN)), "least"@);
    let (s, special) = s.emit(OpV::Arith(Arith::Or, is_zero, is_minus), "special"@);
    let (s, by) = s.emit(OpV::Select(special, Val::Word(1), a), "by"@);
    let (s, back) = s.emit(OpV::Arith(Arith::Div, r, by), "back"@);
    let (s, differs) = s.emit(OpV::Compare(Cond::Ne, back, b), "differs"@);
    let (s, plain) = s.emit(OpV::Not(special), "plain"@);
    let (s, lost) = s.emit(OpV::Arith(Arith::And, plain, differs), "lost"@);
    let (s, flips) = s.emit(OpV::Arith(Arith::And, is_minus, least), "flips"@);
    let (s, bad) = s.emit(OpV::Arith(Arith::Or, lost, flips), "overflows"@);
    let s = gen_abort_if(s, bad, "multiplication overflowed"@, Val::Word(0), Val::Word(0));
    s
}

/// LLVM leaves division by zero, and the one division that overflows, undefined; the
/// program stops there instead.
pub closed spec fn gen_division_check(s: CgV, a: Val, b: Val, zero: Seq<char>, over: Seq<char>) -> CgV
{
    let (s, is_zero) = s.emit(OpV::Compare(Cond::Eq, b, Val::Word(0)), "is_zero"@);
    let s = gen_abort_if(s, is_zero, zero, Val::Word(0), Val::Word(0));
    let (s, least) = s.emit(OpV::Compare(Cond::Eq, a, Val::Word(i64::MIN)), "least"@);
    let (s, minus) = s.emit(OpV::Compare(Cond::Eq, b, Val::Word(MINUS_ONE)), "minus_one"@);
    let (s, both) = s.emit(OpV::Arith(Arith::And, least, minus), "overflows"@);
    let s = gen_abort_if(s, both, over, Val::Word(0), Val::Word(0));
    s
}

/// A binary operation on two floats.
pub closed spec fn gen_float_op(s: CgV, a: Val, op: BinOp, b: Val) -> (CgV, CgValue)
{
    let (s, x) = match op {
        BinOp::Add => {
            let (s, r) = s.emit(OpV::Float(FloatArith::Add, a, b), "fadd"@);
            (s, CgValue::Float(r))
        },
        BinOp::Sub => {
            let (s, r) = s.emit(OpV::Float(FloatArith::Sub, a, b), "fsub"@);
            (s, CgValue::Float(r))
        },
        BinOp::Mul => {
            let (s, r) = s.emit(OpV::Float(FloatArith::Mul, a, b), "fmul"@);
            (s, CgValue::Float(r))
        },
        BinOp::Div => {
            let (s, r) = s.emit(OpV::Float(FloatArith::Div, a, b), "fdiv"@);
            (s, CgValue::Float(r))
        },
        BinOp::Mod => {
            let (s, r) = s.emit(OpV::Float(FloatArith::Rem, a, b), "frem"@);
            (s, CgValue::Float(r))
        },
        BinOp::Eq => {
            let (s, r) = s.emit(OpV::FloatCompare(FloatCond::Eq, a, b), "feq"@);
            let (s, v) = from_i1(s, r);
            (s, v)
        },
        BinOp::Ne => {
            let (s, r) = s.emit(OpV::FloatCompare(FloatCond::Ne, a, b), "fne"@);
            let (s, v) = from_i1(s, r);
            (s, v)
        },
        BinOp::Lt => {
            let (s, r) = s.emit(OpV::FloatCompare(FloatCond::Lt, a, b), "flt"@);
            let (s, v) = from_i1(s, r);
            (s, v)
        },
        BinOp::Le => {
            let (s, r) = s.emit(OpV::FloatCompare(FloatCond::Le, a, b), "fle"@);
            let (s, v) = from_i1(s, r);
            (s, v)
        },
        BinOp::Gt => {
            let (s, r) = s.emit(OpV::FloatCompare(FloatCond::Gt, a, b), "fgt"@);
            let (s, v) = from_i1(s, r);
            (s, v)
        },
        BinOp::Ge => {
            let (s, r) = s.emit(OpV::FloatCompare(FloatCond::Ge, a, b), "fge"@);
            let (s, v) = from_i1(s, r);
            (s, v)
        },
        _ => {
            let s = s.refuse("unsupported float op"@);
            (s, CgValue::Int(Val::Word(0)))
        },
    };
    (s, x)
}

/// A binary operation on two strings, which are compared by their characters.
pub closed spec fn gen_str_op(s: CgV, a: Val, op: BinOp, b: Val) -> (CgV, CgValue)
{
    let (s, x) = match op {
        BinOp::Add => {
            let (s, r) = gen_string_concat(s, a, b);
            (s, CgValue::Str(r))
        },
        _ => {
            let (s, c) = s.emit(OpV::CallHalf("strcmp"@, Seq::empty().push(a).push(b)), "strcmp"@);
            let (s, order) = s.emit(OpV::Cast(Cast::HalfToWord, c), "order"@);
            let (s, v) = gen_str_compare(s, order, op);
            (s, v)
        },
    };
    (s, x)
}

pub closed spec fn gen_str_compare(s: CgV, order: Val, op: BinOp) -> (CgV, CgValue)
{
    let (s, x) = match op {
        BinOp::Eq => {
            let (s, v) = gen_compare(s, Cond::Eq, order, Val::Word(0));
            (s, v)
        },
        BinOp::Ne => {
            let (s, v) = gen_compare(s, Cond::Ne, order, Val::Word(0));
            (s, v)
        },
        BinOp::Lt => {
            let (s, v) = gen_compare(s, Cond::Lt, order, Val::Word(0));
            (s, v)
        },
        BinOp::Le => {
            let (s, v) = gen_compare(s, Cond::Le, order, Val::Word(0));
            (s, v)
        },
        BinOp::Gt => {
            let (s, v) = gen_compare(s, Cond::Gt, order, Val::Word(0));
            (s, v)
        },
        BinOp::Ge => {
            let (s, v) = gen_compare(s, Cond::Ge, order, Val::Word(0));
            (s, v)
        },
        _ => {
            let s = gen_abort(s, "unsupported string op"@, Val::Word(0), Val::Word(0));
            (s, CgValue::Str(Val::Null))
        },
    };
    (s, x)
}

/// A binary operation on two values. A number that joins a string is made a string
/// first, and let go of after.
pub closed spec fn gen_operation(s: CgV, l: CgValue, op: BinOp, q: CgValue) -> (CgV, CgValue)
{
    let (s, x) = match (l, q) {
        (CgValue::Str(a), CgValue::Str(b)) => {
            let (s, v) = gen_str_op(s, a, op, b);
            (s, v)
        },
        (CgValue::Str(a), CgValue::Int(b)) => {
            let (s, t) = gen_int_to_str(s, b);
            let (s, v) = gen_str_op(s, a, op, t);
            let s = gen_release(s, t, TypeV::String);
            (s, v)
        },
        (CgValue::Int(a), CgValue::Str(b)) => {
            let (s, t) = gen_int_to_str(s, a);
            let (s, v) = gen_str_op(s, t, op, b);
            let s = gen_release(s, t, TypeV::String);
            (s, v)
        },
        (CgValue::Float(a), CgValue::Float(b)) => {
            let (s, v) = gen_float_op(s, a, op, b);
            (s, v)
        },
        (CgValue::Int(a), CgValue::Int(b)) => {
            let (s, v) = gen_int_op(s, a, op, b);
            (s, v)
        },
        _ => {
            let s = s.refuse("expected int operand"@);
            (s, CgValue::Int(Val::Word(0)))
        },
    };
    (s, x)
}

/// The operations that truth values have.
pub open spec fn bool_has(op: BinOp) -> bool {
    op is Eq || op is Ne || op is And || op is Or
}

/// The types whose values have no binary operations.
pub open spec fn no_operand(t: TypeV) -> bool {
    t is Unit || t is Range || t is Named || t is Array || t is Fn
}

/// A binary operation on values of two types. Truth values are words here, but the
/// program stops where it takes them for numbers.
pub closed spec fn gen_typed_operation(s: CgV, l: CgValue, lt: TypeV, op: BinOp, q: CgValue, qt: TypeV) -> (CgV, CgValue)
{
    let (s, x) = if lt is Bool && qt is Bool && !bool_has(op) {
        let s = gen_abort(s, "unsupported bool op"@, Val::Word(0), Val::Word(0));
        (s, CgValue::Int(Val::Word(0)))
    } else if no_operand(lt) || no_operand(qt) {
        let s = gen_abort(s, "type mismatch in binary operation"@, Val::Word(0), Val::Word(0));
        (s, CgValue::Int(Val::Word(0)))
    } else {
        let (s, v) = gen_operation(s, l, op, q);
        (s, v)
    };
    (s, x)
}

pub closed spec fn gen_unary_op(s: CgV, op: UnaryOp, v: CgValue) -> (CgV, CgValue)
{
    let (s, x) = match (op, v) {
        (UnaryOp::Neg, CgValue::Int(a)) => {
            let (s, least) = s.emit(OpV::Compare(Cond::Eq, a, Val::Word(i64::MIN)), "least"@);
            let s = gen_abort_if(s, least, "negation overflowed"@, Val::Word(0), Val::Word(0));
            let (s, r) = s.emit(OpV::Neg(a), "neg"@);
            (s, CgValue::Int(r))
        },
        (UnaryOp::Neg, CgValue::Float(a)) => {
            let (s, r) = s.emit(OpV::FloatNeg(a), "fneg"@);
            (s, CgValue::Float(r))
        },
        (UnaryOp::Not, CgValue::Int(a)) => {
            let (s, r) = s.emit(OpV::Compare(Cond::Eq, a, Val::Word(0)), "not_cmp"@);
            let (s, n) = from_i1(s, r);
            (s, n)
        },
        _ => {
            let s = s.refuse("cannot negate this value"@);
            (s, CgValue::Int(Val::Word(0)))
        },
    };
    (s, x)
}

/// The text of a compound value: measured first, then written.
pub closed spec fn gen_shown(s: CgV, word: Val, ty: TypeV) -> (CgV, Val)
{
    let s = s.want_show(ty);
    let (s, need) = s.emit(OpV::Call(Ty::Word, show_name(ty), Seq::empty().push(Val::Null).push(Val::Word(0)).push(word)), "need"@);
    let (s, size) = s.emit(OpV::Arith(Arith::Add, need, Val::Word(1)), "size"@);
    let (s, buf) = scratch_bytes(s, size, "text"@);
    let s = s.emit(OpV::Call(Ty::Word, show_name(ty), Seq::empty().push(buf).push(size).push(word)), ""@).0;
    (s, buf)
}

/// The text of a word that is not a string.
pub closed spec fn gen_word_text(s: CgV, word: Val, ty: TypeV) -> (CgV, Val)
{
    let (s, x) = match ty {
        TypeV::Bool => {
            let (s, t) = gen_bool_to_str(s, word);
            (s, t)
        },
        TypeV::Unit => {
            let (s, t) = s.string_global("()"@);
            (s, t)
        },
        TypeV::Array(_) => {
            let (s, t) = gen_shown(s, word, ty);
            (s, t)
        },
        TypeV::Named(_, _) => {
            let (s, t) = gen_shown(s, word, ty);
            (s, t)
        },
        TypeV::Range => {
            let (s, t) = gen_shown(s, word, ty);
            (s, t)
        },
        _ => {
            let (s, t) = gen_int_to_str(s, word);
            (s, t)
        },
    };
    (s, x)
}

/// Print a text and end the line.
pub closed spec fn print_text(s: CgV, t: Val) -> CgV
{
    let (s, fmt) = s.text("%s\n"@);
    let s = s.emit(OpV::CallHalf("printf"@, Seq::empty().push(fmt).push(t)), "call_printf"@).0;
    s
}

/// The text of a value, for whoever reads it on the spot.
pub closed spec fn gen_text(s: CgV, v: CgValue, ty: TypeV) -> (CgV, Val)
{
    let (s, x) = match v {
        CgValue::Str(p) => {
            (s, p)
        },
        CgValue::Float(f) => {
            let (s, t) = gen_float_to_str(s, f);
            (s, t)
        },
        CgValue::Int(word) => {
            let (s, t) = gen_word_text(s, word, ty);
            (s, t)
        },
    };
    (s, x)
}

/// Print one value.
pub closed spec fn print_value(s: CgV, v: CgValue, ty: TypeV) -> CgV
{
    let (s, t) = gen_text(s, v, ty);
    let s = print_text(s, t);
    s
}

/// Copy an array, each of whose elements then has one owner more.
pub closed spec fn gen_copy_array(s: CgV, arr: Val, el: TypeV) -> (CgV, Val)
{
    let (s, count) = s.emit(OpV::Load(Ty::Word, arr), "old_len"@);
    let (s, slots) = s.emit(OpV::Arith(Arith::Add, count, Val::Word(1)), "slots"@);
    let (s, bytes) = s.emit(OpV::Arith(Arith::Mul, slots, Val::Word(8)), "bytes"@);
    let (s, buf) = scratch_bytes(s, bytes, "new_arr"@);
    let s = s.emit(OpV::Run("memcpy"@, Seq::empty().push(buf).push(arr).push(bytes)), ""@).0;
    let s = if managed(s.types, el) {
        let (s, i_ptr) = s.slot(Room::Word, "i"@);
        let s = s.emit(OpV::Store(i_ptr, Val::Word(1)), ""@).0;
        let (s, head) = s.block("keep_elems"@);
        let (s, body) = s.block("keep_elem"@);
        let (s, out) = s.block("keep_done"@);
        let s = s.emit(OpV::Jump(head), ""@).0;
        let s = s.position(head);
        let (s, i) = s.emit(OpV::Load(Ty::Word, i_ptr), "iv"@);
        let (s, more) = s.emit(OpV::Compare(Cond::Le, i, count), "more"@);
        let s = s.emit(OpV::Branch(more, body, out), ""@).0;
        let s = s.position(body);
        let (s, place) = s.emit(OpV::Offset(Ty::Word, buf, i), "slot"@);
        let (s, raw) = s.emit(OpV::Load(Ty::Word, place), "elem"@);
        let (s, p) = s.emit(OpV::Cast(Cast::WordToPtr, raw), "elemp"@);
        let s = gen_retain(s, p);
        let (s, next) = s.emit(OpV::Arith(Arith::Add, i, Val::Word(1)), "i1"@);
        let s = s.emit(OpV::Store(i_ptr, next), ""@).0;
        let s = s.emit(OpV::Jump(head), ""@).0;
        let s = s.position(out);
        s
    } else {
        s
    };
    (s, buf)
}

/// The address of an element, after its index has been checked.
pub closed spec fn gen_element(s: CgV, arr: Val, idx: Val) -> (CgV, Val)
{
    let (s, count) = s.emit(OpV::Load(Ty::Word, arr), "arr_len"@);
    let s = gen_bounds_check(s, idx, count, "array"@);
    let (s, off) = s.emit(OpV::Arith(Arith::Add, idx, Val::Word(1)), "elem_off"@);
    let (s, place) = s.emit(OpV::Offset(Ty::Word, arr, off), "elem_ptr"@);
    (s, place)
}

/// A substring between two characters.
pub closed spec fn gen_substring(s: CgV, p: Val, start: Val, end: Val) -> (CgV, Val)
{
    let (s, count) = s.emit(OpV::Call(Ty::Word, "zarrin.chars"@, Seq::empty().push(p)), "sub_srclen"@);
    let (s, limit) = s.emit(OpV::Arith(Arith::Add, count, Val::Word(1)), "sub_limit"@);
    let s = gen_bounds_check(s, start, limit, "substring start"@);
    let s = gen_bounds_check(s, end, limit, "substring end"@);
    let (s, inverted) = s.emit(OpV::Compare(Cond::Gt, start, end), "inverted"@);
    let s = gen_abort_if(s, inverted, "substring start \u{1} is past end \u{1}"@, start, end);
    let (s, from) = s.emit(OpV::Call(Ty::Word, "zarrin.char_start"@, Seq::empty().push(p).push(start)), "sub_from"@);
    let (s, to) = s.emit(OpV::Call(Ty::Word, "zarrin.char_start"@, Seq::empty().push(p).push(end)), "sub_to"@);
    let (s, len) = s.emit(OpV::Arith(Arith::Sub, to, from), "sub_len"@);
    let (s, src) = s.emit(OpV::Offset(Ty::Byte, p, from), "src_ptr"@);
    let (s, t) = gen_slice(s, src, len);
    (s, t)
}

/// One character of a string, as a string.
pub closed spec fn gen_char_at(s: CgV, p: Val, idx: Val) -> (CgV, Val)
{
    let (s, count) = s.emit(OpV::Call(Ty::Word, "zarrin.chars"@, Seq::empty().push(p)), "char_count"@);
    let s = gen_bounds_check(s, idx, count, "char_at"@);
    let (s, from) = s.emit(OpV::Call(Ty::Word, "zarrin.char_start"@, Seq::empty().push(p).push(idx)), "char_from"@);
    let (s, after) = s.emit(OpV::Arith(Arith::Add, idx, Val::Word(1)), "char_next"@);
    let (s, to) = s.emit(OpV::Call(Ty::Word, "zarrin.char_start"@, Seq::empty().push(p).push(after)), "char_to"@);
    let (s, len) = s.emit(OpV::Arith(Arith::Sub, to, from), "char_len"@);
    let (s, src) = s.emit(OpV::Offset(Ty::Byte, p, from), "char_ptr"@);
    let (s, t) = gen_slice(s, src, len);
    (s, t)
}

/// A string without the whitespace at its ends.
pub closed spec fn gen_trim(s: CgV, p: Val) -> (CgV, Val)
{
    let (s, skip) = s.emit(OpV::Call(Ty::Word, "zarrin.skipped"@, Seq::empty().push(p)), "start_skip"@);
    let (s, from) = s.emit(OpV::Offset(Ty::Byte, p, skip), "trimmed_start"@);
    let (s, len) = s.emit(OpV::Call(Ty::Word, "zarrin.trimmed"@, Seq::empty().push(from)), "len_after"@);
    let (s, t) = gen_slice(s, from, len);
    (s, t)
}

/// Whether a string holds another.
pub closed spec fn gen_contains(s: CgV, p: Val, needle: Val) -> (CgV, CgValue)
{
    let (s, found) = s.emit(OpV::Call(Ty::Ptr, "strstr"@, Seq::empty().push(p).push(needle)), "strstr_call"@);
    let (s, hit) = s.emit(OpV::Compare(Cond::Ne, found, Val::Null), "found"@);
    let (s, v) = from_i1(s, hit);
    (s, v)
}

/// A variable of a loop: the count itself, or the element of an array at it.
pub closed spec fn bind_element(s: CgV, var: Seq<char>, i: Val, b: ForBounds, el: TypeV) -> CgV
{
    let s = match b.arr {
        Some(arr) => {
            let (s, off) = s.emit(OpV::Arith(Arith::Add, i, Val::Word(1)), "elem_off"@);
            let (s, place) = s.emit(OpV::Offset(Ty::Word, arr, off), "elem_ptr"@);
            let (s, raw) = s.emit(OpV::Load(Ty::Word, place), "elem"@);
            let (s, v) = typed_value(s, raw, el);
            let s = retain_value(s, v, el);
            let s = bind_local(s, var, el, v);
            s
        },
        None => {
            let s = bind_local(s, var, TypeV::Int, CgValue::Int(i));
            s
        },
    };
    s
}

/// What a loop walks is kept, under no name, until the loop ends.
pub closed spec fn hold(s: CgV, v: CgValue, t: TypeV, e: ExprV) -> CgV
{
    let s = if managed(s.types, t) {
        let s = own(s, v, t, e);
        let s = bind_local(s, ""@, t, v);
        s
    } else {
        s
    };
    s
}

/// What a loop over a value of a type runs through.
pub closed spec fn walk_bounds(s: CgV, v: CgValue, t: TypeV) -> (CgV, ForBounds)
{
    let (s, x) = match t {
        TypeV::Range => {
            let (s, p) = value_to_ptr(s, v);
            let (s, from) = s.emit(OpV::Load(Ty::Word, p), "range_from"@);
            let (s, q) = s.emit(OpV::Offset(Ty::Word, p, Val::Word(1)), "range_end"@);
            let (s, to) = s.emit(OpV::Load(Ty::Word, q), "range_to"@);
            (s, ForBounds { from, to, arr: None })
        },
        TypeV::Array(_) => {
            let (s, p) = value_to_ptr(s, v);
            let (s, count) = s.emit(OpV::Load(Ty::Word, p), "walk_len"@);
            (s, ForBounds { from: Val::Word(0), to: count, arr: Some(p) })
        },
        _ => {
            let (s, n) = value_to_int(s, v);
            (s, ForBounds { from: Val::Word(0), to: n, arr: None })
        },
    };
    (s, x)
}

/// A word of an enum or a struct value.
pub closed spec fn load_word(s: CgV, p: Val, i: int) -> (CgV, Val)
{
    let (s, place) = s.emit(OpV::Offset(Ty::Word, p, Val::Word(i as i64)), "word_ptr"@);
    let (s, raw) = s.emit(OpV::Load(Ty::Word, place), "word"@);
    (s, raw)
}

pub closed spec fn store_word(s: CgV, p: Val, i: int, word: Val) -> CgV
{
    let (s, place) = s.emit(OpV::Offset(Ty::Word, p, Val::Word(i as i64)), "word_ptr"@);
    let s = s.emit(OpV::Store(place, word), ""@).0;
    s
}

/// A variant's tag, from the word that an enum value is.
pub closed spec fn gen_tag(s: CgV, word: Val, boxed: bool) -> (CgV, Val)
{
    let (s, x) = if boxed {
        let (s, p) = s.emit(OpV::Cast(Cast::WordToPtr, word), "enum_ptr"@);
        let (s, t) = s.emit(OpV::Load(Ty::Word, p), "tag"@);
        (s, t)
    } else {
        (s, word)
    };
    (s, x)
}

/// Go on if a condition holds, else to a block.
pub closed spec fn unless(s: CgV, c: Val, fail: usize) -> CgV
{
    let (s, ok) = s.block("match_ok"@);
    let s = s.emit(OpV::Branch(c, ok, fail), ""@).0;
    let s = s.position(ok);
    s
}

/// Whether a word is a literal's value; strings are compared by their characters.
pub closed spec fn gen_same(s: CgV, word: Val, lit: CgValue) -> (CgV, Val)
{
    let (s, x) = match lit {
        CgValue::Str(q) => {
            let (s, p) = s.emit(OpV::Cast(Cast::WordToPtr, word), "match_s"@);
            let (s, c) = s.emit(OpV::CallHalf("strcmp"@, Seq::empty().push(p).push(q)), "strcmp"@);
            let (s, order) = s.emit(OpV::Cast(Cast::HalfToWord, c), "order"@);
            let (s, r) = s.emit(OpV::Compare(Cond::Eq, order, Val::Word(0)), "match_cmp"@);
            (s, r)
        },
        _ => {
            let (s, other) = value_to_int(s, lit);
            let (s, r) = s.emit(OpV::Compare(Cond::Eq, word, other), "match_cmp"@);
            (s, r)
        },
    };
    (s, x)
}

/// The payload of an `Option` or a `Result`, or the interpreter's failure where there is none.
pub closed spec fn gen_unwrap(s: CgV, p: Val, result: bool) -> (CgV, Val)
{
    let (s, tag) = s.emit(OpV::Load(Ty::Word, p), "tag"@);
    let (s, bad) = s.emit(OpV::Compare(Cond::Ne, tag, Val::Word(0)), "no_payload"@);
    let s = if result {
        let s = gen_abort_if(s, bad, "unwrap() called on Err"@, Val::Word(0), Val::Word(0));
        s
    } else {
        let s = gen_abort_if(s, bad, "unwrap() called on None"@, Val::Word(0), Val::Word(0));
        s
    };
    let (s, raw) = load_word(s, p, 1);
    (s, raw)
}

/// Space for a word and some more.
pub closed spec fn scratch_tagged(s: CgV, count: int, name: Seq<char>) -> (CgV, Val)
{
    let (s, words) = s.emit(OpV::Arith(Arith::Add, Val::Word(count as i64), Val::Word(1)), "words"@);
    let (s, bytes) = s.emit(OpV::Arith(Arith::Mul, words, Val::Word(8)), "slot_bytes"@);
    let (s, body) = scratch_bytes(s, bytes, name);
    (s, body)
}

/// A field of a struct value, by name.
pub closed spec fn gen_field_of(s: CgV, p: Val, defs: Seq<(Seq<char>, TypeV)>, field: Seq<char>) -> (CgV, CgValue)
{
    let (s, x) = match field_index(defs, field, 0) {
        Some(k) => {
            let (s, raw) = load_word(s, p, k);
            let (s, v) = typed_value(s, raw, defs[k].1);
            (s, v)
        },
        None => {
            let s = s.refuse("unknown field: "@ + field);
            (s, CgValue::Int(Val::Word(0)))
        },
    };
    (s, x)
}

/// A name: a variant without a payload, a local, or a variable of the program.
pub closed spec fn gen_ident(s: CgV, name: Seq<char>) -> (CgV, CgValue)
{
    let (s, x) = match lookup_v(s.types.variants, name) {
        LookupV::Unique(v) => {
            let (s, y) = gen_empty_variant(s, v);
            (s, y)
        },
        _ => {
            let (s, y) = match s.local(name) {
                Some(l) => {
                    let (s, v) = load_slot(s, l.slot, l.ty);
                    (s, v)
                },
                None => {
                    let (s, v) = gen_global(s, name);
                    (s, v)
                },
            };
            (s, y)
        },
    };
    (s, x)
}

/// A variable of the program. The program stops where it has not been declared.
pub closed spec fn gen_global(s: CgV, name: Seq<char>) -> (CgV, CgValue)
{
    let (s, x) = match s.global(name) {
        Some(g) => {
            let (s, on) = s.emit(OpV::Load(Ty::Word, g.flag), "declared"@);
            let (s, bad) = s.emit(OpV::Compare(Cond::Eq, on, Val::Word(0)), "undeclared"@);
            let s = gen_abort_if(s, bad, "undefined variable: "@ + name, Val::Word(0), Val::Word(0));
            let (s, v) = load_slot(s, g.place, g.ty);
            (s, v)
        },
        None => {
            let s = s.refuse("undefined var: "@ + name);
            (s, CgValue::Int(Val::Word(0)))
        },
    };
    (s, x)
}

/// A new value of a variable of the program. What it held goes after the store.
pub closed spec fn set_global(s: CgV, g: GlobalV, v: CgValue, e: ExprV) -> CgV
{
    let s = own(s, v, g.ty, e);
    let s = if managed(s.types, g.ty) {
        let (s, on) = s.emit(OpV::Load(Ty::Word, g.flag), "declared"@);
        let (s, has) = s.emit(OpV::Compare(Cond::Ne, on, Val::Word(0)), "has_old"@);
        let (s, again) = s.block("again"@);
        let (s, first) = s.block("first"@);
        let (s, done) = s.block("stored"@);
        let s = s.emit(OpV::Branch(has, again, first), ""@).0;
        let s = s.position(again);
        let (s, old_v) = load_slot(s, g.place, g.ty);
        let s = store_into(s, g.place, g.ty, v);
        let (s, p) = value_to_ptr(s, old_v);
        let s = gen_release(s, p, g.ty);
        let s = s.emit(OpV::Jump(done), ""@).0;
        let s = s.position(first);
        let s = store_into(s, g.place, g.ty, v);
        let s = s.emit(OpV::Jump(done), ""@).0;
        let s = s.position(done);
        s
    } else {
        let s = store_into(s, g.place, g.ty, v);
        s
    };
    s
}

/// A variable of the program is declared.
pub closed spec fn declare_global(s: CgV, name: Seq<char>, v: CgValue, e: ExprV) -> CgV
{
    let s = match s.global(name) {
        Some(g) => {
            let s = set_global(s, g, v, e);
            let s = s.emit(OpV::Store(g.flag, Val::Word(1)), ""@).0;
            s
        },
        None => {
            let s = s.refuse("undefined var: "@ + name);
            s
        },
    };
    s
}

pub closed spec fn gen_empty_variant(s: CgV, v: VariantV) -> (CgV, CgValue)
{
    let (s, x) = if v.enum_has_payload {
        let (s, p) = scratch_slots(s, 1, "enum"@);
        let s = s.emit(OpV::Store(p, tag_val(v)), ""@).0;
        let (s, word) = s.emit(OpV::Cast(Cast::PtrToWord, p), "enum_ptr"@);
        (s, CgValue::Int(word))
    } else {
        (s, CgValue::Int(tag_val(v)))
    };
    (s, x)
}

/// The methods of `Option` and `Result`. What `unwrap` hands out has an owner of its own.
pub closed spec fn gen_wrapper_method(s: CgV, ov: CgValue, ot: TypeV, method: Seq<char>, rt: TypeV) -> (CgV, CgValue)
{
    let (s, p) = value_to_ptr(s, ov);
    let (s, x) = if method == "unwrap"@ {
        let (s, raw) = gen_unwrap(s, p, is_result(ot));
        let (s, v) = typed_value(s, raw, rt);
        let s = retain_value(s, v, rt);
        (s, v)
    } else {
        let (s, tag) = s.emit(OpV::Load(Ty::Word, p), "tag"@);
        let (s, c) = if method == "is_some"@ || method == "is_ok"@ {
            let (s, y) = s.emit(OpV::Compare(Cond::Eq, tag, Val::Word(0)), "is_v0"@);
            (s, y)
        } else {
            let (s, y) = s.emit(OpV::Compare(Cond::Ne, tag, Val::Word(0)), "not_v0"@);
            (s, y)
        };
        let (s, v) = from_i1(s, c);
        (s, if asks_other(ot, method) {
            CgValue::Int(Val::Word(0))
        } else {
            v
        })
    };
    (s, x)
}

/// Whether a method asks for a variant that the type does not have: `is_ok` and `is_err`
/// of an `Option`, `is_some` and `is_none` of a `Result`. The answer is no.
pub open spec fn asks_other(ot: TypeV, method: Seq<char>) -> bool {
    if is_result(ot) {
        method == "is_some"@ || method == "is_none"@
    } else {
        method == "is_ok"@ || method == "is_err"@
    }
}

fn asks_for_other(ot: &Type, method: &str) -> (r: bool)
    ensures
        r == asks_other(ot@, method@),
{
    if is_result_type(ot) {
        str_eq(method, "is_some") || str_eq(method, "is_none")
    } else {
        str_eq(method, "is_ok") || str_eq(method, "is_err")
    }
}

impl Codegen {
    /// Does evaluating this expression hand back a reference nobody else holds?
    pub(crate) fn produces_owned(&self, e: &Expr) -> (r: bool)
        ensures
            r == owned(self@, e@),
        decreases e,
    {
        assert(*e@.kind == (*e.kind)@);
        match &*e.kind {
            ExprKind::Ident(n) => match self.types().lookup_variant(n.as_str()) {
                Lookup::Unique(_) => true,
                _ => self.local(n.as_str()).is_none() && self.global(n.as_str()).is_none(),
            },
            ExprKind::FieldAccess(o, _) => self.produces_owned(o),
            ExprKind::Index(a, _) => self.produces_owned(a),
            _ => true,
        }
    }

    /// The type of an expression, where it can be told.
    pub(crate) fn known_type(&mut self, e: &Expr) -> (t: Type)
        requires
            old(self).wf(),
        ensures
            final(self).wf(),
            stays_in(old(self)@, final(self)@),
            (final(self)@, t@) == known_type(old(self)@, e@),
    {
        let t = self.type_of(e);
        if is_valueless(e) {
            Type::Unit
        } else {
            match t {
                Some(t) => t,
                None => Type::Inferred,
            }
        }
    }

    /// A value as a condition. It is not kept.
    pub(crate) fn gen_cond(&mut self, v: CgValue, t: &Type, e: &Expr, by_if: bool) -> (r: Val)
        requires
            old(self).wf(),
        ensures
            final(self).wf(),
            stays_in(old(self)@, final(self)@),
            (final(self)@, r) == gen_cond(old(self)@, v, t@, e@, by_if),
    {
        let c = match test_of(v, t, by_if) {
            Test::Word => {
                let w = self.value_to_int(v);
                self.to_i1(w)
            },
            Test::Text => {
                let p = self.value_to_ptr(v);
                let n = self.emit(Op::Call(Ty::Word, "strlen".to_owned(), vals1(p)), "length");
                self.to_i1(n)
            },
            Test::Holds => self.emit(
                Op::Compare(Cond::Eq, Val::Word(0), Val::Word(0)),
                "holds",
            ),
            Test::Fails => self.emit(
                Op::Compare(Cond::Ne, Val::Word(0), Val::Word(0)),
                "fails",
            ),
        };
        self.spend(v, t, e);
        c
    }

    /// The value gets an owner: one built on the spot hands over the reference it
    /// already has; one that is merely named still belongs to whoever named it, so it
    /// is retained.
    pub(crate) fn own(&mut self, v: CgValue, t: &Type, e: &Expr)
        requires
            old(self).wf(),
        ensures
            final(self).wf(),
            stays_in(old(self)@, final(self)@),
            final(self)@ == own(old(self)@, v, t@, e@),
    {
        if self.is_managed(t) && !self.produces_owned(e) {
            let p = self.value_to_ptr(v);
            self.gen_retain(p);
        }
    }

    /// The value is not kept: what was built on the spot has no owner any more.
    pub(crate) fn spend(&mut self, v: CgValue, t: &Type, e: &Expr)
        requires
            old(self).wf(),
        ensures
            final(self).wf(),
            stays_in(old(self)@, final(self)@),
            final(self)@ == spend(old(self)@, v, t@, e@),
    {
        if self.is_managed(t) && self.produces_owned(e) {
            let p = self.value_to_ptr(v);
            self.gen_release(p, t);
        }
    }

    /// Retain a value of a type, if it is counted at all.
    pub(crate) fn retain_value(&mut self, v: CgValue, t: &Type)
        requires
            old(self).wf(),
        ensures
            final(self).wf(),
            stays_in(old(self)@, final(self)@),
            final(self)@ == retain_value(old(self)@, v, t@),
    {
        if self.is_managed(t) {
            let p = self.value_to_ptr(v);
            self.gen_retain(p);
        }
    }

    /// A slot for a value of a type: a double for a float, a pointer for a string, a
    /// word otherwise.
    pub(crate) fn new_slot(&mut self, ty: &Type, name: &str) -> (r: Val)
        requires
            old(self).wf(),
        ensures
            final(self).wf(),
            stays_in(old(self)@, final(self)@),
            (final(self)@, r) == new_slot(old(self)@, ty@, name@),
    {
        let x = match ty {
            Type::Float => {
                let p = self.slot(Room::Real, name);
                p
            },
            Type::String => {
                let p = self.slot(Room::Ptr, name);
                p
            },
            _ => {
                let p = self.slot(Room::Word, name);
                p
            },
        };
        x
    }

    /// Put a value into a local's slot, in the representation its type calls for.
    pub(crate) fn store_into(&mut self, place: Val, ty: &Type, v: CgValue)
        requires
            old(self).wf(),
        ensures
            final(self).wf(),
            stays_in(old(self)@, final(self)@),
            final(self)@ == store_into(old(self)@, place, ty@, v),
    {
        match ty {
            Type::Float => {
                let f = self.as_float(v);
                let _ = self.emit(Op::Store(place, f), "");
            },
            Type::String => {
                let p = self.value_to_ptr(v);
                let _ = self.emit(Op::Store(place, p), "");
            },
            _ => {
                let raw = self.value_to_int(v);
                let _ = self.emit(Op::Store(place, raw), "");
            },
        }
    }

    /// Read a local's slot.
    pub(crate) fn load_slot(&mut self, place: Val, ty: &Type) -> (r: CgValue)
        requires
            old(self).wf(),
        ensures
            final(self).wf(),
            stays_in(old(self)@, final(self)@),
            (final(self)@, r) == load_slot(old(self)@, place, ty@),
    {
        let x = match ty {
            Type::Float => {
                let f = self.emit(Op::Load(Ty::Real, place), "local");
                CgValue::Float(f)
            },
            Type::String => {
                let p = self.emit(Op::Load(Ty::Ptr, place), "local");
                CgValue::Str(p)
            },
            _ => {
                let raw = self.emit(Op::Load(Ty::Word, place), "local");
                CgValue::Int(raw)
            },
        };
        x
    }

    /// Declare a local of a type and give it a value. The slot belongs to the frame:
    /// a `let` inside a loop runs every iteration, and a slot made there would grow
    /// the stack.
    pub(crate) fn bind_local(&mut self, name: &str, ty: &Type, v: CgValue)
        requires
            old(self).wf(),
        ensures
            final(self).wf(),
            stays_in(old(self)@, final(self)@),
            final(self)@ == bind_local(old(self)@, name@, ty@, v),
    {
        let place = self.new_slot(ty, name);
        self.store_into(place, ty, v);
        self.declare(name, place, ty);
    }

    /// Release what a local holds.
    pub(crate) fn release_local(&mut self, place: Val, ty: &Type)
        requires
            old(self).wf(),
        ensures
            final(self).wf(),
            stays_in(old(self)@, final(self)@),
            final(self)@ == release_local(old(self)@, place, ty@),
    {
        if self.is_managed(ty) {
            let v = self.load_slot(place, ty);
            let p = self.value_to_ptr(v);
            self.gen_release(p, ty);
        }
    }

    /// Release the first `i` locals of a scope, the last of them first.
    pub(crate) fn release_names(&mut self, k: usize, i: usize)
        requires
            old(self).wf(),
        ensures
            final(self).wf(),
            stays_in(old(self)@, final(self)@),
            final(self)@ == release_names(old(self)@, k as int, i as int),
        decreases i,
    {
        if k < self.depth() && i > 0 && i <= self.locals_in(k) {
            let l = self.local_at(k, i - 1);
            self.release_local(l.slot, &l.ty);
            self.release_names(k, i - 1);
        }
    }

    /// Release everything that a scope introduced.
    pub(crate) fn release_scope(&mut self, k: usize)
        requires
            old(self).wf(),
        ensures
            final(self).wf(),
            stays_in(old(self)@, final(self)@),
            final(self)@ == release_scope(old(self)@, k as int),
    {
        if k < self.depth() {
            let n = self.locals_in(k);
            self.release_names(k, n);
        }
    }

    /// The start of a turn of a loop that counts.
    pub(crate) fn turn_head(&mut self, i_ptr: Val, to: Val, head: usize, body: usize, exit: usize) -> (r: Val)
        requires
            old(self).wf(),
        ensures
            final(self).wf(),
            stays_in(old(self)@, final(self)@),
            (final(self)@, r) == turn_head(old(self)@, i_ptr, to, head, body, exit),
    {
        self.position(head);
        let i = self.emit(Op::Load(Ty::Word, i_ptr), "for_cur");
        let more = self.emit(Op::Compare(Cond::Lt, i, to), "for_cmp");
        let _ = self.emit(Op::Branch(more, body, exit), "");
        i
    }

    /// The end of a turn.
    pub(crate) fn turn_step(&mut self, i_ptr: Val, head: usize, next: usize)
        requires
            old(self).wf(),
        ensures
            final(self).wf(),
            stays_in(old(self)@, final(self)@),
            final(self)@ == turn_step(old(self)@, i_ptr, head, next),
    {
        self.position(next);
        let j = self.emit(Op::Load(Ty::Word, i_ptr), "for_at");
        let j1 = self.emit(Op::Arith(Arith::Add, j, Val::Word(1)), "for_next");
        let _ = self.emit(Op::Store(i_ptr, j1), "");
        let _ = self.emit(Op::Jump(head), "");
    }

    /// Leaving early: everything that the scopes from `low` on introduced goes, but
    /// they stay open because code is still being made inside them.
    pub(crate) fn release_open(&mut self, n: usize, low: usize)
        requires
            old(self).wf(),
        ensures
            final(self).wf(),
            stays_in(old(self)@, final(self)@),
            final(self)@ == release_open(old(self)@, n as int, low as int),
        decreases n,
    {
        if n > low && n > 0 {
            self.release_scope(n - 1);
            self.release_open(n - 1, low);
        }
    }

    /// The end of a block: everything that it introduced goes.
    pub(crate) fn close_scope(&mut self)
        requires
            old(self).wf(),
        ensures
            final(self).wf(),
            final(self)@ == close_scope(old(self)@),
            old(self)@.scopes.len() > 0 ==> final(self)@.scopes.len() == old(self)@.scopes.len() - 1,
            stays_in(CgV { scopes: final(self)@.scopes, ..old(self)@ }, final(self)@),
    {
        if self.depth() > 0 && !self.left() {
            self.release_scope(self.depth() - 1);
        }
        self.drop_scope();
    }

    /// Where control came from decides on the value.
    pub(crate) fn gen_phi(&mut self, phis: Vec<(Val, usize)>) -> (r: Val)
        requires
            old(self).wf(),
        ensures
            final(self).wf(),
            stays_in(old(self)@, final(self)@),
            (final(self)@, r) == gen_phi(old(self)@, phis@),
    {
        let x = if phis.len() == 0 {
            Val::Word(0)
        } else {
            let r = self.emit(Op::Phi(phis), "merged");
            r
        };
        x
    }

    /// Two words compared.
    pub(crate) fn gen_compare(&mut self, c: Cond, a: Val, b: Val) -> (r: CgValue)
        requires
            old(self).wf(),
        ensures
            final(self).wf(),
            stays_in(old(self)@, final(self)@),
            (final(self)@, r) == gen_compare(old(self)@, c, a, b),
    {
        let r = self.emit(Op::Compare(c, a, b), "cmp");
        let v = self.from_i1(r);
        v
    }

    /// A binary operation on two integers. Where the result does not fit, and where
    /// there is none, the program stops.
    pub(crate) fn gen_int_op(&mut self, a: Val, op: BinOp, b: Val) -> (r: CgValue)
        requires
            old(self).wf(),
        ensures
            final(self).wf(),
            stays_in(old(self)@, final(self)@),
            (final(self)@, r) == gen_int_op(old(self)@, a, op, b),
    {
        let x = match op {
            BinOp::Add => {
                let r = self.emit(Op::Arith(Arith::Add, a, b), "add");
                self.gen_sum_check(a, r, Cond::Lt, b, "addition overflowed");
                CgValue::Int(r)
            },
            BinOp::Sub => {
                let r = self.emit(Op::Arith(Arith::Sub, a, b), "sub");
                self.gen_sum_check(a, r, Cond::Gt, b, "subtraction overflowed");
                CgValue::Int(r)
            },
            BinOp::Mul => {
                let r = self.emit(Op::Arith(Arith::Mul, a, b), "mul");
                self.gen_product_check(a, b, r);
                CgValue::Int(r)
            },
            BinOp::Div => {
                self.gen_division_check(a, b, "division by zero", "division overflowed");
                let r = self.emit(Op::Arith(Arith::Div, a, b), "div");
                CgValue::Int(r)
            },
            BinOp::Mod => {
                self.gen_division_check(a, b, "remainder by zero", "remainder overflowed");
                let r = self.emit(Op::Arith(Arith::Rem, a, b), "rem");
                CgValue::Int(r)
            },
            BinOp::Eq => {
                let v = self.gen_compare(Cond::Eq, a, b);
                v
            },
            BinOp::Ne => {
                let v = self.gen_compare(Cond::Ne, a, b);
                v
            },
            BinOp::Lt => {
                let v = self.gen_compare(Cond::Lt, a, b);
                v
            },
            BinOp::Le => {
                let v = self.gen_compare(Cond::Le, a, b);
                v
            },
            BinOp::Gt => {
                let v = self.gen_compare(Cond::Gt, a, b);
                v
            },
            BinOp::Ge => {
                let v = self.gen_compare(Cond::Ge, a, b);
                v
            },
            BinOp::And => {
                let l = self.emit(Op::Compare(Cond::Ne, a, Val::Word(0)), "left");
                let r = self.emit(Op::Compare(Cond::Ne, b, Val::Word(0)), "right");
                let both = self.emit(Op::Arith(Arith::And, l, r), "and");
                let v = self.from_i1(both);
                v
            },
            BinOp::Or => {
                let l = self.emit(Op::Compare(Cond::Ne, a, Val::Word(0)), "left");
                let r = self.emit(Op::Compare(Cond::Ne, b, Val::Word(0)), "right");
                let any = self.emit(Op::Arith(Arith::Or, l, r), "or");
                let v = self.from_i1(any);
                v
            },
        };
        x
    }

    /// A sum, or a difference, that went past the end of the integers comes out on
    /// the wrong side of its first operand.
    pub(crate) fn gen_sum_check(&mut self, a: Val, r: Val, down: Cond, b: Val, over: &str)
        requires
            old(self).wf(),
        ensures
            final(self).wf(),
            stays_in(old(self)@, final(self)@),
            final(self)@ == gen_sum_check(old(self)@, a, r, down, b, over@),
    {
        let falls = self.emit(Op::Compare(down, b, Val::Word(0)), "falls");
        let fell = self.emit(Op::Compare(Cond::Lt, r, a), "fell");
        let x = self.emit(Op::Cast(Cast::BoolToWord, falls), "falls_word");
        let y = self.emit(Op::Cast(Cast::BoolToWord, fell), "fell_word");
        let bad = self.emit(Op::Compare(Cond::Ne, x, y), "overflows");
        self.gen_abort_if(bad, over, Val::Word(0), Val::Word(0));
    }

    /// A product that did not fit does not give its second operand back when divided
    /// by its first. Dividing by zero, or the least integer by minus one, is left
    /// out.
    pub(crate) fn gen_product_check(&mut self, a: Val, b: Val, r: Val)
        requires
            old(self).wf(),
        ensures
            final(self).wf(),
            stays_in(old(self)@, final(self)@),
            final(self)@ == gen_product_check(old(self)@, a, b, r),
    {
        let is_zero = self.emit(Op::Compare(Cond::Eq, a, Val::Word(0)), "is_zero");
        let is_minus = self.emit(Op::Compare(Cond::Eq, a, Val::Word(MINUS_ONE)), "is_minus_one");
        let least = self.emit(Op::Compare(Cond::Eq, b, Val::Word(i64::MIN)), "least");
        let special = self.emit(Op::Arith(Arith::Or, is_zero, is_minus), "special");
        let by = self.emit(Op::Select(special, Val::Word(1), a), "by");
        let back = self.emit(Op::Arith(Arith::Div, r, by), "back");
        let differs = self.emit(Op::Compare(Cond::Ne, back, b), "differs");
        let plain = self.emit(Op::Not(special), "plain");
        let lost = self.emit(Op::Arith(Arith::And, plain, differs), "lost");
        let flips = self.emit(Op::Arith(Arith::And, is_minus, least), "flips");
        let bad = self.emit(Op::Arith(Arith::Or, lost, flips), "overflows");
        self.gen_abort_if(bad, "multiplication overflowed", Val::Word(0), Val::Word(0));
    }

    /// LLVM leaves division by zero, and the one division that overflows, undefined;
    /// the program stops there instead.
    pub(crate) fn gen_division_check(&mut self, a: Val, b: Val, zero: &str, over: &str)
        requires
            old(self).wf(),
        ensures
            final(self).wf(),
            stays_in(old(self)@, final(self)@),
            final(self)@ == gen_division_check(old(self)@, a, b, zero@, over@),
    {
        let is_zero = self.emit(Op::Compare(Cond::Eq, b, Val::Word(0)), "is_zero");
        self.gen_abort_if(is_zero, zero, Val::Word(0), Val::Word(0));
        let least = self.emit(Op::Compare(Cond::Eq, a, Val::Word(i64::MIN)), "least");
        let minus = self.emit(Op::Compare(Cond::Eq, b, Val::Word(MINUS_ONE)), "minus_one");
        let both = self.emit(Op::Arith(Arith::And, least, minus), "overflows");
        self.gen_abort_if(both, over, Val::Word(0), Val::Word(0));
    }

    /// A binary operation on two floats.
    pub(crate) fn gen_float_op(&mut self, a: Val, op: BinOp, b: Val) -> (r: CgValue)
        requires
            old(self).wf(),
        ensures
            final(self).wf(),
            stays_in(old(self)@, final(self)@),
            (final(self)@, r) == gen_float_op(old(self)@, a, op, b),
    {
        let x = match op {
            BinOp::Add => {
                let r = self.emit(Op::Float(FloatArith::Add, a, b), "fadd");
                CgValue::Float(r)
            },
            BinOp::Sub => {
                let r = self.emit(Op::Float(FloatArith::Sub, a, b), "fsub");
                CgValue::Float(r)
            },
            BinOp::Mul => {
                let r = self.emit(Op::Float(FloatArith::Mul, a, b), "fmul");
                CgValue::Float(r)
            },
            BinOp::Div => {
                let r = self.emit(Op::Float(FloatArith::Div, a, b), "fdiv");
                CgValue::Float(r)
            },
            BinOp::Mod => {
                let r = self.emit(Op::Float(FloatArith::Rem, a, b), "frem");
                CgValue::Float(r)
            },
            BinOp::Eq => {
                let r = self.emit(Op::FloatCompare(FloatCond::Eq, a, b), "feq");
                let v = self.from_i1(r);
                v
            },
            BinOp::Ne => {
                let r = self.emit(Op::FloatCompare(FloatCond::Ne, a, b), "fne");
                let v = self.from_i1(r);
                v
            },
            BinOp::Lt => {
                let r = self.emit(Op::FloatCompare(FloatCond::Lt, a, b), "flt");
                let v = self.from_i1(r);
                v
            },
            BinOp::Le => {
                let r = self.emit(Op::FloatCompare(FloatCond::Le, a, b), "fle");
                let v = self.from_i1(r);
                v
            },
            BinOp::Gt => {
                let r = self.emit(Op::FloatCompare(FloatCond::Gt, a, b), "fgt");
                let v = self.from_i1(r);
                v
            },
            BinOp::Ge => {
                let r = self.emit(Op::FloatCompare(FloatCond::Ge, a, b), "fge");
                let v = self.from_i1(r);
                v
            },
            _ => {
                self.refuse("unsupported float op".to_owned());
                CgValue::Int(Val::Word(0))
            },
        };
        x
    }

    /// A binary operation on two strings, which are compared by their characters.
    pub(crate) fn gen_str_op(&mut self, a: Val, op: BinOp, b: Val) -> (r: CgValue)
        requires
            old(self).wf(),
        ensures
            final(self).wf(),
            stays_in(old(self)@, final(self)@),
            (final(self)@, r) == gen_str_op(old(self)@, a, op, b),
    {
        let x = match op {
            BinOp::Add => {
                let r = self.gen_string_concat(a, b);
                CgValue::Str(r)
            },
            _ => {
                let c = self.emit(Op::CallHalf("strcmp".to_owned(), vals2(a, b)), "strcmp");
                let order = self.emit(Op::Cast(Cast::HalfToWord, c), "order");
                let v = self.gen_str_compare(order, op);
                v
            },
        };
        x
    }

    pub(crate) fn gen_str_compare(&mut self, order: Val, op: BinOp) -> (r: CgValue)
        requires
            old(self).wf(),
        ensures
            final(self).wf(),
            stays_in(old(self)@, final(self)@),
            (final(self)@, r) == gen_str_compare(old(self)@, order, op),
    {
        let x = match op {
            BinOp::Eq => {
                let v = self.gen_compare(Cond::Eq, order, Val::Word(0));
                v
            },
            BinOp::Ne => {
                let v = self.gen_compare(Cond::Ne, order, Val::Word(0));
                v
            },
            BinOp::Lt => {
                let v = self.gen_compare(Cond::Lt, order, Val::Word(0));
                v
            },
            BinOp::Le => {
                let v = self.gen_compare(Cond::Le, order, Val::Word(0));
                v
            },
            BinOp::Gt => {
                let v = self.gen_compare(Cond::Gt, order, Val::Word(0));
                v
            },
            BinOp::Ge => {
                let v = self.gen_compare(Cond::Ge, order, Val::Word(0));
                v
            },
            _ => {
                self.gen_abort("unsupported string op", Val::Word(0), Val::Word(0));
                CgValue::Str(Val::Null)
            },
        };
        x
    }

    /// A binary operation on two values. A number that joins a string is made a
    /// string first, and let go of after.
    pub(crate) fn gen_operation(&mut self, l: CgValue, op: BinOp, q: CgValue) -> (r: CgValue)
        requires
            old(self).wf(),
        ensures
            final(self).wf(),
            stays_in(old(self)@, final(self)@),
            (final(self)@, r) == gen_operation(old(self)@, l, op, q),
    {
        let x = match (l, q) {
            (CgValue::Str(a), CgValue::Str(b)) => {
                let v = self.gen_str_op(a, op, b);
                v
            },
            (CgValue::Str(a), CgValue::Int(b)) => {
                let t = self.gen_int_to_str(b);
                let v = self.gen_str_op(a, op, t);
                assert(Type::String.view() == TypeV::String);
                self.gen_release(t, &Type::String);
                v
            },
            (CgValue::Int(a), CgValue::Str(b)) => {
                let t = self.gen_int_to_str(a);
                let v = self.gen_str_op(t, op, b);
                assert(Type::String.view() == TypeV::String);
                self.gen_release(t, &Type::String);
                v
            },
            (CgValue::Float(a), CgValue::Float(b)) => {
                let v = self.gen_float_op(a, op, b);
                v
            },
            (CgValue::Int(a), CgValue::Int(b)) => {
                let v = self.gen_int_op(a, op, b);
                v
            },
            _ => {
                self.refuse("expected int operand".to_owned());
                CgValue::Int(Val::Word(0))
            },
        };
        x
    }

    /// A binary operation on values of two types. Truth values are words here, but
    /// the program stops where it takes them for numbers.
    pub(crate) fn gen_typed_operation(&mut self, l: CgValue, lt: &Type, op: BinOp, q: CgValue, qt: &Type) -> (r: CgValue)
        requires
            old(self).wf(),
        ensures
            final(self).wf(),
            stays_in(old(self)@, final(self)@),
            (final(self)@, r) == gen_typed_operation(old(self)@, l, lt@, op, q, qt@),
    {
        let known = matches!(op, BinOp::Eq | BinOp::Ne | BinOp::And | BinOp::Or);
        if matches!(lt, Type::Bool) && matches!(qt, Type::Bool) && !known {
            self.gen_abort("unsupported bool op", Val::Word(0), Val::Word(0));
            CgValue::Int(Val::Word(0))
        } else if matches!(lt, Type::Unit | Type::Range | Type::Named(_, _) | Type::Array(_) | Type::Fn(_, _))
            || matches!(qt, Type::Unit | Type::Range | Type::Named(_, _) | Type::Array(_) | Type::Fn(_, _)) {
            self.gen_abort("type mismatch in binary operation", Val::Word(0), Val::Word(0));
            CgValue::Int(Val::Word(0))
        } else {
            self.gen_operation(l, op, q)
        }
    }

    pub(crate) fn gen_unary_op(&mut self, op: UnaryOp, v: CgValue) -> (r: CgValue)
        requires
            old(self).wf(),
        ensures
            final(self).wf(),
            stays_in(old(self)@, final(self)@),
            (final(self)@, r) == gen_unary_op(old(self)@, op, v),
    {
        let x = match (op, v) {
            (UnaryOp::Neg, CgValue::Int(a)) => {
                let least = self.emit(Op::Compare(Cond::Eq, a, Val::Word(i64::MIN)), "least");
                self.gen_abort_if(least, "negation overflowed", Val::Word(0), Val::Word(0));
                let r = self.emit(Op::Neg(a), "neg");
                CgValue::Int(r)
            },
            (UnaryOp::Neg, CgValue::Float(a)) => {
                let r = self.emit(Op::FloatNeg(a), "fneg");
                CgValue::Float(r)
            },
            (UnaryOp::Not, CgValue::Int(a)) => {
                let r = self.emit(Op::Compare(Cond::Eq, a, Val::Word(0)), "not_cmp");
                let n = self.from_i1(r);
                n
            },
            _ => {
                self.refuse("cannot negate this value".to_owned());
                CgValue::Int(Val::Word(0))
            },
        };
        x
    }

    /// The text of a compound value: measured first, then written.
    pub(crate) fn gen_shown(&mut self, word: Val, ty: &Type) -> (r: Val)
        requires
            old(self).wf(),
        ensures
            final(self).wf(),
            stays_in(old(self)@, final(self)@),
            (final(self)@, r) == gen_shown(old(self)@, word, ty@),
    {
        self.want_show(ty);
        let need = self.emit(Op::Call(Ty::Word, show_fn(ty), vals3(Val::Null, Val::Word(0), word)), "need");
        let size = self.emit(Op::Arith(Arith::Add, need, Val::Word(1)), "size");
        let buf = self.scratch_bytes(size, "text");
        let _ = self.emit(Op::Call(Ty::Word, show_fn(ty), vals3(buf, size, word)), "");
        buf
    }

    /// The text of a word that is not a string.
    pub(crate) fn gen_word_text(&mut self, word: Val, ty: &Type) -> (r: Val)
        requires
            old(self).wf(),
        ensures
            final(self).wf(),
            stays_in(old(self)@, final(self)@),
            (final(self)@, r) == gen_word_text(old(self)@, word, ty@),
    {
        let x = match ty {
            Type::Bool => {
                let t = self.gen_bool_to_str(word);
                t
            },
            Type::Unit => {
                let t = self.string_global("()");
                t
            },
            Type::Array(_) => {
                let t = self.gen_shown(word, ty);
                t
            },
            Type::Named(_, _) => {
                let t = self.gen_shown(word, ty);
                t
            },
            Type::Range => {
                let t = self.gen_shown(word, ty);
                t
            },
            _ => {
                let t = self.gen_int_to_str(word);
                t
            },
        };
        x
    }

    /// Print a text and end the line.
    pub(crate) fn print_text(&mut self, t: Val)
        requires
            old(self).wf(),
        ensures
            final(self).wf(),
            stays_in(old(self)@, final(self)@),
            final(self)@ == print_text(old(self)@, t),
    {
        let fmt = self.text("%s\n");
        let _ = self.emit(Op::CallHalf("printf".to_owned(), vals2(fmt, t)), "call_printf");
    }

    /// The text of a value, for whoever reads it on the spot.
    pub(crate) fn gen_text(&mut self, v: CgValue, ty: &Type) -> (r: Val)
        requires
            old(self).wf(),
        ensures
            final(self).wf(),
            stays_in(old(self)@, final(self)@),
            (final(self)@, r) == gen_text(old(self)@, v, ty@),
    {
        let x = match v {
            CgValue::Str(p) => {
                p
            },
            CgValue::Float(f) => {
                let t = self.gen_float_to_str(f);
                t
            },
            CgValue::Int(word) => {
                let t = self.gen_word_text(word, ty);
                t
            },
        };
        x
    }

    /// Print one value.
    pub(crate) fn print_value(&mut self, v: CgValue, ty: &Type)
        requires
            old(self).wf(),
        ensures
            final(self).wf(),
            stays_in(old(self)@, final(self)@),
            final(self)@ == print_value(old(self)@, v, ty@),
    {
        let t = self.gen_text(v, ty);
        self.print_text(t);
    }

    /// Copy an array, each of whose elements then has one owner more.
    pub(crate) fn gen_copy_array(&mut self, arr: Val, el: &Type) -> (r: Val)
        requires
            old(self).wf(),
        ensures
            final(self).wf(),
            stays_in(old(self)@, final(self)@),
            (final(self)@, r) == gen_copy_array(old(self)@, arr, el@),
    {
        let count = self.emit(Op::Load(Ty::Word, arr), "old_len");
        let slots = self.emit(Op::Arith(Arith::Add, count, Val::Word(1)), "slots");
        let bytes = self.emit(Op::Arith(Arith::Mul, slots, Val::Word(8)), "bytes");
        let buf = self.scratch_bytes(bytes, "new_arr");
        let _ = self.emit(Op::Run("memcpy".to_owned(), vals3(buf, arr, bytes)), "");
        if self.is_managed(el) {
            let i_ptr = self.slot(Room::Word, "i");
            let _ = self.emit(Op::Store(i_ptr, Val::Word(1)), "");
            let head = self.block("keep_elems");
            let body = self.block("keep_elem");
            let out = self.block("keep_done");
            let _ = self.emit(Op::Jump(head), "");
            self.position(head);
            let i = self.emit(Op::Load(Ty::Word, i_ptr), "iv");
            let more = self.emit(Op::Compare(Cond::Le, i, count), "more");
            let _ = self.emit(Op::Branch(more, body, out), "");
            self.position(body);
            let place = self.emit(Op::Offset(Ty::Word, buf, i), "slot");
            let raw = self.emit(Op::Load(Ty::Word, place), "elem");
            let p = self.emit(Op::Cast(Cast::WordToPtr, raw), "elemp");
            self.gen_retain(p);
            let next = self.emit(Op::Arith(Arith::Add, i, Val::Word(1)), "i1");
            let _ = self.emit(Op::Store(i_ptr, next), "");
            let _ = self.emit(Op::Jump(head), "");
            self.position(out);
        }
        buf
    }

    /// The address of an element, after its index has been checked.
    pub(crate) fn gen_element(&mut self, arr: Val, idx: Val) -> (r: Val)
        requires
            old(self).wf(),
        ensures
            final(self).wf(),
            stays_in(old(self)@, final(self)@),
            (final(self)@, r) == gen_element(old(self)@, arr, idx),
    {
        let count = self.emit(Op::Load(Ty::Word, arr), "arr_len");
        self.gen_bounds_check(idx, count, "array");
        let off = self.emit(Op::Arith(Arith::Add, idx, Val::Word(1)), "elem_off");
        let place = self.emit(Op::Offset(Ty::Word, arr, off), "elem_ptr");
        place
    }

    /// A substring between two characters.
    pub(crate) fn gen_substring(&mut self, p: Val, start: Val, end: Val) -> (r: Val)
        requires
            old(self).wf(),
        ensures
            final(self).wf(),
            stays_in(old(self)@, final(self)@),
            (final(self)@, r) == gen_substring(old(self)@, p, start, end),
    {
        let count = self.emit(Op::Call(Ty::Word, "zarrin.chars".to_owned(), vals1(p)), "sub_srclen");
        let limit = self.emit(Op::Arith(Arith::Add, count, Val::Word(1)), "sub_limit");
        self.gen_bounds_check(start, limit, "substring start");
        self.gen_bounds_check(end, limit, "substring end");
        let inverted = self.emit(Op::Compare(Cond::Gt, start, end), "inverted");
        self.gen_abort_if(inverted, "substring start \u{1} is past end \u{1}", start, end);
        let from = self.emit(Op::Call(Ty::Word, "zarrin.char_start".to_owned(), vals2(p, start)), "sub_from");
        let to = self.emit(Op::Call(Ty::Word, "zarrin.char_start".to_owned(), vals2(p, end)), "sub_to");
        let len = self.emit(Op::Arith(Arith::Sub, to, from), "sub_len");
        let src = self.emit(Op::Offset(Ty::Byte, p, from), "src_ptr");
        let t = self.gen_slice(src, len);
        t
    }

    /// One character of a string, as a string.
    pub(crate) fn gen_char_at(&mut self, p: Val, idx: Val) -> (r: Val)
        requires
            old(self).wf(),
        ensures
            final(self).wf(),
            stays_in(old(self)@, final(self)@),
            (final(self)@, r) == gen_char_at(old(self)@, p, idx),
    {
        let count = self.emit(Op::Call(Ty::Word, "zarrin.chars".to_owned(), vals1(p)), "char_count");
        self.gen_bounds_check(idx, count, "char_at");
        let from = self.emit(Op::Call(Ty::Word, "zarrin.char_start".to_owned(), vals2(p, idx)), "char_from");
        let after = self.emit(Op::Arith(Arith::Add, idx, Val::Word(1)), "char_next");
        let to = self.emit(Op::Call(Ty::Word, "zarrin.char_start".to_owned(), vals2(p, after)), "char_to");
        let len = self.emit(Op::Arith(Arith::Sub, to, from), "char_len");
        let src = self.emit(Op::Offset(Ty::Byte, p, from), "char_ptr");
        let t = self.gen_slice(src, len);
        t
    }

    /// A string without the whitespace at its ends.
    pub(crate) fn gen_trim(&mut self, p: Val) -> (r: Val)
        requires
            old(self).wf(),
        ensures
            final(self).wf(),
            stays_in(old(self)@, final(self)@),
            (final(self)@, r) == gen_trim(old(self)@, p),
    {
        let skip = self.emit(Op::Call(Ty::Word, "zarrin.skipped".to_owned(), vals1(p)), "start_skip");
        let from = self.emit(Op::Offset(Ty::Byte, p, skip), "trimmed_start");
        let len = self.emit(Op::Call(Ty::Word, "zarrin.trimmed".to_owned(), vals1(from)), "len_after");
        let t = self.gen_slice(from, len);
        t
    }

    /// Whether a string holds another.
    pub(crate) fn gen_contains(&mut self, p: Val, needle: Val) -> (r: CgValue)
        requires
            old(self).wf(),
        ensures
            final(self).wf(),
            stays_in(old(self)@, final(self)@),
            (final(self)@, r) == gen_contains(old(self)@, p, needle),
    {
        let found = self.emit(Op::Call(Ty::Ptr, "strstr".to_owned(), vals2(p, needle)), "strstr_call");
        let hit = self.emit(Op::Compare(Cond::Ne, found, Val::Null), "found");
        let v = self.from_i1(hit);
        v
    }

    /// A variable of a loop: the count itself, or the element of an array at it.
    pub(crate) fn bind_element(&mut self, var: &str, i: Val, b: ForBounds, el: &Type)
        requires
            old(self).wf(),
        ensures
            final(self).wf(),
            stays_in(old(self)@, final(self)@),
            final(self)@ == bind_element(old(self)@, var@, i, b, el@),
    {
        match b.arr {
            Some(arr) => {
                let off = self.emit(Op::Arith(Arith::Add, i, Val::Word(1)), "elem_off");
                let place = self.emit(Op::Offset(Ty::Word, arr, off), "elem_ptr");
                let raw = self.emit(Op::Load(Ty::Word, place), "elem");
                let v = self.typed_value(raw, el);
                self.retain_value(v, el);
                self.bind_local(var, el, v);
            },
            None => {
                assert(Type::Int.view() == TypeV::Int);
                self.bind_local(var, &Type::Int, CgValue::Int(i));
            },
        }
    }

    /// What a loop walks is kept, under no name, until the loop ends.
    pub(crate) fn hold(&mut self, v: CgValue, t: &Type, e: &Expr)
        requires
            old(self).wf(),
        ensures
            final(self).wf(),
            stays_in(old(self)@, final(self)@),
            final(self)@ == hold(old(self)@, v, t@, e@),
    {
        if self.is_managed(t) {
            self.own(v, t, e);
            self.bind_local("", t, v);
        }
    }

    /// What a loop over a value of a type runs through.
    pub(crate) fn walk_bounds(&mut self, v: CgValue, t: &Type) -> (r: ForBounds)
        requires
            old(self).wf(),
        ensures
            final(self).wf(),
            stays_in(old(self)@, final(self)@),
            (final(self)@, r) == walk_bounds(old(self)@, v, t@),
    {
        let x = match t {
            Type::Range => {
                let p = self.value_to_ptr(v);
                let from = self.emit(Op::Load(Ty::Word, p), "range_from");
                let q = self.emit(Op::Offset(Ty::Word, p, Val::Word(1)), "range_end");
                let to = self.emit(Op::Load(Ty::Word, q), "range_to");
                ForBounds { from, to, arr: None }
            },
            Type::Array(_) => {
                let p = self.value_to_ptr(v);
                let count = self.emit(Op::Load(Ty::Word, p), "walk_len");
                ForBounds { from: Val::Word(0), to: count, arr: Some(p) }
            },
            _ => {
                let n = self.value_to_int(v);
                ForBounds { from: Val::Word(0), to: n, arr: None }
            },
        };
        x
    }

    /// A word of an enum or a struct value.
    pub(crate) fn load_word(&mut self, p: Val, i: usize) -> (r: Val)
        requires
            old(self).wf(),
        ensures
            final(self).wf(),
            stays_in(old(self)@, final(self)@),
            (final(self)@, r) == load_word(old(self)@, p, i as int),
    {
        let place = self.emit(Op::Offset(Ty::Word, p, Val::Word(i as i64)), "word_ptr");
        let raw = self.emit(Op::Load(Ty::Word, place), "word");
        raw
    }

    pub(crate) fn store_word(&mut self, p: Val, i: usize, word: Val)
        requires
            old(self).wf(),
        ensures
            final(self).wf(),
            stays_in(old(self)@, final(self)@),
            final(self)@ == store_word(old(self)@, p, i as int, word),
    {
        let place = self.emit(Op::Offset(Ty::Word, p, Val::Word(i as i64)), "word_ptr");
        let _ = self.emit(Op::Store(place, word), "");
    }

    /// A variant's tag, from the word that an enum value is.
    pub(crate) fn gen_tag(&mut self, word: Val, boxed: bool) -> (r: Val)
        requires
            old(self).wf(),
        ensures
            final(self).wf(),
            stays_in(old(self)@, final(self)@),
            (final(self)@, r) == gen_tag(old(self)@, word, boxed),
    {
        let x = if boxed {
            let p = self.emit(Op::Cast(Cast::WordToPtr, word), "enum_ptr");
            let t = self.emit(Op::Load(Ty::Word, p), "tag");
            t
        } else {
            word
        };
        x
    }

    /// Go on if a condition holds, else to a block.
    pub(crate) fn unless(&mut self, c: Val, fail: usize)
        requires
            old(self).wf(),
        ensures
            final(self).wf(),
            stays_in(old(self)@, final(self)@),
            final(self)@ == unless(old(self)@, c, fail),
    {
        let ok = self.block("match_ok");
        let _ = self.emit(Op::Branch(c, ok, fail), "");
        self.position(ok);
    }

    /// Whether a word is a literal's value; strings are compared by their characters.
    pub(crate) fn gen_same(&mut self, word: Val, lit: CgValue) -> (r: Val)
        requires
            old(self).wf(),
        ensures
            final(self).wf(),
            stays_in(old(self)@, final(self)@),
            (final(self)@, r) == gen_same(old(self)@, word, lit),
    {
        let x = match lit {
            CgValue::Str(q) => {
                let p = self.emit(Op::Cast(Cast::WordToPtr, word), "match_s");
                let c = self.emit(Op::CallHalf("strcmp".to_owned(), vals2(p, q)), "strcmp");
                let order = self.emit(Op::Cast(Cast::HalfToWord, c), "order");
                let r = self.emit(Op::Compare(Cond::Eq, order, Val::Word(0)), "match_cmp");
                r
            },
            _ => {
                let other = self.value_to_int(lit);
                let r = self.emit(Op::Compare(Cond::Eq, word, other), "match_cmp");
                r
            },
        };
        x
    }

    /// The payload of an `Option` or a `Result`, or the interpreter's failure where there is none.
    pub(crate) fn gen_unwrap(&mut self, p: Val, result: bool) -> (r: Val)
        requires
            old(self).wf(),
        ensures
            final(self).wf(),
            stays_in(old(self)@, final(self)@),
            (final(self)@, r) == gen_unwrap(old(self)@, p, result),
    {
        let tag = self.emit(Op::Load(Ty::Word, p), "tag");
        let bad = self.emit(Op::Compare(Cond::Ne, tag, Val::Word(0)), "no_payload");
        if result {
            self.gen_abort_if(bad, "unwrap() called on Err", Val::Word(0), Val::Word(0));
        } else {
            self.gen_abort_if(bad, "unwrap() called on None", Val::Word(0), Val::Word(0));
        }
        let raw = self.load_word(p, 1);
        raw
    }

    /// Space for a word and some more.
    pub(crate) fn scratch_tagged(&mut self, count: usize, name: &str) -> (r: Val)
        requires
            old(self).wf(),
        ensures
            final(self).wf(),
            stays_in(old(self)@, final(self)@),
            (final(self)@, r) == scratch_tagged(old(self)@, count as int, name@),
    {
        let words = self.emit(Op::Arith(Arith::Add, Val::Word(count as i64), Val::Word(1)), "words");
        let bytes = self.emit(Op::Arith(Arith::Mul, words, Val::Word(8)), "slot_bytes");
        let body = self.scratch_bytes(bytes, name);
        body
    }

    /// A field of a struct value, by name.
    pub(crate) fn gen_field_of(&mut self, p: Val, defs: &Vec<(String, Type)>, field: &str) -> (r: CgValue)
        requires
            old(self).wf(),
        ensures
            final(self).wf(),
            stays_in(old(self)@, final(self)@),
            (final(self)@, r) == gen_field_of(old(self)@, p, params_view(defs@), field@),
    {
        assert(params_view(defs@).len() == defs@.len());
        let x = match find_field(defs, field) {
            Some(k) => {
                assert(params_view(defs@)[k as int] == (defs@[k as int].0@, defs@[k as int].1@));
                let raw = self.load_word(p, k);
                let v = self.typed_value(raw, &defs[k].1);
                v
            },
            None => {
                let why = cat2("unknown field: ", field);
                self.refuse(why);
                CgValue::Int(Val::Word(0))
            },
        };
        x
    }

    /// A name: a local, or a variant without a payload.
    pub(crate) fn gen_ident(&mut self, name: &str) -> (r: CgValue)
        requires
            old(self).wf(),
        ensures
            final(self).wf(),
            stays_in(old(self)@, final(self)@),
            (final(self)@, r) == gen_ident(old(self)@, name@),
    {
        let x = match self.types().lookup_variant(name) {
            Lookup::Unique(v) => {
                let y = self.gen_empty_variant(&v);
                y
            },
            _ => {
                let y = match self.local(name) {
                    Some(l) => {
                        let v = self.load_slot(l.slot, &l.ty);
                        v
                    },
                    None => {
                        let v = self.gen_global(name);
                        v
                    },
                };
                y
            },
        };
        x
    }

    /// A variable of the program. The program stops where it has not been declared.
    pub(crate) fn gen_global(&mut self, name: &str) -> (r: CgValue)
        requires
            old(self).wf(),
        ensures
            final(self).wf(),
            stays_in(old(self)@, final(self)@),
            (final(self)@, r) == gen_global(old(self)@, name@),
    {
        let x = match self.global(name) {
            Some(g) => {
                let on = self.emit(Op::Load(Ty::Word, g.flag), "declared");
                let bad = self.emit(Op::Compare(Cond::Eq, on, Val::Word(0)), "undeclared");
                let why = cat2("undefined variable: ", name);
                self.gen_abort_if(bad, why.as_str(), Val::Word(0), Val::Word(0));
                let v = self.load_slot(g.place, &g.ty);
                v
            },
            None => {
                let why = cat2("undefined var: ", name);
                self.refuse(why);
                CgValue::Int(Val::Word(0))
            },
        };
        x
    }

    /// A new value of a variable of the program. What it held goes after the store.
    pub(crate) fn set_global(&mut self, g: &Global, v: CgValue, e: &Expr)
        requires
            old(self).wf(),
        ensures
            final(self).wf(),
            stays_in(old(self)@, final(self)@),
            final(self)@ == set_global(old(self)@, g@, v, e@),
    {
        self.own(v, &g.ty, e);
        if self.is_managed(&g.ty) {
            let on = self.emit(Op::Load(Ty::Word, g.flag), "declared");
            let has = self.emit(Op::Compare(Cond::Ne, on, Val::Word(0)), "has_old");
            let again = self.block("again");
            let first = self.block("first");
            let done = self.block("stored");
            let _ = self.emit(Op::Branch(has, again, first), "");
            self.position(again);
            let old_v = self.load_slot(g.place, &g.ty);
            self.store_into(g.place, &g.ty, v);
            let p = self.value_to_ptr(old_v);
            self.gen_release(p, &g.ty);
            let _ = self.emit(Op::Jump(done), "");
            self.position(first);
            self.store_into(g.place, &g.ty, v);
            let _ = self.emit(Op::Jump(done), "");
            self.position(done);
        } else {
            self.store_into(g.place, &g.ty, v);
        }
    }

    /// A variable of the program is declared.
    pub(crate) fn declare_global(&mut self, name: &str, v: CgValue, e: &Expr)
        requires
            old(self).wf(),
        ensures
            final(self).wf(),
            stays_in(old(self)@, final(self)@),
            final(self)@ == declare_global(old(self)@, name@, v, e@),
    {
        match self.global(name) {
            Some(g) => {
                self.set_global(&g, v, e);
                let _ = self.emit(Op::Store(g.flag, Val::Word(1)), "");
            },
            None => {
                let why = cat2("undefined var: ", name);
                self.refuse(why);
            },
        }
    }

    pub(crate) fn gen_empty_variant(&mut self, v: &Variant) -> (r: CgValue)
        requires
            old(self).wf(),
        ensures
            final(self).wf(),
            stays_in(old(self)@, final(self)@),
            (final(self)@, r) == gen_empty_variant(old(self)@, v@),
    {
        let x = if v.enum_has_payload {
            let p = self.scratch_slots(1, "enum");
            let _ = self.emit(Op::Store(p, tag_of(v)), "");
            let word = self.emit(Op::Cast(Cast::PtrToWord, p), "enum_ptr");
            CgValue::Int(word)
        } else {
            CgValue::Int(tag_of(v))
        };
        x
    }

    /// The methods of `Option` and `Result`. What `unwrap` hands out has an owner of its own.
    pub(crate) fn gen_wrapper_method(&mut self, ov: CgValue, ot: &Type, method: &str, rt: &Type) -> (r: CgValue)
        requires
            old(self).wf(),
        ensures
            final(self).wf(),
            stays_in(old(self)@, final(self)@),
            (final(self)@, r) == gen_wrapper_method(old(self)@, ov, ot@, method@, rt@),
    {
        let p = self.value_to_ptr(ov);
        let x = if str_eq(method, "unwrap") {
            let raw = self.gen_unwrap(p, is_result_type(ot));
            let v = self.typed_value(raw, rt);
            self.retain_value(v, rt);
            v
        } else {
            let tag = self.emit(Op::Load(Ty::Word, p), "tag");
            let c = if str_eq(method, "is_some") || str_eq(method, "is_ok") {
                let y = self.emit(Op::Compare(Cond::Eq, tag, Val::Word(0)), "is_v0");
                y
            } else {
                let y = self.emit(Op::Compare(Cond::Ne, tag, Val::Word(0)), "not_v0");
                y
            };
            let v = self.from_i1(c);
            if asks_for_other(ot, method) {
                CgValue::Int(Val::Word(0))
            } else {
                v
            }
        };
        x
    }
}

// ---- running the code that is made ----

/// An integer, or a truth value, as the word that stands for it.
pub open spec fn word_of(v: ValueV) -> i64 {
    match v {
        ValueV::Int(n) => n,
        ValueV::Bool(b) => if b {
            1
        } else {
            0
        },
        _ => 0,
    }
}

/// Code computes a value: it runs through and leaves the word for it in an
/// operand.
pub open spec fn gives(s: CgV, t: CgV, r: CgValue, mem: Memory, after: Memory, v: ValueV) -> bool {
    &&& runs(s, t, mem, after)
    &&& keeps(mem, after, s.m.func.insts.len() as int)
    &&& r matches CgValue::Int(w) && operand(after, w) == Some(Datum::Word(word_of(v))) && settled(
        w,
        t.m.func.insts.len() as int,
    )
}

/// The operand is known, and stays known while code is added.
pub open spec fn holds_word(s: CgV, mem: Memory, a: Val, x: i64) -> bool {
    operand(mem, a) == Some(Datum::Word(x)) && settled(a, s.m.func.insts.len() as int)
}

proof fn lemma_sum_check_adds(s: CgV, a: Val, r: Val, down: Cond, b: Val, over: Seq<char>)
    ensures
        adds(s, gen_sum_check(s, a, r, down, b, over)),
        continues(s, gen_sum_check(s, a, r, down, b, over)),
        open_here(s) ==> gen_sum_check(s, a, r, down, b, over).m.func.insts.len()
            >= s.m.func.insts.len() + 5,
{
    let mem: Memory = arbitrary();
    let (s1, falls) = s.emit(OpV::Compare(down, b, Val::Word(0)), "falls"@);
    let (s2, fell) = s1.emit(OpV::Compare(Cond::Lt, r, a), "fell"@);
    let (s3, x) = s2.emit(OpV::Cast(Cast::BoolToWord, falls), "falls_word"@);
    let (s4, y) = s3.emit(OpV::Cast(Cast::BoolToWord, fell), "fell_word"@);
    let (s5, bad) = s4.emit(OpV::Compare(Cond::Ne, x, y), "overflows"@);
    lemma_emit(s, OpV::Compare(down, b, Val::Word(0)), "falls"@, mem);
    lemma_emit(s1, OpV::Compare(Cond::Lt, r, a), "fell"@, mem);
    lemma_emit(s2, OpV::Cast(Cast::BoolToWord, falls), "falls_word"@, mem);
    lemma_emit(s3, OpV::Cast(Cast::BoolToWord, fell), "fell_word"@, mem);
    lemma_emit(s4, OpV::Compare(Cond::Ne, x, y), "overflows"@, mem);
    lemma_abort_if(s5, bad, over, Val::Word(0), Val::Word(0), mem, true);
    lemma_adds_chain(s, s1, s2);
    lemma_adds_chain(s, s2, s3);
    lemma_adds_chain(s, s3, s4);
    lemma_adds_chain(s, s4, s5);
    lemma_adds_chain(s, s5, gen_sum_check(s, a, r, down, b, over));
}

proof fn lemma_sum_check(
    s: CgV,
    a: Val,
    r: Val,
    down: Cond,
    b: Val,
    over: Seq<char>,
    mem: Memory,
    x: i64,
    w: i64,
    y: i64,
) -> (after: Memory)
    requires
        open_here(s),
        countable(gen_sum_check(s, a, r, down, b, over)),
        holds_word(s, mem, a, x),
        holds_word(s, mem, r, w),
        holds_word(s, mem, b, y),
    ensures
        ({
            let t = gen_sum_check(s, a, r, down, b, over);
            let bad = compared(down, y, 0) != (w < x);
            &&& keeps(mem, after, s.m.func.insts.len() as int)
            &&& !bad ==> runs(s, t, mem, after)
            &&& bad ==> stops(s, t, mem, over)
        }),
{
    lemma_sum_check_adds(s, a, r, down, b, over);
    let n = s.m.func.insts.len() as int;
    let bad_now = compared(down, y, 0) != (w < x);
    lemma_no_run(s, mem);
    let o1 = OpV::Compare(down, b, Val::Word(0));
    let (s1, falls) = s.emit(o1, "falls"@);
    lemma_then_emit(s, s, o1, "falls"@, mem, mem);
    let m1 = given(mem, n, Datum::Truth(compared(down, y, 0)));
    let o2 = OpV::Compare(Cond::Lt, r, a);
    let (s2, fell) = s1.emit(o2, "fell"@);
    lemma_then_emit(s, s1, o2, "fell"@, mem, m1);
    let m2 = given(m1, n + 1, Datum::Truth(w < x));
    let o3 = OpV::Cast(Cast::BoolToWord, falls);
    let (s3, p) = s2.emit(o3, "falls_word"@);
    lemma_then_emit(s, s2, o3, "falls_word"@, mem, m2);
    let m3 = given(m2, n + 2, computed(o3, m2)->Some_0);
    let o4 = OpV::Cast(Cast::BoolToWord, fell);
    let (s4, q) = s3.emit(o4, "fell_word"@);
    lemma_then_emit(s, s3, o4, "fell_word"@, mem, m3);
    let m4 = given(m3, n + 3, computed(o4, m3)->Some_0);
    let o5 = OpV::Compare(Cond::Ne, p, q);
    let (s5, bad) = s4.emit(o5, "overflows"@);
    lemma_then_emit(s, s4, o5, "overflows"@, mem, m4);
    let m5 = given(m4, n + 4, Datum::Truth(bad_now));
    lemma_abort_if(s5, bad, over, Val::Word(0), Val::Word(0), m5, bad_now);
    lemma_then(s, s5, gen_sum_check(s, a, r, down, b, over), mem, m5);
    m5
}

proof fn lemma_product_check_adds(s: CgV, a: Val, b: Val, r: Val)
    ensures
        adds(s, gen_product_check(s, a, b, r)),
        continues(s, gen_product_check(s, a, b, r)),
        open_here(s) ==> gen_product_check(s, a, b, r).m.func.insts.len() >= s.m.func.insts.len() + 11,
{
    let mem: Memory = arbitrary();
    let t = gen_product_check(s, a, b, r);
    let (s1, is_zero) = s.emit(OpV::Compare(Cond::Eq, a, Val::Word(0)), "is_zero"@);
    lemma_emit(s, OpV::Compare(Cond::Eq, a, Val::Word(0)), "is_zero"@, mem);
    let (s2, is_minus) = s1.emit(OpV::Compare(Cond::Eq, a, Val::Word(MINUS_ONE)), "is_minus_one"@);
    lemma_emit(s1, OpV::Compare(Cond::Eq, a, Val::Word(MINUS_ONE)), "is_minus_one"@, mem);
    lemma_adds_chain(s, s1, s2);
    let (s3, least) = s2.emit(OpV::Compare(Cond::Eq, b, Val::Word(i64::MIN)), "least"@);
    lemma_emit(s2, OpV::Compare(Cond::Eq, b, Val::Word(i64::MIN)), "least"@, mem);
    lemma_adds_chain(s, s2, s3);
    let (s4, special) = s3.emit(OpV::Arith(Arith::Or, is_zero, is_minus), "special"@);
    lemma_emit(s3, OpV::Arith(Arith::Or, is_zero, is_minus), "special"@, mem);
    lemma_adds_chain(s, s3, s4);
    let (s5, by) = s4.emit(OpV::Select(special, Val::Word(1), a), "by"@);
    lemma_emit(s4, OpV::Select(special, Val::Word(1), a), "by"@, mem);
    lemma_adds_chain(s, s4, s5);
    let (s6, back) = s5.emit(OpV::Arith(Arith::Div, r, by), "back"@);
    lemma_emit(s5, OpV::Arith(Arith::Div, r, by), "back"@, mem);
    lemma_adds_chain(s, s5, s6);
    let (s7, differs) = s6.emit(OpV::Compare(Cond::Ne, back, b), "differs"@);
    lemma_emit(s6, OpV::Compare(Cond::Ne, back, b), "differs"@, mem);
    lemma_adds_chain(s, s6, s7);
    let (s8, plain) = s7.emit(OpV::Not(special), "plain"@);
    lemma_emit(s7, OpV::Not(special), "plain"@, mem);
    lemma_adds_chain(s, s7, s8);
    let (s9, lost) = s8.emit(OpV::Arith(Arith::And, plain, differs), "lost"@);
    lemma_emit(s8, OpV::Arith(Arith::And, plain, differs), "lost"@, mem);
    lemma_adds_chain(s, s8, s9);
    let (s10, flips) = s9.emit(OpV::Arith(Arith::And, is_minus, least), "flips"@);
    lemma_emit(s9, OpV::Arith(Arith::And, is_minus, least), "flips"@, mem);
    lemma_adds_chain(s, s9, s10);
    let (s11, bad) = s10.emit(OpV::Arith(Arith::Or, lost, flips), "overflows"@);
    lemma_emit(s10, OpV::Arith(Arith::Or, lost, flips), "overflows"@, mem);
    lemma_adds_chain(s, s10, s11);
    lemma_abort_if(s11, bad, "multiplication overflowed"@, Val::Word(0), Val::Word(0), mem, true);
    lemma_adds_chain(s, s11, t);
}

#[verifier::rlimit(60)]
proof fn lemma_product_check(s: CgV, a: Val, b: Val, r: Val, mem: Memory, x: i64, y: i64) -> (after: Memory)
    requires
        open_here(s),
        countable(gen_product_check(s, a, b, r)),
        holds_word(s, mem, a, x),
        holds_word(s, mem, b, y),
        holds_word(s, mem, r, wrapped(x * y)),
    ensures
        ({
            let t = gen_product_check(s, a, b, r);
            let fits = i64::MIN <= x * y <= i64::MAX;
            &&& keeps(mem, after, s.m.func.insts.len() as int)
            &&& fits ==> runs(s, t, mem, after)
            &&& !fits ==> stops(s, t, mem, "multiplication overflowed"@)
        }),
{
    lemma_product_check_adds(s, a, b, r);
    let n = s.m.func.insts.len() as int;
    let fits = i64::MIN <= x * y <= i64::MAX;
    let w = wrapped(x * y);
    let special_now = x == 0 || x == -1;
    let by_now: i64 = if special_now {
        1
    } else {
        x
    };
    let back_now = quotient(w as int, by_now as int) as i64;
    assert(x == 0 ==> x * y == 0) by (nonlinear_arith);
    assert(x == -1 ==> x * y == -y) by (nonlinear_arith);
    if x != 0 && x != -1 {
        law_product_overflow(x, y);
    } else {
        law_wrapped(x * y);
    }
    lemma_no_run(s, mem);
    let o1 = OpV::Compare(Cond::Eq, a, Val::Word(0));
    let (s1, is_zero) = s.emit(o1, "is_zero"@);
    assert(computed(o1, mem) == Some(Datum::Truth(x == 0)));
    lemma_then_emit(s, s, o1, "is_zero"@, mem, mem);
    let m1 = given(mem, n, Datum::Truth(x == 0));
    let o2 = OpV::Compare(Cond::Eq, a, Val::Word(MINUS_ONE));
    let (s2, is_minus) = s1.emit(o2, "is_minus_one"@);
    assert(computed(o2, m1) == Some(Datum::Truth(x == -1)));
    lemma_then_emit(s, s1, o2, "is_minus_one"@, mem, m1);
    let m2 = given(m1, n + 1, Datum::Truth(x == -1));
    let o3 = OpV::Compare(Cond::Eq, b, Val::Word(i64::MIN));
    let (s3, least) = s2.emit(o3, "least"@);
    assert(computed(o3, m2) == Some(Datum::Truth(y == i64::MIN)));
    lemma_then_emit(s, s2, o3, "least"@, mem, m2);
    let m3 = given(m2, n + 2, Datum::Truth(y == i64::MIN));
    let o4 = OpV::Arith(Arith::Or, is_zero, is_minus);
    let (s4, special) = s3.emit(o4, "special"@);
    assert(computed(o4, m3) == Some(Datum::Truth(special_now)));
    lemma_then_emit(s, s3, o4, "special"@, mem, m3);
    let m4 = given(m3, n + 3, Datum::Truth(special_now));
    let o5 = OpV::Select(special, Val::Word(1), a);
    let (s5, by) = s4.emit(o5, "by"@);
    assert(computed(o5, m4) == Some(Datum::Word(by_now)));
    lemma_then_emit(s, s4, o5, "by"@, mem, m4);
    let m5 = given(m4, n + 4, Datum::Word(by_now));
    let o6 = OpV::Arith(Arith::Div, r, by);
    let (s6, back) = s5.emit(o6, "back"@);
    assert(computed(o6, m5) == Some(Datum::Word(back_now)));
    lemma_then_emit(s, s5, o6, "back"@, mem, m5);
    let m6 = given(m5, n + 5, Datum::Word(back_now));
    let o7 = OpV::Compare(Cond::Ne, back, b);
    let (s7, differs) = s6.emit(o7, "differs"@);
    assert(computed(o7, m6) == Some(Datum::Truth(back_now != y)));
    lemma_then_emit(s, s6, o7, "differs"@, mem, m6);
    let m7 = given(m6, n + 6, Datum::Truth(back_now != y));
    let o8 = OpV::Not(special);
    let (s8, plain) = s7.emit(o8, "plain"@);
    assert(computed(o8, m7) == Some(Datum::Truth(!special_now)));
    lemma_then_emit(s, s7, o8, "plain"@, mem, m7);
    let m8 = given(m7, n + 7, Datum::Truth(!special_now));
    let o9 = OpV::Arith(Arith::And, plain, differs);
    let (s9, lost) = s8.emit(o9, "lost"@);
    assert(computed(o9, m8) == Some(Datum::Truth(!special_now && back_now != y)));
    lemma_then_emit(s, s8, o9, "lost"@, mem, m8);
    let m9 = given(m8, n + 8, Datum::Truth(!special_now && back_now != y));
    let o10 = OpV::Arith(Arith::And, is_minus, least);
    let (s10, flips) = s9.emit(o10, "flips"@);
    assert(computed(o10, m9) == Some(Datum::Truth(x == -1 && y == i64::MIN)));
    lemma_then_emit(s, s9, o10, "flips"@, mem, m9);
    let m10 = given(m9, n + 9, Datum::Truth(x == -1 && y == i64::MIN));
    let o11 = OpV::Arith(Arith::Or, lost, flips);
    let (s11, bad) = s10.emit(o11, "overflows"@);
    assert(computed(o11, m10) == Some(Datum::Truth(!fits)));
    lemma_then_emit(s, s10, o11, "overflows"@, mem, m10);
    let m11 = given(m10, n + 10, Datum::Truth(!fits));
    lemma_abort_if(s11, bad, "multiplication overflowed"@, Val::Word(0), Val::Word(0), m11, !fits);
    lemma_then(s, s11, gen_product_check(s, a, b, r), mem, m11);
    m11
}

proof fn lemma_division_check_adds(s: CgV, a: Val, b: Val, zero: Seq<char>, over: Seq<char>)
    ensures
        adds(s, gen_division_check(s, a, b, zero, over)),
        continues(s, gen_division_check(s, a, b, zero, over)),
        open_here(s) ==> gen_division_check(s, a, b, zero, over).m.func.insts.len()
            >= s.m.func.insts.len() + 1,
{
    let mem: Memory = arbitrary();
    let t = gen_division_check(s, a, b, zero, over);
    let (s1, is_zero) = s.emit(OpV::Compare(Cond::Eq, b, Val::Word(0)), "is_zero"@);
    lemma_emit(s, OpV::Compare(Cond::Eq, b, Val::Word(0)), "is_zero"@, mem);
    let s2 = gen_abort_if(s1, is_zero, zero, Val::Word(0), Val::Word(0));
    lemma_abort_if(s1, is_zero, zero, Val::Word(0), Val::Word(0), mem, true);
    lemma_adds_chain(s, s1, s2);
    let (s3, least) = s2.emit(OpV::Compare(Cond::Eq, a, Val::Word(i64::MIN)), "least"@);
    lemma_emit(s2, OpV::Compare(Cond::Eq, a, Val::Word(i64::MIN)), "least"@, mem);
    lemma_adds_chain(s, s2, s3);
    let (s4, minus) = s3.emit(OpV::Compare(Cond::Eq, b, Val::Word(MINUS_ONE)), "minus_one"@);
    lemma_emit(s3, OpV::Compare(Cond::Eq, b, Val::Word(MINUS_ONE)), "minus_one"@, mem);
    lemma_adds_chain(s, s3, s4);
    let (s5, both) = s4.emit(OpV::Arith(Arith::And, least, minus), "overflows"@);
    lemma_emit(s4, OpV::Arith(Arith::And, least, minus), "overflows"@, mem);
    lemma_adds_chain(s, s4, s5);
    lemma_abort_if(s5, both, over, Val::Word(0), Val::Word(0), mem, true);
    lemma_adds_chain(s, s5, t);
}

#[verifier::rlimit(40)]
proof fn lemma_division_check(
    s: CgV,
    a: Val,
    b: Val,
    zero: Seq<char>,
    over: Seq<char>,
    mem: Memory,
    x: i64,
    y: i64,
) -> (after: Memory)
    requires
        open_here(s),
        countable(gen_division_check(s, a, b, zero, over)),
        holds_word(s, mem, a, x),
        holds_word(s, mem, b, y),
    ensures
        ({
            let t = gen_division_check(s, a, b, zero, over);
            let overflows = x == i64::MIN && y == -1;
            &&& keeps(mem, after, s.m.func.insts.len() as int)
            &&& y == 0 ==> stops(s, t, mem, zero)
            &&& y != 0 && overflows ==> stops(s, t, mem, over)
            &&& y != 0 && !overflows ==> runs(s, t, mem, after)
        }),
{
    let t = gen_division_check(s, a, b, zero, over);
    let n = s.m.func.insts.len() as int;
    let overflows = x == i64::MIN && y == -1;
    let o1 = OpV::Compare(Cond::Eq, b, Val::Word(0));
    let (s1, is_zero) = s.emit(o1, "is_zero"@);
    let s2 = gen_abort_if(s1, is_zero, zero, Val::Word(0), Val::Word(0));
    let o3 = OpV::Compare(Cond::Eq, a, Val::Word(i64::MIN));
    let (s3, least) = s2.emit(o3, "least"@);
    let o4 = OpV::Compare(Cond::Eq, b, Val::Word(MINUS_ONE));
    let (s4, minus) = s3.emit(o4, "minus_one"@);
    let o5 = OpV::Arith(Arith::And, least, minus);
    let (s5, both) = s4.emit(o5, "overflows"@);
    lemma_emit(s, o1, "is_zero"@, mem);
    lemma_emit(s2, o3, "least"@, mem);
    lemma_emit(s3, o4, "minus_one"@, mem);
    lemma_emit(s4, o5, "overflows"@, mem);
    lemma_abort_if(s5, both, over, Val::Word(0), Val::Word(0), mem, true);
    lemma_adds_chain(s4, s5, t);
    lemma_adds_chain(s3, s4, t);
    lemma_adds_chain(s2, s3, t);
    lemma_no_run(s, mem);
    lemma_then_emit(s, s, o1, "is_zero"@, mem, mem);
    let m1 = given(mem, n, Datum::Truth(y == 0));
    lemma_abort_if(s1, is_zero, zero, Val::Word(0), Val::Word(0), m1, y == 0);
    lemma_then(s, s1, s2, mem, m1);
    if y == 0 {
        lemma_stopped_then(s, s2, t, mem, zero);
        m1
    } else {
        let k = s2.m.func.insts.len() as int;
        lemma_then_emit(s, s2, o3, "least"@, mem, m1);
        let m3 = given(m1, k, Datum::Truth(x == i64::MIN));
        lemma_then_emit(s, s3, o4, "minus_one"@, mem, m3);
        let m4 = given(m3, k + 1, Datum::Truth(y == -1));
        lemma_then_emit(s, s4, o5, "overflows"@, mem, m4);
        let m5 = given(m4, k + 2, Datum::Truth(overflows));
        lemma_abort_if(s5, both, over, Val::Word(0), Val::Word(0), m5, overflows);
        lemma_then(s, s5, t, mem, m5);
        m5
    }
}

proof fn lemma_compare(s: CgV, c: Cond, a: Val, b: Val, mem: Memory, x: i64, y: i64) -> (after: Memory)
    ensures
        adds(s, gen_compare(s, c, a, b).0),
        continues(s, gen_compare(s, c, a, b).0),
        gen_compare(s, c, a, b).1 is Int,
        open_here(s) && countable(gen_compare(s, c, a, b).0) && holds_word(s, mem, a, x)
            && holds_word(s, mem, b, y) ==> gives(
            s,
            gen_compare(s, c, a, b).0,
            gen_compare(s, c, a, b).1,
            mem,
            after,
            ValueV::Bool(compared(c, x, y)),
        ),
{
    let n = s.m.func.insts.len() as int;
    let o1 = OpV::Compare(c, a, b);
    let (s1, r) = s.emit(o1, "cmp"@);
    let t = gen_compare(s, c, a, b).0;
    lemma_emit(s, o1, "cmp"@, mem);
    let m1 = given(mem, n, Datum::Truth(compared(c, x, y)));
    lemma_from_i1(s1, r, m1);
    lemma_adds_chain(s, s1, t);
    let m2 = given(m1, n + 1, Datum::Word(word_of(ValueV::Bool(compared(c, x, y)))));
    if open_here(s) && countable(t) && holds_word(s, mem, a, x) && holds_word(s, mem, b, y) {
        lemma_then(s, s1, t, mem, m1);
    }
    m2
}

#[verifier::rlimit(40)]
proof fn lemma_connective(
    s: CgV,
    k: Arith,
    name: Seq<char>,
    a: Val,
    b: Val,
    mem: Memory,
    x: i64,
    y: i64,
) -> (after: Memory)
    requires
        k is And || k is Or,
    ensures
        ({
            let (s1, l) = s.emit(OpV::Compare(Cond::Ne, a, Val::Word(0)), "left"@);
            let (s2, q) = s1.emit(OpV::Compare(Cond::Ne, b, Val::Word(0)), "right"@);
            let (s3, w) = s2.emit(OpV::Arith(k, l, q), name);
            let (t, v) = from_i1(s3, w);
            let truth = if k is And {
                x != 0 && y != 0
            } else {
                x != 0 || y != 0
            };
            &&& adds(s, t)
            &&& continues(s, t)
            &&& v is Int
            &&& open_here(s) && countable(t) && holds_word(s, mem, a, x) && holds_word(s, mem, b, y)
                ==> gives(s, t, v, mem, after, ValueV::Bool(truth))
        }),
{
    let n = s.m.func.insts.len() as int;
    let o1 = OpV::Compare(Cond::Ne, a, Val::Word(0));
    let (s1, l) = s.emit(o1, "left"@);
    let o2 = OpV::Compare(Cond::Ne, b, Val::Word(0));
    let (s2, q) = s1.emit(o2, "right"@);
    let o3 = OpV::Arith(k, l, q);
    let (s3, w) = s2.emit(o3, name);
    let (t, v) = from_i1(s3, w);
    let truth = if k is And {
        x != 0 && y != 0
    } else {
        x != 0 || y != 0
    };
    let m1 = given(mem, n, Datum::Truth(x != 0));
    let m2 = given(m1, n + 1, Datum::Truth(y != 0));
    let m3 = given(m2, n + 2, Datum::Truth(truth));
    let m4 = given(m3, n + 3, Datum::Word(word_of(ValueV::Bool(truth))));
    lemma_emit(s, o1, "left"@, mem);
    lemma_emit(s1, o2, "right"@, m1);
    lemma_emit(s2, o3, name, m2);
    lemma_from_i1(s3, w, m3);
    lemma_adds_chain(s, s1, s2);
    lemma_adds_chain(s, s2, s3);
    lemma_adds_chain(s, s3, t);
    if open_here(s) && countable(t) && holds_word(s, mem, a, x) && holds_word(s, mem, b, y) {
        lemma_then(s, s1, s2, mem, m1);
        lemma_then(s, s2, s3, mem, m2);
        lemma_then(s, s3, t, mem, m3);
    }
    m4
}

/// The code for an operation on two integers leaves its result, or stops the
/// program with the message of its failure.
pub open spec fn operates(
    s: CgV,
    a: Val,
    op: BinOp,
    b: Val,
    mem: Memory,
    after: Memory,
    x: i64,
    y: i64,
) -> bool {
    let (t, r) = gen_int_op(s, a, op, b);
    match int_op(x, op, y) {
        Ok(v) => gives(s, t, r, mem, after, v),
        Err(message) => stops(s, t, mem, message),
    }
}

#[verifier::rlimit(40)]
proof fn lemma_addition(s: CgV, a: Val, b: Val, mem: Memory, x: i64, y: i64) -> (after: Memory)
    requires
        open_here(s),
        countable(gen_int_op(s, a, BinOp::Add, b).0),
        holds_word(s, mem, a, x),
        holds_word(s, mem, b, y),
    ensures
        operates(s, a, BinOp::Add, b, mem, after, x, y),
{
    let t = gen_int_op(s, a, BinOp::Add, b).0;
    let n = s.m.func.insts.len() as int;
    let o1 = OpV::Arith(Arith::Add, a, b);
    let (s1, r) = s.emit(o1, "add"@);
    let over = "addition overflowed"@;
    let w = wrapped(x + y);
    lemma_emit(s, o1, "add"@, mem);
    lemma_sum_check_adds(s1, a, r, Cond::Lt, b, over);
    let m1 = given(mem, n, Datum::Word(w));
    let m2 = lemma_sum_check(s1, a, r, Cond::Lt, b, over, m1, x, w, y);
    lemma_then(s, s1, t, mem, m1);
    lemma_kept(mem, n, Datum::Word(w), m2);
    law_sum_overflow(x, y);
    lemma_message("addition"@, over);
    if i64::MIN <= x + y <= i64::MAX {
        assert(runs(s, t, mem, m2));
        assert(int_op(x, BinOp::Add, y) == Ok::<ValueV, Seq<char>>(ValueV::Int(w)));
    } else {
        assert(stops(s, t, mem, over));
        assert(int_op(x, BinOp::Add, y) == Err::<ValueV, Seq<char>>(over));
    }
    m2
}

#[verifier::rlimit(40)]
proof fn lemma_subtraction(s: CgV, a: Val, b: Val, mem: Memory, x: i64, y: i64) -> (after: Memory)
    requires
        open_here(s),
        countable(gen_int_op(s, a, BinOp::Sub, b).0),
        holds_word(s, mem, a, x),
        holds_word(s, mem, b, y),
    ensures
        operates(s, a, BinOp::Sub, b, mem, after, x, y),
{
    let t = gen_int_op(s, a, BinOp::Sub, b).0;
    let n = s.m.func.insts.len() as int;
    let o1 = OpV::Arith(Arith::Sub, a, b);
    let (s1, r) = s.emit(o1, "sub"@);
    let over = "subtraction overflowed"@;
    let w = wrapped(x - y);
    lemma_emit(s, o1, "sub"@, mem);
    lemma_sum_check_adds(s1, a, r, Cond::Gt, b, over);
    let m1 = given(mem, n, Datum::Word(w));
    let m2 = lemma_sum_check(s1, a, r, Cond::Gt, b, over, m1, x, w, y);
    lemma_then(s, s1, t, mem, m1);
    lemma_kept(mem, n, Datum::Word(w), m2);
    law_sum_overflow(x, y);
    lemma_message("subtraction"@, over);
    if i64::MIN <= x - y <= i64::MAX {
        assert(runs(s, t, mem, m2));
        assert(int_op(x, BinOp::Sub, y) == Ok::<ValueV, Seq<char>>(ValueV::Int(w)));
    } else {
        assert(stops(s, t, mem, over));
        assert(int_op(x, BinOp::Sub, y) == Err::<ValueV, Seq<char>>(over));
    }
    m2
}

#[verifier::rlimit(40)]
proof fn lemma_multiplication(s: CgV, a: Val, b: Val, mem: Memory, x: i64, y: i64) -> (after: Memory)
    requires
        open_here(s),
        countable(gen_int_op(s, a, BinOp::Mul, b).0),
        holds_word(s, mem, a, x),
        holds_word(s, mem, b, y),
    ensures
        operates(s, a, BinOp::Mul, b, mem, after, x, y),
{
    let t = gen_int_op(s, a, BinOp::Mul, b).0;
    let n = s.m.func.insts.len() as int;
    let o1 = OpV::Arith(Arith::Mul, a, b);
    let (s1, r) = s.emit(o1, "mul"@);
    let over = "multiplication overflowed"@;
    let w = wrapped(x * y);
    lemma_emit(s, o1, "mul"@, mem);
    lemma_product_check_adds(s1, a, b, r);
    let m1 = given(mem, n, Datum::Word(w));
    let m2 = lemma_product_check(s1, a, b, r, m1, x, y);
    lemma_then(s, s1, t, mem, m1);
    lemma_kept(mem, n, Datum::Word(w), m2);
    lemma_product_wraps(x, y);
    lemma_message("multiplication"@, over);
    if i64::MIN <= x * y <= i64::MAX {
        assert(runs(s, t, mem, m2));
        assert(int_op(x, BinOp::Mul, y) == Ok::<ValueV, Seq<char>>(ValueV::Int(w)));
    } else {
        assert(stops(s, t, mem, over));
        assert(int_op(x, BinOp::Mul, y) == Err::<ValueV, Seq<char>>(over));
    }
    m2
}

#[verifier::rlimit(40)]
proof fn lemma_division(s: CgV, a: Val, b: Val, mem: Memory, x: i64, y: i64) -> (after: Memory)
    requires
        open_here(s),
        countable(gen_int_op(s, a, BinOp::Div, b).0),
        holds_word(s, mem, a, x),
        holds_word(s, mem, b, y),
    ensures
        operates(s, a, BinOp::Div, b, mem, after, x, y),
{
    let t = gen_int_op(s, a, BinOp::Div, b).0;
    let zero = "division by zero"@;
    let over = "division overflowed"@;
    let s1 = gen_division_check(s, a, b, zero, over);
    lemma_division_check_adds(s, a, b, zero, over);
    let o2 = OpV::Arith(Arith::Div, a, b);
    lemma_emit(s1, o2, "div"@, mem);
    let m1 = lemma_division_check(s, a, b, zero, over, mem, x, y);
    lemma_quotient_fits(x, y);
    lemma_message("division"@, over);
    if y == 0 {
        lemma_stopped_then(s, s1, t, mem, zero);
        m1
    } else if x == i64::MIN && y == -1 {
        lemma_stopped_then(s, s1, t, mem, over);
        m1
    } else {
        let n = s1.m.func.insts.len() as int;
        let w = quotient(x as int, y as int) as i64;
        let m2 = given(m1, n, Datum::Word(w));
        assert(operand(m1, a) == Some(Datum::Word(x)));
        assert(operand(m1, b) == Some(Datum::Word(y)));
        assert(computed(o2, m1) == Some(Datum::Word(w)));
        lemma_then_emit(s, s1, o2, "div"@, mem, m1);
        assert(int_op(x, BinOp::Div, y) == Ok::<ValueV, Seq<char>>(ValueV::Int(w)));
        assert(gen_int_op(s, a, BinOp::Div, b) == (t, CgValue::Int(Val::Reg(n as usize))));
        lemma_given_keeps(mem, m1, s.m.func.insts.len() as int, n, Datum::Word(w));
        assert(operand(m2, Val::Reg(n as usize)) == Some(Datum::Word(w)));
        m2
    }
}

#[verifier::rlimit(40)]
proof fn lemma_remainder(s: CgV, a: Val, b: Val, mem: Memory, x: i64, y: i64) -> (after: Memory)
    requires
        open_here(s),
        countable(gen_int_op(s, a, BinOp::Mod, b).0),
        holds_word(s, mem, a, x),
        holds_word(s, mem, b, y),
    ensures
        operates(s, a, BinOp::Mod, b, mem, after, x, y),
{
    let t = gen_int_op(s, a, BinOp::Mod, b).0;
    let zero = "remainder by zero"@;
    let over = "remainder overflowed"@;
    let s1 = gen_division_check(s, a, b, zero, over);
    lemma_division_check_adds(s, a, b, zero, over);
    let o2 = OpV::Arith(Arith::Rem, a, b);
    lemma_emit(s1, o2, "rem"@, mem);
    let m1 = lemma_division_check(s, a, b, zero, over, mem, x, y);
    if y == 0 {
        lemma_stopped_then(s, s1, t, mem, zero);
        m1
    } else if x == i64::MIN && y == -1 {
        lemma_stopped_then(s, s1, t, mem, over);
        m1
    } else {
        let n = s1.m.func.insts.len() as int;
        let w = remainder(x as int, y as int) as i64;
        let m2 = given(m1, n, Datum::Word(w));
        assert(operand(m1, a) == Some(Datum::Word(x)));
        assert(operand(m1, b) == Some(Datum::Word(y)));
        assert(computed(o2, m1) == Some(Datum::Word(w)));
        lemma_then_emit(s, s1, o2, "rem"@, mem, m1);
        assert(int_op(x, BinOp::Mod, y) == Ok::<ValueV, Seq<char>>(ValueV::Int(w)));
        assert(gen_int_op(s, a, BinOp::Mod, b) == (t, CgValue::Int(Val::Reg(n as usize))));
        lemma_given_keeps(mem, m1, s.m.func.insts.len() as int, n, Datum::Word(w));
        assert(operand(m2, Val::Reg(n as usize)) == Some(Datum::Word(w)));
        m2
    }
}

/// The code for an operation on two integers does what the operation does: it
/// leaves the result, or stops the program with the message of its failure.
#[verifier::rlimit(40)]
pub proof fn law_integer_operation(
    s: CgV,
    a: Val,
    op: BinOp,
    b: Val,
    mem: Memory,
    x: i64,
    y: i64,
) -> (after: Memory)
    requires
        open_here(s),
        countable(gen_int_op(s, a, op, b).0),
        holds_word(s, mem, a, x),
        holds_word(s, mem, b, y),
    ensures
        operates(s, a, op, b, mem, after, x, y),
{
    match op {
        BinOp::Add => lemma_addition(s, a, b, mem, x, y),
        BinOp::Sub => lemma_subtraction(s, a, b, mem, x, y),
        BinOp::Mul => lemma_multiplication(s, a, b, mem, x, y),
        BinOp::Div => lemma_division(s, a, b, mem, x, y),
        BinOp::Mod => lemma_remainder(s, a, b, mem, x, y),
        BinOp::Eq => lemma_compare(s, Cond::Eq, a, b, mem, x, y),
        BinOp::Ne => lemma_compare(s, Cond::Ne, a, b, mem, x, y),
        BinOp::Lt => lemma_compare(s, Cond::Lt, a, b, mem, x, y),
        BinOp::Le => lemma_compare(s, Cond::Le, a, b, mem, x, y),
        BinOp::Gt => lemma_compare(s, Cond::Gt, a, b, mem, x, y),
        BinOp::Ge => lemma_compare(s, Cond::Ge, a, b, mem, x, y),
        BinOp::And => lemma_connective(s, Arith::And, "and"@, a, b, mem, x, y),
        BinOp::Or => lemma_connective(s, Arith::Or, "or"@, a, b, mem, x, y),
    }
}

proof fn lemma_given_keeps(mem: Memory, now: Memory, low: int, n: int, d: Datum)
    requires
        keeps(mem, now, low),
        low <= n,
    ensures
        keeps(mem, given(now, n, d), low),
{
    let after = given(now, n, d);
    assert forall|k: int| k < low && mem.regs.contains_key(k) implies #[trigger] after.regs.contains_key(
        k,
    ) && after.regs[k] == mem.regs[k] by {
        assert(now.regs.contains_key(k));
    }
}

proof fn lemma_kept(mem: Memory, n: int, d: Datum, after: Memory)
    requires
        keeps(given(mem, n, d), after, n + 1),
    ensures
        keeps(mem, after, n),
        after.regs.contains_key(n),
        after.regs[n] == d,
{
    let now = given(mem, n, d);
    assert(now.regs.contains_key(n));
    assert(after.regs.contains_key(n));
    assert forall|k: int| k < n && mem.regs.contains_key(k) implies #[trigger] after.regs.contains_key(
        k,
    ) && after.regs[k] == mem.regs[k] by {
        assert(now.regs.contains_key(k));
    }
}

proof fn lemma_message(what: Seq<char>, message: Seq<char>)
    ensures
        what == "addition"@ && message == "addition overflowed"@ ==> what + " overflowed"@ == message,
        what == "subtraction"@ && message == "subtraction overflowed"@ ==> what + " overflowed"@
            == message,
        what == "multiplication"@ && message == "multiplication overflowed"@ ==> what
            + " overflowed"@ == message,
        what == "division"@ && message == "division overflowed"@ ==> what + " overflowed"@ == message,
        what == "negation"@ && message == "negation overflowed"@ ==> what + " overflowed"@ == message,
{
    reveal_strlit(" overflowed");
    reveal_strlit("addition");
    reveal_strlit("addition overflowed");
    reveal_strlit("subtraction");
    reveal_strlit("subtraction overflowed");
    reveal_strlit("multiplication");
    reveal_strlit("multiplication overflowed");
    reveal_strlit("division");
    reveal_strlit("division overflowed");
    reveal_strlit("negation");
    reveal_strlit("negation overflowed");
    assert("addition"@ + " overflowed"@ =~= "addition overflowed"@);
    assert("subtraction"@ + " overflowed"@ =~= "subtraction overflowed"@);
    assert("multiplication"@ + " overflowed"@ =~= "multiplication overflowed"@);
    assert("division"@ + " overflowed"@ =~= "division overflowed"@);
    assert("negation"@ + " overflowed"@ =~= "negation overflowed"@);
}

proof fn lemma_product_wraps(x: i64, y: i64)
    ensures
        i64::MIN <= x * y <= i64::MAX ==> wrapped(x * y) == x * y,
{
    if i64::MIN <= x * y <= i64::MAX {
        law_wrapped(x * y);
    }
}

proof fn lemma_quotient_fits(x: i64, y: i64)
    ensures
        y != 0 ==> ((i64::MIN <= quotient(x as int, y as int) <= i64::MAX) == !(x == i64::MIN && y
            == -1)),
{
    if y != 0 {
        let a = magnitude(x as int);
        let d = magnitude(y as int);
        assert(a / d <= a) by (nonlinear_arith)
            requires
                a >= 0,
                d >= 1,
        ;
        assert(a / d >= 0) by (nonlinear_arith)
            requires
                a >= 0,
                d >= 1,
        ;
        if x == i64::MIN && y != -1 {
            if y == 1 {
            } else {
                assert(a / d < a) by (nonlinear_arith)
                    requires
                        a > 0,
                        d >= 2,
                ;
            }
        }
        assert(a / 1 == a);
    }
}

proof fn lemma_int_op_adds(s: CgV, a: Val, op: BinOp, b: Val)
    ensures
        adds(s, gen_int_op(s, a, op, b).0),
        continues(s, gen_int_op(s, a, op, b).0),
        gen_int_op(s, a, op, b).1 is Int,
{
    let mem: Memory = arbitrary();
    let t = gen_int_op(s, a, op, b).0;
    match op {
        BinOp::Add => {
            let o1 = OpV::Arith(Arith::Add, a, b);
            let (s1, r) = s.emit(o1, "add"@);
            lemma_emit(s, o1, "add"@, mem);
            lemma_sum_check_adds(s1, a, r, Cond::Lt, b, "addition overflowed"@);
            lemma_adds_chain(s, s1, t);
        },
        BinOp::Sub => {
            let o1 = OpV::Arith(Arith::Sub, a, b);
            let (s1, r) = s.emit(o1, "sub"@);
            lemma_emit(s, o1, "sub"@, mem);
            lemma_sum_check_adds(s1, a, r, Cond::Gt, b, "subtraction overflowed"@);
            lemma_adds_chain(s, s1, t);
        },
        BinOp::Mul => {
            let o1 = OpV::Arith(Arith::Mul, a, b);
            let (s1, r) = s.emit(o1, "mul"@);
            lemma_emit(s, o1, "mul"@, mem);
            lemma_product_check_adds(s1, a, b, r);
            lemma_adds_chain(s, s1, t);
        },
        BinOp::Div => {
            let s1 = gen_division_check(s, a, b, "division by zero"@, "division overflowed"@);
            lemma_division_check_adds(s, a, b, "division by zero"@, "division overflowed"@);
            lemma_emit(s1, OpV::Arith(Arith::Div, a, b), "div"@, mem);
            lemma_adds_chain(s, s1, t);
        },
        BinOp::Mod => {
            let s1 = gen_division_check(s, a, b, "remainder by zero"@, "remainder overflowed"@);
            lemma_division_check_adds(s, a, b, "remainder by zero"@, "remainder overflowed"@);
            lemma_emit(s1, OpV::Arith(Arith::Rem, a, b), "rem"@, mem);
            lemma_adds_chain(s, s1, t);
        },
        BinOp::Eq => {
            lemma_compare(s, Cond::Eq, a, b, mem, 0, 0);
        },
        BinOp::Ne => {
            lemma_compare(s, Cond::Ne, a, b, mem, 0, 0);
        },
        BinOp::Lt => {
            lemma_compare(s, Cond::Lt, a, b, mem, 0, 0);
        },
        BinOp::Le => {
            lemma_compare(s, Cond::Le, a, b, mem, 0, 0);
        },
        BinOp::Gt => {
            lemma_compare(s, Cond::Gt, a, b, mem, 0, 0);
        },
        BinOp::Ge => {
            lemma_compare(s, Cond::Ge, a, b, mem, 0, 0);
        },
        BinOp::And => {
            lemma_connective(s, Arith::And, "and"@, a, b, mem, 0, 0);
        },
        BinOp::Or => {
            lemma_connective(s, Arith::Or, "or"@, a, b, mem, 0, 0);
        },
    }
}

/// The type of an integer or a truth value.
pub open spec fn plain_type(v: ValueV) -> TypeV {
    if v is Bool {
        TypeV::Bool
    } else {
        TypeV::Int
    }
}

/// Code for an operation adds to what is there.
pub proof fn lemma_typed_operation_adds(
    s: CgV,
    a: Val,
    lt: TypeV,
    op: BinOp,
    b: Val,
    qt: TypeV,
)
    ensures
        ({
            let r = gen_typed_operation(s, CgValue::Int(a), lt, op, CgValue::Int(b), qt);
            adds(s, r.0) && continues(s, r.0) && r.1 is Int
        }),
{
    lemma_int_op_adds(s, a, op, b);
    lemma_abort(s, "unsupported bool op"@, Val::Word(0), Val::Word(0), arbitrary());
    lemma_abort(s, "type mismatch in binary operation"@, Val::Word(0), Val::Word(0), arbitrary());
}

/// The code for an operation on two integers, or on two truth values, does what
/// the operation does.
pub proof fn law_operation(
    s: CgV,
    a: Val,
    op: BinOp,
    b: Val,
    mem: Memory,
    x: ValueV,
    y: ValueV,
) -> (after: Memory)
    requires
        open_here(s),
        (x is Int && y is Int) || (x is Bool && y is Bool),
        countable(
            gen_typed_operation(
                s,
                CgValue::Int(a),
                plain_type(x),
                op,
                CgValue::Int(b),
                plain_type(y),
            ).0,
        ),
        holds_word(s, mem, a, word_of(x)),
        holds_word(s, mem, b, word_of(y)),
    ensures
        ({
            let r = gen_typed_operation(
                s,
                CgValue::Int(a),
                plain_type(x),
                op,
                CgValue::Int(b),
                plain_type(y),
            );
            match binop_result(x, op, y) {
                ValueOpV::Done(v) => gives(s, r.0, r.1, mem, after, v),
                ValueOpV::Fail(message) => stops(s, r.0, mem, message),
                _ => false,
            }
        }),
{
    if x is Bool && !bool_has(op) {
        lemma_abort(s, "unsupported bool op"@, Val::Word(0), Val::Word(0), mem);
        mem
    } else {
        law_integer_operation(s, a, op, b, mem, word_of(x), word_of(y))
    }
}

/// Code for a unary operation adds to what is there.
pub proof fn lemma_unary_op_adds(s: CgV, op: UnaryOp, a: Val)
    ensures
        adds(s, gen_unary_op(s, op, CgValue::Int(a)).0),
        continues(s, gen_unary_op(s, op, CgValue::Int(a)).0),
        gen_unary_op(s, op, CgValue::Int(a)).1 is Int,
{
    let mem: Memory = arbitrary();
    let t = gen_unary_op(s, op, CgValue::Int(a)).0;
    match op {
        UnaryOp::Neg => {
            let o1 = OpV::Compare(Cond::Eq, a, Val::Word(i64::MIN));
            let (s1, least) = s.emit(o1, "least"@);
            lemma_emit(s, o1, "least"@, mem);
            let s2 = gen_abort_if(s1, least, "negation overflowed"@, Val::Word(0), Val::Word(0));
            lemma_abort_if(s1, least, "negation overflowed"@, Val::Word(0), Val::Word(0), mem, true);
            lemma_adds_chain(s, s1, s2);
            lemma_emit(s2, OpV::Neg(a), "neg"@, mem);
            lemma_adds_chain(s, s2, t);
        },
        UnaryOp::Not => {
            let o1 = OpV::Compare(Cond::Eq, a, Val::Word(0));
            let (s1, r) = s.emit(o1, "not_cmp"@);
            lemma_emit(s, o1, "not_cmp"@, mem);
            lemma_from_i1(s1, r, mem);
            lemma_adds_chain(s, s1, t);
        },
    }
}

/// The code for a unary operation on an integer, or for the negation of a truth
/// value, does what the operation does.
pub proof fn law_unary_operation(s: CgV, op: UnaryOp, a: Val, mem: Memory, x: ValueV) -> (after:
    Memory)
    requires
        open_here(s),
        x is Int || (x is Bool && op is Not),
        countable(gen_unary_op(s, op, CgValue::Int(a)).0),
        holds_word(s, mem, a, word_of(x)),
    ensures
        ({
            let r = gen_unary_op(s, op, CgValue::Int(a));
            match unop_result(op, x) {
                ValueOpV::Done(v) => gives(s, r.0, r.1, mem, after, v),
                ValueOpV::Fail(message) => stops(s, r.0, mem, message),
                _ => false,
            }
        }),
{
    let t = gen_unary_op(s, op, CgValue::Int(a)).0;
    let n = s.m.func.insts.len() as int;
    let w = word_of(x);
    match op {
        UnaryOp::Neg => {
            let bad = w == i64::MIN;
            let o1 = OpV::Compare(Cond::Eq, a, Val::Word(i64::MIN));
            let (s1, least) = s.emit(o1, "least"@);
            let s2 = gen_abort_if(s1, least, "negation overflowed"@, Val::Word(0), Val::Word(0));
            let m1 = given(mem, n, Datum::Truth(bad));
            lemma_emit(s, o1, "least"@, mem);
            lemma_emit(s2, OpV::Neg(a), "neg"@, m1);
            lemma_abort_if(s1, least, "negation overflowed"@, Val::Word(0), Val::Word(0), m1, bad);
            lemma_then(s, s1, s2, mem, m1);
            lemma_message("negation"@, "negation overflowed"@);
            if bad {
                lemma_stopped_then(s, s2, t, mem, "negation overflowed"@);
                m1
            } else {
                law_wrapped(-w);
                lemma_then_emit(s, s2, OpV::Neg(a), "neg"@, mem, m1);
                given(m1, s2.m.func.insts.len() as int, Datum::Word(wrapped(-w)))
            }
        },
        UnaryOp::Not => {
            let o1 = OpV::Compare(Cond::Eq, a, Val::Word(0));
            let (s1, r) = s.emit(o1, "not_cmp"@);
            let m1 = given(mem, n, Datum::Truth(w == 0));
            lemma_emit(s, o1, "not_cmp"@, mem);
            lemma_from_i1(s1, r, m1);
            lemma_then(s, s1, t, mem, m1);
            given(m1, n + 1, Datum::Word(word_of(ValueV::Bool(w == 0))))
        },
    }
}

/// The code for a local that holds an integer or a truth value reads its slot.
pub proof fn law_local_is_read(s: CgV, name: Seq<char>, k: usize, mem: Memory, v: ValueV) -> (after:
    Memory)
    requires
        lookup_v(s.types.variants, name) is Unknown,
        s.local(name) matches Some(l) && l.slot == Val::Slot(k) && (l.ty is Int || l.ty is Bool),
    ensures
        adds(s, gen_ident(s, name).0),
        continues(s, gen_ident(s, name).0),
        gen_ident(s, name).1 is Int,
        open_here(s) && countable(gen_ident(s, name).0) && mem.slots.contains_key(k as int)
            && mem.slots[k as int] == word_of(v) ==> gives(
            s,
            gen_ident(s, name).0,
            gen_ident(s, name).1,
            mem,
            after,
            v,
        ),
{
    let o1 = OpV::Load(Ty::Word, Val::Slot(k));
    lemma_emit(s, o1, "local"@, mem);
    given(mem, s.m.func.insts.len() as int, Datum::Word(word_of(v)))
}

/// The type of an expression that checks, where checking records nothing.
pub proof fn lemma_known_type(s: CgV, e: ExprV, t: TypeV)
    requires
        check_expr(e, s.types) == (Ok::<TypeV, TypeErrorV>(t), s.types),
        !valueless(e),
    ensures
        known_type(s, e) == (s, t),
{
    lemma_type_of(s, e, t);
}

/// Integers and truth values are not counted, nor is nothing.
pub proof fn lemma_spend_nothing(s: CgV, v: CgValue, t: TypeV, e: ExprV)
    requires
        t is Int || t is Bool || t is Unit,
    ensures
        spend(s, v, t, e) == s,
{
}

/// Integers and truth values have no owner.
pub proof fn lemma_own_nothing(s: CgV, v: CgValue, t: TypeV, e: ExprV)
    requires
        t is Int || t is Bool,
    ensures
        own(s, v, t, e) == s,
{
}

/// The code that puts a word into a slot.
pub open spec fn kept(s: CgV, slot: Val, w: Val) -> CgV {
    CgV { m: s.m.emit(OpV::Store(slot, w), ""@).0, ..s }
}

/// The code for a new local that holds a word.
pub open spec fn local_made(s: CgV, name: Seq<char>, ty: TypeV, w: Val) -> CgV {
    let (m, slot) = s.m.slot(Room::Word, name);
    let s1 = kept(CgV { m, ..s }, slot, w);
    CgV {
        scopes: s.scopes.update(
            s.scopes.len() - 1,
            s.scopes.last().push(LocalV { name, slot, ty }),
        ),
        types: s.types.define(name, ty),
        ..s1
    }
}

/// The code for a local's new word.
pub open spec fn local_set(s: CgV, slot: Val, w: Val) -> CgV {
    kept(CgV { m: s.m.emit(OpV::Load(Ty::Word, slot), "local"@).0, ..s }, slot, w)
}

/// A local that holds an integer or a truth value.
pub proof fn lemma_bind_word(s: CgV, name: Seq<char>, ty: TypeV, w: Val)
    requires
        ty is Int || ty is Bool,
        s.scopes.len() > 0,
    ensures
        bind_local(s, name, ty, CgValue::Int(w)) == local_made(s, name, ty, w),
{
    let (s1, slot) = s.slot(Room::Word, name);
    let s2 = s1.emit(OpV::Store(slot, w), ""@).0;
    lemma_local_parts(s, OpV::Unreachable, name, slot, ty);
    lemma_local_parts(s1, OpV::Store(slot, w), ""@, slot, ty);
    lemma_local_parts(s2, OpV::Unreachable, name, slot, ty);
    lemma_word_kept(s1, w);
}

/// A new word for a local that holds an integer or a truth value.
pub proof fn lemma_set_word(s: CgV, slot: Val, ty: TypeV, w: Val)
    requires
        ty is Int || ty is Bool,
    ensures
        store_into(load_slot(s, slot, ty).0, slot, ty, CgValue::Int(w)) == local_set(s, slot, w),
{
    let s1 = s.emit(OpV::Load(Ty::Word, slot), "local"@).0;
    lemma_local_parts(s, OpV::Load(Ty::Word, slot), "local"@, slot, ty);
    lemma_local_parts(s1, OpV::Store(slot, w), ""@, slot, ty);
    lemma_word_kept(s1, w);
}

/// Locals that hold integers and truth values need no release.
pub open spec fn nothing_held(scope: Seq<LocalV>) -> bool {
    forall|i: int|
        0 <= i < scope.len() ==> (#[trigger] scope[i]).ty is Int || scope[i].ty is Bool
}

proof fn lemma_release_nothing(s: CgV, k: int, i: int)
    requires
        0 <= k < s.scopes.len(),
        nothing_held(s.scopes[k]),
    ensures
        release_names(s, k, i) == s,
    decreases i,
{
    if 0 < i <= s.scopes[k].len() {
        assert(s.scopes[k][i - 1].ty is Int || s.scopes[k][i - 1].ty is Bool);
        lemma_release_nothing(s, k, i - 1);
    }
}

/// A scope of integers and truth values ends without code.
pub proof fn lemma_close_scope(s: CgV)
    requires
        s.scopes.len() > 0,
        nothing_held(s.scopes.last()),
    ensures
        close_scope(s) == (CgV {
            scopes: s.scopes.drop_last(),
            types: s.types.pop_scope(),
            ..s
        }),
{
    lemma_release_nothing(s, s.scopes.len() - 1, s.scopes.last().len() as int);
    lemma_state(s, s.span);
}

/// An integer or a truth value is tested by its word.
pub proof fn lemma_plain_cond(s: CgV, w: Val, t: TypeV, e: ExprV, by_if: bool)
    requires
        t is Int || t is Bool,
    ensures
        gen_cond(s, CgValue::Int(w), t, e, by_if) == to_i1(s, w),
{
    lemma_word_kept(s, w);
    lemma_spend_nothing(to_i1(s, w).0, CgValue::Int(w), t, e);
}

/// Asking for a type changes nothing but what checking records.
pub proof fn lemma_type_recorded(s: CgV, e: ExprV)
    requires
        check_expr(e, s.types).1 == s.types,
    ensures
        known_type(s, e).0 == s,
{
    lemma_type_state(s, e);
}

/// The code that prints an integer or a truth value.
pub proof fn lemma_print_value(s: CgV, w: Val, t: TypeV)
    requires
        t is Int || t is Bool,
    ensures
        print_value(s, CgValue::Int(w), t) == ({
            let (s, p) = if t is Int {
                gen_int_to_str(s, w)
            } else {
                gen_bool_to_str(s, w)
            };
            let (s, fmt) = s.text("%s\n"@);
            s.emit(
                OpV::CallHalf("printf"@, Seq::empty().push(fmt).push(p)),
                "call_printf"@,
            ).0
        }),
{
}

// ---- elements ----

/// An array lies at an address: its length, and behind it as many words.
pub open spec fn array_at(mem: Memory, p: i64, n: i64) -> bool {
    &&& 0 <= n
    &&& p + 8 * n <= i64::MAX
    &&& forall|j: int| 0 <= j <= n ==> #[trigger] mem.heap.contains_key(p + 8 * j)
    &&& mem.heap[p as int] == n
}

/// The code for the address of an element goes on if and only if the index lies within
/// the array, and leaves the address of that element. Elsewhere the program stops with
/// the index and the length.
pub proof fn law_element(s: CgV, arr: Val, idx: Val, mem: Memory, p: i64, i: i64, n: i64) -> (after:
    Memory)
    requires
        open_here(s),
        countable(gen_element(s, arr, idx).0),
        operand(mem, arr) == Some(Datum::Word(p)),
        operand(mem, idx) == Some(Datum::Word(i)),
        settled(arr, s.m.func.insts.len() as int),
        settled(idx, s.m.func.insts.len() as int),
        !(arr is Slot),
        array_at(mem, p, n),
    ensures
        adds(s, gen_element(s, arr, idx).0),
        0 <= i < n ==> {
            &&& runs(s, gen_element(s, arr, idx).0, mem, after)
            &&& keeps(mem, after, s.m.func.insts.len() as int)
            &&& operand(after, gen_element(s, arr, idx).1) == Some(
                Datum::Word((p + 8 * (i + 1)) as i64),
            )
            &&& after.heap.contains_key(p + 8 * (i + 1))
            &&& gen_element(s, arr, idx).1 is Reg
        },
        !(0 <= i < n) ==> stops_with(
            s,
            gen_element(s, arr, idx).0,
            mem,
            out_of_bounds("array"@),
            i,
            n,
        ),
{
    let k = s.m.func.insts.len() as int;
    let (t, at) = gen_element(s, arr, idx);
    lemma_element_adds(s, arr, idx);
    let op1 = OpV::Load(Ty::Word, arr);
    lemma_emit(s, op1, "arr_len"@, mem);
    let (s1, count) = s.emit(op1, "arr_len"@);
    assert(mem.heap.contains_key(p + 8 * 0));
    let mem1 = given(mem, k, Datum::Word(n));
    assert(runs(s, s1, mem, mem1));
    let s2 = gen_bounds_check(s1, idx, count, "array"@);
    let op3 = OpV::Arith(Arith::Add, idx, Val::Word(1));
    let (s3, off) = s2.emit(op3, "elem_off"@);
    let op4 = OpV::Offset(Ty::Word, arr, off);
    lemma_emit(s2, op3, "elem_off"@, mem1);
    lemma_emit(s3, op4, "elem_ptr"@, mem1);
    assert(t == s3.emit(op4, "elem_ptr"@).0);
    lemma_adds_chain(s2, s3, t);
    assert(count == Val::Reg(k as usize));
    let mem2 = law_bounds_check(s1, idx, count, "array"@, mem1, i, n);
    lemma_then(s, s1, s2, mem, mem1);
    lemma_adds_chain(s, s1, s2);
    lemma_adds_chain(s, s2, t);
    law_code_follows_code(s, s1, s2, mem);
    if 0 <= i < n {
        let k2 = s2.m.func.insts.len() as int;
        lemma_emit(s2, op3, "elem_off"@, mem2);
        law_wrapped(i + 1);
        let mem3 = given(mem2, k2, Datum::Word((i + 1) as i64));
        assert(operand(mem2, idx) == Some(Datum::Word(i)));
        assert(computed(op3, mem2) == Some(Datum::Word((i + 1) as i64)));
        assert(off == Val::Reg(k2 as usize));
        lemma_emit(s3, op4, "elem_ptr"@, mem3);
        assert(operand(mem3, arr) == Some(Datum::Word(p)));
        let place = (p + 8 * (i + 1)) as i64;
        assert(computed(op4, mem3) == Some(Datum::Word(place)));
        let mem4 = given(mem3, k2 + 1, Datum::Word(place));
        lemma_then(s, s2, s3, mem, mem2);
        lemma_then(s, s3, t, mem, mem3);
        assert(mem.heap.contains_key(p + 8 * (i + 1)));
        mem4
    } else {
        law_code_follows_code(s, s2, t, mem);
        mem
    }
}

/// What has or loses an owner adds code.
pub proof fn lemma_owners_add(s: CgV, v: CgValue, t: TypeV, e: ExprV)
    ensures
        adds(s, own(s, v, t, e)),
        adds(s, spend(s, v, t, e)),
        adds(s, retain_value(s, v, t)),
{
    let (s1, p) = value_to_ptr(s, v);
    lemma_values_add(s, v, p, t, ""@);
    lemma_values_add(s1, v, p, t, ""@);
    lemma_adds_chain(s, s1, gen_retain(s1, p));
    lemma_adds_chain(s, s1, gen_release(s1, p, t));
    lemma_adds_chain(s, s, s);
}

proof fn lemma_then_emits(s: CgV, t: CgV, op: OpV, name: Seq<char>)
    requires
        adds(s, t),
    ensures
        adds(s, t.emit(op, name).0),
{
    let mem: Memory = arbitrary();
    lemma_emit(t, op, name, mem);
    lemma_adds_chain(s, t, t.emit(op, name).0);
}

proof fn lemma_then_block(s: CgV, t: CgV, name: Seq<char>, b: usize)
    requires
        adds(s, t),
    ensures
        adds(s, t.block(name).0),
        adds(s, t.position(b)),
        adds(s, t.slot(Room::Word, name).0),
{
    lemma_no_code(t, name, b);
    lemma_wants_add(t, Room::Word, name, TypeV::Int);
    lemma_adds_chain(s, t, t.block(name).0);
    lemma_adds_chain(s, t, t.position(b));
    lemma_adds_chain(s, t, t.slot(Room::Word, name).0);
}

/// Copying an array adds code.
pub proof fn lemma_copy_adds(s: CgV, arr: Val, el: TypeV)
    ensures
        adds(s, gen_copy_array(s, arr, el).0),
{
    let mem: Memory = arbitrary();
    lemma_adds_chain(s, s, s);
    lemma_then_emits(s, s, OpV::Load(Ty::Word, arr), "old_len"@);
    let (a, count) = s.emit(OpV::Load(Ty::Word, arr), "old_len"@);
    lemma_then_emits(s, a, OpV::Arith(Arith::Add, count, Val::Word(1)), "slots"@);
    let (b, slots) = a.emit(OpV::Arith(Arith::Add, count, Val::Word(1)), "slots"@);
    lemma_then_emits(s, b, OpV::Arith(Arith::Mul, slots, Val::Word(8)), "bytes"@);
    let (c, bytes) = b.emit(OpV::Arith(Arith::Mul, slots, Val::Word(8)), "bytes"@);
    lemma_scratch_adds(c, bytes, "new_arr"@);
    let (d, buf) = scratch_bytes(c, bytes, "new_arr"@);
    lemma_adds_chain(s, c, d);
    let copy = OpV::Run("memcpy"@, Seq::empty().push(buf).push(arr).push(bytes));
    lemma_then_emits(s, d, copy, ""@);
    let e = d.emit(copy, ""@).0;
    if managed(e.types, el) {
        lemma_then_block(s, e, "i"@, 0);
        let (f, at) = e.slot(Room::Word, "i"@);
        lemma_then_emits(s, f, OpV::Store(at, Val::Word(1)), ""@);
        let g = f.emit(OpV::Store(at, Val::Word(1)), ""@).0;
        lemma_then_block(s, g, "keep_elems"@, 0);
        let (h, head) = g.block("keep_elems"@);
        lemma_then_block(s, h, "keep_elem"@, 0);
        let (i, body) = h.block("keep_elem"@);
        lemma_then_block(s, i, "keep_done"@, 0);
        let (j, out) = i.block("keep_done"@);
        lemma_then_emits(s, j, OpV::Jump(head), ""@);
        let k = j.emit(OpV::Jump(head), ""@).0;
        lemma_then_block(s, k, ""@, head);
        let l = k.position(head);
        lemma_then_emits(s, l, OpV::Load(Ty::Word, at), "iv"@);
        let (m, iv) = l.emit(OpV::Load(Ty::Word, at), "iv"@);
        lemma_then_emits(s, m, OpV::Compare(Cond::Le, iv, count), "more"@);
        let (n, more) = m.emit(OpV::Compare(Cond::Le, iv, count), "more"@);
        lemma_then_emits(s, n, OpV::Branch(more, body, out), ""@);
        let o = n.emit(OpV::Branch(more, body, out), ""@).0;
        lemma_then_block(s, o, ""@, body);
        let p = o.position(body);
        lemma_then_emits(s, p, OpV::Offset(Ty::Word, buf, iv), "slot"@);
        let (q, place) = p.emit(OpV::Offset(Ty::Word, buf, iv), "slot"@);
        lemma_then_emits(s, q, OpV::Load(Ty::Word, place), "elem"@);
        let (r, raw) = q.emit(OpV::Load(Ty::Word, place), "elem"@);
        lemma_then_emits(s, r, OpV::Cast(Cast::WordToPtr, raw), "elemp"@);
        let (t, ptr) = r.emit(OpV::Cast(Cast::WordToPtr, raw), "elemp"@);
        lemma_values_add(t, CgValue::Int(ptr), ptr, el, ""@);
        let u = gen_retain(t, ptr);
        lemma_adds_chain(s, t, u);
        lemma_then_emits(s, u, OpV::Arith(Arith::Add, iv, Val::Word(1)), "i1"@);
        let (v, next) = u.emit(OpV::Arith(Arith::Add, iv, Val::Word(1)), "i1"@);
        lemma_then_emits(s, v, OpV::Store(at, next), ""@);
        let w = v.emit(OpV::Store(at, next), ""@).0;
        lemma_then_emits(s, w, OpV::Jump(head), ""@);
        let x = w.emit(OpV::Jump(head), ""@).0;
        lemma_then_block(s, x, ""@, out);
    }
}

pub proof fn lemma_element_adds(s: CgV, arr: Val, idx: Val)
    ensures
        adds(s, gen_element(s, arr, idx).0),
{
    let mem: Memory = arbitrary();
    lemma_adds_chain(s, s, s);
    lemma_then_emits(s, s, OpV::Load(Ty::Word, arr), "arr_len"@);
    let (s1, count) = s.emit(OpV::Load(Ty::Word, arr), "arr_len"@);
    lemma_bounds_adds(s1, idx, count, "array"@);
    let s2 = gen_bounds_check(s1, idx, count, "array"@);
    lemma_adds_chain(s, s1, s2);
    let op = OpV::Arith(Arith::Add, idx, Val::Word(1));
    lemma_then_emits(s, s2, op, "elem_off"@);
    let (s3, off) = s2.emit(op, "elem_off"@);
    lemma_then_emits(s, s3, OpV::Offset(Ty::Word, arr, off), "elem_ptr"@);
}

/// Leaving scopes of integers and truth values takes no code.
pub proof fn lemma_release_open_nothing(s: CgV, n: int, low: int)
    requires
        n <= s.scopes.len(),
        forall|i: int| 0 <= i < s.scopes.len() ==> nothing_held(#[trigger] s.scopes[i]),
    ensures
        release_open(s, n, low) == s,
    decreases n,
{
    if n > low && n > 0 {
        assert(nothing_held(s.scopes[n - 1]));
        lemma_release_nothing(s, n - 1, s.scopes[n - 1].len() as int);
        lemma_release_open_nothing(s, n - 1, low);
    }
}

// ---- `Option` and `Result` ----

/// A value of `Option` or `Result` lies at an address: its tag, and behind it what it
/// carries.
pub open spec fn wrapper_at(mem: Memory, p: i64, v: VariantV) -> bool {
    &&& enums_variants(builtin_enums_v()).contains(v)
    &&& p + 8 <= i64::MAX
    &&& mem.heap.contains_key(p as int)
    &&& mem.heap[p as int] == v.tag
    &&& v.payload.len() > 0 ==> mem.heap.contains_key(p + 8)
}

/// The variants of `Option` and `Result`, and their tags.
pub proof fn law_wrapper_tags(v: VariantV)
    ensures
        enums_variants(builtin_enums_v()).contains(v) <==> {
            ||| v == (VariantV {
                enum_name: "Option"@,
                name: "Some"@,
                tag: 0,
                payload: seq![TypeV::Inferred],
                enum_has_payload: true,
            })
            ||| v == (VariantV {
                enum_name: "Option"@,
                name: "None"@,
                tag: 1,
                payload: Seq::empty(),
                enum_has_payload: true,
            })
            ||| v == (VariantV {
                enum_name: "Result"@,
                name: "Ok"@,
                tag: 0,
                payload: seq![TypeV::Inferred],
                enum_has_payload: true,
            })
            ||| v == (VariantV {
                enum_name: "Result"@,
                name: "Err"@,
                tag: 1,
                payload: seq![TypeV::Inferred],
                enum_has_payload: true,
            })
        },
{
    let enums = builtin_enums_v();
    let a = enum_variants(enums[0].0, enums[0].1);
    let b = enum_variants(enums[1].0, enums[1].1);
    assert(any_payload(enums[0].1)) by {
        assert(enums[0].1[0].1.len() == 1);
    }
    assert(any_payload(enums[1].1)) by {
        assert(enums[1].1[0].1.len() == 1);
    }
    reveal_with_fuel(enums_variants, 3);
    assert(enums.drop_last().drop_last() =~= Seq::empty());
    assert(enums.drop_last().last() == enums[0]);
    assert(enums_variants(enums) =~= a + b);
    let all = enums_variants(enums);
    assert(all.len() == 4);
    assert(all[0] == a[0] && all[1] == a[1] && all[2] == b[0] && all[3] == b[1]);
    if all.contains(v) {
        let i = choose|i: int| 0 <= i < all.len() && all[i] == v;
        assert(i == 0 || i == 1 || i == 2 || i == 3);
    }
}

/// The truth that a method of `Option` and `Result` asks for.
pub open spec fn asked(variant: Seq<char>, method: Seq<char>) -> bool {
    ||| method == "is_some"@ && variant == "Some"@
    ||| method == "is_none"@ && variant == "None"@
    ||| method == "is_ok"@ && variant == "Ok"@
    ||| method == "is_err"@ && variant == "Err"@
}

pub open spec fn asks(method: Seq<char>) -> bool {
    method == "is_some"@ || method == "is_none"@ || method == "is_ok"@ || method == "is_err"@
}

proof fn lemma_wrapper_names()
    ensures
        "Some"@ != "None"@,
        "Some"@ != "Ok"@,
        "Some"@ != "Err"@,
        "None"@ != "Ok"@,
        "None"@ != "Err"@,
        "Ok"@ != "Err"@,
        "Option"@ != "Result"@,
        "is_some"@ != "is_none"@,
        "is_some"@ != "is_ok"@,
        "is_some"@ != "is_err"@,
        "is_none"@ != "is_ok"@,
        "is_none"@ != "is_err"@,
        "is_ok"@ != "is_err"@,
        "unwrap"@ != "is_some"@,
        "unwrap"@ != "is_none"@,
        "unwrap"@ != "is_ok"@,
        "unwrap"@ != "is_err"@,
{
    reveal_strlit("Some");
    reveal_strlit("None");
    reveal_strlit("Ok");
    reveal_strlit("Err");
    reveal_strlit("Option");
    reveal_strlit("Result");
    reveal_strlit("is_some");
    reveal_strlit("is_none");
    reveal_strlit("is_ok");
    reveal_strlit("is_err");
    reveal_strlit("unwrap");
    assert("Some"@[0] == 'S' && "None"@[0] == 'N');
    assert("Option"@[0] == 'O' && "Result"@[0] == 'R');
    assert("is_some"@[3] == 's' && "is_none"@[3] == 'n');
    assert("is_ok"@.len() == 5 && "is_err"@.len() == 6 && "is_some"@.len() == 7 && "is_none"@.len()
        == 7 && "unwrap"@.len() == 6);
    assert("unwrap"@[0] == 'u' && "is_err"@[0] == 'i');
    assert("Some"@.len() == 4 && "None"@.len() == 4 && "Ok"@.len() == 2 && "Err"@.len() == 3);
}

/// The interpreter's answer is about the variant alone.
pub proof fn law_wrapper_answers(v: VariantV, args: Seq<ValueV>, method: Seq<char>)
    requires
        asks(method),
    ensures
        builtin_call(
            ValueV::EnumVariant { enum_name: v.enum_name, variant: v.name, args },
            method,
        ) == Some(Ok::<ValueV, Seq<char>>(ValueV::Bool(asked(v.name, method)))),
{
    lemma_wrapper_names();
}

/// The code of `is_some`, `is_none`, `is_ok` and `is_err` leaves the truth value that the
/// interpreter gives of the same value: whether it is of the variant asked for.
#[verifier::rlimit(60)]
pub proof fn law_wrapper_truth(
    s: CgV,
    w: Val,
    ot: TypeV,
    method: Seq<char>,
    rt: TypeV,
    mem: Memory,
    p: i64,
    v: VariantV,
    args: Seq<ValueV>,
) -> (after: Memory)
    requires
        open_here(s),
        countable(gen_wrapper_method(s, CgValue::Int(w), ot, method, rt).0),
        holds_word(s, mem, w, p),
        wrapper_at(mem, p, v),
        ot is Named && ot->Named_0 == v.enum_name,
        asks(method),
    ensures
        gives(
            s,
            gen_wrapper_method(s, CgValue::Int(w), ot, method, rt).0,
            gen_wrapper_method(s, CgValue::Int(w), ot, method, rt).1,
            mem,
            after,
            ValueV::Bool(asked(v.name, method)),
        ),
        builtin_call(
            ValueV::EnumVariant { enum_name: v.enum_name, variant: v.name, args },
            method,
        ) == Some(Ok::<ValueV, Seq<char>>(ValueV::Bool(asked(v.name, method)))),
{
    lemma_wrapper_names();
    law_wrapper_answers(v, args, method);
    law_wrapper_tags(v);
    let k = s.m.func.insts.len() as int;
    let (t, r) = gen_wrapper_method(s, CgValue::Int(w), ot, method, rt);
    lemma_values_add(s, CgValue::Int(w), w, ot, ""@);
    let op1 = OpV::Cast(Cast::WordToPtr, w);
    lemma_emit(s, op1, "as_ptr"@, mem);
    let (s1, q) = s.emit(op1, "as_ptr"@);
    let mem1 = given(mem, k, Datum::Word(p));
    let op2 = OpV::Load(Ty::Word, q);
    lemma_emit(s1, op2, "tag"@, mem1);
    let (s2, tag) = s1.emit(op2, "tag"@);
    let mem2 = given(mem1, k + 1, Datum::Word(v.tag as i64));
    let first = method == "is_some"@ || method == "is_ok"@;
    let op3 = OpV::Compare(
        if first {
            Cond::Eq
        } else {
            Cond::Ne
        },
        tag,
        Val::Word(0),
    );
    let name3 = if first {
        "is_v0"@
    } else {
        "not_v0"@
    };
    lemma_emit(s2, op3, name3, mem2);
    let (s3, c) = s2.emit(op3, name3);
    let truth = if first {
        v.tag == 0
    } else {
        v.tag != 0
    };
    let mem3 = given(mem2, k + 2, Datum::Truth(truth));
    lemma_from_i1(s3, c, mem3);
    let s4 = from_i1(s3, c).0;
    let d4 = Datum::Word(
        if truth {
            1i64
        } else {
            0i64
        },
    );
    let mem4 = given(mem3, k + 3, d4);
    assert(t == s4);
    assert(k + 4 <= usize::MAX);
    assert(q == Val::Reg(k as usize));
    assert(tag == Val::Reg((k + 1) as usize));
    assert(c == Val::Reg((k + 2) as usize));
    assert(computed(op2, mem1) == Some(Datum::Word(v.tag as i64)));
    assert(runs(s, s1, mem, mem1));
    assert(runs(s1, s2, mem1, mem2));
    assert(runs(s2, s3, mem2, mem3));
    assert(runs(s3, s4, mem3, mem4));
    lemma_then(s, s1, s2, mem, mem1);
    lemma_then(s, s2, s3, mem, mem2);
    lemma_then(s, s3, s4, mem, mem3);
    mem4
}

/// The code of `unwrap` leaves the word that the value carries, where the interpreter
/// gives what it carries. Elsewhere the program stops with the interpreter's message.
#[verifier::rlimit(60)]
pub proof fn law_unwrap(
    s: CgV,
    w: Val,
    ot: TypeV,
    rt: TypeV,
    mem: Memory,
    p: i64,
    v: VariantV,
    args: Seq<ValueV>,
) -> (after: Memory)
    requires
        open_here(s),
        countable(gen_wrapper_method(s, CgValue::Int(w), ot, "unwrap"@, rt).0),
        holds_word(s, mem, w, p),
        wrapper_at(mem, p, v),
        ot is Named && ot->Named_0 == v.enum_name,
        args.len() == v.payload.len(),
    ensures
        ({
            let (t, r) = gen_wrapper_method(s, CgValue::Int(w), ot, "unwrap"@, rt);
            let value = ValueV::EnumVariant { enum_name: v.enum_name, variant: v.name, args };
            if v.name == "Some"@ || v.name == "Ok"@ {
                &&& builtin_call(value, "unwrap"@) == Some(Ok::<ValueV, Seq<char>>(args[0]))
                &&& (rt is Int || rt is Bool) && word_of(args[0]) == mem.heap[p + 8] ==> gives(
                    s,
                    t,
                    r,
                    mem,
                    after,
                    args[0],
                )
            } else {
                let message = if v.name == "None"@ {
                    "unwrap() called on None"@
                } else {
                    "unwrap() called on Err"@
                };
                &&& builtin_call(value, "unwrap"@) == Some(Err::<ValueV, Seq<char>>(message))
                &&& stops(s, t, mem, message)
            }
        }),
{
    lemma_wrapper_names();
    law_wrapper_tags(v);
    let k = s.m.func.insts.len() as int;
    let (t, r) = gen_wrapper_method(s, CgValue::Int(w), ot, "unwrap"@, rt);
    lemma_values_add(s, CgValue::Int(w), w, ot, ""@);
    let op1 = OpV::Cast(Cast::WordToPtr, w);
    lemma_emit(s, op1, "as_ptr"@, mem);
    let (s1, q) = s.emit(op1, "as_ptr"@);
    let mem1 = given(mem, k, Datum::Word(p));
    let op2 = OpV::Load(Ty::Word, q);
    lemma_emit(s1, op2, "tag"@, mem1);
    let (s2, tag) = s1.emit(op2, "tag"@);
    let mem2 = given(mem1, k + 1, Datum::Word(v.tag as i64));
    let op3 = OpV::Compare(Cond::Ne, tag, Val::Word(0));
    lemma_emit(s2, op3, "no_payload"@, mem2);
    let (s3, bad) = s2.emit(op3, "no_payload"@);
    let mem3 = given(mem2, k + 2, Datum::Truth(v.tag != 0));
    let message = if is_result(ot) {
        "unwrap() called on Err"@
    } else {
        "unwrap() called on None"@
    };
    let s4 = gen_abort_if(s3, bad, message, Val::Word(0), Val::Word(0));
    lemma_abort_if(s3, bad, message, Val::Word(0), Val::Word(0), mem3, v.tag != 0);
    let op5 = OpV::Offset(Ty::Word, q, Val::Word(1));
    lemma_emit(s4, op5, "word_ptr"@, mem3);
    let (s5, place) = s4.emit(op5, "word_ptr"@);
    let k4 = s4.m.func.insts.len() as int;
    let mem5 = given(mem3, k4, Datum::Word((p + 8) as i64));
    let op6 = OpV::Load(Ty::Word, place);
    lemma_emit(s5, op6, "word"@, mem5);
    let (s6, raw) = s5.emit(op6, "word"@);
    lemma_values_add(s6, CgValue::Int(raw), raw, rt, ""@);
    let (s7, out) = typed_value(s6, raw, rt);
    lemma_owners_add(s7, out, rt, arbitrary());
    let s8 = retain_value(s7, out, rt);
    lemma_word_kept(s6, raw);
    assert(t == s8);
    lemma_adds_chain(s4, s5, s6);
    lemma_adds_chain(s4, s6, s7);
    lemma_adds_chain(s4, s7, s8);
    assert(q == Val::Reg(k as usize));
    assert(tag == Val::Reg((k + 1) as usize));
    assert(bad == Val::Reg((k + 2) as usize));
    assert(computed(op2, mem1) == Some(Datum::Word(v.tag as i64)));
    lemma_then(s, s1, s2, mem, mem1);
    lemma_then(s, s2, s3, mem, mem2);
    lemma_then(s, s3, s4, mem, mem3);
    lemma_same_diagnostic(s, s3, message);
    if v.tag != 0 {
        lemma_stopped_then(s, s4, s8, mem, message);
        mem
    } else if rt is Int || rt is Bool {
        assert(place == Val::Reg(k4 as usize));
        assert(computed(op5, mem3) == Some(Datum::Word((p + 8) as i64)));
        let d = Datum::Word(mem.heap[p + 8]);
        assert(computed(op6, mem5) == Some(d));
        let mem6 = given(mem5, k4 + 1, d);
        lemma_then(s, s4, s5, mem, mem3);
        lemma_then(s, s5, s6, mem, mem5);
        assert(s8 == s6);
        mem6
    } else {
        mem
    }
}

// ---- fields, tags and elements ----

/// The word at a place of a struct or of a variant is read from that place.
pub proof fn law_word_is_read(s: CgV, p: Val, i: int, mem: Memory, q: i64) -> (after: Memory)
    requires
        open_here(s),
        countable(load_word(s, p, i).0),
        holds_word(s, mem, p, q),
        !(p is Slot),
        0 <= i <= i64::MAX,
        q + 8 * i <= i64::MAX,
        mem.heap.contains_key(q + 8 * i),
    ensures
        ({
            let (t, raw) = load_word(s, p, i);
            &&& runs(s, t, mem, after)
            &&& keeps(mem, after, s.m.func.insts.len() as int)
            &&& operand(after, raw) == Some(Datum::Word(mem.heap[q + 8 * i]))
            &&& settled(raw, t.m.func.insts.len() as int)
            &&& raw is Reg
        }),
{
    let k = s.m.func.insts.len() as int;
    let op1 = OpV::Offset(Ty::Word, p, Val::Word(i as i64));
    lemma_emit(s, op1, "word_ptr"@, mem);
    let (s1, place) = s.emit(op1, "word_ptr"@);
    let at = (q + 8 * i) as i64;
    let mem1 = given(mem, k, Datum::Word(at));
    assert(i64::MIN <= q + 8 * i);
    assert(computed(op1, mem) == Some(Datum::Word(at)));
    let op2 = OpV::Load(Ty::Word, place);
    lemma_emit(s1, op2, "word"@, mem1);
    assert(k + 2 <= usize::MAX);
    assert(place == Val::Reg(k as usize));
    let d = Datum::Word(mem.heap[q + 8 * i]);
    assert(computed(op2, mem1) == Some(d));
    lemma_then(s, s1, load_word(s, p, i).0, mem, mem1);
    given(mem1, k + 1, d)
}

/// A field has the place of its declaration.
pub proof fn law_field_place(defs: Seq<(Seq<char>, TypeV)>, name: Seq<char>, i: int)
    requires
        0 <= i,
        forall|k: int| 0 <= k < i && k < defs.len() ==> (#[trigger] defs[k]).0 != name,
    ensures
        forall|d: int| #[trigger] is_field(defs, name, d) ==> field_index(defs, name, i) == Some(d),
        field_index(defs, name, i) is Some ==> exists|d: int| #[trigger] is_field(defs, name, d),
    decreases defs.len() - i,
{
    if i < defs.len() {
        if defs[i].0 == name {
            assert(is_field(defs, name, i));
            assert forall|d: int| #[trigger] is_field(defs, name, d) implies d == i by {
                if d < i {
                    assert(defs[d].0 != name);
                } else if d > i {
                    assert(defs[i].0 != name);
                }
            }
        } else {
            law_field_place(defs, name, i + 1);
        }
    }
}

/// The code of a field access reads the word at the place that the field has in the
/// declaration of the struct.
pub proof fn law_field_is_read(
    s: CgV,
    p: Val,
    defs: Seq<(Seq<char>, TypeV)>,
    field: Seq<char>,
    d: int,
    mem: Memory,
    q: i64,
) -> (after: Memory)
    requires
        open_here(s),
        countable(gen_field_of(s, p, defs, field).0),
        holds_word(s, mem, p, q),
        !(p is Slot),
        is_field(defs, field, d),
        !(defs[d].1 is Float),
        !(defs[d].1 is String),
        q + 8 * d <= i64::MAX,
        d <= i64::MAX,
        mem.heap.contains_key(q + 8 * d),
    ensures
        ({
            let (t, r) = gen_field_of(s, p, defs, field);
            &&& runs(s, t, mem, after)
            &&& keeps(mem, after, s.m.func.insts.len() as int)
            &&& r matches CgValue::Int(w) && operand(after, w) == Some(
                Datum::Word(mem.heap[q + 8 * d]),
            )
        }),
{
    law_field_place(defs, field, 0);
    let (s1, raw) = load_word(s, p, d);
    lemma_word_kept(s1, raw);
    law_word_is_read(s, p, d, mem, q)
}

/// A condition decides: control goes on in a new block where it holds, and to the block
/// named elsewhere.
pub proof fn law_unless(s: CgV, c: Val, fail: usize, mem: Memory, x: bool)
    requires
        open_here(s),
        countable(unless(s, c, fail)),
        operand(mem, c) == Some(Datum::Truth(x)),
        fail != s.m.at,
        fail < s.m.func.blocks.len(),
        is_fresh(s.m.func.insts, fail, s.m.func.insts.len() as int),
    ensures
        adds(s, unless(s, c, fail)),
        open_here(unless(s, c, fail)),
        unless(s, c, fail).m.at != fail,
        unless(s, c, fail).m.at == s.m.func.blocks.len(),
        is_fresh(
            unless(s, c, fail).m.func.insts,
            fail,
            unless(s, c, fail).m.func.insts.len() as int,
        ),
        code_between(s, unless(s, c, fail), mem) == Outcome::Reached(
            if x {
                unless(s, c, fail).m.at
            } else {
                fail
            },
            mem,
        ),
{
    let n = s.m.func.insts.len() as int;
    let (s1, ok) = s.block("match_ok"@);
    lemma_no_code(s, "match_ok"@, 0);
    let branch = OpV::Branch(c, ok, fail);
    lemma_blocks(s, branch, "match_ok"@, ok, arbitrary());
    lemma_blocks(s1, branch, ""@, ok, arbitrary());
    let s2 = s1.emit(branch, ""@).0;
    lemma_emit(s1, branch, ""@, mem);
    lemma_blocks(s2, branch, ""@, ok, arbitrary());
    lemma_no_code(s2, ""@, ok);
    let t = unless(s, c, fail);
    assert(t == s2.position(ok));
    lemma_adds_chain(s, s1, s2);
    lemma_adds_chain(s, s2, t);
    lemma_continues_itself(s);
    lemma_no_code_continues(s, s, "match_ok"@, 0);
    lemma_continues(s, s1);
    assert(ok == s.m.func.blocks.len());
    assert(s1.m.func.blocks[s.m.at as int] == s.m.func.blocks[s.m.at as int]);
    assert(!s1.m.func.is_left(s1.m.at));
    law_push_keeps_order(s1.m.func, s1.m.at, branch, ""@);
    let insts = t.m.func.insts;
    assert(insts =~= s.m.func.insts.push(InstV { block: s.m.at, name: ""@, op: branch }));
    assert(t.m.func.blocks[ok as int] == ("match_ok"@, false));
    assert(is_fresh(insts, fail, n + 1)) by {
        assert forall|i: int| 0 <= i < n + 1 && i < insts.len() implies (#[trigger] insts[i]).block
            != fail by {
            if i < n {
                assert(insts[i] == s.m.func.insts[i]);
            }
        }
    }
    assert(is_fresh(insts, ok, n + 1)) by {
        assert forall|i: int| 0 <= i < n + 1 && i < insts.len() implies (#[trigger] insts[i]).block
            != ok by {
            if i < n {
                assert(insts[i] == s.m.func.insts[i]);
                assert(s.m.func.insts[i].block < s.m.func.blocks.len());
            }
        }
    }
    let to = if x {
        ok
    } else {
        fail
    };
    assert(run(insts, to, n + 1, n + 1, mem) == Outcome::Reached(to, mem));
    assert(run(insts, s.m.at, n, n + 1, mem) == Outcome::Reached(to, mem));
}

/// The tag of an enum value is its word, or where a variant carries values the word that
/// it points to.
pub proof fn law_tag_is_read(
    s: CgV,
    word: Val,
    boxed: bool,
    mem: Memory,
    q: i64,
    tag: i64,
) -> (after: Memory)
    requires
        open_here(s),
        countable(gen_tag(s, word, boxed).0),
        holds_word(s, mem, word, q),
        if boxed {
            mem.heap.contains_key(q as int) && mem.heap[q as int] == tag
        } else {
            q == tag
        },
    ensures
        ({
            let (t, r) = gen_tag(s, word, boxed);
            &&& runs(s, t, mem, after)
            &&& keeps(mem, after, s.m.func.insts.len() as int)
            &&& holds_word(t, after, r, tag)
            &&& t.m.func.blocks == s.m.func.blocks
            &&& t.m.at == s.m.at
        }),
{
    if boxed {
        let k = s.m.func.insts.len() as int;
        let op1 = OpV::Cast(Cast::WordToPtr, word);
        lemma_emit(s, op1, "enum_ptr"@, mem);
        let (s1, p) = s.emit(op1, "enum_ptr"@);
        lemma_blocks(s, op1, "enum_ptr"@, 0, arbitrary());
        let mem1 = given(mem, k, Datum::Word(q));
        let op2 = OpV::Load(Ty::Word, p);
        lemma_emit(s1, op2, "tag"@, mem1);
        lemma_blocks(s1, op2, "tag"@, 0, arbitrary());
        assert(k + 2 <= usize::MAX);
        assert(p == Val::Reg(k as usize));
        assert(computed(op2, mem1) == Some(Datum::Word(tag)));
        lemma_then(s, s1, gen_tag(s, word, boxed).0, mem, mem1);
        given(mem1, k + 1, Datum::Word(tag))
    } else {
        lemma_nothing_runs(s, mem);
        mem
    }
}

proof fn lemma_nothing_runs(s: CgV, mem: Memory)
    requires
        open_here(s),
    ensures
        runs(s, s, mem, mem),
        keeps(mem, mem, s.m.func.insts.len() as int),
{
}

/// A word is compared with a literal that is a word.
pub proof fn law_literal_is_compared(s: CgV, word: Val, lit: Val, mem: Memory, x: i64, n: i64) -> (
    after: Memory)
    requires
        open_here(s),
        countable(gen_same(s, word, CgValue::Int(lit)).0),
        holds_word(s, mem, word, x),
        holds_word(s, mem, lit, n),
    ensures
        ({
            let (t, c) = gen_same(s, word, CgValue::Int(lit));
            &&& runs(s, t, mem, after)
            &&& keeps(mem, after, s.m.func.insts.len() as int)
            &&& operand(after, c) == Some(Datum::Truth(x == n))
            &&& t.m.func.blocks == s.m.func.blocks
            &&& t.m.at == s.m.at
            &&& t.m.func.insts.len() == s.m.func.insts.len() + 1
        }),
{
    lemma_word_kept(s, lit);
    let op = OpV::Compare(Cond::Eq, word, lit);
    lemma_emit(s, op, "match_cmp"@, mem);
    lemma_blocks(s, op, "match_cmp"@, 0, arbitrary());
    given(mem, s.m.func.insts.len() as int, Datum::Truth(x == n))
}

/// What a loop walks: the integers of a range from its first to its second, the integers
/// below a number, the elements of an array.
pub proof fn law_walk_bounds(s: CgV, w: Val, t: TypeV, mem: Memory, q: i64) -> (after: Memory)
    requires
        open_here(s),
        countable(walk_bounds(s, CgValue::Int(w), t).0),
        holds_word(s, mem, w, q),
        t is Range ==> mem.heap.contains_key(q as int) && mem.heap.contains_key(q + 8) && q + 8
            <= i64::MAX,
        t is Array ==> mem.heap.contains_key(q as int),
    ensures
        ({
            let (s1, b) = walk_bounds(s, CgValue::Int(w), t);
            &&& runs(s, s1, mem, after)
            &&& t is Range ==> b.arr is None && operand(after, b.from) == Some(
                Datum::Word(mem.heap[q as int]),
            ) && operand(after, b.to) == Some(Datum::Word(mem.heap[q + 8]))
            &&& t is Array ==> operand(after, b.from) == Some(Datum::Word(0)) && operand(
                after,
                b.to,
            ) == Some(Datum::Word(mem.heap[q as int])) && (b.arr matches Some(p) && operand(
                after,
                p,
            ) == Some(Datum::Word(q)))
            &&& t is Int ==> b.arr is None && operand(after, b.from) == Some(Datum::Word(0))
                && operand(after, b.to) == Some(Datum::Word(q))
        }),
{
    let k = s.m.func.insts.len() as int;
    lemma_word_kept(s, w);
    lemma_values_add(s, CgValue::Int(w), w, t, ""@);
    let op1 = OpV::Cast(Cast::WordToPtr, w);
    lemma_emit(s, op1, "as_ptr"@, mem);
    let (s1, p) = s.emit(op1, "as_ptr"@);
    let mem1 = given(mem, k, Datum::Word(q));
    let name = if t is Range {
        "range_from"@
    } else {
        "walk_len"@
    };
    let op2 = OpV::Load(Ty::Word, p);
    lemma_emit(s1, op2, name, mem1);
    let (s2, first) = s1.emit(op2, name);
    let last = walk_bounds(s, CgValue::Int(w), t).0;
    if t is Range {
        let mem2 = given(mem1, k + 1, Datum::Word(mem.heap[q as int]));
        let op3 = OpV::Offset(Ty::Word, p, Val::Word(1));
        lemma_emit(s2, op3, "range_end"@, mem2);
        let (s3, place) = s2.emit(op3, "range_end"@);
        let mem3 = given(mem2, k + 2, Datum::Word((q + 8) as i64));
        let op4 = OpV::Load(Ty::Word, place);
        lemma_emit(s3, op4, "range_to"@, mem3);
        assert(k + 4 <= usize::MAX);
        assert(p == Val::Reg(k as usize));
        assert(first == Val::Reg((k + 1) as usize));
        assert(place == Val::Reg((k + 2) as usize));
        assert(computed(op2, mem1) == Some(Datum::Word(mem.heap[q as int])));
        assert(computed(op3, mem2) == Some(Datum::Word((q + 8) as i64)));
        assert(computed(op4, mem3) == Some(Datum::Word(mem.heap[q + 8])));
        lemma_then(s, s1, s2, mem, mem1);
        lemma_then(s, s2, s3, mem, mem2);
        lemma_then(s, s3, last, mem, mem3);
        given(mem3, k + 3, Datum::Word(mem.heap[q + 8]))
    } else if t is Array {
        assert(k + 2 <= usize::MAX);
        assert(p == Val::Reg(k as usize));
        assert(first == Val::Reg((k + 1) as usize));
        let mem2 = given(mem1, k + 1, Datum::Word(mem.heap[q as int]));
        assert(computed(op2, mem1) == Some(Datum::Word(mem.heap[q as int])));
        lemma_then(s, s1, last, mem, mem1);
        mem2
    } else {
        lemma_nothing_runs(s, mem);
        mem
    }
}

/// A word is put to the place of a struct or of a variant that it is for.
pub proof fn law_word_is_stored(s: CgV, p: Val, i: int, word: Val)
    requires
        open_here(s),
        countable(store_word(s, p, i, word)),
    ensures
        ({
            let n = s.m.func.insts.len() as int;
            let insts = store_word(s, p, i, word).m.func.insts;
            &&& insts.len() == n + 2
            &&& insts[n].op == OpV::Offset(Ty::Word, p, Val::Word(i as i64))
            &&& insts[n + 1].op == OpV::Store(Val::Reg(n as usize), word)
            &&& insts[n].block == s.m.at && insts[n + 1].block == s.m.at
        }),
{
    let mem: Memory = arbitrary();
    let op1 = OpV::Offset(Ty::Word, p, Val::Word(i as i64));
    lemma_emit(s, op1, "word_ptr"@, mem);
    lemma_blocks(s, op1, "word_ptr"@, 0, arbitrary());
    let (s1, place) = s.emit(op1, "word_ptr"@);
    lemma_emit(s1, OpV::Store(place, word), ""@, mem);
    lemma_blocks(s1, OpV::Store(place, word), ""@, 0, arbitrary());
    assert(place == Val::Reg(s.m.func.insts.len() as usize));
}

/// The code of a comparison with a literal is one instruction.
pub proof fn lemma_compare_code(s: CgV, word: Val, lit: Val)
    requires
        open_here(s),
    ensures
        ({
            let t = gen_same(s, word, CgValue::Int(lit)).0;
            &&& t.m.func.insts.len() == s.m.func.insts.len() + 1
            &&& t.m.func.insts[s.m.func.insts.len() as int].block == s.m.at
            &&& t.m.texts == s.m.texts
            &&& t.m.func.blocks == s.m.func.blocks
        }),
{
    lemma_word_kept(s, lit);
    lemma_blocks(s, OpV::Compare(Cond::Eq, word, lit), "match_cmp"@, 0, arbitrary());
}

/// The code that reads a tag stays in its block.
pub proof fn lemma_tag_code(s: CgV, word: Val, boxed: bool)
    requires
        open_here(s),
    ensures
        ({
            let t = gen_tag(s, word, boxed).0;
            &&& s.m.func.insts.len() <= t.m.func.insts.len() <= s.m.func.insts.len() + 2
            &&& forall|i: int|
                s.m.func.insts.len() <= i < t.m.func.insts.len()
                    ==> (#[trigger] t.m.func.insts[i]).block == s.m.at
            &&& t.m.texts == s.m.texts
            &&& t.m.func.blocks == s.m.func.blocks
            &&& t.m.at == s.m.at
            &&& open_here(t)
        }),
{
    let mem: Memory = arbitrary();
    let op1 = OpV::Cast(Cast::WordToPtr, word);
    lemma_emit(s, op1, "enum_ptr"@, mem);
    lemma_blocks(s, op1, "enum_ptr"@, 0, arbitrary());
    let (s1, p) = s.emit(op1, "enum_ptr"@);
    let op2 = OpV::Load(Ty::Word, p);
    lemma_emit(s1, op2, "tag"@, mem);
    lemma_blocks(s1, op2, "tag"@, 0, arbitrary());
}

pub proof fn lemma_unless_grows(s: CgV, c: Val, fail: usize)
    ensures
        s.m.func.insts.len() <= unless(s, c, fail).m.func.insts.len(),
        s.m.func.blocks.len() <= unless(s, c, fail).m.func.blocks.len(),
        s.m.texts == unless(s, c, fail).m.texts,
{
    let (s1, ok) = s.block("match_ok"@);
    let branch = OpV::Branch(c, ok, fail);
    lemma_blocks(s, branch, "match_ok"@, ok, arbitrary());
    lemma_blocks(s1, branch, ""@, ok, arbitrary());
    lemma_blocks(s1.emit(branch, ""@).0, branch, ""@, ok, arbitrary());
}

/// Integers and truth values have no owner to add.
pub proof fn lemma_retain_nothing(s: CgV, v: CgValue, t: TypeV)
    requires
        t is Int || t is Bool,
    ensures
        retain_value(s, v, t) == s,
{
}

// ---- operations on floats and strings ----

/// The operation of floats that an operator stands for.
pub open spec fn float_code(op: BinOp, a: Val, b: Val) -> Option<OpV> {
    match op {
        BinOp::Add => Some(OpV::Float(FloatArith::Add, a, b)),
        BinOp::Sub => Some(OpV::Float(FloatArith::Sub, a, b)),
        BinOp::Mul => Some(OpV::Float(FloatArith::Mul, a, b)),
        BinOp::Div => Some(OpV::Float(FloatArith::Div, a, b)),
        BinOp::Mod => Some(OpV::Float(FloatArith::Rem, a, b)),
        BinOp::Eq => Some(OpV::FloatCompare(FloatCond::Eq, a, b)),
        BinOp::Ne => Some(OpV::FloatCompare(FloatCond::Ne, a, b)),
        BinOp::Lt => Some(OpV::FloatCompare(FloatCond::Lt, a, b)),
        BinOp::Le => Some(OpV::FloatCompare(FloatCond::Le, a, b)),
        BinOp::Gt => Some(OpV::FloatCompare(FloatCond::Gt, a, b)),
        BinOp::Ge => Some(OpV::FloatCompare(FloatCond::Ge, a, b)),
        _ => None,
    }
}

/// An operator on two floats is the instruction of that operation on them, in their
/// order.
pub proof fn law_float_code(s: CgV, a: Val, op: BinOp, b: Val)
    requires
        open_here(s),
        float_code(op, a, b) is Some,
    ensures
        ({
            let n = s.m.func.insts.len() as int;
            let (t, r) = gen_float_op(s, a, op, b);
            &&& t.m.func.insts.len() > n
            &&& t.m.func.insts[n].op == float_code(op, a, b)->Some_0
            &&& float_code(op, a, b)->Some_0 is Float ==> r == CgValue::Float(Val::Reg(n as usize))
        }),
{
    let mem: Memory = arbitrary();
    let code = float_code(op, a, b)->Some_0;
    let name = match op {
        BinOp::Add => "fadd"@,
        BinOp::Sub => "fsub"@,
        BinOp::Mul => "fmul"@,
        BinOp::Div => "fdiv"@,
        BinOp::Mod => "frem"@,
        BinOp::Eq => "feq"@,
        BinOp::Ne => "fne"@,
        BinOp::Lt => "flt"@,
        BinOp::Le => "fle"@,
        BinOp::Gt => "fgt"@,
        _ => "fge"@,
    };
    lemma_blocks(s, code, name, 0, arbitrary());
    let (s1, r) = s.emit(code, name);
    lemma_emit(s, code, name, mem);
    lemma_from_i1(s1, r, mem);
    assert(s1.m.func.insts[s.m.func.insts.len() as int].op == code);
}

/// Two strings are compared by the sign of their order: less than zero, zero, or more.
pub proof fn law_string_order(s: CgV, order: Val, op: BinOp, mem: Memory, o: i64) -> (after: Memory)
    requires
        open_here(s),
        countable(gen_str_compare(s, order, op).0),
        holds_word(s, mem, order, o),
        op is Eq || op is Ne || op is Lt || op is Le || op is Gt || op is Ge,
    ensures
        gives(
            s,
            gen_str_compare(s, order, op).0,
            gen_str_compare(s, order, op).1,
            mem,
            after,
            ValueV::Bool(
                match op {
                    BinOp::Eq => o == 0,
                    BinOp::Ne => o != 0,
                    BinOp::Lt => o < 0,
                    BinOp::Le => o <= 0,
                    BinOp::Gt => o > 0,
                    _ => o >= 0,
                },
            ),
        ),
{
    let c = match op {
        BinOp::Eq => Cond::Eq,
        BinOp::Ne => Cond::Ne,
        BinOp::Lt => Cond::Lt,
        BinOp::Le => Cond::Le,
        BinOp::Gt => Cond::Gt,
        _ => Cond::Ge,
    };
    let k = s.m.func.insts.len() as int;
    let code = OpV::Compare(c, order, Val::Word(0));
    lemma_emit(s, code, "cmp"@, mem);
    let (s1, r) = s.emit(code, "cmp"@);
    let x = compared(c, o, 0);
    let mem1 = given(mem, k, Datum::Truth(x));
    lemma_from_i1(s1, r, mem1);
    let t = from_i1(s1, r).0;
    assert(gen_str_compare(s, order, op).0 == t);
    assert(k + 2 <= usize::MAX);
    assert(r == Val::Reg(k as usize));
    lemma_then(s, s1, t, mem, mem1);
    given(
        mem1,
        k + 1,
        Datum::Word(
            if x {
                1i64
            } else {
                0i64
            },
        ),
    )
}

/// `+` of two strings puts the first before the second; other operators compare them in
/// their order.
pub proof fn law_string_code(s: CgV, a: Val, op: BinOp, b: Val)
    requires
        open_here(s),
    ensures
        op is Add ==> gen_str_op(s, a, op, b) == (
            gen_string_concat(s, a, b).0,
            CgValue::Str(gen_string_concat(s, a, b).1),
        ),
        !(op is Add) ==> ({
            let call = OpV::CallHalf("strcmp"@, seq![a, b]);
            let (s1, c) = s.emit(call, "strcmp"@);
            let (s2, order) = s1.emit(OpV::Cast(Cast::HalfToWord, c), "order"@);
            gen_str_op(s, a, op, b) == gen_str_compare(s2, order, op)
        }),
{
    assert(Seq::<Val>::empty().push(a).push(b) =~= seq![a, b]);
}

} // verus!
