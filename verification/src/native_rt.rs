//! The parts of native code that do not depend on the shape of an expression:
//! allocation and reference counts, texts of values, failures, and the bodies
//! of the functions that every executable carries.

use crate::ast::{params_view, types_view, Type, TypeV};
use crate::ir::{
    law_finish_keeps_signature, law_push_keeps_order, Arith, Cast, Cond, FloatCond, FuncV, InstV,
    Op, OpV, Room, Ty, Val,
};
use crate::monomorphize::{tag, type_tag};
use crate::ir_semantics::{
    given, kept, law_turns_add_up, law_turns_pass, law_wrapped, operand, turned, turns, Datum,
    Memory, Outcome, Turn,
};
use crate::native::{
    adds, code_between, continues, countable, group_module_keeps, grows, guarded, keeps,
    law_code_follows_code, lemma_adds_chain, lemma_blocks, lemma_emit, lemma_function,
    lemma_guarded, lemma_left, lemma_no_code, lemma_same_diagnostic, lemma_slot_state,
    lemma_stopped, lemma_stopping_adds, lemma_stopping_continues, lemma_then, lemma_wanted_state,
    lemma_wants_add, module_grows, open_here, runs, settled, stays_in, stopped, stops, stops_with,
    CgV, CgValue, Codegen,
};
use crate::text::{cat2, int_text, nat_text};
use crate::typecheck::types_of_payload;
use crate::typing::{payload_types, EnvV};
use crate::value::index_in;
use crate::variants::{of_enum, sorted_by_tag, variants_view, Variant, VariantV};
use vstd::prelude::*;

verus! {

/// Every heap value carries a reference count in the 16 bytes ahead of it, so a
/// pointer can be retained and released without knowing where it came from.
/// Constants get the same shape with a count that never moves.
pub const HEADER: i64 = 16;

/// From a value back to its count.
pub const BACK: i64 = -16;

/// The count of what is never freed.
pub const IMMORTAL: i64 = -1;

/// A list of 0 operands.
pub(crate) fn vals0() -> (r: Vec<Val>)
    ensures
        r@ == Seq::<Val>::empty(),
{
    let r: Vec<Val> = Vec::new();
    r
}

/// A list of 1 operands.
pub(crate) fn vals1(v0: Val) -> (r: Vec<Val>)
    ensures
        r@ == Seq::<Val>::empty().push(v0),
{
    let mut r: Vec<Val> = Vec::new();
    r.push(v0);
    r
}

/// A list of 2 operands.
pub(crate) fn vals2(v0: Val, v1: Val) -> (r: Vec<Val>)
    ensures
        r@ == Seq::<Val>::empty().push(v0).push(v1),
{
    let mut r: Vec<Val> = Vec::new();
    r.push(v0);
    r.push(v1);
    r
}

/// A list of 3 operands.
pub(crate) fn vals3(v0: Val, v1: Val, v2: Val) -> (r: Vec<Val>)
    ensures
        r@ == Seq::<Val>::empty().push(v0).push(v1).push(v2),
{
    let mut r: Vec<Val> = Vec::new();
    r.push(v0);
    r.push(v1);
    r.push(v2);
    r
}

/// A list of 4 operands.
pub(crate) fn vals4(v0: Val, v1: Val, v2: Val, v3: Val) -> (r: Vec<Val>)
    ensures
        r@ == Seq::<Val>::empty().push(v0).push(v1).push(v2).push(v3),
{
    let mut r: Vec<Val> = Vec::new();
    r.push(v0);
    r.push(v1);
    r.push(v2);
    r.push(v3);
    r
}

/// A list of 5 operands.
pub(crate) fn vals5(v0: Val, v1: Val, v2: Val, v3: Val, v4: Val) -> (r: Vec<Val>)
    ensures
        r@ == Seq::<Val>::empty().push(v0).push(v1).push(v2).push(v3).push(v4),
{
    let mut r: Vec<Val> = Vec::new();
    r.push(v0);
    r.push(v1);
    r.push(v2);
    r.push(v3);
    r.push(v4);
    r
}

fn tys1(t0: Ty) -> (r: Vec<Ty>)
    ensures
        r@ == Seq::<Ty>::empty().push(t0),
{
    let mut r: Vec<Ty> = Vec::new();
    r.push(t0);
    r
}

fn tys2(t0: Ty, t1: Ty) -> (r: Vec<Ty>)
    ensures
        r@ == Seq::<Ty>::empty().push(t0).push(t1),
{
    let mut r: Vec<Ty> = Vec::new();
    r.push(t0);
    r.push(t1);
    r
}

fn tys3(t0: Ty, t1: Ty, t2: Ty) -> (r: Vec<Ty>)
    ensures
        r@ == Seq::<Ty>::empty().push(t0).push(t1).push(t2),
{
    let mut r: Vec<Ty> = Vec::new();
    r.push(t0);
    r.push(t1);
    r.push(t2);
    r
}

/// The name of the function that releases a value of a type. There is one per
/// type, because what a value owns depends on its shape.
pub open spec fn release_name(ty: TypeV) -> Seq<char> {
    "zarrin.release."@ + tag(ty)
}

fn release_fn(ty: &Type) -> (r: String)
    ensures
        r@ == release_name(ty@),
{
    cat2("zarrin.release.", type_tag(ty).as_str())
}

/// The name of the function that writes the text of a value of a type.
pub open spec fn show_name(ty: TypeV) -> Seq<char> {
    "zarrin.show."@ + tag(ty)
}

pub(crate) fn show_fn(ty: &Type) -> (r: String)
    ensures
        r@ == show_name(ty@),
{
    cat2("zarrin.show.", type_tag(ty).as_str())
}

/// The fields of a struct.
pub open spec fn fields_of(env: EnvV, name: Seq<char>) -> Option<Seq<(Seq<char>, TypeV)>> {
    if env.structs.contains_key(name) {
        Some(env.structs[name])
    } else {
        None
    }
}

/// The variants of an enum, in the order of their tags.
pub open spec fn variants_in(env: EnvV, name: Seq<char>) -> Seq<VariantV> {
    sorted_by_tag(of_enum(env.variants, name))
}

/// An enum is behind a pointer only when some variant carries a payload;
/// otherwise a value of it is just the tag.
pub open spec fn has_body(vs: Seq<VariantV>) -> bool {
    vs.len() > 0 && vs[0].enum_has_payload
}

fn has_body_of(vs: &Vec<Variant>) -> (r: bool)
    ensures
        r == has_body(variants_view(vs@)),
{
    assert(variants_view(vs@).len() == vs@.len());
    if vs.len() > 0 {
        assert(variants_view(vs@)[0] == vs@[0]@);
        vs[0].enum_has_payload
    } else {
        false
    }
}

/// Does a value of this type live behind a counted pointer?
pub open spec fn managed(env: EnvV, ty: TypeV) -> bool {
    match ty {
        TypeV::String => true,
        TypeV::Array(_) => true,
        TypeV::Range => true,
        TypeV::Named(n, _) => env.structs.contains_key(n) || has_body(variants_in(env, n)),
        _ => false,
    }
}

/// A variant's tag as an operand.
pub open spec fn tag_val(v: VariantV) -> Val {
    Val::Word(v.tag as i64)
}

pub(crate) fn tag_of(v: &Variant) -> (r: Val)
    ensures
        r == tag_val(v@),
{
    Val::Word(v.tag as i64)
}

fn payload_of(v: &Variant, ty: &Type) -> (r: Vec<Type>)
    ensures
        types_view(r@) == payload_types(v@, ty@),
{
    types_of_payload(v, ty)
}

/// What stands ahead of the value of a field.
pub open spec fn field_lead_text(i: int, name: Seq<char>) -> Seq<char> {
    if i > 0 {
        ", "@ + name + ": "@
    } else {
        name + ": "@
    }
}

fn field_lead(i: usize, name: &str) -> (r: String)
    ensures
        r@ == field_lead_text(i as int, name@),
{
    if i > 0 {
        cat2(cat2(", ", name).as_str(), ": ")
    } else {
        cat2(name, ": ")
    }
}

/// The count ahead of a heap value.
pub closed spec fn header_of(s: CgV, p: Val) -> (CgV, Val)
{
    let (s, hdr) = s.emit(OpV::Offset(Ty::Byte, p, Val::Word(BACK)), "hdr"@);
    (s, hdr)
}

/// One more owner.
pub closed spec fn gen_retain(s: CgV, p: Val) -> CgV
{
    let s = s.emit(OpV::Run("zarrin.retain"@, Seq::empty().push(p)), ""@).0;
    s
}

/// The body of the function that adds an owner. A constant and a value on the frame
/// have a count that never moves.
pub closed spec fn make_retain(s: CgV) -> CgV
{
    let s = s.begin("zarrin.retain"@, Seq::empty().push(Ty::Ptr), false);
    let (s, bump) = s.block("retain"@);
    let (s, done) = s.block("retain_done"@);
    let (s, hdr) = header_of(s, Val::Param(0));
    let (s, n) = s.emit(OpV::Load(Ty::Word, hdr), "rc"@);
    let (s, immortal) = s.emit(OpV::Compare(Cond::Eq, n, Val::Word(IMMORTAL)), "immortal"@);
    let s = s.emit(OpV::Branch(immortal, done, bump), ""@).0;
    let s = s.position(bump);
    let (s, inc) = s.emit(OpV::Arith(Arith::Add, n, Val::Word(1)), "rc1"@);
    let s = s.emit(OpV::Store(hdr, inc), ""@).0;
    let s = s.emit(OpV::Jump(done), ""@).0;
    let s = s.position(done);
    let s = s.emit(OpV::Return(None), ""@).0;
    let s = s.finish();
    s
}

/// One fewer owner; at zero, let go of what it owns and free it.
pub closed spec fn gen_release(s: CgV, p: Val, ty: TypeV) -> CgV
{
    let s = s.want_release(ty);
    let s = s.emit(OpV::Run(release_name(ty), Seq::empty().push(p)), ""@).0;
    s
}

/// Emit code that prints a diagnostic and stops. The frame of it (path, line, the
/// quoted source line, the caret) is known when code is made.
pub closed spec fn gen_abort(s: CgV, message: Seq<char>, a: Val, b: Val) -> CgV
{
    let (s, fmt) = s.text(s.abort_text(message));
    let s = s.emit(OpV::Run("zarrin.abort"@, Seq::empty().push(fmt).push(a).push(b)), ""@).0;
    let s = s.emit(OpV::Unreachable, ""@).0;
    s
}

/// The body of the function that stops the program. What was printed so far is
/// sitting in a buffer; without the flush the error would come before it.
pub closed spec fn make_abort(s: CgV) -> CgV
{
    let s = s.begin("zarrin.abort"@, Seq::empty().push(Ty::Ptr).push(Ty::Word).push(Ty::Word), false);
    let (s, buf) = s.slot(Room::Bytes(4096), "abort_buf"@);
    let s = s.emit(OpV::CallHalf("fflush"@, Seq::empty().push(Val::Null)), ""@).0;
    let (s, n) = s.emit(OpV::CallHalf("snprintf"@, Seq::empty().push(buf).push(Val::Word(4096)).push(Val::Param(0)).push(Val::Param(1)).push(Val::Param(2))), "abort_len"@);
    let (s, n64) = s.emit(OpV::Cast(Cast::HalfToWord, n), "abort_len64"@);
    let (s, long) = s.emit(OpV::Compare(Cond::Ge, n64, Val::Word(4096)), "abort_long"@);
    let (s, m) = s.emit(OpV::Select(long, Val::Word(4095), n64), "abort_n"@);
    let s = s.emit(OpV::Call(Ty::Word, "write"@, Seq::empty().push(Val::Half(2)).push(buf).push(m)), ""@).0;
    let s = s.emit(OpV::Run("exit"@, Seq::empty().push(Val::Half(1))), ""@).0;
    let s = s.emit(OpV::Unreachable, ""@).0;
    let s = s.finish();
    s
}

/// The message for an index out of range: the marks are the index and the length.
pub open spec fn out_of_bounds(what: Seq<char>) -> Seq<char> {
    what + " index \u{1} is out of bounds for length \u{1}"@
}

/// Stop with the interpreter's message when an index is out of range.
pub closed spec fn gen_bounds_check(s: CgV, idx: Val, len: Val, what: Seq<char>) -> CgV
{
    let (s, neg) = s.emit(OpV::Compare(Cond::Lt, idx, Val::Word(0)), "neg_idx"@);
    let (s, past) = s.emit(OpV::Compare(Cond::Ge, idx, len), "past_end"@);
    let (s, bad) = s.emit(OpV::Arith(Arith::Or, neg, past), "out_of_range"@);
    let s = gen_abort_if(s, bad, out_of_bounds(what), idx, len);
    s
}

/// Stop with a message when a condition holds.
pub closed spec fn gen_abort_if(s: CgV, bad: Val, message: Seq<char>, a: Val, b: Val) -> CgV
{
    let (s, fail) = s.block("stop"@);
    let (s, ok) = s.block("go_on"@);
    let s = s.emit(OpV::Branch(bad, fail, ok), ""@).0;
    let s = s.position(fail);
    let s = gen_abort(s, message, a, b);
    let s = s.position(ok);
    s
}

/// Mark the stack, so frame allocations made while building a consumed value are released again.
pub closed spec fn stack_mark(s: CgV) -> (CgV, Val)
{
    let (s, mark) = s.emit(OpV::Call(Ty::Ptr, "llvm.stacksave.p0"@, Seq::empty()), "sp"@);
    (s, mark)
}

pub closed spec fn stack_release(s: CgV, mark: Val) -> CgV
{
    let s = s.emit(OpV::Run("llvm.stackrestore.p0"@, Seq::empty().push(mark)), ""@).0;
    s
}

/// Space for a value. Inside a consumed expression that is the frame; anywhere else
/// it is the heap, because the value may escape. Either way a count stands ahead of
/// it.
pub closed spec fn scratch_bytes(s: CgV, bytes: Val, name: Seq<char>) -> (CgV, Val)
{
    let (s, total) = s.emit(OpV::Arith(Arith::Add, bytes, Val::Word(HEADER)), "with_header"@);
    let (s, base) = if s.transient {
        let (s, b) = s.emit(OpV::Reserve(total), name);
        let s = s.emit(OpV::Store(b, Val::Word(IMMORTAL)), ""@).0;
        (s, b)
    } else {
        let (s, b) = s.emit(OpV::Call(Ty::Ptr, "malloc"@, Seq::empty().push(total)), name);
        let s = s.emit(OpV::Store(b, Val::Word(1)), ""@).0;
        (s, b)
    };
    let (s, body) = s.emit(OpV::Offset(Ty::Byte, base, Val::Word(HEADER)), name);
    (s, body)
}

/// Space for some words.
pub closed spec fn scratch_slots(s: CgV, slots: int, name: Seq<char>) -> (CgV, Val)
{
    let (s, bytes) = s.emit(OpV::Arith(Arith::Mul, Val::Word(slots as i64), Val::Word(8)), "slot_bytes"@);
    let (s, body) = scratch_bytes(s, bytes, name);
    (s, body)
}

/// A value as a word.
pub closed spec fn value_to_int(s: CgV, v: CgValue) -> (CgV, Val)
{
    let (s, x) = match v {
        CgValue::Int(a) => {
            (s, a)
        },
        CgValue::Float(a) => {
            let (s, r) = s.emit(OpV::Cast(Cast::RealToWord, a), "f2i"@);
            (s, r)
        },
        CgValue::Str(a) => {
            let (s, r) = s.emit(OpV::Cast(Cast::PtrToWord, a), "p2i"@);
            (s, r)
        },
    };
    (s, x)
}

/// A value as an address.
pub closed spec fn value_to_ptr(s: CgV, v: CgValue) -> (CgV, Val)
{
    let (s, x) = match v {
        CgValue::Str(a) => {
            (s, a)
        },
        _ => {
            let (s, raw) = value_to_int(s, v);
            let (s, r) = s.emit(OpV::Cast(Cast::WordToPtr, raw), "as_ptr"@);
            (s, r)
        },
    };
    (s, x)
}

/// Read a value as a double, whatever shape it arrived in.
pub closed spec fn as_float(s: CgV, v: CgValue) -> (CgV, Val)
{
    let (s, x) = match v {
        CgValue::Float(a) => {
            (s, a)
        },
        _ => {
            let (s, raw) = value_to_int(s, v);
            let (s, r) = s.emit(OpV::Cast(Cast::WordToReal, raw), "i2f"@);
            (s, r)
        },
    };
    (s, x)
}

/// Read a raw word back as the type it was stored as.
pub closed spec fn typed_value(s: CgV, raw: Val, ty: TypeV) -> (CgV, CgValue)
{
    let (s, x) = match ty {
        TypeV::Float => {
            let (s, f) = s.emit(OpV::Cast(Cast::WordToReal, raw), "as_f"@);
            (s, CgValue::Float(f))
        },
        TypeV::String => {
            let (s, p) = s.emit(OpV::Cast(Cast::WordToPtr, raw), "as_s"@);
            (s, CgValue::Str(p))
        },
        _ => {
            (s, CgValue::Int(raw))
        },
    };
    (s, x)
}

/// Put a merged word back into whatever shape the branches produced, or a string
/// comes out as the number its pointer happens to be.
pub closed spec fn reshape_like(s: CgV, merged: Val, sample: Option<CgValue>) -> (CgV, CgValue)
{
    let (s, x) = match sample {
        Some(CgValue::Str(_)) => {
            let (s, p) = s.emit(OpV::Cast(Cast::WordToPtr, merged), "merge_str"@);
            (s, CgValue::Str(p))
        },
        Some(CgValue::Float(_)) => {
            let (s, f) = s.emit(OpV::Cast(Cast::WordToReal, merged), "merge_f"@);
            (s, CgValue::Float(f))
        },
        _ => {
            (s, CgValue::Int(merged))
        },
    };
    (s, x)
}

/// A value as a condition.
pub closed spec fn to_i1(s: CgV, a: Val) -> (CgV, Val)
{
    let (s, x) = s.emit(OpV::Compare(Cond::Ne, a, Val::Word(0)), "to_bool"@);
    (s, x)
}

/// A condition as a value.
pub closed spec fn from_i1(s: CgV, c: Val) -> (CgV, CgValue)
{
    let (s, x) = s.emit(OpV::Cast(Cast::BoolToWord, c), "bool_ext"@);
    (s, CgValue::Int(x))
}

/// Two strings joined.
pub closed spec fn gen_string_concat(s: CgV, a: Val, b: Val) -> (CgV, Val)
{
    let (s, len_a) = s.emit(OpV::Call(Ty::Word, "strlen"@, Seq::empty().push(a)), "len_a"@);
    let (s, len_b) = s.emit(OpV::Call(Ty::Word, "strlen"@, Seq::empty().push(b)), "len_b"@);
    let (s, total) = s.emit(OpV::Arith(Arith::Add, len_a, len_b), "total_len"@);
    let (s, total1) = s.emit(OpV::Arith(Arith::Add, total, Val::Word(1)), "total1"@);
    let (s, buf) = scratch_bytes(s, total1, "buf"@);
    let s = s.emit(OpV::Run("memcpy"@, Seq::empty().push(buf).push(a).push(len_a)), ""@).0;
    let (s, offset) = s.emit(OpV::Offset(Ty::Byte, buf, len_a), "offset"@);
    let (s, nb1) = s.emit(OpV::Arith(Arith::Add, len_b, Val::Word(1)), "nb1"@);
    let s = s.emit(OpV::Run("memcpy"@, Seq::empty().push(offset).push(b).push(nb1)), ""@).0;
    (s, buf)
}

/// The decimal text of a number.
pub closed spec fn gen_int_to_str(s: CgV, val: Val) -> (CgV, Val)
{
    let (s, buf) = scratch_bytes(s, Val::Word(32), "int_buf"@);
    let (s, fmt) = s.text("%ld"@);
    let s = s.emit(OpV::CallHalf("snprintf"@, Seq::empty().push(buf).push(Val::Word(32)).push(fmt).push(val)), ""@).0;
    (s, buf)
}

/// Format a float into frame memory. The result is only valid until the next time, so
/// anything that keeps it must copy first.
pub closed spec fn gen_float_to_str(s: CgV, val: Val) -> (CgV, Val)
{
    let (s, buf) = s.slot(Room::Bytes(4200), "float_buf"@);
    let (s, bits) = s.emit(OpV::Cast(Cast::RealToWord, val), "float_bits"@);
    let s = s.emit(OpV::Run("zarrin.float"@, Seq::empty().push(buf).push(bits)), ""@).0;
    (s, buf)
}

/// The same text, in an allocation of exactly the size it needs, for the cases where
/// it escapes the expression that produced it.
pub closed spec fn gen_float_to_owned(s: CgV, val: Val) -> (CgV, Val)
{
    let (s, scratch) = gen_float_to_str(s, val);
    let (s, len) = s.emit(OpV::Call(Ty::Word, "strlen"@, Seq::empty().push(scratch)), "flen"@);
    let (s, size) = s.emit(OpV::Arith(Arith::Add, len, Val::Word(1)), "fsize"@);
    let (s, owned) = scratch_bytes(s, size, "float_owned"@);
    let s = s.emit(OpV::Run("memcpy"@, Seq::empty().push(owned).push(scratch).push(size)), ""@).0;
    (s, owned)
}

/// The body of the function that writes a float into a buffer of 4200 bytes the way
/// the interpreter prints it: the shortest decimal that reads back as the same
/// double, in plain notation, no exponent. The shortest form is found by asking for
/// one more decimal place until the result parses back to the original value. A whole
/// number needs a second pass: at zero decimals `%f` prints the double's exact binary
/// expansion, so its digits are replaced with the correctly rounded ones from `%e`
/// followed by zeros.
pub closed spec fn make_float(s: CgV) -> CgV
{
    let s = s.begin("zarrin.float"@, Seq::empty().push(Ty::Ptr).push(Ty::Word), false);
    let (s, ebuf) = s.slot(Room::Bytes(64), "float_ebuf"@);
    let (s, d_ptr) = s.slot(Room::Word, "fd"@);
    let (s, p_ptr) = s.slot(Room::Word, "fp"@);
    let (s, j_ptr) = s.slot(Room::Word, "j"@);
    let (s, k_ptr) = s.slot(Room::Word, "k"@);
    let (s, g_ptr) = s.slot(Room::Word, "got"@);
    let (s, fmt_f) = s.text("%.*f"@);
    let (s, fmt_g) = s.text("%.*g"@);
    let (s, fmt_e) = s.text("%.*e"@);
    let (s, fmt_s) = s.text("%s"@);
    let (s, nan_txt) = s.text("NaN"@);
    let (s, val) = s.emit(OpV::Cast(Cast::WordToReal, Val::Param(1)), "val"@);
    let (s, nan_bb) = s.block("float_nan"@);
    let (s, num_bb) = s.block("float_num"@);
    let (s, finish) = s.block("float_done"@);
    let (s, is_nan) = s.emit(OpV::FloatCompare(FloatCond::Unordered, val, val), "is_nan"@);
    let s = s.emit(OpV::Branch(is_nan, nan_bb, num_bb), ""@).0;
    let s = s.position(nan_bb);
    let s = s.emit(OpV::CallHalf("snprintf"@, Seq::empty().push(Val::Param(0)).push(Val::Word(4200)).push(fmt_s).push(nan_txt)), ""@).0;
    let s = s.emit(OpV::Jump(finish), ""@).0;
    let s = s.position(num_bb);
    let s = s.emit(OpV::Store(d_ptr, Val::Word(0)), ""@).0;
    let (s, d_head) = s.block("fd_head"@);
    let (s, d_next) = s.block("fd_next"@);
    let (s, d_done) = s.block("fd_done"@);
    let s = s.emit(OpV::Jump(d_head), ""@).0;
    let s = s.position(d_head);
    let (s, d) = s.emit(OpV::Load(Ty::Word, d_ptr), "d"@);
    let (s, d32) = s.emit(OpV::Cast(Cast::WordToHalf, d), "d32"@);
    let s = s.emit(OpV::CallHalf("snprintf"@, Seq::empty().push(Val::Param(0)).push(Val::Word(4200)).push(fmt_f).push(d32).push(val)), ""@).0;
    let (s, back) = s.emit(OpV::Call(Ty::Real, "strtod"@, Seq::empty().push(Val::Param(0)).push(Val::Null)), "back"@);
    let (s, exact) = s.emit(OpV::FloatCompare(FloatCond::Eq, back, val), "exact"@);
    let (s, capped) = s.emit(OpV::Compare(Cond::Ge, d, Val::Word(1100)), "capped"@);
    let (s, stop) = s.emit(OpV::Arith(Arith::Or, exact, capped), "stop"@);
    let s = s.emit(OpV::Branch(stop, d_done, d_next), ""@).0;
    let s = s.position(d_next);
    let (s, d1) = s.emit(OpV::Arith(Arith::Add, d, Val::Word(1)), "d1"@);
    let s = s.emit(OpV::Store(d_ptr, d1), ""@).0;
    let s = s.emit(OpV::Jump(d_head), ""@).0;
    let s = s.position(d_done);
    let (s, df) = s.emit(OpV::Load(Ty::Word, d_ptr), "d_final"@);
    let (s, whole) = s.emit(OpV::Compare(Cond::Eq, df, Val::Word(0)), "whole"@);
    let (s, inf) = s.number("inf"@);
    let (s, pinf) = s.emit(OpV::FloatCompare(FloatCond::Eq, val, inf), "pinf"@);
    let (s, minus) = s.emit(OpV::FloatNeg(val), "minus"@);
    let (s, ninf) = s.emit(OpV::FloatCompare(FloatCond::Eq, minus, inf), "ninf"@);
    let (s, infinite) = s.emit(OpV::Arith(Arith::Or, pinf, ninf), "infinite"@);
    let (s, finite) = s.emit(OpV::Not(infinite), "finite"@);
    let (s, rewrite) = s.emit(OpV::Arith(Arith::And, whole, finite), "rewrite"@);
    let (s, fixup) = s.block("float_fixup"@);
    let s = s.emit(OpV::Branch(rewrite, fixup, finish), ""@).0;
    let s = s.position(fixup);
    let (s, len) = s.emit(OpV::Call(Ty::Word, "strlen"@, Seq::empty().push(Val::Param(0))), "len"@);
    let (s, first) = s.emit(OpV::Load(Ty::Byte, Val::Param(0)), "first"@);
    let (s, is_neg) = s.emit(OpV::Compare(Cond::Eq, first, Val::Byte(45)), "is_neg"@);
    let (s, neg) = s.emit(OpV::Cast(Cast::BoolToWord, is_neg), "neg"@);
    let s = s.emit(OpV::Store(p_ptr, Val::Word(1)), ""@).0;
    let (s, p_head) = s.block("fp_head"@);
    let (s, p_next) = s.block("fp_next"@);
    let (s, p_done) = s.block("fp_done"@);
    let s = s.emit(OpV::Jump(p_head), ""@).0;
    let s = s.position(p_head);
    let (s, pv) = s.emit(OpV::Load(Ty::Word, p_ptr), "p"@);
    let (s, p32) = s.emit(OpV::Cast(Cast::WordToHalf, pv), "p32"@);
    let s = s.emit(OpV::CallHalf("snprintf"@, Seq::empty().push(ebuf).push(Val::Word(64)).push(fmt_g).push(p32).push(val)), ""@).0;
    let (s, back2) = s.emit(OpV::Call(Ty::Real, "strtod"@, Seq::empty().push(ebuf).push(Val::Null)), "back2"@);
    let (s, exact2) = s.emit(OpV::FloatCompare(FloatCond::Eq, back2, val), "exact2"@);
    let (s, capped2) = s.emit(OpV::Compare(Cond::Ge, pv, Val::Word(17)), "capped2"@);
    let (s, stop2) = s.emit(OpV::Arith(Arith::Or, exact2, capped2), "stop2"@);
    let s = s.emit(OpV::Branch(stop2, p_done, p_next), ""@).0;
    let s = s.position(p_next);
    let (s, p1) = s.emit(OpV::Arith(Arith::Add, pv, Val::Word(1)), "p1"@);
    let s = s.emit(OpV::Store(p_ptr, p1), ""@).0;
    let s = s.emit(OpV::Jump(p_head), ""@).0;
    let s = s.position(p_done);
    let (s, pf) = s.emit(OpV::Load(Ty::Word, p_ptr), "p_final"@);
    let (s, pm1) = s.emit(OpV::Arith(Arith::Sub, pf, Val::Word(1)), "pm1"@);
    let (s, pm1_32) = s.emit(OpV::Cast(Cast::WordToHalf, pm1), "pm1_32"@);
    let s = s.emit(OpV::CallHalf("snprintf"@, Seq::empty().push(ebuf).push(Val::Word(64)).push(fmt_e).push(pm1_32).push(val)), ""@).0;
    let s = s.emit(OpV::Store(j_ptr, neg), ""@).0;
    let s = s.emit(OpV::Store(k_ptr, neg), ""@).0;
    let s = s.emit(OpV::Store(g_ptr, Val::Word(0)), ""@).0;
    let (s, c_head) = s.block("copy_head"@);
    let (s, c_write) = s.block("copy_write"@);
    let (s, c_skip) = s.block("copy_skip"@);
    let (s, pad_head) = s.block("pad_head"@);
    let (s, pad_body) = s.block("pad_body"@);
    let (s, write_bb) = s.block("do_write"@);
    let s = s.emit(OpV::Jump(c_head), ""@).0;
    let s = s.position(c_head);
    let (s, got) = s.emit(OpV::Load(Ty::Word, g_ptr), "got_v"@);
    let (s, more) = s.emit(OpV::Compare(Cond::Lt, got, pf), "more"@);
    let s = s.emit(OpV::Branch(more, c_write, pad_head), ""@).0;
    let s = s.position(c_write);
    let (s, k) = s.emit(OpV::Load(Ty::Word, k_ptr), "k_v"@);
    let (s, src) = s.emit(OpV::Offset(Ty::Byte, ebuf, k), "src"@);
    let (s, ch) = s.emit(OpV::Load(Ty::Byte, src), "ch"@);
    let (s, is_dot) = s.emit(OpV::Compare(Cond::Eq, ch, Val::Byte(46)), "is_dot"@);
    let s = s.emit(OpV::Branch(is_dot, c_skip, write_bb), ""@).0;
    let s = s.position(write_bb);
    let (s, j) = s.emit(OpV::Load(Ty::Word, j_ptr), "j_v"@);
    let (s, dst) = s.emit(OpV::Offset(Ty::Byte, Val::Param(0), j), "dst"@);
    let s = s.emit(OpV::Store(dst, ch), ""@).0;
    let (s, j1) = s.emit(OpV::Arith(Arith::Add, j, Val::Word(1)), "j1"@);
    let s = s.emit(OpV::Store(j_ptr, j1), ""@).0;
    let (s, got1) = s.emit(OpV::Arith(Arith::Add, got, Val::Word(1)), "got1"@);
    let s = s.emit(OpV::Store(g_ptr, got1), ""@).0;
    let s = s.emit(OpV::Jump(c_skip), ""@).0;
    let s = s.position(c_skip);
    let (s, k2) = s.emit(OpV::Load(Ty::Word, k_ptr), "k2"@);
    let (s, k1) = s.emit(OpV::Arith(Arith::Add, k2, Val::Word(1)), "k1"@);
    let s = s.emit(OpV::Store(k_ptr, k1), ""@).0;
    let s = s.emit(OpV::Jump(c_head), ""@).0;
    let s = s.position(pad_head);
    let (s, jp) = s.emit(OpV::Load(Ty::Word, j_ptr), "jp"@);
    let (s, need) = s.emit(OpV::Compare(Cond::Lt, jp, len), "need"@);
    let s = s.emit(OpV::Branch(need, pad_body, finish), ""@).0;
    let s = s.position(pad_body);
    let (s, zdst) = s.emit(OpV::Offset(Ty::Byte, Val::Param(0), jp), "zdst"@);
    let s = s.emit(OpV::Store(zdst, Val::Byte(48)), ""@).0;
    let (s, jp1) = s.emit(OpV::Arith(Arith::Add, jp, Val::Word(1)), "jp1"@);
    let s = s.emit(OpV::Store(j_ptr, jp1), ""@).0;
    let s = s.emit(OpV::Jump(pad_head), ""@).0;
    let s = s.position(finish);
    let s = s.emit(OpV::Return(None), ""@).0;
    let s = s.finish();
    s
}

/// The body of the function that counts the characters of a string: the bytes that do
/// not go on with a character.
pub closed spec fn make_chars(s: CgV) -> CgV
{
    let s = s.begin("zarrin.chars"@, Seq::empty().push(Ty::Ptr), true);
    let (s, i_ptr) = s.slot(Room::Word, "i"@);
    let (s, n_ptr) = s.slot(Room::Word, "n"@);
    let s = s.emit(OpV::Store(i_ptr, Val::Word(0)), ""@).0;
    let s = s.emit(OpV::Store(n_ptr, Val::Word(0)), ""@).0;
    let (s, head) = s.block("chars"@);
    let (s, body) = s.block("char"@);
    let (s, done) = s.block("chars_done"@);
    let s = s.emit(OpV::Jump(head), ""@).0;
    let s = s.position(head);
    let (s, i) = s.emit(OpV::Load(Ty::Word, i_ptr), "iv"@);
    let (s, here) = s.emit(OpV::Offset(Ty::Byte, Val::Param(0), i), "here"@);
    let (s, c) = s.emit(OpV::Load(Ty::Byte, here), "c"@);
    let (s, end) = s.emit(OpV::Compare(Cond::Eq, c, Val::Byte(0)), "end"@);
    let s = s.emit(OpV::Branch(end, done, body), ""@).0;
    let s = s.position(body);
    let (s, first) = s.emit(OpV::Compare(Cond::Ge, c, Val::Byte(192)), "first"@);
    let (s, one) = s.emit(OpV::Cast(Cast::BoolToWord, first), "one"@);
    let (s, n) = s.emit(OpV::Load(Ty::Word, n_ptr), "nv"@);
    let (s, n1) = s.emit(OpV::Arith(Arith::Add, n, one), "n1"@);
    let s = s.emit(OpV::Store(n_ptr, n1), ""@).0;
    let (s, i1) = s.emit(OpV::Arith(Arith::Add, i, Val::Word(1)), "i1"@);
    let s = s.emit(OpV::Store(i_ptr, i1), ""@).0;
    let s = s.emit(OpV::Jump(head), ""@).0;
    let s = s.position(done);
    let (s, all) = s.emit(OpV::Load(Ty::Word, n_ptr), "all"@);
    let s = s.emit(OpV::Return(Some(all)), ""@).0;
    let s = s.finish();
    s
}

/// The body of the function that finds the byte at which a character of a string begins.
pub closed spec fn make_char_start(s: CgV) -> CgV
{
    let s = s.begin("zarrin.char_start"@, Seq::empty().push(Ty::Ptr).push(Ty::Word), true);
    let (s, i_ptr) = s.slot(Room::Word, "i"@);
    let (s, n_ptr) = s.slot(Room::Word, "n"@);
    let s = s.emit(OpV::Store(i_ptr, Val::Word(0)), ""@).0;
    let s = s.emit(OpV::Store(n_ptr, Val::Word(0)), ""@).0;
    let (s, head) = s.block("starts"@);
    let (s, body) = s.block("start"@);
    let (s, step) = s.block("start_next"@);
    let (s, done) = s.block("starts_done"@);
    let s = s.emit(OpV::Jump(head), ""@).0;
    let s = s.position(head);
    let (s, i) = s.emit(OpV::Load(Ty::Word, i_ptr), "iv"@);
    let (s, here) = s.emit(OpV::Offset(Ty::Byte, Val::Param(0), i), "here"@);
    let (s, c) = s.emit(OpV::Load(Ty::Byte, here), "c"@);
    let (s, end) = s.emit(OpV::Compare(Cond::Eq, c, Val::Byte(0)), "end"@);
    let s = s.emit(OpV::Branch(end, done, body), ""@).0;
    let s = s.position(body);
    let (s, first) = s.emit(OpV::Compare(Cond::Ge, c, Val::Byte(192)), "first"@);
    let (s, one) = s.emit(OpV::Cast(Cast::BoolToWord, first), "one"@);
    let (s, n) = s.emit(OpV::Load(Ty::Word, n_ptr), "nv"@);
    let (s, n1) = s.emit(OpV::Arith(Arith::Add, n, one), "n1"@);
    let s = s.emit(OpV::Store(n_ptr, n1), ""@).0;
    let (s, hit) = s.emit(OpV::Compare(Cond::Gt, n1, Val::Param(1)), "hit"@);
    let s = s.emit(OpV::Branch(hit, done, step), ""@).0;
    let s = s.position(step);
    let (s, i1) = s.emit(OpV::Arith(Arith::Add, i, Val::Word(1)), "i1"@);
    let s = s.emit(OpV::Store(i_ptr, i1), ""@).0;
    let s = s.emit(OpV::Jump(head), ""@).0;
    let s = s.position(done);
    let (s, found) = s.emit(OpV::Load(Ty::Word, i_ptr), "found"@);
    let s = s.emit(OpV::Return(Some(found)), ""@).0;
    let s = s.finish();
    s
}

/// More bytes of white space, where the string starts with this character.
pub closed spec fn add_blank(s: CgV, n: Val, c: Seq<char>, size: i64) -> (CgV, Val)
{
    let (s, w) = s.text(c);
    let (s, found) = s.emit(OpV::Call(Ty::Ptr, "strstr"@, Seq::empty().push(Val::Param(0)).push(w)), "found"@);
    let (s, hit) = s.emit(OpV::Compare(Cond::Eq, found, Val::Param(0)), "hit"@);
    let (s, part) = s.emit(OpV::Select(hit, Val::Word(size), Val::Word(0)), "part"@);
    let (s, x) = s.emit(OpV::Arith(Arith::Add, n, part), "n"@);
    (s, x)
}

/// The body of the function that tells how many bytes the white space takes that a
/// string starts with: none, or those of one character.
pub closed spec fn make_blank(s: CgV) -> CgV
{
    let s = s.begin("zarrin.blank"@, Seq::empty().push(Ty::Ptr), true);
    let (s, ws) = s.text(" \t\n\r\u{b}\u{c}"@);
    let (s, span) = s.emit(OpV::Call(Ty::Word, "strspn"@, Seq::empty().push(Val::Param(0)).push(ws)), "span"@);
    let (s, narrow) = s.emit(OpV::Compare(Cond::Ne, span, Val::Word(0)), "narrow"@);
    let (s, n0) = s.emit(OpV::Cast(Cast::BoolToWord, narrow), "n"@);
    let (s, n1) = add_blank(s, n0, "\u{85}"@, 2);
    let (s, n2) = add_blank(s, n1, "\u{a0}"@, 2);
    let (s, n3) = add_blank(s, n2, "\u{1680}"@, 3);
    let (s, n4) = add_blank(s, n3, "\u{2000}"@, 3);
    let (s, n5) = add_blank(s, n4, "\u{2001}"@, 3);
    let (s, n6) = add_blank(s, n5, "\u{2002}"@, 3);
    let (s, n7) = add_blank(s, n6, "\u{2003}"@, 3);
    let (s, n8) = add_blank(s, n7, "\u{2004}"@, 3);
    let (s, n9) = add_blank(s, n8, "\u{2005}"@, 3);
    let (s, n10) = add_blank(s, n9, "\u{2006}"@, 3);
    let (s, n11) = add_blank(s, n10, "\u{2007}"@, 3);
    let (s, n12) = add_blank(s, n11, "\u{2008}"@, 3);
    let (s, n13) = add_blank(s, n12, "\u{2009}"@, 3);
    let (s, n14) = add_blank(s, n13, "\u{200a}"@, 3);
    let (s, n15) = add_blank(s, n14, "\u{2028}"@, 3);
    let (s, n16) = add_blank(s, n15, "\u{2029}"@, 3);
    let (s, n17) = add_blank(s, n16, "\u{202f}"@, 3);
    let (s, n18) = add_blank(s, n17, "\u{205f}"@, 3);
    let (s, n19) = add_blank(s, n18, "\u{3000}"@, 3);
    let s = s.emit(OpV::Return(Some(n19)), ""@).0;
    let s = s.finish();
    s
}

/// The body of the function that tells how many bytes of white space a string starts
/// with.
pub closed spec fn make_skipped(s: CgV) -> CgV
{
    let s = s.begin("zarrin.skipped"@, Seq::empty().push(Ty::Ptr), true);
    let (s, n_ptr) = s.slot(Room::Word, "n"@);
    let s = s.emit(OpV::Store(n_ptr, Val::Word(0)), ""@).0;
    let (s, head) = s.block("starts"@);
    let (s, step) = s.block("start"@);
    let (s, done) = s.block("starts_done"@);
    let s = s.emit(OpV::Jump(head), ""@).0;
    let s = s.position(head);
    let (s, n) = s.emit(OpV::Load(Ty::Word, n_ptr), "nv"@);
    let (s, here) = s.emit(OpV::Offset(Ty::Byte, Val::Param(0), n), "here"@);
    let (s, size) = s.emit(OpV::Call(Ty::Word, "zarrin.blank"@, Seq::empty().push(here)), "size"@);
    let (s, blank) = s.emit(OpV::Compare(Cond::Ne, size, Val::Word(0)), "blank"@);
    let s = s.emit(OpV::Branch(blank, step, done), ""@).0;
    let s = s.position(step);
    let (s, n1) = s.emit(OpV::Arith(Arith::Add, n, size), "n1"@);
    let s = s.emit(OpV::Store(n_ptr, n1), ""@).0;
    let s = s.emit(OpV::Jump(head), ""@).0;
    let s = s.position(done);
    let (s, all) = s.emit(OpV::Load(Ty::Word, n_ptr), "all"@);
    let s = s.emit(OpV::Return(Some(all)), ""@).0;
    let s = s.finish();
    s
}

/// The body of the function that finds how long a string is without the white space at
/// its end.
pub closed spec fn make_trimmed(s: CgV) -> CgV
{
    let s = s.begin("zarrin.trimmed"@, Seq::empty().push(Ty::Ptr), true);
    let (s, i_ptr) = s.slot(Room::Word, "i"@);
    let (s, n_ptr) = s.slot(Room::Word, "n"@);
    let s = s.emit(OpV::Store(i_ptr, Val::Word(0)), ""@).0;
    let s = s.emit(OpV::Store(n_ptr, Val::Word(0)), ""@).0;
    let (s, head) = s.block("ends"@);
    let (s, skip) = s.block("skip"@);
    let (s, look) = s.block("look"@);
    let (s, step) = s.block("end_next"@);
    let (s, done) = s.block("ends_done"@);
    let s = s.emit(OpV::Jump(head), ""@).0;
    let s = s.position(head);
    let (s, i) = s.emit(OpV::Load(Ty::Word, i_ptr), "iv"@);
    let (s, here) = s.emit(OpV::Offset(Ty::Byte, Val::Param(0), i), "here"@);
    let (s, size) = s.emit(OpV::Call(Ty::Word, "zarrin.blank"@, Seq::empty().push(here)), "size"@);
    let (s, blank) = s.emit(OpV::Compare(Cond::Ne, size, Val::Word(0)), "blank"@);
    let s = s.emit(OpV::Branch(blank, skip, look), ""@).0;
    let s = s.position(skip);
    let (s, past) = s.emit(OpV::Arith(Arith::Add, i, size), "past"@);
    let s = s.emit(OpV::Store(i_ptr, past), ""@).0;
    let s = s.emit(OpV::Jump(head), ""@).0;
    let s = s.position(look);
    let (s, c) = s.emit(OpV::Load(Ty::Byte, here), "c"@);
    let (s, end) = s.emit(OpV::Compare(Cond::Eq, c, Val::Byte(0)), "end"@);
    let s = s.emit(OpV::Branch(end, done, step), ""@).0;
    let s = s.position(step);
    let (s, i1) = s.emit(OpV::Arith(Arith::Add, i, Val::Word(1)), "i1"@);
    let s = s.emit(OpV::Store(i_ptr, i1), ""@).0;
    let s = s.emit(OpV::Store(n_ptr, i1), ""@).0;
    let s = s.emit(OpV::Jump(head), ""@).0;
    let s = s.position(done);
    let (s, all) = s.emit(OpV::Load(Ty::Word, n_ptr), "all"@);
    let s = s.emit(OpV::Return(Some(all)), ""@).0;
    let s = s.finish();
    s
}

/// Some bytes of a string as a string of their own.
pub closed spec fn gen_slice(s: CgV, p: Val, len: Val) -> (CgV, Val)
{
    let (s, size) = s.emit(OpV::Arith(Arith::Add, len, Val::Word(1)), "slice_size"@);
    let (s, buf) = scratch_bytes(s, size, "slice_buf"@);
    let s = s.emit(OpV::Run("memcpy"@, Seq::empty().push(buf).push(p).push(len)), ""@).0;
    let (s, nul) = s.emit(OpV::Offset(Ty::Byte, buf, len), "null_ptr"@);
    let s = s.emit(OpV::Store(nul, Val::Byte(0)), ""@).0;
    (s, buf)
}

/// A part of a string that was split.
pub closed spec fn put_part(s: CgV, arr: Val, at: Val, part: Val) -> CgV
{
    let (s, word) = s.emit(OpV::Cast(Cast::PtrToWord, part), "part_word"@);
    let (s, place) = s.emit(OpV::Offset(Ty::Word, arr, at), "part_place"@);
    let s = s.emit(OpV::Store(place, word), ""@).0;
    s
}

/// A string as its single characters between two empty strings, and back to the
/// caller.
pub closed spec fn split_chars(s: CgV, idx_ptr: Val) -> CgV
{
    let (s, n) = s.emit(OpV::Call(Ty::Word, "zarrin.chars"@, Seq::empty().push(Val::Param(0))), "chars"@);
    let (s, total) = s.emit(OpV::Arith(Arith::Add, n, Val::Word(2)), "parts"@);
    let (s, slots) = s.emit(OpV::Arith(Arith::Add, total, Val::Word(1)), "slots"@);
    let (s, bytes) = s.emit(OpV::Arith(Arith::Mul, slots, Val::Word(8)), "bytes"@);
    let (s, arr) = scratch_bytes(s, bytes, "chars_buf"@);
    let s = s.emit(OpV::Store(arr, total), ""@).0;
    let (s, first) = gen_slice(s, Val::Param(0), Val::Word(0));
    let s = put_part(s, arr, Val::Word(1), first);
    let s = s.emit(OpV::Store(idx_ptr, Val::Word(0)), ""@).0;
    let (s, head) = s.block("chars_loop"@);
    let (s, body) = s.block("chars_body"@);
    let (s, done) = s.block("chars_done"@);
    let s = s.emit(OpV::Jump(head), ""@).0;
    let s = s.position(head);
    let (s, i) = s.emit(OpV::Load(Ty::Word, idx_ptr), "char_idx"@);
    let (s, more) = s.emit(OpV::Compare(Cond::Lt, i, n), "more"@);
    let s = s.emit(OpV::Branch(more, body, done), ""@).0;
    let s = s.position(body);
    let (s, i1) = s.emit(OpV::Arith(Arith::Add, i, Val::Word(1)), "i1"@);
    let (s, from) = s.emit(OpV::Call(Ty::Word, "zarrin.char_start"@, Seq::empty().push(Val::Param(0)).push(i)), "from"@);
    let (s, to) = s.emit(OpV::Call(Ty::Word, "zarrin.char_start"@, Seq::empty().push(Val::Param(0)).push(i1)), "to"@);
    let (s, len) = s.emit(OpV::Arith(Arith::Sub, to, from), "len"@);
    let (s, here) = s.emit(OpV::Offset(Ty::Byte, Val::Param(0), from), "here"@);
    let (s, part) = gen_slice(s, here, len);
    let (s, at) = s.emit(OpV::Arith(Arith::Add, i, Val::Word(2)), "at"@);
    let s = put_part(s, arr, at, part);
    let s = s.emit(OpV::Store(idx_ptr, i1), ""@).0;
    let s = s.emit(OpV::Jump(head), ""@).0;
    let s = s.position(done);
    let (s, last) = gen_slice(s, Val::Param(0), Val::Word(0));
    let s = put_part(s, arr, total, last);
    let (s, word) = s.emit(OpV::Cast(Cast::PtrToWord, arr), "chars_ret"@);
    let s = s.emit(OpV::Return(Some(word)), ""@).0;
    s
}

/// The body of the function that splits a string. It walks the string twice: once to
/// count the parts, once to copy them. Without a delimiter the parts are the single
/// characters.
pub closed spec fn make_split(s: CgV) -> CgV
{
    let s = s.begin("zarrin.split"@, Seq::empty().push(Ty::Ptr).push(Ty::Ptr), true);
    let (s, count) = s.slot(Room::Word, "split_count"@);
    let (s, cur_ptr) = s.slot(Room::Ptr, "split_cur"@);
    let (s, idx_ptr) = s.slot(Room::Word, "split_idx"@);
    let (s, dlen) = s.emit(OpV::Call(Ty::Word, "strlen"@, Seq::empty().push(Val::Param(1))), "delim_len"@);
    let (s, whole) = s.emit(OpV::Compare(Cond::Eq, dlen, Val::Word(0)), "no_delim"@);
    let (s, chars) = s.block("split_chars"@);
    let (s, parts) = s.block("split_parts"@);
    let s = s.emit(OpV::Branch(whole, chars, parts), ""@).0;
    let s = s.position(chars);
    let s = split_chars(s, idx_ptr);
    let s = s.position(parts);
    let s = s.emit(OpV::Store(count, Val::Word(1)), ""@).0;
    let s = s.emit(OpV::Store(cur_ptr, Val::Param(0)), ""@).0;
    let (s, head) = s.block("split_loop"@);
    let (s, body) = s.block("split_body"@);
    let (s, after) = s.block("split_after"@);
    let s = s.emit(OpV::Jump(head), ""@).0;
    let s = s.position(head);
    let (s, cur) = s.emit(OpV::Load(Ty::Ptr, cur_ptr), "cur_ptr"@);
    let (s, found) = s.emit(OpV::Call(Ty::Ptr, "strstr"@, Seq::empty().push(cur).push(Val::Param(1))), "found_ptr"@);
    let (s, none) = s.emit(OpV::Compare(Cond::Eq, found, Val::Null), "is_null"@);
    let s = s.emit(OpV::Branch(none, after, body), ""@).0;
    let s = s.position(body);
    let (s, cnt) = s.emit(OpV::Load(Ty::Word, count), "cnt"@);
    let (s, new_cnt) = s.emit(OpV::Arith(Arith::Add, cnt, Val::Word(1)), "new_cnt"@);
    let s = s.emit(OpV::Store(count, new_cnt), ""@).0;
    let (s, next) = s.emit(OpV::Offset(Ty::Byte, found, dlen), "next_pos"@);
    let s = s.emit(OpV::Store(cur_ptr, next), ""@).0;
    let s = s.emit(OpV::Jump(head), ""@).0;
    let s = s.position(after);
    let (s, total) = s.emit(OpV::Load(Ty::Word, count), "total_count"@);
    let (s, slots) = s.emit(OpV::Arith(Arith::Add, total, Val::Word(1)), "arr_size_tmp"@);
    let (s, bytes) = s.emit(OpV::Arith(Arith::Mul, slots, Val::Word(8)), "arr_bytes"@);
    let (s, arr) = scratch_bytes(s, bytes, "arr_buf"@);
    let s = s.emit(OpV::Store(arr, total), ""@).0;
    let s = s.emit(OpV::Store(idx_ptr, Val::Word(0)), ""@).0;
    let s = s.emit(OpV::Store(cur_ptr, Val::Param(0)), ""@).0;
    let (s, ehead) = s.block("split_extract_loop"@);
    let (s, ebody) = s.block("split_extract_body"@);
    let (s, edone) = s.block("split_extract_done"@);
    let s = s.emit(OpV::Jump(ehead), ""@).0;
    let s = s.position(ehead);
    let (s, eidx) = s.emit(OpV::Load(Ty::Word, idx_ptr), "eidx"@);
    let (s, ecmp) = s.emit(OpV::Compare(Cond::Lt, eidx, total), "ecmp"@);
    let s = s.emit(OpV::Branch(ecmp, ebody, edone), ""@).0;
    let s = s.position(ebody);
    let (s, ecur) = s.emit(OpV::Load(Ty::Ptr, cur_ptr), "ecur"@);
    let (s, efound) = s.emit(OpV::Call(Ty::Ptr, "strstr"@, Seq::empty().push(ecur).push(Val::Param(1))), "efound"@);
    let (s, enone) = s.emit(OpV::Compare(Cond::Eq, efound, Val::Null), "efound_is_null"@);
    let (s, rest) = s.emit(OpV::Call(Ty::Word, "strlen"@, Seq::empty().push(ecur)), "ecur_len"@);
    let (s, from) = s.emit(OpV::Cast(Cast::PtrToWord, ecur), "from"@);
    let (s, to) = s.emit(OpV::Cast(Cast::PtrToWord, efound), "to"@);
    let (s, upto) = s.emit(OpV::Arith(Arith::Sub, to, from), "upto"@);
    let (s, len) = s.emit(OpV::Select(enone, rest, upto), "part_len"@);
    let (s, part) = gen_slice(s, ecur, len);
    let (s, part_int) = s.emit(OpV::Cast(Cast::PtrToWord, part), "part_ptr_int"@);
    let (s, slot_idx) = s.emit(OpV::Arith(Arith::Add, eidx, Val::Word(1)), "arr_slot_idx"@);
    let (s, arr_slot) = s.emit(OpV::Offset(Ty::Word, arr, slot_idx), "arr_slot"@);
    let s = s.emit(OpV::Store(arr_slot, part_int), ""@).0;
    let (s, past) = s.emit(OpV::Arith(Arith::Add, len, dlen), "past"@);
    let (s, next_ecur) = s.emit(OpV::Offset(Ty::Byte, ecur, past), "next_ecur"@);
    let (s, kept) = s.emit(OpV::Select(enone, ecur, next_ecur), "kept"@);
    let s = s.emit(OpV::Store(cur_ptr, kept), ""@).0;
    let s = s.emit(OpV::Store(idx_ptr, slot_idx), ""@).0;
    let s = s.emit(OpV::Jump(ehead), ""@).0;
    let s = s.position(edone);
    let (s, word) = s.emit(OpV::Cast(Cast::PtrToWord, arr), "arr_ret"@);
    let s = s.emit(OpV::Return(Some(word)), ""@).0;
    let s = s.finish();
    s
}

/// The words for true and false.
pub closed spec fn gen_bool_to_str(s: CgV, v: Val) -> (CgV, Val)
{
    let (s, t) = s.string_global("true"@);
    let (s, f) = s.string_global("false"@);
    let (s, is_true) = s.emit(OpV::Compare(Cond::Ne, v, Val::Word(0)), "is_true"@);
    let (s, x) = s.emit(OpV::Select(is_true, t, f), "bool_txt"@);
    (s, x)
}

/// Write more text at the end of what a buffer holds, and count it. With no room at
/// all it is only counted.
pub closed spec fn append_text(s: CgV, buf: Val, cap: Val, len: Val, fmt: Val, a: Val, b: Val) -> CgV
{
    let (s, n) = s.emit(OpV::Load(Ty::Word, len), "n"@);
    let (s, here) = s.emit(OpV::Offset(Ty::Byte, buf, n), "at"@);
    let (s, room) = s.emit(OpV::Arith(Arith::Sub, cap, n), "room"@);
    let (s, none) = s.emit(OpV::Compare(Cond::Eq, cap, Val::Word(0)), "none"@);
    let (s, rest) = s.emit(OpV::Select(none, Val::Word(0), room), "rest"@);
    let (s, got) = s.emit(OpV::CallHalf("snprintf"@, Seq::empty().push(here).push(rest).push(fmt).push(a).push(b)), "got"@);
    let (s, got64) = s.emit(OpV::Cast(Cast::HalfToWord, got), "got64"@);
    let (s, more) = s.emit(OpV::Arith(Arith::Add, n, got64), "more"@);
    let s = s.emit(OpV::Store(len, more), ""@).0;
    s
}

/// The same for a text that is known.
pub closed spec fn append_known(s: CgV, len: Val, t: Seq<char>) -> CgV
{
    let (s, fmt) = s.text("%s"@);
    let (s, known) = s.text(t);
    let s = append_text(s, Val::Param(0), Val::Param(1), len, fmt, known, Val::Word(0));
    s
}

/// The text of a value of a type, at the end of what a buffer holds.
pub closed spec fn append_value(s: CgV, len: Val, word: Val, ty: TypeV) -> CgV
{
    let s = match ty {
        TypeV::Float => {
            let (s, f) = s.emit(OpV::Cast(Cast::WordToReal, word), "f"@);
            let (s, txt) = gen_float_to_str(s, f);
            let (s, fmt) = s.text("%s"@);
            let s = append_text(s, Val::Param(0), Val::Param(1), len, fmt, txt, Val::Word(0));
            s
        },
        TypeV::Bool => {
            let (s, txt) = gen_bool_to_str(s, word);
            let (s, fmt) = s.text("%s"@);
            let s = append_text(s, Val::Param(0), Val::Param(1), len, fmt, txt, Val::Word(0));
            s
        },
        TypeV::String => {
            let (s, txt) = s.emit(OpV::Cast(Cast::WordToPtr, word), "txt"@);
            let (s, fmt) = s.text("%s"@);
            let s = append_text(s, Val::Param(0), Val::Param(1), len, fmt, txt, Val::Word(0));
            s
        },
        TypeV::Unit => {
            let s = append_known(s, len, "()"@);
            s
        },
        TypeV::Range => {
            let (s, p) = s.emit(OpV::Cast(Cast::WordToPtr, word), "range"@);
            let (s, a) = s.emit(OpV::Load(Ty::Word, p), "from"@);
            let (s, q) = s.emit(OpV::Offset(Ty::Word, p, Val::Word(1)), "to_ptr"@);
            let (s, b) = s.emit(OpV::Load(Ty::Word, q), "to"@);
            let (s, fmt) = s.text("%ld..%ld"@);
            let s = append_text(s, Val::Param(0), Val::Param(1), len, fmt, a, b);
            s
        },
        TypeV::Array(_) => {
            let s = append_shown(s, len, word, ty);
            s
        },
        TypeV::Named(_, _) => {
            let s = append_shown(s, len, word, ty);
            s
        },
        _ => {
            let (s, fmt) = s.text("%ld"@);
            let s = append_text(s, Val::Param(0), Val::Param(1), len, fmt, word, Val::Word(0));
            s
        },
    };
    s
}

/// The text that the function of a type writes, at the end of what a buffer holds.
pub closed spec fn append_shown(s: CgV, len: Val, word: Val, ty: TypeV) -> CgV
{
    let (s, n) = s.emit(OpV::Load(Ty::Word, len), "n"@);
    let (s, here) = s.emit(OpV::Offset(Ty::Byte, Val::Param(0), n), "at"@);
    let (s, room) = s.emit(OpV::Arith(Arith::Sub, Val::Param(1), n), "room"@);
    let (s, none) = s.emit(OpV::Compare(Cond::Eq, Val::Param(1), Val::Word(0)), "none"@);
    let (s, rest) = s.emit(OpV::Select(none, Val::Word(0), room), "rest"@);
    let s = s.want_show(ty);
    let (s, got) = s.emit(OpV::Call(Ty::Word, show_name(ty), Seq::empty().push(here).push(rest).push(word)), "got"@);
    let (s, more) = s.emit(OpV::Arith(Arith::Add, n, got), "more"@);
    let s = s.emit(OpV::Store(len, more), ""@).0;
    s
}

/// The body of the function that writes the text of a value of a type into a buffer,
/// as far as there is room, and gives the length of all of it.
pub closed spec fn make_show(s: CgV, ty: TypeV) -> CgV
{
    let s = s.begin(show_name(ty), Seq::empty().push(Ty::Ptr).push(Ty::Word).push(Ty::Word), true);
    let (s, len) = s.slot(Room::Word, "len"@);
    let s = s.emit(OpV::Store(len, Val::Word(0)), ""@).0;
    let s = match ty {
        TypeV::Array(el) => {
            let s = show_array(s, len, *el);
            s
        },
        TypeV::Named(n, _) => {
            let s = match fields_of(s.types, n) {
                Some(fields) => {
                    let s = append_known(s, len, n + " { "@);
                    let s = show_fields(s, len, fields, 0);
                    let s = append_known(s, len, " }"@);
                    s
                },
                None => {
                    let s = gen_enum_to_str(s, len, ty, variants_in(s.types, n));
                    s
                },
            };
            s
        },
        _ => {
            let s = append_value(s, len, Val::Param(2), ty);
            s
        },
    };
    let (s, n) = s.emit(OpV::Load(Ty::Word, len), "n"@);
    let s = s.emit(OpV::Return(Some(n)), ""@).0;
    let s = s.finish();
    s
}

pub closed spec fn show_array(s: CgV, len: Val, el: TypeV) -> CgV
{
    let (s, i_ptr) = s.slot(Room::Word, "i"@);
    let s = append_known(s, len, "["@);
    let (s, arr) = s.emit(OpV::Cast(Cast::WordToPtr, Val::Param(2)), "arr"@);
    let (s, count) = s.emit(OpV::Load(Ty::Word, arr), "count"@);
    let s = s.emit(OpV::Store(i_ptr, Val::Word(1)), ""@).0;
    let (s, head) = s.block("elems"@);
    let (s, body) = s.block("elem"@);
    let (s, sep) = s.block("elem_sep"@);
    let (s, one) = s.block("elem_one"@);
    let (s, out) = s.block("elems_done"@);
    let s = s.emit(OpV::Jump(head), ""@).0;
    let s = s.position(head);
    let (s, i) = s.emit(OpV::Load(Ty::Word, i_ptr), "iv"@);
    let (s, more) = s.emit(OpV::Compare(Cond::Le, i, count), "more"@);
    let s = s.emit(OpV::Branch(more, body, out), ""@).0;
    let s = s.position(body);
    let (s, first) = s.emit(OpV::Compare(Cond::Eq, i, Val::Word(1)), "first"@);
    let s = s.emit(OpV::Branch(first, one, sep), ""@).0;
    let s = s.position(sep);
    let s = append_known(s, len, ", "@);
    let s = s.emit(OpV::Jump(one), ""@).0;
    let s = s.position(one);
    let (s, place) = s.emit(OpV::Offset(Ty::Word, arr, i), "slot"@);
    let (s, raw) = s.emit(OpV::Load(Ty::Word, place), "elem"@);
    let s = append_value(s, len, raw, el);
    let (s, next) = s.emit(OpV::Arith(Arith::Add, i, Val::Word(1)), "i1"@);
    let s = s.emit(OpV::Store(i_ptr, next), ""@).0;
    let s = s.emit(OpV::Jump(head), ""@).0;
    let s = s.position(out);
    let s = append_known(s, len, "]"@);
    s
}

pub closed spec fn show_fields(s: CgV, len: Val, fields: Seq<(Seq<char>, TypeV)>, i: int) -> CgV
    decreases fields.len() - i,
{
    let s = if i < fields.len() {
        let s = append_known(s, len, field_lead_text(i, fields[i].0));
        let (s, obj) = s.emit(OpV::Cast(Cast::WordToPtr, Val::Param(2)), "obj"@);
        let (s, place) = s.emit(OpV::Offset(Ty::Word, obj, Val::Word(i as i64)), "field"@);
        let (s, raw) = s.emit(OpV::Load(Ty::Word, place), "fieldv"@);
        let s = append_value(s, len, raw, fields[i].1);
        let s = show_fields(s, len, fields, i + 1);
        s
    } else {
        s
    };
    s
}

/// Render an enum value the way the interpreter does: the variant name, and for a
/// variant with a payload, its fields in parentheses.
pub closed spec fn gen_enum_to_str(s: CgV, len: Val, ty: TypeV, vs: Seq<VariantV>) -> CgV
{
    let (s, done) = s.block("enum_str_done"@);
    let (s, tag) = if has_body(vs) {
        let (s, p) = s.emit(OpV::Cast(Cast::WordToPtr, Val::Param(2)), "enum_p"@);
        let (s, t) = s.emit(OpV::Load(Ty::Word, p), "enum_tag"@);
        (s, t)
    } else {
        (s, Val::Param(2))
    };
    let s = show_variants(s, len, ty, vs, tag, done, 0);
    let (s, fmt) = s.text("%ld"@);
    let s = append_text(s, Val::Param(0), Val::Param(1), len, fmt, tag, Val::Word(0));
    let s = s.emit(OpV::Jump(done), ""@).0;
    let s = s.position(done);
    s
}

pub closed spec fn show_variants(s: CgV, len: Val, ty: TypeV, vs: Seq<VariantV>, tag: Val, done: usize, i: int) -> CgV
    decreases vs.len() - i,
{
    let s = if i < vs.len() {
        let (s, case) = s.block("enum_is"@);
        let (s, next) = s.block("enum_not"@);
        let (s, hit) = s.emit(OpV::Compare(Cond::Eq, tag, tag_val(vs[i])), "is_variant"@);
        let s = s.emit(OpV::Branch(hit, case, next), ""@).0;
        let s = s.position(case);
        let s = append_known(s, len, vs[i].name);
        let s = if payload_types(vs[i], ty).len() > 0 {
            let s = append_known(s, len, "("@);
            let s = show_payload(s, len, payload_types(vs[i], ty), 0);
            let s = append_known(s, len, ")"@);
            s
        } else {
            s
        };
        let s = s.emit(OpV::Jump(done), ""@).0;
        let s = s.position(next);
        let s = show_variants(s, len, ty, vs, tag, done, i + 1);
        s
    } else {
        s
    };
    s
}

pub closed spec fn show_payload(s: CgV, len: Val, payload: Seq<TypeV>, i: int) -> CgV
    decreases payload.len() - i,
{
    let s = if i < payload.len() {
        let s = if i > 0 {
            let s = append_known(s, len, ", "@);
            s
        } else {
            s
        };
        let (s, p) = s.emit(OpV::Cast(Cast::WordToPtr, Val::Param(2)), "enum_p"@);
        let (s, place) = s.emit(OpV::Offset(Ty::Word, p, Val::Word((i + 1) as i64)), "payload"@);
        let (s, raw) = s.emit(OpV::Load(Ty::Word, place), "payload_v"@);
        let s = append_value(s, len, raw, payload[i]);
        let s = show_payload(s, len, payload, i + 1);
        s
    } else {
        s
    };
    s
}

/// The body of the function that takes an owner from a value of a type. Constants are
/// told before the count is touched.
pub closed spec fn make_release(s: CgV, ty: TypeV) -> CgV
{
    let s = s.begin(release_name(ty), Seq::empty().push(Ty::Ptr), false);
    let (s, drop_bb) = s.block("drop"@);
    let (s, done) = s.block("done"@);
    let (s, mortal) = s.block("mortal"@);
    let (s, hdr) = header_of(s, Val::Param(0));
    let (s, n) = s.emit(OpV::Load(Ty::Word, hdr), "rc"@);
    let (s, immortal) = s.emit(OpV::Compare(Cond::Eq, n, Val::Word(IMMORTAL)), "immortal"@);
    let s = s.emit(OpV::Branch(immortal, done, mortal), ""@).0;
    let s = s.position(mortal);
    let (s, dec) = s.emit(OpV::Arith(Arith::Sub, n, Val::Word(1)), "rc1"@);
    let s = s.emit(OpV::Store(hdr, dec), ""@).0;
    let (s, last) = s.emit(OpV::Compare(Cond::Le, dec, Val::Word(0)), "last"@);
    let s = s.emit(OpV::Branch(last, drop_bb, done), ""@).0;
    let s = s.position(drop_bb);
    let s = gen_release_children(s, ty);
    let s = s.emit(OpV::Run("free"@, Seq::empty().push(hdr)), ""@).0;
    let s = s.emit(OpV::Jump(done), ""@).0;
    let s = s.position(done);
    let s = s.emit(OpV::Return(None), ""@).0;
    let s = s.finish();
    s
}

/// Release a word of a value that is being let go of, if it owns anything.
pub closed spec fn release_word(s: CgV, place: Val, ty: TypeV) -> CgV
{
    let s = if managed(s.types, ty) {
        let (s, raw) = s.emit(OpV::Load(Ty::Word, place), "held"@);
        let (s, p) = s.emit(OpV::Cast(Cast::WordToPtr, raw), "heldp"@);
        let s = gen_release(s, p, ty);
        s
    } else {
        s
    };
    s
}

/// Release whatever a value of this type holds on to.
pub closed spec fn gen_release_children(s: CgV, ty: TypeV) -> CgV
{
    let s = match ty {
        TypeV::Array(el) => {
            let s = if managed(s.types, *el) {
                let s = release_elements(s, *el);
                s
            } else {
                s
            };
            s
        },
        TypeV::Named(n, _) => {
            let s = match fields_of(s.types, n) {
                Some(fields) => {
                    let s = release_fields(s, fields, 0);
                    s
                },
                None => {
                    let (s, after) = s.block("variant_done"@);
                    let (s, tag) = s.emit(OpV::Load(Ty::Word, Val::Param(0)), "tag"@);
                    let s = release_variants(s, ty, variants_in(s.types, n), tag, after, 0);
                    let s = s.emit(OpV::Jump(after), ""@).0;
                    let s = s.position(after);
                    s
                },
            };
            s
        },
        _ => {
            s
        },
    };
    s
}

pub closed spec fn release_elements(s: CgV, el: TypeV) -> CgV
{
    let (s, head) = s.block("elems"@);
    let (s, body) = s.block("elem"@);
    let (s, out) = s.block("elems_done"@);
    let (s, len) = s.emit(OpV::Load(Ty::Word, Val::Param(0)), "len"@);
    let (s, i_ptr) = s.slot(Room::Word, "i"@);
    let s = s.emit(OpV::Store(i_ptr, Val::Word(1)), ""@).0;
    let s = s.emit(OpV::Jump(head), ""@).0;
    let s = s.position(head);
    let (s, i) = s.emit(OpV::Load(Ty::Word, i_ptr), "iv"@);
    let (s, more) = s.emit(OpV::Compare(Cond::Le, i, len), "more"@);
    let s = s.emit(OpV::Branch(more, body, out), ""@).0;
    let s = s.position(body);
    let (s, place) = s.emit(OpV::Offset(Ty::Word, Val::Param(0), i), "slot"@);
    let s = release_word(s, place, el);
    let (s, next) = s.emit(OpV::Arith(Arith::Add, i, Val::Word(1)), "i1"@);
    let s = s.emit(OpV::Store(i_ptr, next), ""@).0;
    let s = s.emit(OpV::Jump(head), ""@).0;
    let s = s.position(out);
    s
}

pub closed spec fn release_fields(s: CgV, fields: Seq<(Seq<char>, TypeV)>, i: int) -> CgV
    decreases fields.len() - i,
{
    let s = if i < fields.len() {
        let (s, place) = s.emit(OpV::Offset(Ty::Word, Val::Param(0), Val::Word(i as i64)), "field"@);
        let s = release_word(s, place, fields[i].1);
        let s = release_fields(s, fields, i + 1);
        s
    } else {
        s
    };
    s
}

/// Only the live variant's payload is owned, so switch on the tag.
pub closed spec fn release_variants(s: CgV, ty: TypeV, vs: Seq<VariantV>, tag: Val, after: usize, i: int) -> CgV
    decreases vs.len() - i,
{
    let s = if i < vs.len() {
        let (s, hit) = s.block("drop_variant"@);
        let (s, miss) = s.block("not_variant"@);
        let (s, is_v) = s.emit(OpV::Compare(Cond::Eq, tag, tag_val(vs[i])), "is_v"@);
        let s = s.emit(OpV::Branch(is_v, hit, miss), ""@).0;
        let s = s.position(hit);
        let s = release_payload(s, payload_types(vs[i], ty), 0);
        let s = s.emit(OpV::Jump(after), ""@).0;
        let s = s.position(miss);
        let s = release_variants(s, ty, vs, tag, after, i + 1);
        s
    } else {
        s
    };
    s
}

pub closed spec fn release_payload(s: CgV, payload: Seq<TypeV>, i: int) -> CgV
    decreases payload.len() - i,
{
    let s = if i < payload.len() {
        let (s, place) = s.emit(OpV::Offset(Ty::Word, Val::Param(0), Val::Word((i + 1) as i64)), "payload"@);
        let s = release_word(s, place, payload[i]);
        let s = release_payload(s, payload, i + 1);
        s
    } else {
        s
    };
    s
}

impl Codegen {
    /// Does a value of this type live behind a counted pointer?
    pub(crate) fn is_managed(&self, ty: &Type) -> (r: bool)
        ensures
            r == managed(self@.types, ty@),
    {
        match ty {
            Type::String => true,
            Type::Array(_) => true,
            Type::Range => true,
            Type::Named(n, _) => {
                self.types().struct_fields(n.as_str()).is_some() || has_body_of(
                    &self.types().variants_of(n.as_str()),
                )
            },
            _ => false,
        }
    }

    /// The count ahead of a heap value.
    pub(crate) fn header_of(&mut self, p: Val) -> (r: Val)
        requires
            old(self).wf(),
        ensures
            final(self).wf(),
            stays_in(old(self)@, final(self)@),
            (final(self)@, r) == header_of(old(self)@, p),
    {
        let hdr = self.emit(Op::Offset(Ty::Byte, p, Val::Word(BACK)), "hdr");
        hdr
    }

    /// One more owner.
    pub(crate) fn gen_retain(&mut self, p: Val)
        requires
            old(self).wf(),
        ensures
            final(self).wf(),
            stays_in(old(self)@, final(self)@),
            final(self)@ == gen_retain(old(self)@, p),
    {
        let _ = self.emit(Op::Run("zarrin.retain".to_owned(), vals1(p)), "");
    }

    /// The body of the function that adds an owner. A constant and a value on the
    /// frame have a count that never moves.
    pub(crate) fn make_retain(&mut self)
        requires
            old(self).wf(),
        ensures
            final(self).wf(),
            grows(old(self)@, final(self)@),
            final(self)@ == make_retain(old(self)@),
    {
        self.begin("zarrin.retain", tys1(Ty::Ptr), false);
        let bump = self.block("retain");
        let done = self.block("retain_done");
        let hdr = self.header_of(Val::Param(0));
        let n = self.emit(Op::Load(Ty::Word, hdr), "rc");
        let immortal = self.emit(Op::Compare(Cond::Eq, n, Val::Word(IMMORTAL)), "immortal");
        let _ = self.emit(Op::Branch(immortal, done, bump), "");
        self.position(bump);
        let inc = self.emit(Op::Arith(Arith::Add, n, Val::Word(1)), "rc1");
        let _ = self.emit(Op::Store(hdr, inc), "");
        let _ = self.emit(Op::Jump(done), "");
        self.position(done);
        let _ = self.emit(Op::Return(None), "");
        self.finish();
    }

    /// One fewer owner; at zero, let go of what it owns and free it.
    pub(crate) fn gen_release(&mut self, p: Val, ty: &Type)
        requires
            old(self).wf(),
        ensures
            final(self).wf(),
            stays_in(old(self)@, final(self)@),
            final(self)@ == gen_release(old(self)@, p, ty@),
    {
        self.want_release(ty);
        let _ = self.emit(Op::Run(release_fn(ty), vals1(p)), "");
    }

    /// Emit code that prints a diagnostic and stops. The frame of it (path, line, the
    /// quoted source line, the caret) is known when code is made.
    pub(crate) fn gen_abort(&mut self, message: &str, a: Val, b: Val)
        requires
            old(self).wf(),
        ensures
            final(self).wf(),
            stays_in(old(self)@, final(self)@),
            final(self)@ == gen_abort(old(self)@, message@, a, b),
    {
        let told = self.abort_text(message);
        let fmt = self.text(told.as_str());
        let _ = self.emit(Op::Run("zarrin.abort".to_owned(), vals3(fmt, a, b)), "");
        let _ = self.emit(Op::Unreachable, "");
    }

    /// The body of the function that stops the program. What was printed so far is
    /// sitting in a buffer; without the flush the error would come before it.
    pub(crate) fn make_abort(&mut self)
        requires
            old(self).wf(),
        ensures
            final(self).wf(),
            grows(old(self)@, final(self)@),
            final(self)@ == make_abort(old(self)@),
    {
        self.begin("zarrin.abort", tys3(Ty::Ptr, Ty::Word, Ty::Word), false);
        let buf = self.slot(Room::Bytes(4096), "abort_buf");
        let _ = self.emit(Op::CallHalf("fflush".to_owned(), vals1(Val::Null)), "");
        let n = self.emit(Op::CallHalf("snprintf".to_owned(), vals5(buf, Val::Word(4096), Val::Param(0), Val::Param(1), Val::Param(2))), "abort_len");
        let n64 = self.emit(Op::Cast(Cast::HalfToWord, n), "abort_len64");
        let long = self.emit(Op::Compare(Cond::Ge, n64, Val::Word(4096)), "abort_long");
        let m = self.emit(Op::Select(long, Val::Word(4095), n64), "abort_n");
        let _ = self.emit(Op::Call(Ty::Word, "write".to_owned(), vals3(Val::Half(2), buf, m)), "");
        let _ = self.emit(Op::Run("exit".to_owned(), vals1(Val::Half(1))), "");
        let _ = self.emit(Op::Unreachable, "");
        self.finish();
    }

    /// Stop with the interpreter's message when an index is out of range.
    pub(crate) fn gen_bounds_check(&mut self, idx: Val, len: Val, what: &str)
        requires
            old(self).wf(),
        ensures
            final(self).wf(),
            stays_in(old(self)@, final(self)@),
            final(self)@ == gen_bounds_check(old(self)@, idx, len, what@),
    {
        let neg = self.emit(Op::Compare(Cond::Lt, idx, Val::Word(0)), "neg_idx");
        let past = self.emit(Op::Compare(Cond::Ge, idx, len), "past_end");
        let bad = self.emit(Op::Arith(Arith::Or, neg, past), "out_of_range");
        let message = cat2(what, " index \u{1} is out of bounds for length \u{1}");
        self.gen_abort_if(bad, message.as_str(), idx, len);
    }

    /// Stop with a message when a condition holds.
    pub(crate) fn gen_abort_if(&mut self, bad: Val, message: &str, a: Val, b: Val)
        requires
            old(self).wf(),
        ensures
            final(self).wf(),
            stays_in(old(self)@, final(self)@),
            final(self)@ == gen_abort_if(old(self)@, bad, message@, a, b),
    {
        let fail = self.block("stop");
        let ok = self.block("go_on");
        let _ = self.emit(Op::Branch(bad, fail, ok), "");
        self.position(fail);
        self.gen_abort(message, a, b);
        self.position(ok);
    }

    /// Mark the stack, so frame allocations made while building a consumed value are
    /// released again.
    pub(crate) fn stack_mark(&mut self) -> (r: Val)
        requires
            old(self).wf(),
        ensures
            final(self).wf(),
            stays_in(old(self)@, final(self)@),
            (final(self)@, r) == stack_mark(old(self)@),
    {
        let mark = self.emit(Op::Call(Ty::Ptr, "llvm.stacksave.p0".to_owned(), vals0()), "sp");
        mark
    }

    pub(crate) fn stack_release(&mut self, mark: Val)
        requires
            old(self).wf(),
        ensures
            final(self).wf(),
            stays_in(old(self)@, final(self)@),
            final(self)@ == stack_release(old(self)@, mark),
    {
        let _ = self.emit(Op::Run("llvm.stackrestore.p0".to_owned(), vals1(mark)), "");
    }

    /// Space for a value. Inside a consumed expression that is the frame; anywhere
    /// else it is the heap, because the value may escape. Either way a count stands
    /// ahead of it.
    pub(crate) fn scratch_bytes(&mut self, bytes: Val, name: &str) -> (r: Val)
        requires
            old(self).wf(),
        ensures
            final(self).wf(),
            stays_in(old(self)@, final(self)@),
            (final(self)@, r) == scratch_bytes(old(self)@, bytes, name@),
    {
        let total = self.emit(Op::Arith(Arith::Add, bytes, Val::Word(HEADER)), "with_header");
        let base = if self.is_transient() {
            let b = self.emit(Op::Reserve(total), name);
            let _ = self.emit(Op::Store(b, Val::Word(IMMORTAL)), "");
            b
        } else {
            let b = self.emit(Op::Call(Ty::Ptr, "malloc".to_owned(), vals1(total)), name);
            let _ = self.emit(Op::Store(b, Val::Word(1)), "");
            b
        };
        let body = self.emit(Op::Offset(Ty::Byte, base, Val::Word(HEADER)), name);
        body
    }

    /// Space for some words.
    pub(crate) fn scratch_slots(&mut self, slots: usize, name: &str) -> (r: Val)
        requires
            old(self).wf(),
        ensures
            final(self).wf(),
            stays_in(old(self)@, final(self)@),
            (final(self)@, r) == scratch_slots(old(self)@, slots as int, name@),
    {
        let bytes = self.emit(Op::Arith(Arith::Mul, Val::Word(slots as i64), Val::Word(8)), "slot_bytes");
        let body = self.scratch_bytes(bytes, name);
        body
    }

    /// A value as a word.
    pub(crate) fn value_to_int(&mut self, v: CgValue) -> (r: Val)
        requires
            old(self).wf(),
        ensures
            final(self).wf(),
            stays_in(old(self)@, final(self)@),
            (final(self)@, r) == value_to_int(old(self)@, v),
    {
        let x = match v {
            CgValue::Int(a) => {
                a
            },
            CgValue::Float(a) => {
                let r = self.emit(Op::Cast(Cast::RealToWord, a), "f2i");
                r
            },
            CgValue::Str(a) => {
                let r = self.emit(Op::Cast(Cast::PtrToWord, a), "p2i");
                r
            },
        };
        x
    }

    /// A value as an address.
    pub(crate) fn value_to_ptr(&mut self, v: CgValue) -> (r: Val)
        requires
            old(self).wf(),
        ensures
            final(self).wf(),
            stays_in(old(self)@, final(self)@),
            (final(self)@, r) == value_to_ptr(old(self)@, v),
    {
        let x = match v {
            CgValue::Str(a) => {
                a
            },
            _ => {
                let raw = self.value_to_int(v);
                let r = self.emit(Op::Cast(Cast::WordToPtr, raw), "as_ptr");
                r
            },
        };
        x
    }

    /// Read a value as a double, whatever shape it arrived in.
    pub(crate) fn as_float(&mut self, v: CgValue) -> (r: Val)
        requires
            old(self).wf(),
        ensures
            final(self).wf(),
            stays_in(old(self)@, final(self)@),
            (final(self)@, r) == as_float(old(self)@, v),
    {
        let x = match v {
            CgValue::Float(a) => {
                a
            },
            _ => {
                let raw = self.value_to_int(v);
                let r = self.emit(Op::Cast(Cast::WordToReal, raw), "i2f");
                r
            },
        };
        x
    }

    /// Read a raw word back as the type it was stored as.
    pub(crate) fn typed_value(&mut self, raw: Val, ty: &Type) -> (r: CgValue)
        requires
            old(self).wf(),
        ensures
            final(self).wf(),
            stays_in(old(self)@, final(self)@),
            (final(self)@, r) == typed_value(old(self)@, raw, ty@),
    {
        let x = match ty {
            Type::Float => {
                let f = self.emit(Op::Cast(Cast::WordToReal, raw), "as_f");
                CgValue::Float(f)
            },
            Type::String => {
                let p = self.emit(Op::Cast(Cast::WordToPtr, raw), "as_s");
                CgValue::Str(p)
            },
            _ => {
                CgValue::Int(raw)
            },
        };
        x
    }

    /// Put a merged word back into whatever shape the branches produced, or a string
    /// comes out as the number its pointer happens to be.
    pub(crate) fn reshape_like(&mut self, merged: Val, sample: Option<CgValue>) -> (r: CgValue)
        requires
            old(self).wf(),
        ensures
            final(self).wf(),
            stays_in(old(self)@, final(self)@),
            (final(self)@, r) == reshape_like(old(self)@, merged, sample),
    {
        let x = match sample {
            Some(CgValue::Str(_)) => {
                let p = self.emit(Op::Cast(Cast::WordToPtr, merged), "merge_str");
                CgValue::Str(p)
            },
            Some(CgValue::Float(_)) => {
                let f = self.emit(Op::Cast(Cast::WordToReal, merged), "merge_f");
                CgValue::Float(f)
            },
            _ => {
                CgValue::Int(merged)
            },
        };
        x
    }

    /// A value as a condition.
    pub(crate) fn to_i1(&mut self, a: Val) -> (r: Val)
        requires
            old(self).wf(),
        ensures
            final(self).wf(),
            stays_in(old(self)@, final(self)@),
            (final(self)@, r) == to_i1(old(self)@, a),
    {
        let x = self.emit(Op::Compare(Cond::Ne, a, Val::Word(0)), "to_bool");
        x
    }

    /// A condition as a value.
    pub(crate) fn from_i1(&mut self, c: Val) -> (r: CgValue)
        requires
            old(self).wf(),
        ensures
            final(self).wf(),
            stays_in(old(self)@, final(self)@),
            (final(self)@, r) == from_i1(old(self)@, c),
    {
        let x = self.emit(Op::Cast(Cast::BoolToWord, c), "bool_ext");
        CgValue::Int(x)
    }

    /// Two strings joined.
    pub(crate) fn gen_string_concat(&mut self, a: Val, b: Val) -> (r: Val)
        requires
            old(self).wf(),
        ensures
            final(self).wf(),
            stays_in(old(self)@, final(self)@),
            (final(self)@, r) == gen_string_concat(old(self)@, a, b),
    {
        let len_a = self.emit(Op::Call(Ty::Word, "strlen".to_owned(), vals1(a)), "len_a");
        let len_b = self.emit(Op::Call(Ty::Word, "strlen".to_owned(), vals1(b)), "len_b");
        let total = self.emit(Op::Arith(Arith::Add, len_a, len_b), "total_len");
        let total1 = self.emit(Op::Arith(Arith::Add, total, Val::Word(1)), "total1");
        let buf = self.scratch_bytes(total1, "buf");
        let _ = self.emit(Op::Run("memcpy".to_owned(), vals3(buf, a, len_a)), "");
        let offset = self.emit(Op::Offset(Ty::Byte, buf, len_a), "offset");
        let nb1 = self.emit(Op::Arith(Arith::Add, len_b, Val::Word(1)), "nb1");
        let _ = self.emit(Op::Run("memcpy".to_owned(), vals3(offset, b, nb1)), "");
        buf
    }

    /// The decimal text of a number.
    pub(crate) fn gen_int_to_str(&mut self, val: Val) -> (r: Val)
        requires
            old(self).wf(),
        ensures
            final(self).wf(),
            stays_in(old(self)@, final(self)@),
            (final(self)@, r) == gen_int_to_str(old(self)@, val),
    {
        let buf = self.scratch_bytes(Val::Word(32), "int_buf");
        let fmt = self.text("%ld");
        let _ = self.emit(Op::CallHalf("snprintf".to_owned(), vals4(buf, Val::Word(32), fmt, val)), "");
        buf
    }

    /// Format a float into frame memory. The result is only valid until the next
    /// time, so anything that keeps it must copy first.
    pub(crate) fn gen_float_to_str(&mut self, val: Val) -> (r: Val)
        requires
            old(self).wf(),
        ensures
            final(self).wf(),
            stays_in(old(self)@, final(self)@),
            (final(self)@, r) == gen_float_to_str(old(self)@, val),
    {
        let buf = self.slot(Room::Bytes(4200), "float_buf");
        let bits = self.emit(Op::Cast(Cast::RealToWord, val), "float_bits");
        let _ = self.emit(Op::Run("zarrin.float".to_owned(), vals2(buf, bits)), "");
        buf
    }

    /// The same text, in an allocation of exactly the size it needs, for the cases
    /// where it escapes the expression that produced it.
    pub(crate) fn gen_float_to_owned(&mut self, val: Val) -> (r: Val)
        requires
            old(self).wf(),
        ensures
            final(self).wf(),
            stays_in(old(self)@, final(self)@),
            (final(self)@, r) == gen_float_to_owned(old(self)@, val),
    {
        let scratch = self.gen_float_to_str(val);
        let len = self.emit(Op::Call(Ty::Word, "strlen".to_owned(), vals1(scratch)), "flen");
        let size = self.emit(Op::Arith(Arith::Add, len, Val::Word(1)), "fsize");
        let owned = self.scratch_bytes(size, "float_owned");
        let _ = self.emit(Op::Run("memcpy".to_owned(), vals3(owned, scratch, size)), "");
        owned
    }

    /// The body of the function that writes a float into a buffer of 4200 bytes the
    /// way the interpreter prints it: the shortest decimal that reads back as the
    /// same double, in plain notation, no exponent. The shortest form is found by
    /// asking for one more decimal place until the result parses back to the original
    /// value. A whole number needs a second pass: at zero decimals `%f` prints the
    /// double's exact binary expansion, so its digits are replaced with the correctly
    /// rounded ones from `%e` followed by zeros.
    pub(crate) fn make_float(&mut self)
        requires
            old(self).wf(),
        ensures
            final(self).wf(),
            grows(old(self)@, final(self)@),
            final(self)@ == make_float(old(self)@),
    {
        self.begin("zarrin.float", tys2(Ty::Ptr, Ty::Word), false);
        let ebuf = self.slot(Room::Bytes(64), "float_ebuf");
        let d_ptr = self.slot(Room::Word, "fd");
        let p_ptr = self.slot(Room::Word, "fp");
        let j_ptr = self.slot(Room::Word, "j");
        let k_ptr = self.slot(Room::Word, "k");
        let g_ptr = self.slot(Room::Word, "got");
        let fmt_f = self.text("%.*f");
        let fmt_g = self.text("%.*g");
        let fmt_e = self.text("%.*e");
        let fmt_s = self.text("%s");
        let nan_txt = self.text("NaN");
        let val = self.emit(Op::Cast(Cast::WordToReal, Val::Param(1)), "val");
        let nan_bb = self.block("float_nan");
        let num_bb = self.block("float_num");
        let finish = self.block("float_done");
        let is_nan = self.emit(Op::FloatCompare(FloatCond::Unordered, val, val), "is_nan");
        let _ = self.emit(Op::Branch(is_nan, nan_bb, num_bb), "");
        self.position(nan_bb);
        let _ = self.emit(Op::CallHalf("snprintf".to_owned(), vals4(Val::Param(0), Val::Word(4200), fmt_s, nan_txt)), "");
        let _ = self.emit(Op::Jump(finish), "");
        self.position(num_bb);
        let _ = self.emit(Op::Store(d_ptr, Val::Word(0)), "");
        let d_head = self.block("fd_head");
        let d_next = self.block("fd_next");
        let d_done = self.block("fd_done");
        let _ = self.emit(Op::Jump(d_head), "");
        self.position(d_head);
        let d = self.emit(Op::Load(Ty::Word, d_ptr), "d");
        let d32 = self.emit(Op::Cast(Cast::WordToHalf, d), "d32");
        let _ = self.emit(Op::CallHalf("snprintf".to_owned(), vals5(Val::Param(0), Val::Word(4200), fmt_f, d32, val)), "");
        let back = self.emit(Op::Call(Ty::Real, "strtod".to_owned(), vals2(Val::Param(0), Val::Null)), "back");
        let exact = self.emit(Op::FloatCompare(FloatCond::Eq, back, val), "exact");
        let capped = self.emit(Op::Compare(Cond::Ge, d, Val::Word(1100)), "capped");
        let stop = self.emit(Op::Arith(Arith::Or, exact, capped), "stop");
        let _ = self.emit(Op::Branch(stop, d_done, d_next), "");
        self.position(d_next);
        let d1 = self.emit(Op::Arith(Arith::Add, d, Val::Word(1)), "d1");
        let _ = self.emit(Op::Store(d_ptr, d1), "");
        let _ = self.emit(Op::Jump(d_head), "");
        self.position(d_done);
        let df = self.emit(Op::Load(Ty::Word, d_ptr), "d_final");
        let whole = self.emit(Op::Compare(Cond::Eq, df, Val::Word(0)), "whole");
        let inf = self.number("inf");
        let pinf = self.emit(Op::FloatCompare(FloatCond::Eq, val, inf), "pinf");
        let minus = self.emit(Op::FloatNeg(val), "minus");
        let ninf = self.emit(Op::FloatCompare(FloatCond::Eq, minus, inf), "ninf");
        let infinite = self.emit(Op::Arith(Arith::Or, pinf, ninf), "infinite");
        let finite = self.emit(Op::Not(infinite), "finite");
        let rewrite = self.emit(Op::Arith(Arith::And, whole, finite), "rewrite");
        let fixup = self.block("float_fixup");
        let _ = self.emit(Op::Branch(rewrite, fixup, finish), "");
        self.position(fixup);
        let len = self.emit(Op::Call(Ty::Word, "strlen".to_owned(), vals1(Val::Param(0))), "len");
        let first = self.emit(Op::Load(Ty::Byte, Val::Param(0)), "first");
        let is_neg = self.emit(Op::Compare(Cond::Eq, first, Val::Byte(45)), "is_neg");
        let neg = self.emit(Op::Cast(Cast::BoolToWord, is_neg), "neg");
        let _ = self.emit(Op::Store(p_ptr, Val::Word(1)), "");
        let p_head = self.block("fp_head");
        let p_next = self.block("fp_next");
        let p_done = self.block("fp_done");
        let _ = self.emit(Op::Jump(p_head), "");
        self.position(p_head);
        let pv = self.emit(Op::Load(Ty::Word, p_ptr), "p");
        let p32 = self.emit(Op::Cast(Cast::WordToHalf, pv), "p32");
        let _ = self.emit(Op::CallHalf("snprintf".to_owned(), vals5(ebuf, Val::Word(64), fmt_g, p32, val)), "");
        let back2 = self.emit(Op::Call(Ty::Real, "strtod".to_owned(), vals2(ebuf, Val::Null)), "back2");
        let exact2 = self.emit(Op::FloatCompare(FloatCond::Eq, back2, val), "exact2");
        let capped2 = self.emit(Op::Compare(Cond::Ge, pv, Val::Word(17)), "capped2");
        let stop2 = self.emit(Op::Arith(Arith::Or, exact2, capped2), "stop2");
        let _ = self.emit(Op::Branch(stop2, p_done, p_next), "");
        self.position(p_next);
        let p1 = self.emit(Op::Arith(Arith::Add, pv, Val::Word(1)), "p1");
        let _ = self.emit(Op::Store(p_ptr, p1), "");
        let _ = self.emit(Op::Jump(p_head), "");
        self.position(p_done);
        let pf = self.emit(Op::Load(Ty::Word, p_ptr), "p_final");
        let pm1 = self.emit(Op::Arith(Arith::Sub, pf, Val::Word(1)), "pm1");
        let pm1_32 = self.emit(Op::Cast(Cast::WordToHalf, pm1), "pm1_32");
        let _ = self.emit(Op::CallHalf("snprintf".to_owned(), vals5(ebuf, Val::Word(64), fmt_e, pm1_32, val)), "");
        let _ = self.emit(Op::Store(j_ptr, neg), "");
        let _ = self.emit(Op::Store(k_ptr, neg), "");
        let _ = self.emit(Op::Store(g_ptr, Val::Word(0)), "");
        let c_head = self.block("copy_head");
        let c_write = self.block("copy_write");
        let c_skip = self.block("copy_skip");
        let pad_head = self.block("pad_head");
        let pad_body = self.block("pad_body");
        let write_bb = self.block("do_write");
        let _ = self.emit(Op::Jump(c_head), "");
        self.position(c_head);
        let got = self.emit(Op::Load(Ty::Word, g_ptr), "got_v");
        let more = self.emit(Op::Compare(Cond::Lt, got, pf), "more");
        let _ = self.emit(Op::Branch(more, c_write, pad_head), "");
        self.position(c_write);
        let k = self.emit(Op::Load(Ty::Word, k_ptr), "k_v");
        let src = self.emit(Op::Offset(Ty::Byte, ebuf, k), "src");
        let ch = self.emit(Op::Load(Ty::Byte, src), "ch");
        let is_dot = self.emit(Op::Compare(Cond::Eq, ch, Val::Byte(46)), "is_dot");
        let _ = self.emit(Op::Branch(is_dot, c_skip, write_bb), "");
        self.position(write_bb);
        let j = self.emit(Op::Load(Ty::Word, j_ptr), "j_v");
        let dst = self.emit(Op::Offset(Ty::Byte, Val::Param(0), j), "dst");
        let _ = self.emit(Op::Store(dst, ch), "");
        let j1 = self.emit(Op::Arith(Arith::Add, j, Val::Word(1)), "j1");
        let _ = self.emit(Op::Store(j_ptr, j1), "");
        let got1 = self.emit(Op::Arith(Arith::Add, got, Val::Word(1)), "got1");
        let _ = self.emit(Op::Store(g_ptr, got1), "");
        let _ = self.emit(Op::Jump(c_skip), "");
        self.position(c_skip);
        let k2 = self.emit(Op::Load(Ty::Word, k_ptr), "k2");
        let k1 = self.emit(Op::Arith(Arith::Add, k2, Val::Word(1)), "k1");
        let _ = self.emit(Op::Store(k_ptr, k1), "");
        let _ = self.emit(Op::Jump(c_head), "");
        self.position(pad_head);
        let jp = self.emit(Op::Load(Ty::Word, j_ptr), "jp");
        let need = self.emit(Op::Compare(Cond::Lt, jp, len), "need");
        let _ = self.emit(Op::Branch(need, pad_body, finish), "");
        self.position(pad_body);
        let zdst = self.emit(Op::Offset(Ty::Byte, Val::Param(0), jp), "zdst");
        let _ = self.emit(Op::Store(zdst, Val::Byte(48)), "");
        let jp1 = self.emit(Op::Arith(Arith::Add, jp, Val::Word(1)), "jp1");
        let _ = self.emit(Op::Store(j_ptr, jp1), "");
        let _ = self.emit(Op::Jump(pad_head), "");
        self.position(finish);
        let _ = self.emit(Op::Return(None), "");
        self.finish();
    }

    /// The body of the function that counts the characters of a string: the bytes
    /// that do not go on with a character.
    pub(crate) fn make_chars(&mut self)
        requires
            old(self).wf(),
        ensures
            final(self).wf(),
            grows(old(self)@, final(self)@),
            final(self)@ == make_chars(old(self)@),
    {
        self.begin("zarrin.chars", tys1(Ty::Ptr), true);
        let i_ptr = self.slot(Room::Word, "i");
        let n_ptr = self.slot(Room::Word, "n");
        let _ = self.emit(Op::Store(i_ptr, Val::Word(0)), "");
        let _ = self.emit(Op::Store(n_ptr, Val::Word(0)), "");
        let head = self.block("chars");
        let body = self.block("char");
        let done = self.block("chars_done");
        let _ = self.emit(Op::Jump(head), "");
        self.position(head);
        let i = self.emit(Op::Load(Ty::Word, i_ptr), "iv");
        let here = self.emit(Op::Offset(Ty::Byte, Val::Param(0), i), "here");
        let c = self.emit(Op::Load(Ty::Byte, here), "c");
        let end = self.emit(Op::Compare(Cond::Eq, c, Val::Byte(0)), "end");
        let _ = self.emit(Op::Branch(end, done, body), "");
        self.position(body);
        let first = self.emit(Op::Compare(Cond::Ge, c, Val::Byte(192)), "first");
        let one = self.emit(Op::Cast(Cast::BoolToWord, first), "one");
        let n = self.emit(Op::Load(Ty::Word, n_ptr), "nv");
        let n1 = self.emit(Op::Arith(Arith::Add, n, one), "n1");
        let _ = self.emit(Op::Store(n_ptr, n1), "");
        let i1 = self.emit(Op::Arith(Arith::Add, i, Val::Word(1)), "i1");
        let _ = self.emit(Op::Store(i_ptr, i1), "");
        let _ = self.emit(Op::Jump(head), "");
        self.position(done);
        let all = self.emit(Op::Load(Ty::Word, n_ptr), "all");
        let _ = self.emit(Op::Return(Some(all)), "");
        self.finish();
    }

    /// The body of the function that finds the byte at which a character of a string begins.
    pub(crate) fn make_char_start(&mut self)
        requires
            old(self).wf(),
        ensures
            final(self).wf(),
            grows(old(self)@, final(self)@),
            final(self)@ == make_char_start(old(self)@),
    {
        self.begin("zarrin.char_start", tys2(Ty::Ptr, Ty::Word), true);
        let i_ptr = self.slot(Room::Word, "i");
        let n_ptr = self.slot(Room::Word, "n");
        let _ = self.emit(Op::Store(i_ptr, Val::Word(0)), "");
        let _ = self.emit(Op::Store(n_ptr, Val::Word(0)), "");
        let head = self.block("starts");
        let body = self.block("start");
        let step = self.block("start_next");
        let done = self.block("starts_done");
        let _ = self.emit(Op::Jump(head), "");
        self.position(head);
        let i = self.emit(Op::Load(Ty::Word, i_ptr), "iv");
        let here = self.emit(Op::Offset(Ty::Byte, Val::Param(0), i), "here");
        let c = self.emit(Op::Load(Ty::Byte, here), "c");
        let end = self.emit(Op::Compare(Cond::Eq, c, Val::Byte(0)), "end");
        let _ = self.emit(Op::Branch(end, done, body), "");
        self.position(body);
        let first = self.emit(Op::Compare(Cond::Ge, c, Val::Byte(192)), "first");
        let one = self.emit(Op::Cast(Cast::BoolToWord, first), "one");
        let n = self.emit(Op::Load(Ty::Word, n_ptr), "nv");
        let n1 = self.emit(Op::Arith(Arith::Add, n, one), "n1");
        let _ = self.emit(Op::Store(n_ptr, n1), "");
        let hit = self.emit(Op::Compare(Cond::Gt, n1, Val::Param(1)), "hit");
        let _ = self.emit(Op::Branch(hit, done, step), "");
        self.position(step);
        let i1 = self.emit(Op::Arith(Arith::Add, i, Val::Word(1)), "i1");
        let _ = self.emit(Op::Store(i_ptr, i1), "");
        let _ = self.emit(Op::Jump(head), "");
        self.position(done);
        let found = self.emit(Op::Load(Ty::Word, i_ptr), "found");
        let _ = self.emit(Op::Return(Some(found)), "");
        self.finish();
    }

    /// More bytes of white space, where the string starts with this character.
    pub(crate) fn add_blank(&mut self, n: Val, c: &str, size: i64) -> (r: Val)
        requires
            old(self).wf(),
        ensures
            final(self).wf(),
            stays_in(old(self)@, final(self)@),
            (final(self)@, r) == add_blank(old(self)@, n, c@, size),
    {
        let w = self.text(c);
        let found = self.emit(Op::Call(Ty::Ptr, "strstr".to_owned(), vals2(Val::Param(0), w)), "found");
        let hit = self.emit(Op::Compare(Cond::Eq, found, Val::Param(0)), "hit");
        let part = self.emit(Op::Select(hit, Val::Word(size), Val::Word(0)), "part");
        let x = self.emit(Op::Arith(Arith::Add, n, part), "n");
        x
    }

    /// The body of the function that tells how many bytes the white space takes that a
    /// string starts with: none, or those of one character.
    pub(crate) fn make_blank(&mut self)
        requires
            old(self).wf(),
        ensures
            final(self).wf(),
            grows(old(self)@, final(self)@),
            final(self)@ == make_blank(old(self)@),
    {
        self.begin("zarrin.blank", tys1(Ty::Ptr), true);
        let ws = self.text(" \t\n\r\u{b}\u{c}");
        let span = self.emit(Op::Call(Ty::Word, "strspn".to_owned(), vals2(Val::Param(0), ws)), "span");
        let narrow = self.emit(Op::Compare(Cond::Ne, span, Val::Word(0)), "narrow");
        let n0 = self.emit(Op::Cast(Cast::BoolToWord, narrow), "n");
        let n1 = self.add_blank(n0, "\u{85}", 2);
        let n2 = self.add_blank(n1, "\u{a0}", 2);
        let n3 = self.add_blank(n2, "\u{1680}", 3);
        let n4 = self.add_blank(n3, "\u{2000}", 3);
        let n5 = self.add_blank(n4, "\u{2001}", 3);
        let n6 = self.add_blank(n5, "\u{2002}", 3);
        let n7 = self.add_blank(n6, "\u{2003}", 3);
        let n8 = self.add_blank(n7, "\u{2004}", 3);
        let n9 = self.add_blank(n8, "\u{2005}", 3);
        let n10 = self.add_blank(n9, "\u{2006}", 3);
        let n11 = self.add_blank(n10, "\u{2007}", 3);
        let n12 = self.add_blank(n11, "\u{2008}", 3);
        let n13 = self.add_blank(n12, "\u{2009}", 3);
        let n14 = self.add_blank(n13, "\u{200a}", 3);
        let n15 = self.add_blank(n14, "\u{2028}", 3);
        let n16 = self.add_blank(n15, "\u{2029}", 3);
        let n17 = self.add_blank(n16, "\u{202f}", 3);
        let n18 = self.add_blank(n17, "\u{205f}", 3);
        let n19 = self.add_blank(n18, "\u{3000}", 3);
        let _ = self.emit(Op::Return(Some(n19)), "");
        self.finish();
    }

    /// The body of the function that tells how many bytes of white space a string starts
    /// with.
    pub(crate) fn make_skipped(&mut self)
        requires
            old(self).wf(),
        ensures
            final(self).wf(),
            grows(old(self)@, final(self)@),
            final(self)@ == make_skipped(old(self)@),
    {
        self.begin("zarrin.skipped", tys1(Ty::Ptr), true);
        let n_ptr = self.slot(Room::Word, "n");
        let _ = self.emit(Op::Store(n_ptr, Val::Word(0)), "");
        let head = self.block("starts");
        let step = self.block("start");
        let done = self.block("starts_done");
        let _ = self.emit(Op::Jump(head), "");
        self.position(head);
        let n = self.emit(Op::Load(Ty::Word, n_ptr), "nv");
        let here = self.emit(Op::Offset(Ty::Byte, Val::Param(0), n), "here");
        let size = self.emit(Op::Call(Ty::Word, "zarrin.blank".to_owned(), vals1(here)), "size");
        let blank = self.emit(Op::Compare(Cond::Ne, size, Val::Word(0)), "blank");
        let _ = self.emit(Op::Branch(blank, step, done), "");
        self.position(step);
        let n1 = self.emit(Op::Arith(Arith::Add, n, size), "n1");
        let _ = self.emit(Op::Store(n_ptr, n1), "");
        let _ = self.emit(Op::Jump(head), "");
        self.position(done);
        let all = self.emit(Op::Load(Ty::Word, n_ptr), "all");
        let _ = self.emit(Op::Return(Some(all)), "");
        self.finish();
    }

    /// The body of the function that finds how long a string is without the white space at
    /// its end.
    pub(crate) fn make_trimmed(&mut self)
        requires
            old(self).wf(),
        ensures
            final(self).wf(),
            grows(old(self)@, final(self)@),
            final(self)@ == make_trimmed(old(self)@),
    {
        self.begin("zarrin.trimmed", tys1(Ty::Ptr), true);
        let i_ptr = self.slot(Room::Word, "i");
        let n_ptr = self.slot(Room::Word, "n");
        let _ = self.emit(Op::Store(i_ptr, Val::Word(0)), "");
        let _ = self.emit(Op::Store(n_ptr, Val::Word(0)), "");
        let head = self.block("ends");
        let skip = self.block("skip");
        let look = self.block("look");
        let step = self.block("end_next");
        let done = self.block("ends_done");
        let _ = self.emit(Op::Jump(head), "");
        self.position(head);
        let i = self.emit(Op::Load(Ty::Word, i_ptr), "iv");
        let here = self.emit(Op::Offset(Ty::Byte, Val::Param(0), i), "here");
        let size = self.emit(Op::Call(Ty::Word, "zarrin.blank".to_owned(), vals1(here)), "size");
        let blank = self.emit(Op::Compare(Cond::Ne, size, Val::Word(0)), "blank");
        let _ = self.emit(Op::Branch(blank, skip, look), "");
        self.position(skip);
        let past = self.emit(Op::Arith(Arith::Add, i, size), "past");
        let _ = self.emit(Op::Store(i_ptr, past), "");
        let _ = self.emit(Op::Jump(head), "");
        self.position(look);
        let c = self.emit(Op::Load(Ty::Byte, here), "c");
        let end = self.emit(Op::Compare(Cond::Eq, c, Val::Byte(0)), "end");
        let _ = self.emit(Op::Branch(end, done, step), "");
        self.position(step);
        let i1 = self.emit(Op::Arith(Arith::Add, i, Val::Word(1)), "i1");
        let _ = self.emit(Op::Store(i_ptr, i1), "");
        let _ = self.emit(Op::Store(n_ptr, i1), "");
        let _ = self.emit(Op::Jump(head), "");
        self.position(done);
        let all = self.emit(Op::Load(Ty::Word, n_ptr), "all");
        let _ = self.emit(Op::Return(Some(all)), "");
        self.finish();
    }

    /// Some bytes of a string as a string of their own.
    pub(crate) fn gen_slice(&mut self, p: Val, len: Val) -> (r: Val)
        requires
            old(self).wf(),
        ensures
            final(self).wf(),
            stays_in(old(self)@, final(self)@),
            (final(self)@, r) == gen_slice(old(self)@, p, len),
    {
        let size = self.emit(Op::Arith(Arith::Add, len, Val::Word(1)), "slice_size");
        let buf = self.scratch_bytes(size, "slice_buf");
        let _ = self.emit(Op::Run("memcpy".to_owned(), vals3(buf, p, len)), "");
        let nul = self.emit(Op::Offset(Ty::Byte, buf, len), "null_ptr");
        let _ = self.emit(Op::Store(nul, Val::Byte(0)), "");
        buf
    }

    /// A part of a string that was split.
    pub(crate) fn put_part(&mut self, arr: Val, at: Val, part: Val)
        requires
            old(self).wf(),
        ensures
            final(self).wf(),
            stays_in(old(self)@, final(self)@),
            final(self)@ == put_part(old(self)@, arr, at, part),
    {
        let word = self.emit(Op::Cast(Cast::PtrToWord, part), "part_word");
        let place = self.emit(Op::Offset(Ty::Word, arr, at), "part_place");
        let _ = self.emit(Op::Store(place, word), "");
    }

    /// A string as its single characters between two empty strings, and back to the
    /// caller.
    pub(crate) fn split_chars(&mut self, idx_ptr: Val)
        requires
            old(self).wf(),
        ensures
            final(self).wf(),
            stays_in(old(self)@, final(self)@),
            final(self)@ == split_chars(old(self)@, idx_ptr),
    {
        let n = self.emit(Op::Call(Ty::Word, "zarrin.chars".to_owned(), vals1(Val::Param(0))), "chars");
        let total = self.emit(Op::Arith(Arith::Add, n, Val::Word(2)), "parts");
        let slots = self.emit(Op::Arith(Arith::Add, total, Val::Word(1)), "slots");
        let bytes = self.emit(Op::Arith(Arith::Mul, slots, Val::Word(8)), "bytes");
        let arr = self.scratch_bytes(bytes, "chars_buf");
        let _ = self.emit(Op::Store(arr, total), "");
        let first = self.gen_slice(Val::Param(0), Val::Word(0));
        self.put_part(arr, Val::Word(1), first);
        let _ = self.emit(Op::Store(idx_ptr, Val::Word(0)), "");
        let head = self.block("chars_loop");
        let body = self.block("chars_body");
        let done = self.block("chars_done");
        let _ = self.emit(Op::Jump(head), "");
        self.position(head);
        let i = self.emit(Op::Load(Ty::Word, idx_ptr), "char_idx");
        let more = self.emit(Op::Compare(Cond::Lt, i, n), "more");
        let _ = self.emit(Op::Branch(more, body, done), "");
        self.position(body);
        let i1 = self.emit(Op::Arith(Arith::Add, i, Val::Word(1)), "i1");
        let from = self.emit(Op::Call(Ty::Word, "zarrin.char_start".to_owned(), vals2(Val::Param(0), i)), "from");
        let to = self.emit(Op::Call(Ty::Word, "zarrin.char_start".to_owned(), vals2(Val::Param(0), i1)), "to");
        let len = self.emit(Op::Arith(Arith::Sub, to, from), "len");
        let here = self.emit(Op::Offset(Ty::Byte, Val::Param(0), from), "here");
        let part = self.gen_slice(here, len);
        let at = self.emit(Op::Arith(Arith::Add, i, Val::Word(2)), "at");
        self.put_part(arr, at, part);
        let _ = self.emit(Op::Store(idx_ptr, i1), "");
        let _ = self.emit(Op::Jump(head), "");
        self.position(done);
        let last = self.gen_slice(Val::Param(0), Val::Word(0));
        self.put_part(arr, total, last);
        let word = self.emit(Op::Cast(Cast::PtrToWord, arr), "chars_ret");
        let _ = self.emit(Op::Return(Some(word)), "");
    }

    /// The body of the function that splits a string. It walks the string twice: once
    /// to count the parts, once to copy them.
    pub(crate) fn make_split(&mut self)
        requires
            old(self).wf(),
        ensures
            final(self).wf(),
            grows(old(self)@, final(self)@),
            final(self)@ == make_split(old(self)@),
    {
        self.begin("zarrin.split", tys2(Ty::Ptr, Ty::Ptr), true);
        let count = self.slot(Room::Word, "split_count");
        let cur_ptr = self.slot(Room::Ptr, "split_cur");
        let idx_ptr = self.slot(Room::Word, "split_idx");
        let dlen = self.emit(Op::Call(Ty::Word, "strlen".to_owned(), vals1(Val::Param(1))), "delim_len");
        let whole = self.emit(Op::Compare(Cond::Eq, dlen, Val::Word(0)), "no_delim");
        let chars = self.block("split_chars");
        let parts = self.block("split_parts");
        let _ = self.emit(Op::Branch(whole, chars, parts), "");
        self.position(chars);
        self.split_chars(idx_ptr);
        self.position(parts);
        let _ = self.emit(Op::Store(count, Val::Word(1)), "");
        let _ = self.emit(Op::Store(cur_ptr, Val::Param(0)), "");
        let head = self.block("split_loop");
        let body = self.block("split_body");
        let after = self.block("split_after");
        let _ = self.emit(Op::Jump(head), "");
        self.position(head);
        let cur = self.emit(Op::Load(Ty::Ptr, cur_ptr), "cur_ptr");
        let found = self.emit(Op::Call(Ty::Ptr, "strstr".to_owned(), vals2(cur, Val::Param(1))), "found_ptr");
        let none = self.emit(Op::Compare(Cond::Eq, found, Val::Null), "is_null");
        let _ = self.emit(Op::Branch(none, after, body), "");
        self.position(body);
        let cnt = self.emit(Op::Load(Ty::Word, count), "cnt");
        let new_cnt = self.emit(Op::Arith(Arith::Add, cnt, Val::Word(1)), "new_cnt");
        let _ = self.emit(Op::Store(count, new_cnt), "");
        let next = self.emit(Op::Offset(Ty::Byte, found, dlen), "next_pos");
        let _ = self.emit(Op::Store(cur_ptr, next), "");
        let _ = self.emit(Op::Jump(head), "");
        self.position(after);
        let total = self.emit(Op::Load(Ty::Word, count), "total_count");
        let slots = self.emit(Op::Arith(Arith::Add, total, Val::Word(1)), "arr_size_tmp");
        let bytes = self.emit(Op::Arith(Arith::Mul, slots, Val::Word(8)), "arr_bytes");
        let arr = self.scratch_bytes(bytes, "arr_buf");
        let _ = self.emit(Op::Store(arr, total), "");
        let _ = self.emit(Op::Store(idx_ptr, Val::Word(0)), "");
        let _ = self.emit(Op::Store(cur_ptr, Val::Param(0)), "");
        let ehead = self.block("split_extract_loop");
        let ebody = self.block("split_extract_body");
        let edone = self.block("split_extract_done");
        let _ = self.emit(Op::Jump(ehead), "");
        self.position(ehead);
        let eidx = self.emit(Op::Load(Ty::Word, idx_ptr), "eidx");
        let ecmp = self.emit(Op::Compare(Cond::Lt, eidx, total), "ecmp");
        let _ = self.emit(Op::Branch(ecmp, ebody, edone), "");
        self.position(ebody);
        let ecur = self.emit(Op::Load(Ty::Ptr, cur_ptr), "ecur");
        let efound = self.emit(Op::Call(Ty::Ptr, "strstr".to_owned(), vals2(ecur, Val::Param(1))), "efound");
        let enone = self.emit(Op::Compare(Cond::Eq, efound, Val::Null), "efound_is_null");
        let rest = self.emit(Op::Call(Ty::Word, "strlen".to_owned(), vals1(ecur)), "ecur_len");
        let from = self.emit(Op::Cast(Cast::PtrToWord, ecur), "from");
        let to = self.emit(Op::Cast(Cast::PtrToWord, efound), "to");
        let upto = self.emit(Op::Arith(Arith::Sub, to, from), "upto");
        let len = self.emit(Op::Select(enone, rest, upto), "part_len");
        let part = self.gen_slice(ecur, len);
        let part_int = self.emit(Op::Cast(Cast::PtrToWord, part), "part_ptr_int");
        let slot_idx = self.emit(Op::Arith(Arith::Add, eidx, Val::Word(1)), "arr_slot_idx");
        let arr_slot = self.emit(Op::Offset(Ty::Word, arr, slot_idx), "arr_slot");
        let _ = self.emit(Op::Store(arr_slot, part_int), "");
        let past = self.emit(Op::Arith(Arith::Add, len, dlen), "past");
        let next_ecur = self.emit(Op::Offset(Ty::Byte, ecur, past), "next_ecur");
        let kept = self.emit(Op::Select(enone, ecur, next_ecur), "kept");
        let _ = self.emit(Op::Store(cur_ptr, kept), "");
        let _ = self.emit(Op::Store(idx_ptr, slot_idx), "");
        let _ = self.emit(Op::Jump(ehead), "");
        self.position(edone);
        let word = self.emit(Op::Cast(Cast::PtrToWord, arr), "arr_ret");
        let _ = self.emit(Op::Return(Some(word)), "");
        self.finish();
    }

    /// The words for true and false.
    pub(crate) fn gen_bool_to_str(&mut self, v: Val) -> (r: Val)
        requires
            old(self).wf(),
        ensures
            final(self).wf(),
            stays_in(old(self)@, final(self)@),
            (final(self)@, r) == gen_bool_to_str(old(self)@, v),
    {
        let t = self.string_global("true");
        let f = self.string_global("false");
        let is_true = self.emit(Op::Compare(Cond::Ne, v, Val::Word(0)), "is_true");
        let x = self.emit(Op::Select(is_true, t, f), "bool_txt");
        x
    }

    /// Write more text at the end of what a buffer holds, and count it. With no room
    /// at all it is only counted.
    pub(crate) fn append_text(&mut self, buf: Val, cap: Val, len: Val, fmt: Val, a: Val, b: Val)
        requires
            old(self).wf(),
        ensures
            final(self).wf(),
            stays_in(old(self)@, final(self)@),
            final(self)@ == append_text(old(self)@, buf, cap, len, fmt, a, b),
    {
        let n = self.emit(Op::Load(Ty::Word, len), "n");
        let here = self.emit(Op::Offset(Ty::Byte, buf, n), "at");
        let room = self.emit(Op::Arith(Arith::Sub, cap, n), "room");
        let none = self.emit(Op::Compare(Cond::Eq, cap, Val::Word(0)), "none");
        let rest = self.emit(Op::Select(none, Val::Word(0), room), "rest");
        let got = self.emit(Op::CallHalf("snprintf".to_owned(), vals5(here, rest, fmt, a, b)), "got");
        let got64 = self.emit(Op::Cast(Cast::HalfToWord, got), "got64");
        let more = self.emit(Op::Arith(Arith::Add, n, got64), "more");
        let _ = self.emit(Op::Store(len, more), "");
    }

    /// The same for a text that is known.
    pub(crate) fn append_known(&mut self, len: Val, t: &str)
        requires
            old(self).wf(),
        ensures
            final(self).wf(),
            stays_in(old(self)@, final(self)@),
            final(self)@ == append_known(old(self)@, len, t@),
    {
        let fmt = self.text("%s");
        let known = self.text(t);
        self.append_text(Val::Param(0), Val::Param(1), len, fmt, known, Val::Word(0));
    }

    /// The text of a value of a type, at the end of what a buffer holds.
    pub(crate) fn append_value(&mut self, len: Val, word: Val, ty: &Type)
        requires
            old(self).wf(),
        ensures
            final(self).wf(),
            stays_in(old(self)@, final(self)@),
            final(self)@ == append_value(old(self)@, len, word, ty@),
    {
        match ty {
            Type::Float => {
                let f = self.emit(Op::Cast(Cast::WordToReal, word), "f");
                let txt = self.gen_float_to_str(f);
                let fmt = self.text("%s");
                self.append_text(Val::Param(0), Val::Param(1), len, fmt, txt, Val::Word(0));
            },
            Type::Bool => {
                let txt = self.gen_bool_to_str(word);
                let fmt = self.text("%s");
                self.append_text(Val::Param(0), Val::Param(1), len, fmt, txt, Val::Word(0));
            },
            Type::String => {
                let txt = self.emit(Op::Cast(Cast::WordToPtr, word), "txt");
                let fmt = self.text("%s");
                self.append_text(Val::Param(0), Val::Param(1), len, fmt, txt, Val::Word(0));
            },
            Type::Unit => {
                self.append_known(len, "()");
            },
            Type::Range => {
                let p = self.emit(Op::Cast(Cast::WordToPtr, word), "range");
                let a = self.emit(Op::Load(Ty::Word, p), "from");
                let q = self.emit(Op::Offset(Ty::Word, p, Val::Word(1)), "to_ptr");
                let b = self.emit(Op::Load(Ty::Word, q), "to");
                let fmt = self.text("%ld..%ld");
                self.append_text(Val::Param(0), Val::Param(1), len, fmt, a, b);
            },
            Type::Array(_) => {
                self.append_shown(len, word, ty);
            },
            Type::Named(_, _) => {
                self.append_shown(len, word, ty);
            },
            _ => {
                let fmt = self.text("%ld");
                self.append_text(Val::Param(0), Val::Param(1), len, fmt, word, Val::Word(0));
            },
        }
    }

    /// The text that the function of a type writes, at the end of what a buffer holds.
    pub(crate) fn append_shown(&mut self, len: Val, word: Val, ty: &Type)
        requires
            old(self).wf(),
        ensures
            final(self).wf(),
            stays_in(old(self)@, final(self)@),
            final(self)@ == append_shown(old(self)@, len, word, ty@),
    {
        let n = self.emit(Op::Load(Ty::Word, len), "n");
        let here = self.emit(Op::Offset(Ty::Byte, Val::Param(0), n), "at");
        let room = self.emit(Op::Arith(Arith::Sub, Val::Param(1), n), "room");
        let none = self.emit(Op::Compare(Cond::Eq, Val::Param(1), Val::Word(0)), "none");
        let rest = self.emit(Op::Select(none, Val::Word(0), room), "rest");
        self.want_show(ty);
        let got = self.emit(Op::Call(Ty::Word, show_fn(ty), vals3(here, rest, word)), "got");
        let more = self.emit(Op::Arith(Arith::Add, n, got), "more");
        let _ = self.emit(Op::Store(len, more), "");
    }

    /// The body of the function that writes the text of a value of a type into a
    /// buffer, as far as there is room, and gives the length of all of it.
    pub(crate) fn make_show(&mut self, ty: &Type)
        requires
            old(self).wf(),
        ensures
            final(self).wf(),
            grows(old(self)@, final(self)@),
            final(self)@ == make_show(old(self)@, ty@),
    {
        let name = show_fn(ty);
        self.begin(name.as_str(), tys3(Ty::Ptr, Ty::Word, Ty::Word), true);
        let len = self.slot(Room::Word, "len");
        let _ = self.emit(Op::Store(len, Val::Word(0)), "");
        match ty {
            Type::Array(el) => {
                self.show_array(len, el);
            },
            Type::Named(n, _) => {
                match self.types().struct_fields(n.as_str()) {
                    Some(fields) => {
                        let open = cat2(n.as_str(), " { ");
                        self.append_known(len, open.as_str());
                        self.show_fields(len, &fields, 0);
                        self.append_known(len, " }");
                    },
                    None => {
                        let vs = self.types().variants_of(n.as_str());
                        self.gen_enum_to_str(len, ty, &vs);
                    },
                }
            },
            _ => {
                self.append_value(len, Val::Param(2), ty);
            },
        }
        let n = self.emit(Op::Load(Ty::Word, len), "n");
        let _ = self.emit(Op::Return(Some(n)), "");
        self.finish();
    }

    pub(crate) fn show_array(&mut self, len: Val, el: &Type)
        requires
            old(self).wf(),
        ensures
            final(self).wf(),
            stays_in(old(self)@, final(self)@),
            final(self)@ == show_array(old(self)@, len, el@),
    {
        let i_ptr = self.slot(Room::Word, "i");
        self.append_known(len, "[");
        let arr = self.emit(Op::Cast(Cast::WordToPtr, Val::Param(2)), "arr");
        let count = self.emit(Op::Load(Ty::Word, arr), "count");
        let _ = self.emit(Op::Store(i_ptr, Val::Word(1)), "");
        let head = self.block("elems");
        let body = self.block("elem");
        let sep = self.block("elem_sep");
        let one = self.block("elem_one");
        let out = self.block("elems_done");
        let _ = self.emit(Op::Jump(head), "");
        self.position(head);
        let i = self.emit(Op::Load(Ty::Word, i_ptr), "iv");
        let more = self.emit(Op::Compare(Cond::Le, i, count), "more");
        let _ = self.emit(Op::Branch(more, body, out), "");
        self.position(body);
        let first = self.emit(Op::Compare(Cond::Eq, i, Val::Word(1)), "first");
        let _ = self.emit(Op::Branch(first, one, sep), "");
        self.position(sep);
        self.append_known(len, ", ");
        let _ = self.emit(Op::Jump(one), "");
        self.position(one);
        let place = self.emit(Op::Offset(Ty::Word, arr, i), "slot");
        let raw = self.emit(Op::Load(Ty::Word, place), "elem");
        self.append_value(len, raw, el);
        let next = self.emit(Op::Arith(Arith::Add, i, Val::Word(1)), "i1");
        let _ = self.emit(Op::Store(i_ptr, next), "");
        let _ = self.emit(Op::Jump(head), "");
        self.position(out);
        self.append_known(len, "]");
    }

    pub(crate) fn show_fields(&mut self, len: Val, fields: &Vec<(String, Type)>, i: usize)
        requires
            old(self).wf(),
        ensures
            final(self).wf(),
            stays_in(old(self)@, final(self)@),
            final(self)@ == show_fields(old(self)@, len, params_view(fields@), i as int),
        decreases fields@.len() - i,
    {
        assert(params_view(fields@).len() == fields@.len());
        if i < fields.len() {
            assert(params_view(fields@)[i as int] == (fields@[i as int].0@, fields@[i as int].1@));
            let lead = field_lead(i, fields[i].0.as_str());
            self.append_known(len, lead.as_str());
            let obj = self.emit(Op::Cast(Cast::WordToPtr, Val::Param(2)), "obj");
            let place = self.emit(Op::Offset(Ty::Word, obj, Val::Word(i as i64)), "field");
            let raw = self.emit(Op::Load(Ty::Word, place), "fieldv");
            self.append_value(len, raw, &fields[i].1);
            self.show_fields(len, fields, i + 1);
        }
    }

    /// Render an enum value the way the interpreter does: the variant name, and for a
    /// variant with a payload, its fields in parentheses.
    pub(crate) fn gen_enum_to_str(&mut self, len: Val, ty: &Type, vs: &Vec<Variant>)
        requires
            old(self).wf(),
        ensures
            final(self).wf(),
            stays_in(old(self)@, final(self)@),
            final(self)@ == gen_enum_to_str(old(self)@, len, ty@, variants_view(vs@)),
    {
        assert(variants_view(vs@).len() == vs@.len());
        let done = self.block("enum_str_done");
        let tag = if has_body_of(vs) {
            let p = self.emit(Op::Cast(Cast::WordToPtr, Val::Param(2)), "enum_p");
            let t = self.emit(Op::Load(Ty::Word, p), "enum_tag");
            t
        } else {
            Val::Param(2)
        };
        self.show_variants(len, ty, vs, tag, done, 0);
        let fmt = self.text("%ld");
        self.append_text(Val::Param(0), Val::Param(1), len, fmt, tag, Val::Word(0));
        let _ = self.emit(Op::Jump(done), "");
        self.position(done);
    }

    pub(crate) fn show_variants(&mut self, len: Val, ty: &Type, vs: &Vec<Variant>, tag: Val, done: usize, i: usize)
        requires
            old(self).wf(),
        ensures
            final(self).wf(),
            stays_in(old(self)@, final(self)@),
            final(self)@ == show_variants(old(self)@, len, ty@, variants_view(vs@), tag, done, i as int),
        decreases vs@.len() - i,
    {
        assert(variants_view(vs@).len() == vs@.len());
        if i < vs.len() {
            assert(variants_view(vs@)[i as int] == vs@[i as int]@);
            let case = self.block("enum_is");
            let next = self.block("enum_not");
            let hit = self.emit(Op::Compare(Cond::Eq, tag, tag_of(&vs[i])), "is_variant");
            let _ = self.emit(Op::Branch(hit, case, next), "");
            self.position(case);
            self.append_known(len, vs[i].name.as_str());
            let payload = payload_of(&vs[i], ty);
            assert(types_view(payload@).len() == payload@.len());
            if payload.len() > 0 {
                self.append_known(len, "(");
                self.show_payload(len, &payload, 0);
                self.append_known(len, ")");
            }
            let _ = self.emit(Op::Jump(done), "");
            self.position(next);
            self.show_variants(len, ty, vs, tag, done, i + 1);
        }
    }

    pub(crate) fn show_payload(&mut self, len: Val, payload: &Vec<Type>, i: usize)
        requires
            old(self).wf(),
        ensures
            final(self).wf(),
            stays_in(old(self)@, final(self)@),
            final(self)@ == show_payload(old(self)@, len, types_view(payload@), i as int),
        decreases payload@.len() - i,
    {
        assert(types_view(payload@).len() == payload@.len());
        if i < payload.len() {
            assert(types_view(payload@)[i as int] == payload@[i as int]@);
            if i > 0 {
                self.append_known(len, ", ");
            }
            let p = self.emit(Op::Cast(Cast::WordToPtr, Val::Param(2)), "enum_p");
            let place = self.emit(Op::Offset(Ty::Word, p, Val::Word((i + 1) as i64)), "payload");
            let raw = self.emit(Op::Load(Ty::Word, place), "payload_v");
            self.append_value(len, raw, &payload[i]);
            self.show_payload(len, payload, i + 1);
        }
    }

    /// The body of the function that takes an owner from a value of a type. Constants
    /// are told before the count is touched.
    pub(crate) fn make_release(&mut self, ty: &Type)
        requires
            old(self).wf(),
        ensures
            final(self).wf(),
            grows(old(self)@, final(self)@),
            final(self)@ == make_release(old(self)@, ty@),
    {
        let name = release_fn(ty);
        self.begin(name.as_str(), tys1(Ty::Ptr), false);
        let drop_bb = self.block("drop");
        let done = self.block("done");
        let mortal = self.block("mortal");
        let hdr = self.header_of(Val::Param(0));
        let n = self.emit(Op::Load(Ty::Word, hdr), "rc");
        let immortal = self.emit(Op::Compare(Cond::Eq, n, Val::Word(IMMORTAL)), "immortal");
        let _ = self.emit(Op::Branch(immortal, done, mortal), "");
        self.position(mortal);
        let dec = self.emit(Op::Arith(Arith::Sub, n, Val::Word(1)), "rc1");
        let _ = self.emit(Op::Store(hdr, dec), "");
        let last = self.emit(Op::Compare(Cond::Le, dec, Val::Word(0)), "last");
        let _ = self.emit(Op::Branch(last, drop_bb, done), "");
        self.position(drop_bb);
        self.gen_release_children(ty);
        let _ = self.emit(Op::Run("free".to_owned(), vals1(hdr)), "");
        let _ = self.emit(Op::Jump(done), "");
        self.position(done);
        let _ = self.emit(Op::Return(None), "");
        self.finish();
    }

    /// Release a word of a value that is being let go of, if it owns anything.
    pub(crate) fn release_word(&mut self, place: Val, ty: &Type)
        requires
            old(self).wf(),
        ensures
            final(self).wf(),
            stays_in(old(self)@, final(self)@),
            final(self)@ == release_word(old(self)@, place, ty@),
    {
        if self.is_managed(ty) {
            let raw = self.emit(Op::Load(Ty::Word, place), "held");
            let p = self.emit(Op::Cast(Cast::WordToPtr, raw), "heldp");
            self.gen_release(p, ty);
        }
    }

    /// Release whatever a value of this type holds on to.
    pub(crate) fn gen_release_children(&mut self, ty: &Type)
        requires
            old(self).wf(),
        ensures
            final(self).wf(),
            stays_in(old(self)@, final(self)@),
            final(self)@ == gen_release_children(old(self)@, ty@),
    {
        match ty {
            Type::Array(el) => {
                if self.is_managed(el) {
                    self.release_elements(el);
                }
            },
            Type::Named(n, _) => {
                match self.types().struct_fields(n.as_str()) {
                    Some(fields) => {
                        self.release_fields(&fields, 0);
                    },
                    None => {
                        let after = self.block("variant_done");
                        let tag = self.emit(Op::Load(Ty::Word, Val::Param(0)), "tag");
                        let vs = self.types().variants_of(n.as_str());
                        self.release_variants(ty, &vs, tag, after, 0);
                        let _ = self.emit(Op::Jump(after), "");
                        self.position(after);
                    },
                }
            },
            _ => {
            },
        }
    }

    pub(crate) fn release_elements(&mut self, el: &Type)
        requires
            old(self).wf(),
        ensures
            final(self).wf(),
            stays_in(old(self)@, final(self)@),
            final(self)@ == release_elements(old(self)@, el@),
    {
        let head = self.block("elems");
        let body = self.block("elem");
        let out = self.block("elems_done");
        let len = self.emit(Op::Load(Ty::Word, Val::Param(0)), "len");
        let i_ptr = self.slot(Room::Word, "i");
        let _ = self.emit(Op::Store(i_ptr, Val::Word(1)), "");
        let _ = self.emit(Op::Jump(head), "");
        self.position(head);
        let i = self.emit(Op::Load(Ty::Word, i_ptr), "iv");
        let more = self.emit(Op::Compare(Cond::Le, i, len), "more");
        let _ = self.emit(Op::Branch(more, body, out), "");
        self.position(body);
        let place = self.emit(Op::Offset(Ty::Word, Val::Param(0), i), "slot");
        self.release_word(place, el);
        let next = self.emit(Op::Arith(Arith::Add, i, Val::Word(1)), "i1");
        let _ = self.emit(Op::Store(i_ptr, next), "");
        let _ = self.emit(Op::Jump(head), "");
        self.position(out);
    }

    pub(crate) fn release_fields(&mut self, fields: &Vec<(String, Type)>, i: usize)
        requires
            old(self).wf(),
        ensures
            final(self).wf(),
            stays_in(old(self)@, final(self)@),
            final(self)@ == release_fields(old(self)@, params_view(fields@), i as int),
        decreases fields@.len() - i,
    {
        assert(params_view(fields@).len() == fields@.len());
        if i < fields.len() {
            assert(params_view(fields@)[i as int] == (fields@[i as int].0@, fields@[i as int].1@));
            let place = self.emit(Op::Offset(Ty::Word, Val::Param(0), Val::Word(i as i64)), "field");
            self.release_word(place, &fields[i].1);
            self.release_fields(fields, i + 1);
        }
    }

    /// Only the live variant's payload is owned, so switch on the tag.
    pub(crate) fn release_variants(&mut self, ty: &Type, vs: &Vec<Variant>, tag: Val, after: usize, i: usize)
        requires
            old(self).wf(),
        ensures
            final(self).wf(),
            stays_in(old(self)@, final(self)@),
            final(self)@ == release_variants(old(self)@, ty@, variants_view(vs@), tag, after, i as int),
        decreases vs@.len() - i,
    {
        assert(variants_view(vs@).len() == vs@.len());
        if i < vs.len() {
            assert(variants_view(vs@)[i as int] == vs@[i as int]@);
            let hit = self.block("drop_variant");
            let miss = self.block("not_variant");
            let is_v = self.emit(Op::Compare(Cond::Eq, tag, tag_of(&vs[i])), "is_v");
            let _ = self.emit(Op::Branch(is_v, hit, miss), "");
            self.position(hit);
            let payload = payload_of(&vs[i], ty);
            self.release_payload(&payload, 0);
            let _ = self.emit(Op::Jump(after), "");
            self.position(miss);
            self.release_variants(ty, vs, tag, after, i + 1);
        }
    }

    pub(crate) fn release_payload(&mut self, payload: &Vec<Type>, i: usize)
        requires
            old(self).wf(),
        ensures
            final(self).wf(),
            stays_in(old(self)@, final(self)@),
            final(self)@ == release_payload(old(self)@, types_view(payload@), i as int),
        decreases payload@.len() - i,
    {
        assert(types_view(payload@).len() == payload@.len());
        if i < payload.len() {
            assert(types_view(payload@)[i as int] == payload@[i as int]@);
            let place = self.emit(Op::Offset(Ty::Word, Val::Param(0), Val::Word((i + 1) as i64)), "payload");
            self.release_word(place, &payload[i]);
            self.release_payload(payload, i + 1);
        }
    }
}

// ---- running the code that is made ----

/// Code that stops the program stops it with its message.
pub proof fn lemma_abort(s: CgV, message: Seq<char>, a: Val, b: Val, mem: Memory)
    ensures
        adds(s, gen_abort(s, message, a, b)),
        continues(s, gen_abort(s, message, a, b)),
        open_here(s) && countable(gen_abort(s, message, a, b)) ==> stops(
            s,
            gen_abort(s, message, a, b),
            mem,
            message,
        ),
{
    let text = s.abort_text(message);
    assert(gen_abort(s, message, a, b) == stopped(s, text, a, b));
    lemma_stopping_adds(s, Val::Null, text, a, b);
    lemma_stopping_continues(s, Val::Null, text, a, b);
    if open_here(s) && countable(gen_abort(s, message, a, b)) {
        lemma_stopped(s, text, a, b, mem);
    }
}

/// Code that stops the program where a condition holds does so there, and is
/// passed elsewhere.
pub proof fn lemma_abort_if(
    s: CgV,
    bad: Val,
    message: Seq<char>,
    a: Val,
    b: Val,
    mem: Memory,
    c: bool,
)
    ensures
        adds(s, gen_abort_if(s, bad, message, a, b)),
        continues(s, gen_abort_if(s, bad, message, a, b)),
        open_here(s) && countable(gen_abort_if(s, bad, message, a, b)) && operand(mem, bad) == Some(
            Datum::Truth(c),
        ) ==> {
            let t = gen_abort_if(s, bad, message, a, b);
            &&& !c ==> runs(s, t, mem, mem)
            &&& c ==> stops(s, t, mem, message)
            &&& c ==> (code_between(s, t, mem) matches Outcome::Stopped(_, x, y) && x == operand(
                mem,
                a,
            ) && y == operand(mem, b))
        },
{
    let t = gen_abort_if(s, bad, message, a, b);
    let text = s.abort_text(message);
    let s1 = s.block("stop"@).0;
    let s2 = s1.block("go_on"@).0;
    let fail = s.block("stop"@).1;
    let ok = s1.block("go_on"@).1;
    let s3 = s2.emit(OpV::Branch(bad, fail, ok), ""@).0;
    let s4 = s3.position(fail);
    lemma_no_code(s, "stop"@, fail);
    lemma_no_code(s1, "go_on"@, fail);
    lemma_emit(s2, OpV::Branch(bad, fail, ok), ""@, mem);
    lemma_no_code(s3, ""@, fail);
    lemma_adds_chain(s, s1, s2);
    lemma_adds_chain(s, s2, s3);
    lemma_adds_chain(s, s3, s4);
    lemma_same_diagnostic(s, s4, message);
    assert(t == guarded(s, bad, text, a, b));
    lemma_stopping_adds(s, bad, text, a, b);
    lemma_stopping_continues(s, bad, text, a, b);
    if open_here(s) && countable(t) && operand(mem, bad) == Some(Datum::Truth(c)) {
        lemma_guarded(s, bad, text, a, b, mem, c);
    }
}

/// A condition becomes a word.
pub proof fn lemma_from_i1(s: CgV, c: Val, mem: Memory)
    ensures
        adds(s, from_i1(s, c).0),
        continues(s, from_i1(s, c).0),
        from_i1(s, c).1 is Int,
        open_here(s) ==> {
            let n = s.m.func.insts.len() as int;
            let t = from_i1(s, c).0;
            &&& from_i1(s, c).1 == CgValue::Int(Val::Reg(n as usize))
            &&& t.m.func.insts.len() == n + 1
            &&& operand(mem, c) matches Some(Datum::Truth(x)) ==> runs(
                s,
                t,
                mem,
                given(
                    mem,
                    n,
                    Datum::Word(
                        if x {
                            1
                        } else {
                            0
                        },
                    ),
                ),
            )
        },
{
    lemma_emit(s, OpV::Cast(Cast::BoolToWord, c), "bool_ext"@, mem);
}

/// A word is a word.
pub proof fn lemma_word_kept(s: CgV, w: Val)
    ensures
        value_to_int(s, CgValue::Int(w)) == (s, w),
        forall|t: TypeV| !(t is Float) && !(t is String) ==> #[trigger] typed_value(s, w, t) == (
            s,
            CgValue::Int(w),
        ),
{
}

/// A word becomes a condition.
pub proof fn lemma_to_i1(s: CgV, w: Val, mem: Memory)
    ensures
        adds(s, to_i1(s, w).0),
        continues(s, to_i1(s, w).0),
        open_here(s) ==> {
            let n = s.m.func.insts.len() as int;
            let t = to_i1(s, w).0;
            &&& to_i1(s, w).1 == Val::Reg(n as usize)
            &&& t.m.func.insts.len() == n + 1
            &&& operand(mem, w) matches Some(Datum::Word(x)) ==> runs(
                s,
                t,
                mem,
                given(mem, n, Datum::Truth(x != 0)),
            )
        },
{
    lemma_emit(s, OpV::Compare(Cond::Ne, w, Val::Word(0)), "to_bool"@, mem);
}

/// The code that writes a number into the frame.
pub open spec fn number_text(s: CgV, val: Val) -> (CgV, Val) {
    let (s, total) = s.emit(
        OpV::Arith(Arith::Add, Val::Word(32), Val::Word(HEADER)),
        "with_header"@,
    );
    let (s, base) = s.emit(OpV::Reserve(total), "int_buf"@);
    let s = s.emit(OpV::Store(base, Val::Word(IMMORTAL)), ""@).0;
    let (s, body) = s.emit(OpV::Offset(Ty::Byte, base, Val::Word(HEADER)), "int_buf"@);
    let (s, fmt) = s.text("%ld"@);
    let args = Seq::empty().push(body).push(Val::Word(32)).push(fmt).push(val);
    (s.emit(OpV::CallHalf("snprintf"@, args), ""@).0, body)
}

/// The code that picks the text of a truth value.
pub open spec fn truth_text(s: CgV, val: Val) -> (CgV, Val) {
    let (s, yes) = s.string_global("true"@);
    let (s, no) = s.string_global("false"@);
    let (s, is_true) = s.emit(OpV::Compare(Cond::Ne, val, Val::Word(0)), "is_true"@);
    s.emit(OpV::Select(is_true, yes, no), "bool_txt"@)
}

pub proof fn lemma_text_code(s: CgV, val: Val)
    ensures
        s.transient ==> gen_int_to_str(s, val) == number_text(s, val),
        gen_bool_to_str(s, val) == truth_text(s, val),
        stack_mark(s) == s.emit(
            OpV::Call(Ty::Ptr, "llvm.stacksave.p0"@, Seq::empty()),
            "sp"@,
        ),
        stack_release(s, val) == s.emit(
            OpV::Run("llvm.stackrestore.p0"@, Seq::empty().push(val)),
            ""@,
        ).0,
{
    let op = OpV::Arith(Arith::Add, Val::Word(32), Val::Word(HEADER));
    lemma_blocks(s, op, "with_header"@, 0, arbitrary());
}

/// The message that native code stops with for an index out of range is the one of the
/// interpreter, with a mark in the place of the index and one in that of the length.
pub proof fn law_index_message(what: Seq<char>, len: int, i: int)
    requires
        0 <= len,
        !(0 <= i < len),
    ensures
        ({
            let a = " index "@;
            let b = " is out of bounds for length "@;
            &&& index_in(len, i, what) == Err::<int, Seq<char>>(
                what + a + int_text(i) + b + nat_text(len as nat),
            )
            &&& out_of_bounds(what) == what + a + seq!['\u{1}'] + b + seq!['\u{1}']
        }),
{
    reveal_strlit(" index ");
    reveal_strlit(" is out of bounds for length ");
    reveal_strlit(" index \u{1} is out of bounds for length \u{1}");
    assert(out_of_bounds(what) =~= what + " index "@ + seq!['\u{1}']
        + " is out of bounds for length "@ + seq!['\u{1}']);
}

/// The check of an index goes on if and only if the index lies within the length.
/// Elsewhere the program stops with the message that speaks of both.
pub proof fn law_bounds_check(
    s: CgV,
    idx: Val,
    len: Val,
    what: Seq<char>,
    mem: Memory,
    i: i64,
    n: i64,
) -> (after: Memory)
    requires
        open_here(s),
        countable(gen_bounds_check(s, idx, len, what)),
        operand(mem, idx) == Some(Datum::Word(i)),
        operand(mem, len) == Some(Datum::Word(n)),
        settled(idx, s.m.func.insts.len() as int),
        settled(len, s.m.func.insts.len() as int),
    ensures
        0 <= i < n ==> runs(s, gen_bounds_check(s, idx, len, what), mem, after),
        0 <= i < n ==> keeps(mem, after, s.m.func.insts.len() as int),
        !(0 <= i < n) ==> stops_with(
            s,
            gen_bounds_check(s, idx, len, what),
            mem,
            out_of_bounds(what),
            i,
            n,
        ),
        adds(s, gen_bounds_check(s, idx, len, what)),
{
    let k = s.m.func.insts.len() as int;
    let t = gen_bounds_check(s, idx, len, what);
    let op1 = OpV::Compare(Cond::Lt, idx, Val::Word(0));
    lemma_emit(s, op1, "neg_idx"@, mem);
    let (s1, neg) = s.emit(op1, "neg_idx"@);
    let mem1 = given(mem, k, Datum::Truth(i < 0));
    let op2 = OpV::Compare(Cond::Ge, idx, len);
    lemma_emit(s1, op2, "past_end"@, mem1);
    let (s2, past) = s1.emit(op2, "past_end"@);
    let mem2 = given(mem1, k + 1, Datum::Truth(i >= n));
    let op3 = OpV::Arith(Arith::Or, neg, past);
    lemma_emit(s2, op3, "out_of_range"@, mem2);
    let (s3, bad) = s2.emit(op3, "out_of_range"@);
    let c = i < 0 || i >= n;
    let mem3 = given(mem2, k + 2, Datum::Truth(c));
    lemma_abort_if(s3, bad, out_of_bounds(what), idx, len, mem3, c);
    assert(s.m.func.insts.len() <= t.m.func.insts.len());
    assert(neg == Val::Reg(k as usize));
    assert(past == Val::Reg((k + 1) as usize));
    assert(bad == Val::Reg((k + 2) as usize));
    lemma_then(s, s1, s2, mem, mem1);
    lemma_then(s, s2, s3, mem, mem2);
    lemma_then(s, s3, t, mem, mem3);
    lemma_adds_chain(s, s3, t);
    lemma_same_diagnostic(s, s3, out_of_bounds(what));
    law_code_follows_code(s, s3, t, mem);
    mem3
}

/// Values change their shape by code.
pub proof fn lemma_values_add(s: CgV, v: CgValue, raw: Val, ty: TypeV, name: Seq<char>)
    ensures
        adds(s, value_to_int(s, v).0),
        adds(s, value_to_ptr(s, v).0),
        adds(s, typed_value(s, raw, ty).0),
        adds(s, gen_retain(s, raw)),
        adds(s, gen_release(s, raw, ty)),
        adds(s, release_word(s, raw, ty)),
        v is Int ==> value_to_int(s, v) == (s, v->Int_0),
        v is Int ==> value_to_ptr(s, v) == s.emit(
            OpV::Cast(Cast::WordToPtr, v->Int_0),
            "as_ptr"@,
        ),
{
    let mem: Memory = arbitrary();
    let (s1, w) = value_to_int(s, v);
    match v {
        CgValue::Float(a) => lemma_emit(s, OpV::Cast(Cast::RealToWord, a), "f2i"@, mem),
        CgValue::Str(a) => lemma_emit(s, OpV::Cast(Cast::PtrToWord, a), "p2i"@, mem),
        _ => lemma_emit(s, OpV::Cast(Cast::WordToPtr, w), "as_ptr"@, mem),
    }
    lemma_emit(s1, OpV::Cast(Cast::WordToPtr, w), "as_ptr"@, mem);
    lemma_adds_chain(s, s1, s1.emit(OpV::Cast(Cast::WordToPtr, w), "as_ptr"@).0);
    lemma_wants_add(s, Room::Word, name, ty);
    lemma_adds_chain(s, s, s);
    lemma_emit(s, OpV::Cast(Cast::WordToReal, raw), "as_f"@, mem);
    lemma_emit(s, OpV::Cast(Cast::WordToPtr, raw), "as_s"@, mem);
    lemma_emit(s, OpV::Run("zarrin.retain"@, Seq::empty().push(raw)), ""@, mem);
    lemma_release_adds(s, raw, ty);
    let (t1, held) = s.emit(OpV::Load(Ty::Word, raw), "held"@);
    lemma_emit(s, OpV::Load(Ty::Word, raw), "held"@, mem);
    let (t2, p) = t1.emit(OpV::Cast(Cast::WordToPtr, held), "heldp"@);
    lemma_emit(t1, OpV::Cast(Cast::WordToPtr, held), "heldp"@, mem);
    lemma_release_adds(t2, p, ty);
    lemma_adds_chain(s, t1, t2);
    lemma_adds_chain(s, t2, gen_release(t2, p, ty));
}

proof fn lemma_release_adds(s: CgV, p: Val, ty: TypeV)
    ensures
        adds(s, gen_release(s, p, ty)),
{
    let mem: Memory = arbitrary();
    lemma_wants_add(s, Room::Word, ""@, ty);
    let s1 = s.want_release(ty);
    let op = OpV::Run(release_name(ty), Seq::empty().push(p));
    lemma_emit(s1, op, ""@, mem);
    lemma_adds_chain(s, s1, s1.emit(op, ""@).0);
}

pub proof fn lemma_scratch_adds(s: CgV, bytes: Val, name: Seq<char>)
    ensures
        adds(s, scratch_bytes(s, bytes, name).0),
{
    let mem: Memory = arbitrary();
    let op = OpV::Arith(Arith::Add, bytes, Val::Word(HEADER));
    lemma_emit(s, op, "with_header"@, mem);
    let (s1, total) = s.emit(op, "with_header"@);
    let op2 = if s1.transient {
        OpV::Reserve(total)
    } else {
        OpV::Call(Ty::Ptr, "malloc"@, Seq::empty().push(total))
    };
    lemma_emit(s1, op2, name, mem);
    let (s2, b) = s1.emit(op2, name);
    let op3 = OpV::Store(
        b,
        Val::Word(
            if s1.transient {
                IMMORTAL
            } else {
                1
            },
        ),
    );
    lemma_emit(s2, op3, ""@, mem);
    let s3 = s2.emit(op3, ""@).0;
    let op4 = OpV::Offset(Ty::Byte, b, Val::Word(HEADER));
    lemma_emit(s3, op4, name, mem);
    lemma_adds_chain(s, s1, s2);
    lemma_adds_chain(s, s2, s3);
    lemma_adds_chain(s, s3, s3.emit(op4, name).0);
}

pub proof fn lemma_bounds_adds(s: CgV, idx: Val, len: Val, what: Seq<char>)
    ensures
        adds(s, gen_bounds_check(s, idx, len, what)),
{
    let mem: Memory = arbitrary();
    let op1 = OpV::Compare(Cond::Lt, idx, Val::Word(0));
    lemma_emit(s, op1, "neg_idx"@, mem);
    let (s1, neg) = s.emit(op1, "neg_idx"@);
    let op2 = OpV::Compare(Cond::Ge, idx, len);
    lemma_emit(s1, op2, "past_end"@, mem);
    let (s2, past) = s1.emit(op2, "past_end"@);
    let op3 = OpV::Arith(Arith::Or, neg, past);
    lemma_emit(s2, op3, "out_of_range"@, mem);
    let (s3, bad) = s2.emit(op3, "out_of_range"@);
    lemma_abort_if(s3, bad, out_of_bounds(what), idx, len, mem, true);
    lemma_adds_chain(s, s1, s2);
    lemma_adds_chain(s, s2, s3);
    lemma_adds_chain(s, s3, gen_bounds_check(s, idx, len, what));
}

// ---- counts ----

/// The code of a function, so far.
pub open spec fn code_is(s: CgV, ops: Seq<(usize, OpV)>) -> bool {
    &&& s.m.func.insts.len() == ops.len()
    &&& forall|i: int|
        0 <= i < ops.len() ==> (#[trigger] s.m.func.insts[i]).block == ops[i].0
            && s.m.func.insts[i].op == ops[i].1
}

proof fn lemma_code_put(s: CgV, ops: Seq<(usize, OpV)>, op: OpV, name: Seq<char>)
    requires
        code_is(s, ops),
        s.m.at < s.m.func.blocks.len(),
        !s.m.func.blocks[s.m.at as int].1,
    ensures
        code_is(s.emit(op, name).0, ops.push((s.m.at, op))),
        s.emit(op, name).1 == Val::Reg(ops.len() as usize),
        s.emit(op, name).0.m.at == s.m.at,
        s.emit(op, name).0.types == s.types,
        s.emit(op, name).0.m.func.name == s.m.func.name,
        s.emit(op, name).0.m.func.blocks == (if op.leaves() {
            s.m.func.blocks.update(s.m.at as int, (s.m.func.blocks[s.m.at as int].0, true))
        } else {
            s.m.func.blocks
        }),
{
    lemma_blocks(s, op, name, 0, arbitrary());
}

proof fn lemma_seal_keeps_code(f: FuncV, i: usize)
    ensures
        f.insts.is_prefix_of(f.seal(i).insts),
    decreases f.blocks.len() - i,
{
    if i < f.blocks.len() && i < usize::MAX {
        let g = f.push(i, OpV::Unreachable, ""@);
        lemma_seal_keeps_code(g, (i + 1) as usize);
    }
}

/// The code of the release function of a type, ahead of what lets go of the values that
/// it owns.
pub open spec fn release_ops() -> Seq<(usize, OpV)> {
    seq![
        (0usize, OpV::Offset(Ty::Byte, Val::Param(0), Val::Word(BACK))),
        (0usize, OpV::Load(Ty::Word, Val::Reg(0))),
        (0usize, OpV::Compare(Cond::Eq, Val::Reg(1), Val::Word(IMMORTAL))),
        (0usize, OpV::Branch(Val::Reg(2), 2, 3)),
        (3usize, OpV::Arith(Arith::Sub, Val::Reg(1), Val::Word(1))),
        (3usize, OpV::Store(Val::Reg(0), Val::Reg(4))),
        (3usize, OpV::Compare(Cond::Le, Val::Reg(4), Val::Word(0))),
        (3usize, OpV::Branch(Val::Reg(6), 1, 2)),
    ]
}

/// The state in which the code of a release function lets go of what a value owns.
pub closed spec fn release_head(s: CgV, ty: TypeV) -> CgV {
    let s = s.begin(release_name(ty), Seq::empty().push(Ty::Ptr), false);
    let (s, drop_bb) = s.block("drop"@);
    let (s, done) = s.block("done"@);
    let (s, mortal) = s.block("mortal"@);
    let (s, hdr) = header_of(s, Val::Param(0));
    let (s, n) = s.emit(OpV::Load(Ty::Word, hdr), "rc"@);
    let (s, immortal) = s.emit(OpV::Compare(Cond::Eq, n, Val::Word(IMMORTAL)), "immortal"@);
    let s = s.emit(OpV::Branch(immortal, done, mortal), ""@).0;
    let s = s.position(mortal);
    let (s, dec) = s.emit(OpV::Arith(Arith::Sub, n, Val::Word(1)), "rc1"@);
    let s = s.emit(OpV::Store(hdr, dec), ""@).0;
    let (s, last) = s.emit(OpV::Compare(Cond::Le, dec, Val::Word(0)), "last"@);
    let s = s.emit(OpV::Branch(last, drop_bb, done), ""@).0;
    s.position(drop_bb)
}

/// Where the count stands, and where the function ends.
closed spec fn release_marks(s: CgV, ty: TypeV) -> (Val, usize) {
    let s = s.begin(release_name(ty), Seq::empty().push(Ty::Ptr), false);
    let (s, drop_bb) = s.block("drop"@);
    let (s, done) = s.block("done"@);
    let (s, mortal) = s.block("mortal"@);
    (header_of(s, Val::Param(0)).1, done)
}

#[verifier::rlimit(60)]
proof fn lemma_release_head(s: CgV, ty: TypeV)
    ensures
        code_is(release_head(s, ty), release_ops()),
        release_head(s, ty).m.at == 1,
        release_head(s, ty).m.func.blocks.len() == 4,
        !release_head(s, ty).m.func.blocks[1].1,
        !release_head(s, ty).m.func.blocks[2].1,
        release_head(s, ty).types == s.types,
        release_head(s, ty).m.func.name == release_name(ty),
        release_marks(s, ty) == (Val::Reg(0), 2usize),
        make_release(s, ty) == ({
            let (hdr, done) = release_marks(s, ty);
            let s = gen_release_children(release_head(s, ty), ty);
            let s = s.emit(OpV::Run("free"@, Seq::empty().push(hdr)), ""@).0;
            let s = s.emit(OpV::Jump(done), ""@).0;
            let s = s.position(done);
            s.emit(OpV::Return(None), ""@).0.finish()
        }),
{
    let x: OpV = OpV::Unreachable;
    lemma_function(s, release_name(ty), Seq::empty().push(Ty::Ptr), false);
    let s0 = s.begin(release_name(ty), Seq::empty().push(Ty::Ptr), false);
    lemma_blocks(s0, x, "drop"@, 0, arbitrary());
    let (s1, drop_bb) = s0.block("drop"@);
    lemma_blocks(s1, x, "done"@, 0, arbitrary());
    let (s2, done) = s1.block("done"@);
    lemma_blocks(s2, x, "mortal"@, 0, arbitrary());
    let (s3, mortal) = s2.block("mortal"@);
    assert(drop_bb == 1 && done == 2 && mortal == 3);
    let o = release_ops();
    assert(s3.m.func.blocks.len() == 4);
    assert(code_is(s3, Seq::empty()));
    let op0 = o[0].1;
    lemma_code_put(s3, Seq::empty(), op0, "hdr"@);
    let (s4, hdr) = s3.emit(op0, "hdr"@);
    assert(Seq::empty().push((0usize, op0)) =~= o.take(1));
    lemma_code_put(s4, o.take(1), o[1].1, "rc"@);
    let (s5, n) = s4.emit(o[1].1, "rc"@);
    assert(o.take(1).push((0usize, o[1].1)) =~= o.take(2));
    lemma_code_put(s5, o.take(2), o[2].1, "immortal"@);
    let (s6, immortal) = s5.emit(o[2].1, "immortal"@);
    assert(o.take(2).push((0usize, o[2].1)) =~= o.take(3));
    lemma_code_put(s6, o.take(3), o[3].1, ""@);
    let s7 = s6.emit(o[3].1, ""@).0;
    assert(o.take(3).push((0usize, o[3].1)) =~= o.take(4));
    lemma_blocks(s7, x, ""@, 3, arbitrary());
    let s8 = s7.position(3);
    assert(code_is(s8, o.take(4)));
    lemma_code_put(s8, o.take(4), o[4].1, "rc1"@);
    let (s9, dec) = s8.emit(o[4].1, "rc1"@);
    assert(o.take(4).push((3usize, o[4].1)) =~= o.take(5));
    lemma_code_put(s9, o.take(5), o[5].1, ""@);
    let s10 = s9.emit(o[5].1, ""@).0;
    assert(o.take(5).push((3usize, o[5].1)) =~= o.take(6));
    lemma_code_put(s10, o.take(6), o[6].1, "last"@);
    let (s11, last) = s10.emit(o[6].1, "last"@);
    assert(o.take(6).push((3usize, o[6].1)) =~= o.take(7));
    lemma_code_put(s11, o.take(7), o[7].1, ""@);
    let s12 = s11.emit(o[7].1, ""@).0;
    assert(o.take(7).push((3usize, o[7].1)) =~= o);
    lemma_blocks(s12, x, ""@, 1, arbitrary());
    assert(hdr == Val::Reg(0) && n == Val::Reg(1) && immortal == Val::Reg(2));
    assert(dec == Val::Reg(4) && last == Val::Reg(6));
    assert(release_head(s, ty) == s12.position(1));
}

/// Some code begins as the release function does.
pub open spec fn releases(insts: Seq<InstV>) -> bool {
    &&& insts.len() >= 8
    &&& forall|i: int|
        0 <= i < 8 ==> (#[trigger] insts[i]).block == release_ops()[i].0 && insts[i].op
            == release_ops()[i].1
}

/// What the release function does to the count of a value at an address, which stands
/// ahead of it. The count of a constant does not move, and the function ends. Any other
/// count falls by one; the function ends where an owner is left, and goes on to let go
/// of the value where none is.
pub proof fn law_release_counts(
    insts: Seq<InstV>,
    mem: Memory,
    p: i64,
    c: i64,
    freed: Seq<i64>,
) -> (k: nat)
    requires
        releases(insts),
        mem.params.len() > 0,
        mem.params[0] == p,
        p + BACK >= i64::MIN,
        mem.heap.contains_key(p + BACK),
        mem.heap[p + BACK] == c,
        c == IMMORTAL || c >= 1,
    ensures
        turns(insts, Turn::At(0, 0, mem, freed), k) matches Turn::At(b, n, after, f) && n == 0 && f
            == freed && after.heap == (if c == IMMORTAL {
            mem.heap
        } else {
            mem.heap.insert(p + BACK, (c - 1) as i64)
        }) && b == (if c == 1 {
            1usize
        } else {
            2usize
        }) && (c == 1 ==> after.regs.contains_key(0) && after.regs[0] == Datum::Word(
            (p + BACK) as i64,
        )),
{
    let o = release_ops();
    let h = (p + BACK) as i64;
    assert(insts[0].op == o[0].1 && insts[1].op == o[1].1 && insts[2].op == o[2].1 && insts[3].op
        == o[3].1);
    assert(insts[4].op == o[4].1 && insts[5].op == o[5].1 && insts[6].op == o[6].1 && insts[7].op
        == o[7].1);
    let m1 = given(mem, 0, Datum::Word(h));
    let m2 = given(m1, 1, Datum::Word(c));
    let m3 = given(m2, 2, Datum::Truth(c == IMMORTAL));
    let start = Turn::At(0, 0, mem, freed);
    assert(turned(insts, 0, 0, mem, freed) == Turn::At(0, 1, m1, freed));
    assert(turned(insts, 0, 1, m1, freed) == Turn::At(0, 2, m2, freed));
    assert(turned(insts, 0, 2, m2, freed) == Turn::At(0, 3, m3, freed));
    let to = if c == IMMORTAL {
        2usize
    } else {
        3usize
    };
    assert(turned(insts, 0, 3, m3, freed) == Turn::At(to, 0, m3, freed));
    let mid = Turn::At(to, 0, m3, freed);
    assert(turns(insts, start, 4) == mid) by {
        reveal_with_fuel(turns, 5);
    }
    if c == IMMORTAL {
        4
    } else {
        law_turns_pass(insts, 3, 0, 4, m3, freed);
        law_turns_add_up(insts, start, 4, 4);
        law_wrapped(c - 1);
        let m4 = given(m3, 4, Datum::Word((c - 1) as i64));
        let m5 = kept(m4, h as int, (c - 1) as i64);
        let m6 = given(m5, 6, Datum::Truth(c - 1 <= 0));
        assert(turned(insts, 3, 4, m3, freed) == Turn::At(3, 5, m4, freed));
        assert(turned(insts, 3, 5, m4, freed) == Turn::At(3, 6, m5, freed));
        assert(turned(insts, 3, 6, m5, freed) == Turn::At(3, 7, m6, freed));
        let b = if c == 1 {
            1usize
        } else {
            2usize
        };
        assert(turned(insts, 3, 7, m6, freed) == Turn::At(b, 0, m6, freed));
        let from = Turn::At(3, 4, m3, freed);
        assert(turns(insts, from, 4) == Turn::At(b, 0, m6, freed)) by {
            reveal_with_fuel(turns, 5);
        }
        law_turns_add_up(insts, start, 8, 4);
        12
    }
}

/// Code that lets go of what a value owns: it stands in the current block or in new
/// ones, and frees nothing itself.
pub open spec fn lets_go(s: CgV, t: CgV) -> bool {
    &&& s.m.func.insts.is_prefix_of(t.m.func.insts)
    &&& s.m.func.blocks.len() <= t.m.func.blocks.len()
    &&& t.types == s.types
    &&& t.m.done == s.m.done
    &&& t.m.func.name == s.m.func.name
    &&& t.m.func.blocks.len() <= usize::MAX ==> {
        &&& t.m.at == s.m.at || t.m.at >= s.m.func.blocks.len()
        &&& forall|b: int|
            0 <= b < s.m.func.blocks.len() && b != s.m.at ==> #[trigger] t.m.func.blocks[b]
                == s.m.func.blocks[b]
        &&& forall|i: int|
            s.m.func.insts.len() <= i < t.m.func.insts.len() ==> {
                let x = #[trigger] t.m.func.insts[i];
                &&& x.block == s.m.at || x.block >= s.m.func.blocks.len()
                &&& x.op matches OpV::Run(name, _) ==> name != "free"@
            }
    }
}

proof fn lemma_lets_go_chain(s: CgV, t: CgV, u: CgV)
    requires
        lets_go(s, t),
        lets_go(t, u),
    ensures
        lets_go(s, u),
{
    if u.m.func.blocks.len() <= usize::MAX {
        assert forall|i: int| s.m.func.insts.len() <= i < u.m.func.insts.len() implies {
            let x = #[trigger] u.m.func.insts[i];
            &&& x.block == s.m.at || x.block >= s.m.func.blocks.len()
            &&& x.op matches OpV::Run(name, _) ==> name != "free"@
        } by {
            if i < t.m.func.insts.len() {
                assert(u.m.func.insts[i] == t.m.func.insts[i]);
            }
        }
        assert forall|b: int| 0 <= b < s.m.func.blocks.len() && b != s.m.at implies
            #[trigger] u.m.func.blocks[b] == s.m.func.blocks[b] by {
            assert(t.m.func.blocks[b] == s.m.func.blocks[b]);
        }
    }
}

proof fn lemma_put_lets_go(s: CgV, t: CgV, op: OpV, name: Seq<char>)
    requires
        lets_go(s, t),
        op matches OpV::Run(f, _) ==> f != "free"@,
    ensures
        lets_go(s, t.emit(op, name).0),
{
    lemma_blocks(t, op, name, 0, arbitrary());
    assert(lets_go(t, t.emit(op, name).0));
    lemma_lets_go_chain(s, t, t.emit(op, name).0);
}

/// A new block: code may go on in it.
proof fn lemma_block_lets_go(s: CgV, t: CgV, name: Seq<char>)
    requires
        lets_go(s, t),
    ensures
        lets_go(s, t.block(name).0),
        t.block(name).0.m.func.blocks.len() <= usize::MAX ==> t.block(name).1
            >= s.m.func.blocks.len(),
{
    lemma_blocks(t, OpV::Unreachable, name, 0, arbitrary());
}

proof fn lemma_position_lets_go(s: CgV, t: CgV, b: usize)
    requires
        lets_go(s, t),
        t.m.func.blocks.len() <= usize::MAX ==> b >= s.m.func.blocks.len(),
    ensures
        lets_go(s, t.position(b)),
{
    lemma_blocks(t, OpV::Unreachable, ""@, b, arbitrary());
}

proof fn lemma_not_free(ty: TypeV)
    ensures
        release_name(ty) != "free"@,
{
    reveal_strlit("free");
    reveal_strlit("zarrin.release.");
    assert("free"@[0] == 'f');
    assert(release_name(ty)[0] == 'z');
}

proof fn lemma_word_lets_go(s: CgV, t: CgV, place: Val, ty: TypeV)
    requires
        lets_go(s, t),
    ensures
        lets_go(s, release_word(t, place, ty)),
        release_word(t, place, ty).m.at == t.m.at,
        release_word(t, place, ty).m.func.blocks == t.m.func.blocks,
{
    if managed(t.types, ty) {
        lemma_put_lets_go(s, t, OpV::Load(Ty::Word, place), "held"@);
        lemma_blocks(t, OpV::Load(Ty::Word, place), "held"@, 0, arbitrary());
        let (a, raw) = t.emit(OpV::Load(Ty::Word, place), "held"@);
        lemma_blocks(a, OpV::Cast(Cast::WordToPtr, raw), "heldp"@, 0, arbitrary());
        lemma_put_lets_go(s, a, OpV::Cast(Cast::WordToPtr, raw), "heldp"@);
        let (b, p) = a.emit(OpV::Cast(Cast::WordToPtr, raw), "heldp"@);
        lemma_wanted_state(b, ty);
        lemma_not_free(ty);
        let c = b.want_release(ty);
        assert(lets_go(s, c));
        lemma_blocks(
            c,
            OpV::Run(release_name(ty), Seq::empty().push(p)),
            ""@,
            0,
            arbitrary(),
        );
        lemma_put_lets_go(s, c, OpV::Run(release_name(ty), Seq::empty().push(p)), ""@);
    }
}

proof fn lemma_fields_let_go(s: CgV, t: CgV, fields: Seq<(Seq<char>, TypeV)>, i: int)
    requires
        lets_go(s, t),
    ensures
        lets_go(s, release_fields(t, fields, i)),
        release_fields(t, fields, i).m.at == t.m.at,
        release_fields(t, fields, i).m.func.blocks == t.m.func.blocks,
    decreases fields.len() - i,
{
    if i < fields.len() {
        let op = OpV::Offset(Ty::Word, Val::Param(0), Val::Word(i as i64));
        lemma_put_lets_go(s, t, op, "field"@);
        lemma_blocks(t, op, "field"@, 0, arbitrary());
        let (a, place) = t.emit(op, "field"@);
        lemma_word_lets_go(s, a, place, fields[i].1);
        lemma_fields_let_go(s, release_word(a, place, fields[i].1), fields, i + 1);
    }
}

proof fn lemma_payload_lets_go(s: CgV, t: CgV, payload: Seq<TypeV>, i: int)
    requires
        lets_go(s, t),
    ensures
        lets_go(s, release_payload(t, payload, i)),
    decreases payload.len() - i,
{
    if i < payload.len() {
        let op = OpV::Offset(Ty::Word, Val::Param(0), Val::Word((i + 1) as i64));
        lemma_put_lets_go(s, t, op, "payload"@);
        let (a, place) = t.emit(op, "payload"@);
        lemma_word_lets_go(s, a, place, payload[i]);
        lemma_payload_lets_go(s, release_word(a, place, payload[i]), payload, i + 1);
    }
}

/// What lets go in blocks of its own grows.
proof fn lemma_grown(s: CgV, t: CgV, payload: Seq<TypeV>)
    ensures
        t.m.func.blocks.len() <= release_payload(t, payload, 0).m.func.blocks.len(),
{
    assert(lets_go(t, t));
    lemma_payload_lets_go(t, t, payload, 0);
}

proof fn lemma_variants_let_go(
    s: CgV,
    t: CgV,
    ty: TypeV,
    vs: Seq<VariantV>,
    tag: Val,
    after: usize,
    i: int,
)
    requires
        lets_go(s, t),
    ensures
        lets_go(s, release_variants(t, ty, vs, tag, after, i)),
        t.m.func.blocks.len() <= release_variants(t, ty, vs, tag, after, i).m.func.blocks.len(),
    decreases vs.len() - i,
{
    if i < vs.len() {
        lemma_block_lets_go(s, t, "drop_variant"@);
        let (a, hit) = t.block("drop_variant"@);
        lemma_block_lets_go(s, a, "not_variant"@);
        let (b, miss) = a.block("not_variant"@);
        lemma_blocks(t, OpV::Unreachable, "drop_variant"@, 0, arbitrary());
        lemma_blocks(a, OpV::Unreachable, "not_variant"@, 0, arbitrary());
        let test = OpV::Compare(Cond::Eq, tag, tag_val(vs[i]));
        lemma_put_lets_go(s, b, test, "is_v"@);
        lemma_blocks(b, test, "is_v"@, 0, arbitrary());
        let (c, is_v) = b.emit(test, "is_v"@);
        let br = OpV::Branch(is_v, hit, miss);
        lemma_put_lets_go(s, c, br, ""@);
        lemma_blocks(c, br, ""@, 0, arbitrary());
        let d = c.emit(br, ""@).0;
        lemma_position_lets_go(s, d, hit);
        lemma_blocks(d, br, ""@, hit, arbitrary());
        let e = d.position(hit);
        lemma_payload_lets_go(s, e, payload_types(vs[i], ty), 0);
        lemma_grown(s, e, payload_types(vs[i], ty));
        let f = release_payload(e, payload_types(vs[i], ty), 0);
        lemma_put_lets_go(s, f, OpV::Jump(after), ""@);
        lemma_blocks(f, OpV::Jump(after), ""@, 0, arbitrary());
        let g = f.emit(OpV::Jump(after), ""@).0;
        lemma_position_lets_go(s, g, miss);
        lemma_blocks(g, br, ""@, miss, arbitrary());
        lemma_variants_let_go(s, g.position(miss), ty, vs, tag, after, i + 1);
    }
}

#[verifier::rlimit(40)]
proof fn lemma_elements_let_go(s: CgV, el: TypeV)
    ensures
        lets_go(s, release_elements(s, el)),
        release_elements(s, el).m.func.blocks.len() <= usize::MAX && !s.left() ==> !release_elements(
            s,
            el,
        ).left(),
{
    let x = OpV::Unreachable;
    assert(lets_go(s, s));
    lemma_left(s);
    lemma_block_lets_go(s, s, "elems"@);
    lemma_blocks(s, x, "elems"@, 0, arbitrary());
    let (a, head) = s.block("elems"@);
    lemma_block_lets_go(s, a, "elem"@);
    lemma_blocks(a, x, "elem"@, 0, arbitrary());
    let (b, body) = a.block("elem"@);
    lemma_block_lets_go(s, b, "elems_done"@);
    lemma_blocks(b, x, "elems_done"@, 0, arbitrary());
    let (c, out) = b.block("elems_done"@);
    let op = OpV::Load(Ty::Word, Val::Param(0));
    lemma_put_lets_go(s, c, op, "len"@);
    lemma_blocks(c, op, "len"@, 0, arbitrary());
    let (d, len) = c.emit(op, "len"@);
    lemma_slot_state(d, "i"@);
    let (e, at) = d.slot(Room::Word, "i"@);
    assert(lets_go(s, e));
    let op1 = OpV::Store(at, Val::Word(1));
    lemma_put_lets_go(s, e, op1, ""@);
    lemma_blocks(e, op1, ""@, 0, arbitrary());
    let f = e.emit(op1, ""@).0;
    lemma_put_lets_go(s, f, OpV::Jump(head), ""@);
    lemma_blocks(f, OpV::Jump(head), ""@, 0, arbitrary());
    let g = f.emit(OpV::Jump(head), ""@).0;
    lemma_position_lets_go(s, g, head);
    lemma_blocks(g, x, ""@, head, arbitrary());
    let h = g.position(head);
    let op2 = OpV::Load(Ty::Word, at);
    lemma_put_lets_go(s, h, op2, "iv"@);
    lemma_blocks(h, op2, "iv"@, 0, arbitrary());
    let (j, i) = h.emit(op2, "iv"@);
    let op3 = OpV::Compare(Cond::Le, i, len);
    lemma_put_lets_go(s, j, op3, "more"@);
    lemma_blocks(j, op3, "more"@, 0, arbitrary());
    let (k, more) = j.emit(op3, "more"@);
    let op4 = OpV::Branch(more, body, out);
    lemma_put_lets_go(s, k, op4, ""@);
    lemma_blocks(k, op4, ""@, 0, arbitrary());
    let l = k.emit(op4, ""@).0;
    lemma_position_lets_go(s, l, body);
    lemma_blocks(l, x, ""@, body, arbitrary());
    let m = l.position(body);
    let op5 = OpV::Offset(Ty::Word, Val::Param(0), i);
    lemma_put_lets_go(s, m, op5, "slot"@);
    lemma_blocks(m, op5, "slot"@, 0, arbitrary());
    let (n, place) = m.emit(op5, "slot"@);
    lemma_word_lets_go(s, n, place, el);
    assert(lets_go(n, n));
    lemma_word_lets_go(n, n, place, el);
    let o = release_word(n, place, el);
    assert(c.m.func.blocks.len() == s.m.func.blocks.len() + 3);
    assert(n.m.func.blocks.len() == c.m.func.blocks.len());
    if c.m.func.blocks.len() <= usize::MAX && !s.left() {
        assert(head == s.m.func.blocks.len() && body == head + 1 && out == head + 2);
        assert(!c.m.func.blocks[out as int].1);
        assert(!h.m.func.blocks[out as int].1);
        assert(!n.m.func.blocks[out as int].1);
    }
    let op6 = OpV::Arith(Arith::Add, i, Val::Word(1));
    lemma_put_lets_go(s, o, op6, "i1"@);
    lemma_blocks(o, op6, "i1"@, 0, arbitrary());
    let (p, next) = o.emit(op6, "i1"@);
    let op7 = OpV::Store(at, next);
    lemma_put_lets_go(s, p, op7, ""@);
    lemma_blocks(p, op7, ""@, 0, arbitrary());
    let q = p.emit(op7, ""@).0;
    lemma_put_lets_go(s, q, OpV::Jump(head), ""@);
    lemma_blocks(q, OpV::Jump(head), ""@, 0, arbitrary());
    let r = q.emit(OpV::Jump(head), ""@).0;
    lemma_position_lets_go(s, r, out);
    lemma_blocks(r, x, ""@, out, arbitrary());
    lemma_left(r.position(out));
}

proof fn lemma_children_let_go(s: CgV, ty: TypeV)
    ensures
        lets_go(s, gen_release_children(s, ty)),
        gen_release_children(s, ty).m.func.blocks.len() <= usize::MAX && !s.left()
            ==> !gen_release_children(s, ty).left(),
{
    assert(lets_go(s, s));
    lemma_left(s);
    lemma_left(gen_release_children(s, ty));
    match ty {
        TypeV::Array(el) => lemma_elements_let_go(s, *el),
        TypeV::Named(n, _) => match fields_of(s.types, n) {
            Some(fields) => lemma_fields_let_go(s, s, fields, 0),
            None => {
                lemma_block_lets_go(s, s, "variant_done"@);
                lemma_blocks(s, OpV::Unreachable, "variant_done"@, 0, arbitrary());
                let (a, after) = s.block("variant_done"@);
                let op = OpV::Load(Ty::Word, Val::Param(0));
                lemma_put_lets_go(s, a, op, "tag"@);
                lemma_blocks(a, op, "tag"@, 0, arbitrary());
                let (b, tag) = a.emit(op, "tag"@);
                let vs = variants_in(b.types, n);
                lemma_variants_let_go(s, b, ty, vs, tag, after, 0);
                assert(lets_go(b, b));
                lemma_variants_let_go(b, b, ty, vs, tag, after, 0);
                let c = release_variants(b, ty, vs, tag, after, 0);
                lemma_put_lets_go(s, c, OpV::Jump(after), ""@);
                lemma_blocks(c, OpV::Jump(after), ""@, 0, arbitrary());
                let d = c.emit(OpV::Jump(after), ""@).0;
                lemma_position_lets_go(s, d, after);
                lemma_blocks(d, OpV::Unreachable, ""@, after, arbitrary());
            },
        },
        _ => {},
    }
}

/// The end of the release function: the only place in it that frees, and what it frees
/// is the allocation, which starts at the count; and then the only place that returns.
pub open spec fn frees_once(insts: Seq<InstV>, j: int) -> bool {
    &&& 8 <= j
    &&& j + 2 < insts.len()
    &&& insts[j].op == OpV::Run("free"@, Seq::empty().push(Val::Reg(0)))
    &&& insts[j + 1].block == insts[j].block
    &&& insts[j + 1].op == OpV::Jump(2)
    &&& insts[j + 2].block == 2
    &&& insts[j + 2].op == OpV::Return(None)
    &&& forall|i: int|
        0 <= i < j + 2 ==> (#[trigger] insts[i]).block != 2 && (i != j ==> (
        insts[i].op matches OpV::Run(name, _) ==> name != "free"@))
}

/// The release function of every type treats counts so, and where no owner is left, it
/// frees the value once, after it has let go of what the value owns.
#[verifier::rlimit(40)]
pub proof fn law_release_is_made(s: CgV, ty: TypeV) -> (j: int)
    requires
        gen_release_children(release_head(s, ty), ty).m.func.blocks.len() <= usize::MAX,
    ensures
        ({
            let done = make_release(s, ty).m.done;
            &&& done.len() > 0
            &&& done.last().name == release_name(ty)
            &&& releases(done.last().insts)
            &&& frees_once(done.last().insts, j)
        }),
{
    lemma_release_head(s, ty);
    let s1 = release_head(s, ty);
    lemma_left(s1);
    lemma_children_let_go(s1, ty);
    let s2 = gen_release_children(s1, ty);
    let j = s2.m.func.insts.len() as int;
    lemma_left(s2);
    let free = OpV::Run("free"@, Seq::empty().push(Val::Reg(0)));
    lemma_blocks(s2, free, ""@, 0, arbitrary());
    let s3 = s2.emit(free, ""@).0;
    lemma_blocks(s3, OpV::Jump(2), ""@, 0, arbitrary());
    let s4 = s3.emit(OpV::Jump(2), ""@).0;
    lemma_blocks(s4, free, ""@, 2, arbitrary());
    let s5 = s4.position(2);
    assert(s2.m.func.blocks[2] == s1.m.func.blocks[2]);
    assert(s2.m.at != 2);
    lemma_blocks(s5, OpV::Return(None), ""@, 0, arbitrary());
    let s6 = s5.emit(OpV::Return(None), ""@).0;
    lemma_function(s6, ""@, Seq::empty(), false);
    lemma_seal_keeps_code(s6.m.func, 0);
    let f = s6.m.func.seal(0);
    assert(make_release(s, ty) == s6.finish());
    assert(make_release(s, ty).m.done.last() == f);
    assert forall|i: int| 0 <= i < j + 3 implies #[trigger] f.insts[i] == s6.m.func.insts[i] by {}
    assert forall|i: int| 0 <= i < 8 implies (#[trigger] f.insts[i]).block == release_ops()[i].0
        && f.insts[i].op == release_ops()[i].1 by {
        assert(s6.m.func.insts[i] == s1.m.func.insts[i]);
    }
    assert forall|i: int| 0 <= i < j + 2 implies (#[trigger] f.insts[i]).block != 2 && (i != j
        ==> (f.insts[i].op matches OpV::Run(name, _) ==> name != "free"@)) by {
        if i < 8 {
            assert(s6.m.func.insts[i] == s1.m.func.insts[i]);
        } else if i < j {
            assert(s6.m.func.insts[i] == s2.m.func.insts[i]);
        }
    }
    law_finish_keeps_signature(s6.m);
    j
}

/// Where a release ends: nothing more is freed once the block that returns is reached,
/// and the value's allocation is freed, once, where the code that lets go of it is done.
pub proof fn law_release_ends(
    insts: Seq<InstV>,
    j: int,
    mem: Memory,
    freed: Seq<i64>,
    h: i64,
) -> (k: (nat, nat))
    requires
        frees_once(insts, j),
    ensures
        turns(insts, Turn::At(2, 0, mem, freed), k.0) == Turn::Returned(mem, freed),
        mem.regs.contains_key(0) && mem.regs[0] == Datum::Word(h) ==> turns(
            insts,
            Turn::At(insts[j].block, j, mem, freed),
            k.1,
        ) == Turn::Returned(mem, freed.push(h)),
{
    let end = (j + 2) as nat;
    let from = Turn::At(2, 0, mem, freed);
    law_turns_pass(insts, 2, 0, j + 2, mem, freed);
    let ret = Turn::At(2, j + 2, mem, freed);
    assert(turns(insts, ret, 1) == Turn::Returned(mem, freed)) by {
        reveal_with_fuel(turns, 2);
    }
    law_turns_add_up(insts, from, end, 1);
    let b = insts[j].block;
    let more = freed.push(h);
    let start = Turn::At(b, j, mem, freed);
    if mem.regs.contains_key(0) && mem.regs[0] == Datum::Word(h) {
        reveal_strlit("free");
        reveal_strlit("zarrin.abort");
        assert("free"@.len() == 4 && "zarrin.abort"@.len() == 12);
        assert(turned(insts, b, j, mem, freed) == Turn::At(b, j + 1, mem, more));
        assert(turned(insts, b, j + 1, mem, more) == Turn::At(2, 0, mem, more));
        assert(turns(insts, start, 2) == Turn::At(2, 0, mem, more)) by {
            reveal_with_fuel(turns, 3);
        }
        law_turns_pass(insts, 2, 0, j + 2, mem, more);
        assert(turns(insts, Turn::At(2, j + 2, mem, more), 1) == Turn::Returned(mem, more)) by {
            reveal_with_fuel(turns, 2);
        }
        law_turns_add_up(insts, Turn::At(2, 0, mem, more), end, 1);
        law_turns_add_up(insts, start, 2, end + 1);
    }
    (end + 1, 2 + end + 1)
}

// ---- what stays in a module ----

/// The functions of the runtime are added to a module.
#[verifier::rlimit(100)]
pub proof fn lemma_runtime_grows(s: CgV)
    ensures
        module_grows(s, make_abort(s)),
        module_grows(s, make_retain(s)),
        module_grows(s, make_chars(s)),
        module_grows(s, make_char_start(s)),
        module_grows(s, make_blank(s)),
        module_grows(s, make_skipped(s)),
{
    broadcast use group_module_keeps;

}

#[verifier::rlimit(100)]
pub proof fn lemma_float_grows(s: CgV)
    ensures
        module_grows(s, make_float(s)),
{
    broadcast use group_module_keeps;

}

#[verifier::rlimit(100)]
pub proof fn lemma_trimmed_grows(s: CgV)
    ensures
        module_grows(s, make_trimmed(s)),
{
    broadcast use group_module_keeps;

}

#[verifier::rlimit(100)]
pub proof fn lemma_split_grows(s: CgV)
    ensures
        module_grows(s, make_split(s)),
{
    broadcast use group_module_keeps;

}

proof fn lemma_append_grows(s: CgV, len: Val, t: Seq<char>)
    ensures
        module_grows(s, append_known(s, len, t)),
{
    broadcast use group_module_keeps;

}

#[verifier::rlimit(100)]
proof fn lemma_append_value_grows(s: CgV, len: Val, word: Val, ty: TypeV)
    ensures
        module_grows(s, append_value(s, len, word, ty)),
{
    broadcast use group_module_keeps;

}

#[verifier::rlimit(60)]
proof fn lemma_show_fields_grows(s: CgV, len: Val, fields: Seq<(Seq<char>, TypeV)>, i: int)
    ensures
        module_grows(s, show_fields(s, len, fields, i)),
    decreases fields.len() - i,
{
    broadcast use {group_module_keeps, lemma_append_known_keeps, lemma_append_value_keeps};

    if i < fields.len() {
        let s = append_known(s, len, field_lead_text(i, fields[i].0));
        let (s, obj) = s.emit(OpV::Cast(Cast::WordToPtr, Val::Param(2)), "obj"@);
        let (s, place) = s.emit(OpV::Offset(Ty::Word, obj, Val::Word(i as i64)), "field"@);
        let (s, raw) = s.emit(OpV::Load(Ty::Word, place), "fieldv"@);
        let s = append_value(s, len, raw, fields[i].1);
        lemma_show_fields_grows(s, len, fields, i + 1);
    }
}

#[verifier::rlimit(60)]
proof fn lemma_show_payload_grows(s: CgV, len: Val, payload: Seq<TypeV>, i: int)
    ensures
        module_grows(s, show_payload(s, len, payload, i)),
    decreases payload.len() - i,
{
    broadcast use {group_module_keeps, lemma_append_known_keeps, lemma_append_value_keeps};

    if i < payload.len() {
        let s = if i > 0 {
            let s = append_known(s, len, ", "@);
            s
        } else {
            s
        };
        let (s, p) = s.emit(OpV::Cast(Cast::WordToPtr, Val::Param(2)), "enum_p"@);
        let (s, place) = s.emit(OpV::Offset(Ty::Word, p, Val::Word((i + 1) as i64)), "payload"@);
        let (s, raw) = s.emit(OpV::Load(Ty::Word, place), "payload_v"@);
        let s = append_value(s, len, raw, payload[i]);
        lemma_show_payload_grows(s, len, payload, i + 1);
    }
}

#[verifier::rlimit(60)]
proof fn lemma_show_variants_grows(
    s: CgV,
    len: Val,
    ty: TypeV,
    vs: Seq<VariantV>,
    tag: Val,
    done: usize,
    i: int,
)
    ensures
        module_grows(s, show_variants(s, len, ty, vs, tag, done, i)),
    decreases vs.len() - i,
{
    broadcast use {group_module_keeps, lemma_append_known_keeps};

    if i < vs.len() {
        assert forall|t: CgV|
            module_grows(t, #[trigger] show_payload(t, len, payload_types(vs[i], ty), 0)) by {
            lemma_show_payload_grows(t, len, payload_types(vs[i], ty), 0);
        }
        let (s, case) = s.block("enum_is"@);
        let (s, next) = s.block("enum_not"@);
        let (s, hit) = s.emit(OpV::Compare(Cond::Eq, tag, tag_val(vs[i])), "is_variant"@);
        let s = s.emit(OpV::Branch(hit, case, next), ""@).0;
        let s = s.position(case);
        let s = append_known(s, len, vs[i].name);
        let s = if payload_types(vs[i], ty).len() > 0 {
            let s = append_known(s, len, "("@);
            let s = show_payload(s, len, payload_types(vs[i], ty), 0);
            let s = append_known(s, len, ")"@);
            s
        } else {
            s
        };
        let s = s.emit(OpV::Jump(done), ""@).0;
        let s = s.position(next);
        lemma_show_variants_grows(s, len, ty, vs, tag, done, i + 1);
    }
}

broadcast proof fn lemma_append_known_keeps(s: CgV, len: Val, t: Seq<char>)
    ensures
        module_grows(s, #[trigger] append_known(s, len, t)),
{
    lemma_append_grows(s, len, t);
}

broadcast proof fn lemma_append_value_keeps(s: CgV, len: Val, word: Val, ty: TypeV)
    ensures
        module_grows(s, #[trigger] append_value(s, len, word, ty)),
{
    lemma_append_value_grows(s, len, word, ty);
}

/// The function that shows values of a type is added to a module.
#[verifier::rlimit(100)]
pub proof fn lemma_show_grows(s: CgV, ty: TypeV)
    ensures
        module_grows(s, make_show(s, ty)),
{
    broadcast use {group_module_keeps, lemma_append_known_keeps, lemma_append_value_keeps};

    match ty {
        TypeV::Named(n, _) => {
            assert forall|t: CgV, len: Val, fields: Seq<(Seq<char>, TypeV)>|
                module_grows(t, #[trigger] show_fields(t, len, fields, 0)) by {
                lemma_show_fields_grows(t, len, fields, 0);
            }
            assert forall|t: CgV, len: Val, vs: Seq<VariantV>, tag: Val, done: usize|
                module_grows(t, #[trigger] show_variants(t, len, ty, vs, tag, done, 0)) by {
                lemma_show_variants_grows(t, len, ty, vs, tag, done, 0);
            }
        },
        _ => {},
    }
}

broadcast proof fn lemma_release_word_keeps(s: CgV, place: Val, ty: TypeV)
    ensures
        module_grows(s, #[trigger] release_word(s, place, ty)),
{
    broadcast use group_module_keeps;

}

proof fn lemma_release_fields_grows(s: CgV, fields: Seq<(Seq<char>, TypeV)>, i: int)
    ensures
        module_grows(s, release_fields(s, fields, i)),
    decreases fields.len() - i,
{
    broadcast use {group_module_keeps, lemma_release_word_keeps};

    if i < fields.len() {
        let (s, place) = s.emit(OpV::Offset(Ty::Word, Val::Param(0), Val::Word(i as i64)), "field"@);
        let s = release_word(s, place, fields[i].1);
        lemma_release_fields_grows(s, fields, i + 1);
    }
}

proof fn lemma_release_payload_grows(s: CgV, payload: Seq<TypeV>, i: int)
    ensures
        module_grows(s, release_payload(s, payload, i)),
    decreases payload.len() - i,
{
    broadcast use {group_module_keeps, lemma_release_word_keeps};

    if i < payload.len() {
        let (s, place) = s.emit(OpV::Offset(Ty::Word, Val::Param(0), Val::Word((i + 1) as i64)), "payload"@);
        let s = release_word(s, place, payload[i]);
        lemma_release_payload_grows(s, payload, i + 1);
    }
}

proof fn lemma_release_variants_grows(
    s: CgV,
    ty: TypeV,
    vs: Seq<VariantV>,
    tag: Val,
    after: usize,
    i: int,
)
    ensures
        module_grows(s, release_variants(s, ty, vs, tag, after, i)),
    decreases vs.len() - i,
{
    broadcast use group_module_keeps;

    if i < vs.len() {
        assert forall|t: CgV|
            module_grows(t, #[trigger] release_payload(t, payload_types(vs[i], ty), 0)) by {
            lemma_release_payload_grows(t, payload_types(vs[i], ty), 0);
        }
        let (s, hit) = s.block("drop_variant"@);
        let (s, miss) = s.block("not_variant"@);
        let (s, is_v) = s.emit(OpV::Compare(Cond::Eq, tag, tag_val(vs[i])), "is_v"@);
        let s = s.emit(OpV::Branch(is_v, hit, miss), ""@).0;
        let s = s.position(hit);
        let s = release_payload(s, payload_types(vs[i], ty), 0);
        let s = s.emit(OpV::Jump(after), ""@).0;
        let s = s.position(miss);
        lemma_release_variants_grows(s, ty, vs, tag, after, i + 1);
    }
}

/// The function that lets go of values of a type is added to a module.
#[verifier::rlimit(100)]
pub proof fn lemma_release_grows(s: CgV, ty: TypeV)
    ensures
        module_grows(s, make_release(s, ty)),
{
    broadcast use {group_module_keeps, lemma_release_word_keeps};

    match ty {
        TypeV::Named(n, _) => {
            assert forall|t: CgV, fields: Seq<(Seq<char>, TypeV)>|
                module_grows(t, #[trigger] release_fields(t, fields, 0)) by {
                lemma_release_fields_grows(t, fields, 0);
            }
            assert forall|t: CgV, vs: Seq<VariantV>, tag: Val, after: usize|
                module_grows(t, #[trigger] release_variants(t, ty, vs, tag, after, 0)) by {
                lemma_release_variants_grows(t, ty, vs, tag, after, 0);
            }
        },
        _ => {},
    }
}

// ---- the texts of values in native code ----

/// The constant texts that the text of a value of a type is written with: a number and a
/// string by their formats, a truth value by its words.
pub open spec fn formats(ty: TypeV) -> Seq<Seq<char>> {
    match ty {
        TypeV::Float => seq!["%s"@],
        TypeV::Bool => seq!["true"@, "false"@, "%s"@],
        TypeV::String => seq!["%s"@],
        TypeV::Unit => seq!["%s"@, "()"@],
        TypeV::Range => seq!["%ld..%ld"@],
        TypeV::Array(_) => Seq::empty(),
        TypeV::Named(_, _) => Seq::empty(),
        _ => seq!["%ld"@],
    }
}

/// A known text is written as it is.
pub open spec fn known(t: Seq<char>) -> Seq<Seq<char>> {
    seq!["%s"@, t]
}

broadcast proof fn lemma_known_texts(s: CgV, len: Val, t: Seq<char>)
    ensures
        (#[trigger] append_known(s, len, t)).m.texts == s.m.texts + known(t),
{
    broadcast use group_module_keeps;

    assert(append_known(s, len, t).m.texts =~= s.m.texts + known(t));
}

/// The code that writes the text of a value uses the texts that belong to its type.
pub broadcast proof fn law_value_formats(s: CgV, len: Val, word: Val, ty: TypeV)
    ensures
        (#[trigger] append_value(s, len, word, ty)).m.texts == s.m.texts + formats(ty),
{
    broadcast use group_module_keeps;
    broadcast use lemma_known_texts;

    assert(append_value(s, len, word, ty).m.texts =~= s.m.texts + formats(ty));
}

/// The text of an array: a bracket, its elements with a comma and a space before all but
/// the first, and a bracket.
pub proof fn law_array_text(s: CgV, len: Val, el: TypeV)
    ensures
        show_array(s, len, el).m.texts == s.m.texts + known("["@) + known(", "@) + formats(el)
            + known("]"@),
{
    broadcast use group_module_keeps;
    broadcast use lemma_known_texts;
    broadcast use law_value_formats;

}

/// The texts of fields, from the `i`th on: each with its name, and a comma and a space
/// before all but the first.
pub open spec fn field_texts(fields: Seq<(Seq<char>, TypeV)>, i: int) -> Seq<Seq<char>>
    decreases fields.len() - i,
{
    if i < 0 || i >= fields.len() {
        Seq::empty()
    } else {
        known(
            if i > 0 {
                ", "@ + fields[i].0 + ": "@
            } else {
                fields[i].0 + ": "@
            },
        ) + formats(fields[i].1) + field_texts(fields, i + 1)
    }
}

pub proof fn law_field_texts(s: CgV, len: Val, fields: Seq<(Seq<char>, TypeV)>, i: int)
    requires
        0 <= i,
    ensures
        show_fields(s, len, fields, i).m.texts == s.m.texts + field_texts(fields, i),
    decreases fields.len() - i,
{
    broadcast use group_module_keeps;
    broadcast use lemma_known_texts;
    broadcast use law_value_formats;

    if i < fields.len() {
        let lead = field_lead_text(i, fields[i].0);
        let s1 = append_known(s, len, lead);
        let (s2, obj) = s1.emit(OpV::Cast(Cast::WordToPtr, Val::Param(2)), "obj"@);
        let (s3, place) = s2.emit(OpV::Offset(Ty::Word, obj, Val::Word(i as i64)), "field"@);
        let (s4, raw) = s3.emit(OpV::Load(Ty::Word, place), "fieldv"@);
        let s5 = append_value(s4, len, raw, fields[i].1);
        law_field_texts(s5, len, fields, i + 1);
        assert(show_fields(s, len, fields, i) == show_fields(s5, len, fields, i + 1));
        assert(s.m.texts + known(lead) + formats(fields[i].1) + field_texts(fields, i + 1)
            =~= s.m.texts + (known(lead) + formats(fields[i].1) + field_texts(fields, i + 1)));
    } else {
        assert(s.m.texts + Seq::<Seq<char>>::empty() =~= s.m.texts);
    }
}

/// The texts of what a variant carries, from the `i`th value on.
pub open spec fn payload_texts(payload: Seq<TypeV>, i: int) -> Seq<Seq<char>>
    decreases payload.len() - i,
{
    if i < 0 || i >= payload.len() {
        Seq::empty()
    } else {
        (if i > 0 {
            known(", "@)
        } else {
            Seq::empty()
        }) + formats(payload[i]) + payload_texts(payload, i + 1)
    }
}

pub proof fn law_payload_texts(s: CgV, len: Val, payload: Seq<TypeV>, i: int)
    requires
        0 <= i,
    ensures
        show_payload(s, len, payload, i).m.texts == s.m.texts + payload_texts(payload, i),
    decreases payload.len() - i,
{
    broadcast use group_module_keeps;
    broadcast use lemma_known_texts;
    broadcast use law_value_formats;

    if i < payload.len() {
        let lead = if i > 0 {
            known(", "@)
        } else {
            Seq::empty()
        };
        let s1 = if i > 0 {
            append_known(s, len, ", "@)
        } else {
            s
        };
        assert(s1.m.texts =~= s.m.texts + lead);
        let (s2, p) = s1.emit(OpV::Cast(Cast::WordToPtr, Val::Param(2)), "enum_p"@);
        let (s3, place) = s2.emit(
            OpV::Offset(Ty::Word, p, Val::Word((i + 1) as i64)),
            "payload"@,
        );
        let (s4, raw) = s3.emit(OpV::Load(Ty::Word, place), "payload_v"@);
        let s5 = append_value(s4, len, raw, payload[i]);
        law_payload_texts(s5, len, payload, i + 1);
        assert(show_payload(s, len, payload, i) == show_payload(s5, len, payload, i + 1));
        assert(s.m.texts + lead + formats(payload[i]) + payload_texts(payload, i + 1)
            =~= s.m.texts + (lead + formats(payload[i]) + payload_texts(payload, i + 1)));
    } else {
        assert(s.m.texts + Seq::<Seq<char>>::empty() =~= s.m.texts);
    }
}

/// The texts of variants, from the `i`th on: each by its name, and with what it carries
/// in parentheses.
pub open spec fn variant_texts(vs: Seq<VariantV>, ty: TypeV, i: int) -> Seq<Seq<char>>
    decreases vs.len() - i,
{
    if i < 0 || i >= vs.len() {
        Seq::empty()
    } else {
        known(vs[i].name) + (if payload_types(vs[i], ty).len() > 0 {
            known("("@) + payload_texts(payload_types(vs[i], ty), 0) + known(")"@)
        } else {
            Seq::empty()
        }) + variant_texts(vs, ty, i + 1)
    }
}

pub proof fn law_variant_texts(
    s: CgV,
    len: Val,
    ty: TypeV,
    vs: Seq<VariantV>,
    tag: Val,
    done: usize,
    i: int,
)
    requires
        0 <= i,
    ensures
        show_variants(s, len, ty, vs, tag, done, i).m.texts == s.m.texts + variant_texts(vs, ty, i),
    decreases vs.len() - i,
{
    broadcast use group_module_keeps;
    broadcast use lemma_known_texts;

    if i < vs.len() {
        let payload = payload_types(vs[i], ty);
        let (s1, case) = s.block("enum_is"@);
        let (s2, next) = s1.block("enum_not"@);
        let (s3, hit) = s2.emit(OpV::Compare(Cond::Eq, tag, tag_val(vs[i])), "is_variant"@);
        let s4 = s3.emit(OpV::Branch(hit, case, next), ""@).0;
        let s5 = s4.position(case);
        let s6 = append_known(s5, len, vs[i].name);
        let inner = if payload.len() > 0 {
            known("("@) + payload_texts(payload, 0) + known(")"@)
        } else {
            Seq::empty()
        };
        let s7 = if payload.len() > 0 {
            let a = append_known(s6, len, "("@);
            law_payload_texts(a, len, payload, 0);
            append_known(show_payload(a, len, payload, 0), len, ")"@)
        } else {
            s6
        };
        assert(s7.m.texts =~= s.m.texts + known(vs[i].name) + inner);
        let s8 = s7.emit(OpV::Jump(done), ""@).0;
        let s9 = s8.position(next);
        law_variant_texts(s9, len, ty, vs, tag, done, i + 1);
        assert(show_variants(s, len, ty, vs, tag, done, i) == show_variants(
            s9,
            len,
            ty,
            vs,
            tag,
            done,
            i + 1,
        ));
        assert(s.m.texts + known(vs[i].name) + inner + variant_texts(vs, ty, i + 1) =~= s.m.texts
            + (known(vs[i].name) + inner + variant_texts(vs, ty, i + 1)));
    } else {
        assert(s.m.texts + Seq::<Seq<char>>::empty() =~= s.m.texts);
    }
}

/// Two strings are put together by copying the first, and the second with its end behind
/// it, into new space for both.
pub proof fn law_concat_code(s: CgV, a: Val, b: Val)
    requires
        open_here(s),
        !s.transient,
        s.m.func.insts.len() + 12 <= usize::MAX,
    ensures
        ({
            let n = s.m.func.insts.len() as int;
            let (t, r) = gen_string_concat(s, a, b);
            let insts = t.m.func.insts;
            let reg = |k: int| Val::Reg((n + k) as usize);
            &&& insts.len() == n + 12
            &&& insts[n].op == OpV::Call(Ty::Word, "strlen"@, seq![a])
            &&& insts[n + 1].op == OpV::Call(Ty::Word, "strlen"@, seq![b])
            &&& insts[n + 2].op == OpV::Arith(Arith::Add, reg(0), reg(1))
            &&& insts[n + 3].op == OpV::Arith(Arith::Add, reg(2), Val::Word(1))
            &&& insts[n + 8].op == OpV::Run("memcpy"@, seq![reg(7), a, reg(0)])
            &&& insts[n + 9].op == OpV::Offset(Ty::Byte, reg(7), reg(0))
            &&& insts[n + 10].op == OpV::Arith(Arith::Add, reg(1), Val::Word(1))
            &&& insts[n + 11].op == OpV::Run("memcpy"@, seq![reg(9), b, reg(10)])
            &&& r == reg(7)
        }),
{
    let n = s.m.func.insts.len() as int;
    let o0 = OpV::Call(Ty::Word, "strlen"@, Seq::empty().push(a));
    let (s1, len_a) = s.emit(o0, "len_a"@);
    lemma_plain_emit(s, o0, "len_a"@);
    let o1 = OpV::Call(Ty::Word, "strlen"@, Seq::empty().push(b));
    let (s2, len_b) = s1.emit(o1, "len_b"@);
    lemma_plain_emit(s1, o1, "len_b"@);
    let o2 = OpV::Arith(Arith::Add, len_a, len_b);
    let (s3, total) = s2.emit(o2, "total_len"@);
    lemma_plain_emit(s2, o2, "total_len"@);
    let o3 = OpV::Arith(Arith::Add, total, Val::Word(1));
    let (s4, total1) = s3.emit(o3, "total1"@);
    lemma_plain_emit(s3, o3, "total1"@);
    let o4 = OpV::Arith(Arith::Add, total1, Val::Word(HEADER));
    let (s5, with) = s4.emit(o4, "with_header"@);
    lemma_plain_emit(s4, o4, "with_header"@);
    let o5 = OpV::Call(Ty::Ptr, "malloc"@, Seq::empty().push(with));
    let (s6, base) = s5.emit(o5, "buf"@);
    lemma_plain_emit(s5, o5, "buf"@);
    let o6 = OpV::Store(base, Val::Word(1));
    let s7 = s6.emit(o6, ""@).0;
    lemma_plain_emit(s6, o6, ""@);
    let o7 = OpV::Offset(Ty::Byte, base, Val::Word(HEADER));
    let (s8, buf) = s7.emit(o7, "buf"@);
    lemma_plain_emit(s7, o7, "buf"@);
    assert(scratch_bytes(s4, total1, "buf"@) == (s8, buf));
    let o8 = OpV::Run("memcpy"@, Seq::empty().push(buf).push(a).push(len_a));
    let s9 = s8.emit(o8, ""@).0;
    lemma_plain_emit(s8, o8, ""@);
    let o9 = OpV::Offset(Ty::Byte, buf, len_a);
    let (s10, offset) = s9.emit(o9, "offset"@);
    lemma_plain_emit(s9, o9, "offset"@);
    let o10 = OpV::Arith(Arith::Add, len_b, Val::Word(1));
    let (s11, nb1) = s10.emit(o10, "nb1"@);
    lemma_plain_emit(s10, o10, "nb1"@);
    let o11 = OpV::Run("memcpy"@, Seq::empty().push(offset).push(b).push(nb1));
    let s12 = s11.emit(o11, ""@).0;
    lemma_plain_emit(s11, o11, ""@);
    assert(gen_string_concat(s, a, b) == (s12, buf));
    assert(o0->Call_2 =~= seq![a]);
    assert(o1->Call_2 =~= seq![b]);
    assert(o8->Run_1 =~= seq![buf, a, len_a]);
    assert(o11->Run_1 =~= seq![offset, b, nb1]);
}

/// An instruction that does not leave its block stands at the end of the code.
proof fn lemma_plain_emit(s: CgV, op: OpV, name: Seq<char>)
    requires
        open_here(s),
        !op.leaves(),
    ensures
        s.emit(op, name).0.m.func.insts == s.m.func.insts.push(
            InstV { block: s.m.at, name, op },
        ),
        s.emit(op, name).1 == Val::Reg(s.m.func.insts.len() as usize),
        open_here(s.emit(op, name).0),
        s.emit(op, name).0.transient == s.transient,
        s.emit(op, name).0.m.at == s.m.at,
{
    lemma_blocks(s, op, name, 0, arbitrary());
    law_push_keeps_order(s.m.func, s.m.at, op, name);
}

} // verus!
