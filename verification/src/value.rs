//! Run-time values: how they print, and the operations on them that need
//! nothing from outside.

use crate::ast::{BinOp, UnaryOp};
use crate::names::Model;
use crate::text::{
    cat2, cat3, cat5, chars_of, int_text, int_to_string, join, join_text, nat_text, str_before,
    str_eq, string_of, text_before, texts, wide_to_string,
};
use vstd::prelude::*;

verus! {

/// A value of a running program.
#[derive(Debug)]
pub enum Value {
    Int(i64),
    /// A floating-point number, as the text it prints as. The text names the
    /// number exactly; the host of the interpreter computes with it.
    Float(String),
    Bool(bool),
    Str(String),
    Unit,
    /// Fields in declaration order.
    Struct { name: String, fields: Vec<(String, Value)> },
    EnumVariant { enum_name: String, variant: String, args: Vec<Value> },
    Range(i64, i64),
    Array(Vec<Value>),
}

/// The model of a `Value`.
pub enum ValueV {
    Int(i64),
    Float(Seq<char>),
    Bool(bool),
    Str(Seq<char>),
    Unit,
    Struct { name: Seq<char>, fields: Seq<(Seq<char>, ValueV)> },
    EnumVariant { enum_name: Seq<char>, variant: Seq<char>, args: Seq<ValueV> },
    Range(i64, i64),
    Array(Seq<ValueV>),
}

impl Value {
    pub open spec fn view(&self) -> ValueV
        decreases self,
    {
        match self {
            Value::Int(n) => ValueV::Int(*n),
            Value::Float(t) => ValueV::Float(t@),
            Value::Bool(b) => ValueV::Bool(*b),
            Value::Str(t) => ValueV::Str(t@),
            Value::Unit => ValueV::Unit,
            Value::Struct { name, fields } => ValueV::Struct {
                name: name@,
                fields: slots_view(fields@),
            },
            Value::EnumVariant { enum_name, variant, args } => ValueV::EnumVariant {
                enum_name: enum_name@,
                variant: variant@,
                args: values_view(args@),
            },
            Value::Range(a, b) => ValueV::Range(*a, *b),
            Value::Array(vs) => ValueV::Array(values_view(vs@)),
        }
    }
}

/// The models of a list of values.
pub open spec fn values_view(s: Seq<Value>) -> Seq<ValueV>
    decreases s,
{
    Seq::new(
        s.len(),
        |i: int|
            if 0 <= i < s.len() {
                s[i].view()
            } else {
                arbitrary()
            },
    )
}

/// The models of a list of named values.
pub open spec fn slots_view(s: Seq<(String, Value)>) -> Seq<(Seq<char>, ValueV)>
    decreases s,
{
    Seq::new(
        s.len(),
        |i: int|
            if 0 <= i < s.len() {
                (s[i].0@, s[i].1.view())
            } else {
                arbitrary()
            },
    )
}

pub broadcast proof fn lemma_values_push(s: Seq<Value>, x: Value)
    ensures
        #[trigger] values_view(s.push(x)) == values_view(s).push(x@),
{
    assert(values_view(s.push(x)) =~= values_view(s).push(x@));
}

pub broadcast proof fn lemma_slots_push(s: Seq<(String, Value)>, x: (String, Value))
    ensures
        #[trigger] slots_view(s.push(x)) == slots_view(s).push((x.0@, x.1@)),
{
    assert(slots_view(s.push(x)) =~= slots_view(s).push((x.0@, x.1@)));
}

impl Model for Value {
    type M = ValueV;

    open spec fn model(&self) -> ValueV {
        self@
    }
}

/// The model of an optional value.
pub open spec fn opt_value_view(v: Option<Value>) -> Option<ValueV> {
    match v {
        Some(x) => Some(x@),
        None => None,
    }
}

impl Value {
    /// A copy of the value.
    pub fn dup(&self) -> (r: Self)
        ensures
            r@ == self@,
        decreases self,
    {
        match self {
            Value::Int(n) => Value::Int(*n),
            Value::Float(t) => Value::Float(t.clone()),
            Value::Bool(b) => Value::Bool(*b),
            Value::Str(t) => Value::Str(t.clone()),
            Value::Unit => Value::Unit,
            Value::Struct { name, fields } => Value::Struct {
                name: name.clone(),
                fields: dup_slots(fields),
            },
            Value::EnumVariant { enum_name, variant, args } => Value::EnumVariant {
                enum_name: enum_name.clone(),
                variant: variant.clone(),
                args: dup_values(args),
            },
            Value::Range(a, b) => Value::Range(*a, *b),
            Value::Array(vs) => Value::Array(dup_values(vs)),
        }
    }
}

/// A copy of a list of values.
pub fn dup_values(v: &Vec<Value>) -> (r: Vec<Value>)
    ensures
        values_view(r@) == values_view(v@),
    decreases v,
{
    let mut out: Vec<Value> = Vec::new();
    let mut i: usize = 0;
    while i < v.len()
        invariant
            i <= v@.len(),
            out@.len() == i,
            forall|j: int| 0 <= j < i ==> (#[trigger] out@[j])@ == v@[j]@,
        decreases v@.len() - i,
    {
        out.push(v[i].dup());
        i += 1;
    }
    assert(values_view(out@) =~= values_view(v@));
    out
}

fn dup_slots(v: &Vec<(String, Value)>) -> (r: Vec<(String, Value)>)
    ensures
        slots_view(r@) == slots_view(v@),
    decreases v,
{
    let mut out: Vec<(String, Value)> = Vec::new();
    let mut i: usize = 0;
    while i < v.len()
        invariant
            i <= v@.len(),
            out@.len() == i,
            forall|j: int|
                0 <= j < i ==> (#[trigger] out@[j]).0@ == v@[j].0@ && out@[j].1@ == v@[j].1@,
        decreases v@.len() - i,
    {
        out.push((v[i].0.clone(), v[i].1.dup()));
        i += 1;
    }
    assert(slots_view(out@) =~= slots_view(v@));
    out
}

/// A value the way `print` shows it.
pub open spec fn value_text(v: ValueV) -> Seq<char>
    decreases v,
{
    match v {
        ValueV::Int(n) => int_text(n as int),
        ValueV::Float(t) => t,
        ValueV::Bool(b) => if b {
            "true"@
        } else {
            "false"@
        },
        ValueV::Str(t) => t,
        ValueV::Unit => "()"@,
        ValueV::Struct { name, fields } => name + " { "@ + join_text(slot_texts(fields), ", "@)
            + " }"@,
        ValueV::EnumVariant { variant, args, .. } => if args.len() == 0 {
            variant
        } else {
            variant + "("@ + join_text(value_texts(args), ", "@) + ")"@
        },
        ValueV::Range(a, b) => int_text(a as int) + ".."@ + int_text(b as int),
        ValueV::Array(vs) => "["@ + join_text(value_texts(vs), ", "@) + "]"@,
    }
}

/// The texts of a list of values.
pub open spec fn value_texts(vs: Seq<ValueV>) -> Seq<Seq<char>>
    decreases vs,
{
    Seq::new(
        vs.len(),
        |i: int|
            if 0 <= i < vs.len() {
                value_text(vs[i])
            } else {
                arbitrary()
            },
    )
}

/// The texts `name: value` of a list of named values.
pub open spec fn slot_texts(vs: Seq<(Seq<char>, ValueV)>) -> Seq<Seq<char>>
    decreases vs,
{
    Seq::new(
        vs.len(),
        |i: int|
            if 0 <= i < vs.len() {
                vs[i].0 + ": "@ + value_text(vs[i].1)
            } else {
                arbitrary()
            },
    )
}

/// A value the way `print` shows it.
pub fn value_to_string(v: &Value) -> (s: String)
    ensures
        s@ == value_text(v@),
    decreases v,
{
    match v {
        Value::Int(n) => int_to_string(*n),
        Value::Float(t) => t.clone(),
        Value::Bool(b) => {
            if *b {
                "true".to_owned()
            } else {
                "false".to_owned()
            }
        },
        Value::Str(t) => t.clone(),
        Value::Unit => "()".to_owned(),
        Value::Struct { name, fields } => {
            let parts = strings_of_slots(fields);
            cat2(
                cat3(name.as_str(), " { ", join(&parts, ", ").as_str()).as_str(),
                " }",
            )
        },
        Value::EnumVariant { variant, args, .. } => {
            assert(values_view(args@).len() == args@.len());
            if args.len() == 0 {
                variant.clone()
            } else {
                let parts = strings_of_values(args);
                cat2(
                    cat3(variant.as_str(), "(", join(&parts, ", ").as_str()).as_str(),
                    ")",
                )
            }
        },
        Value::Range(a, b) => cat3(
            int_to_string(*a).as_str(),
            "..",
            int_to_string(*b).as_str(),
        ),
        Value::Array(vs) => {
            let parts = strings_of_values(vs);
            cat3("[", join(&parts, ", ").as_str(), "]")
        },
    }
}

fn strings_of_values(vs: &Vec<Value>) -> (r: Vec<String>)
    ensures
        texts(r@) == value_texts(values_view(vs@)),
    decreases vs,
{
    let mut out: Vec<String> = Vec::new();
    let mut i: usize = 0;
    while i < vs.len()
        invariant
            i <= vs@.len(),
            out@.len() == i,
            forall|j: int| 0 <= j < i ==> (#[trigger] out@[j])@ == value_text(vs@[j]@),
        decreases vs@.len() - i,
    {
        out.push(value_to_string(&vs[i]));
        i += 1;
    }
    assert(texts(out@) =~= value_texts(values_view(vs@)));
    out
}

fn strings_of_slots(vs: &Vec<(String, Value)>) -> (r: Vec<String>)
    ensures
        texts(r@) == slot_texts(slots_view(vs@)),
    decreases vs,
{
    let mut out: Vec<String> = Vec::new();
    let mut i: usize = 0;
    while i < vs.len()
        invariant
            i <= vs@.len(),
            out@.len() == i,
            forall|j: int|
                0 <= j < i ==> (#[trigger] out@[j])@ == vs@[j].0@ + ": "@ + value_text(vs@[j].1@),
        decreases vs@.len() - i,
    {
        out.push(cat3(vs[i].0.as_str(), ": ", value_to_string(&vs[i].1).as_str()));
        i += 1;
    }
    assert(texts(out@) =~= slot_texts(slots_view(vs@)));
    out
}

/// Whether a value of a pattern equals a value: only simple values do.
pub open spec fn equal_values(a: ValueV, b: ValueV) -> bool {
    match (a, b) {
        (ValueV::Int(x), ValueV::Int(y)) => x == y,
        (ValueV::Bool(x), ValueV::Bool(y)) => x == y,
        (ValueV::Str(x), ValueV::Str(y)) => x == y,
        _ => false,
    }
}

/// Whether two simple values are equal.
pub fn values_equal(a: &Value, b: &Value) -> (r: bool)
    ensures
        r == equal_values(a@, b@),
{
    match (a, b) {
        (Value::Int(x), Value::Int(y)) => *x == *y,
        (Value::Bool(x), Value::Bool(y)) => *x == *y,
        (Value::Str(x), Value::Str(y)) => str_eq(x.as_str(), y.as_str()),
        _ => false,
    }
}

/// Whether a loop condition or a guard holds.
pub open spec fn holds(v: ValueV) -> bool {
    match v {
        ValueV::Bool(b) => b,
        ValueV::Int(n) => n != 0,
        _ => true,
    }
}

/// Whether the condition of an `if` holds.
pub open spec fn chooses(v: ValueV) -> bool {
    match v {
        ValueV::Bool(b) => b,
        ValueV::Int(n) => n != 0,
        ValueV::Str(s) => s.len() > 0,
        ValueV::Unit => false,
        _ => true,
    }
}

pub(crate) fn does_hold(v: &Value) -> (r: bool)
    ensures
        r == holds(v@),
{
    match v {
        Value::Bool(b) => *b,
        Value::Int(n) => *n != 0,
        _ => true,
    }
}

pub(crate) fn does_choose(v: &Value) -> (r: bool)
    ensures
        r == chooses(v@),
{
    match v {
        Value::Bool(b) => *b,
        Value::Int(n) => *n != 0,
        Value::Str(s) => s.as_str().unicode_len() > 0,
        Value::Unit => false,
        _ => true,
    }
}

// ---- arithmetic ----

pub open spec fn magnitude(a: int) -> int {
    if a < 0 {
        -a
    } else {
        a
    }
}

/// The quotient of two integers, rounded towards zero.
pub open spec fn quotient(a: int, b: int) -> int {
    let q = magnitude(a) / magnitude(b);
    if (a < 0) != (b < 0) {
        -q
    } else {
        q
    }
}

/// The remainder that goes with `quotient`: it has the sign of `a`.
pub open spec fn remainder(a: int, b: int) -> int {
    let r = magnitude(a) % magnitude(b);
    if a < 0 {
        -r
    } else {
        r
    }
}

/// Quotient and remainder make up the dividend, and the remainder is smaller
/// than the divisor.
pub proof fn law_division(a: int, b: int)
    requires
        b != 0,
    ensures
        quotient(a, b) * b + remainder(a, b) == a,
        magnitude(remainder(a, b)) < magnitude(b),
{
    let x = magnitude(a);
    let y = magnitude(b);
    vstd::arithmetic::div_mod::lemma_fundamental_div_mod(x, y);
    vstd::arithmetic::div_mod::lemma_mod_bound(x, y);
    let q = x / y;
    let r = x % y;
    assert(x == y * q + r);
    assert((-q) * b == q * (-b)) by (nonlinear_arith);
    assert(q * (-b) == -(q * b)) by (nonlinear_arith);
    assert(y * q == q * y) by (nonlinear_arith);
}

/// The result, if it fits the language's 64-bit integers.
pub open spec fn fitting(n: int, what: Seq<char>) -> Result<ValueV, Seq<char>> {
    if i64::MIN <= n <= i64::MAX {
        Ok(ValueV::Int(n as i64))
    } else {
        Err(what + " overflowed"@)
    }
}

/// A binary operation on two integers. Overflow and a zero divisor are
/// failures.
pub open spec fn int_op(a: i64, op: BinOp, b: i64) -> Result<ValueV, Seq<char>> {
    match op {
        BinOp::Add => fitting(a + b, "addition"@),
        BinOp::Sub => fitting(a - b, "subtraction"@),
        BinOp::Mul => fitting(a * b, "multiplication"@),
        BinOp::Div => if b == 0 {
            Err("division by zero"@)
        } else {
            fitting(quotient(a as int, b as int), "division"@)
        },
        BinOp::Mod => if b == 0 {
            Err("remainder by zero"@)
        } else if a == i64::MIN && b == -1 {
            Err("remainder overflowed"@)
        } else {
            Ok(ValueV::Int(remainder(a as int, b as int) as i64))
        },
        BinOp::Eq => Ok(ValueV::Bool(a == b)),
        BinOp::Ne => Ok(ValueV::Bool(a != b)),
        BinOp::Lt => Ok(ValueV::Bool(a < b)),
        BinOp::Le => Ok(ValueV::Bool(a <= b)),
        BinOp::Gt => Ok(ValueV::Bool(a > b)),
        BinOp::Ge => Ok(ValueV::Bool(a >= b)),
        BinOp::And => Ok(ValueV::Bool(a != 0 && b != 0)),
        BinOp::Or => Ok(ValueV::Bool(a != 0 || b != 0)),
    }
}

/// A binary operation on two truth values.
pub open spec fn bool_op(a: bool, op: BinOp, b: bool) -> Result<ValueV, Seq<char>> {
    match op {
        BinOp::Eq => Ok(ValueV::Bool(a == b)),
        BinOp::Ne => Ok(ValueV::Bool(a != b)),
        BinOp::And => Ok(ValueV::Bool(a && b)),
        BinOp::Or => Ok(ValueV::Bool(a || b)),
        _ => Err("unsupported bool op"@),
    }
}

/// A binary operation on two strings.
pub open spec fn str_op(a: Seq<char>, op: BinOp, b: Seq<char>) -> Result<ValueV, Seq<char>> {
    match op {
        BinOp::Add => Ok(ValueV::Str(a + b)),
        BinOp::Eq => Ok(ValueV::Bool(a == b)),
        BinOp::Ne => Ok(ValueV::Bool(a != b)),
        BinOp::Lt => Ok(ValueV::Bool(text_before(a, b))),
        BinOp::Le => Ok(ValueV::Bool(!text_before(b, a))),
        BinOp::Gt => Ok(ValueV::Bool(text_before(b, a))),
        BinOp::Ge => Ok(ValueV::Bool(!text_before(a, b))),
        _ => Err("unsupported string op"@),
    }
}

/// Whether floating-point numbers have a binary operation.
pub open spec fn float_has(op: BinOp) -> bool {
    !(op is And) && !(op is Or)
}

/// The outcome of an operation.
pub enum OpV {
    Done(ValueV),
    Fail(Seq<char>),
    /// The host has to compute a binary operation on floating-point numbers.
    FloatOp(BinOp, Seq<char>, Seq<char>),
    /// The host has to negate a floating-point number.
    FloatNeg(Seq<char>),
}

pub open spec fn outcome(r: Result<ValueV, Seq<char>>) -> OpV {
    match r {
        Ok(v) => OpV::Done(v),
        Err(m) => OpV::Fail(m),
    }
}

/// A binary operation on two values.
pub open spec fn binop_result(l: ValueV, op: BinOp, r: ValueV) -> OpV {
    match (l, r) {
        (ValueV::Int(a), ValueV::Int(b)) => outcome(int_op(a, op, b)),
        (ValueV::Float(a), ValueV::Float(b)) => if float_has(op) {
            OpV::FloatOp(op, a, b)
        } else {
            OpV::Fail("unsupported float op"@)
        },
        (ValueV::Bool(a), ValueV::Bool(b)) => outcome(bool_op(a, op, b)),
        (ValueV::Str(a), ValueV::Str(b)) => outcome(str_op(a, op, b)),
        (ValueV::Str(a), ValueV::Int(b)) => if op is Add {
            OpV::Done(ValueV::Str(a + int_text(b as int)))
        } else {
            OpV::Fail("unsupported string+int op"@)
        },
        (ValueV::Int(a), ValueV::Str(b)) => if op is Add {
            OpV::Done(ValueV::Str(int_text(a as int) + b))
        } else {
            OpV::Fail("unsupported int+string op"@)
        },
        _ => OpV::Fail("type mismatch in binary operation"@),
    }
}

/// A unary operation on a value.
pub open spec fn unop_result(op: UnaryOp, v: ValueV) -> OpV {
    match (op, v) {
        (UnaryOp::Neg, ValueV::Int(n)) => outcome(fitting(-n, "negation"@)),
        (UnaryOp::Neg, ValueV::Float(t)) => OpV::FloatNeg(t),
        (UnaryOp::Not, ValueV::Bool(b)) => OpV::Done(ValueV::Bool(!b)),
        (UnaryOp::Not, ValueV::Int(n)) => OpV::Done(ValueV::Bool(n == 0)),
        (UnaryOp::Neg, _) => OpV::Fail("invalid unary operation Neg on "@ + value_text(v)),
        (UnaryOp::Not, _) => OpV::Fail("invalid unary operation Not on "@ + value_text(v)),
    }
}

/// The outcome of an operation.
#[derive(Debug)]
pub enum Op {
    Done(Value),
    Fail(String),
    FloatOp(BinOp, String, String),
    FloatNeg(String),
}

impl Op {
    pub open spec fn view(&self) -> OpV {
        match self {
            Op::Done(v) => OpV::Done(v@),
            Op::Fail(m) => OpV::Fail(m@),
            Op::FloatOp(op, a, b) => OpV::FloatOp(*op, a@, b@),
            Op::FloatNeg(a) => OpV::FloatNeg(a@),
        }
    }
}

fn magnitude_of(a: i64) -> (m: u64)
    ensures
        m == magnitude(a as int),
{
    if a < 0 {
        (-(a + 1)) as u64 + 1
    } else {
        a as u64
    }
}

fn overflowed(what: &str) -> (o: Op)
    ensures
        o@ == OpV::Fail(what@ + " overflowed"@),
{
    Op::Fail(cat2(what, " overflowed"))
}

fn divide(a: i64, b: i64) -> (o: Op)
    ensures
        o@ == outcome(int_op(a, BinOp::Div, b)),
{
    if b == 0 {
        return Op::Fail("division by zero".to_owned());
    }
    let x = magnitude_of(a);
    let y = magnitude_of(b);
    let q: u64 = x / y;
    proof {
        assert(q <= x) by (nonlinear_arith)
            requires
                y >= 1,
                q == x / y,
        ;
    }
    if (a < 0) != (b < 0) {
        if q == 0 {
            Op::Done(Value::Int(0))
        } else {
            Op::Done(Value::Int(-((q - 1) as i64) - 1))
        }
    } else if q > 9223372036854775807 {
        overflowed("division")
    } else {
        Op::Done(Value::Int(q as i64))
    }
}

fn take_remainder(a: i64, b: i64) -> (o: Op)
    ensures
        o@ == outcome(int_op(a, BinOp::Mod, b)),
{
    if b == 0 {
        return Op::Fail("remainder by zero".to_owned());
    }
    if a == i64::MIN && b == -1 {
        return Op::Fail("remainder overflowed".to_owned());
    }
    let x = magnitude_of(a);
    let y = magnitude_of(b);
    let r: u64 = x % y;
    assert(r < y <= 0x8000_0000_0000_0000);
    if a < 0 {
        Op::Done(Value::Int(-(r as i64)))
    } else {
        Op::Done(Value::Int(r as i64))
    }
}

fn eval_int_op(a: i64, op: BinOp, b: i64) -> (o: Op)
    ensures
        o@ == outcome(int_op(a, op, b)),
{
    match op {
        BinOp::Add => match a.checked_add(b) {
            Some(n) => Op::Done(Value::Int(n)),
            None => overflowed("addition"),
        },
        BinOp::Sub => match a.checked_sub(b) {
            Some(n) => Op::Done(Value::Int(n)),
            None => overflowed("subtraction"),
        },
        BinOp::Mul => match a.checked_mul(b) {
            Some(n) => Op::Done(Value::Int(n)),
            None => overflowed("multiplication"),
        },
        BinOp::Div => divide(a, b),
        BinOp::Mod => take_remainder(a, b),
        BinOp::Eq => Op::Done(Value::Bool(a == b)),
        BinOp::Ne => Op::Done(Value::Bool(a != b)),
        BinOp::Lt => Op::Done(Value::Bool(a < b)),
        BinOp::Le => Op::Done(Value::Bool(a <= b)),
        BinOp::Gt => Op::Done(Value::Bool(a > b)),
        BinOp::Ge => Op::Done(Value::Bool(a >= b)),
        BinOp::And => Op::Done(Value::Bool(a != 0 && b != 0)),
        BinOp::Or => Op::Done(Value::Bool(a != 0 || b != 0)),
    }
}

fn eval_bool_op(a: bool, op: BinOp, b: bool) -> (o: Op)
    ensures
        o@ == outcome(bool_op(a, op, b)),
{
    match op {
        BinOp::Eq => Op::Done(Value::Bool(a == b)),
        BinOp::Ne => Op::Done(Value::Bool(a != b)),
        BinOp::And => Op::Done(Value::Bool(a && b)),
        BinOp::Or => Op::Done(Value::Bool(a || b)),
        _ => Op::Fail("unsupported bool op".to_owned()),
    }
}

fn eval_str_op(a: &str, op: BinOp, b: &str) -> (o: Op)
    ensures
        o@ == outcome(str_op(a@, op, b@)),
{
    match op {
        BinOp::Add => Op::Done(Value::Str(cat2(a, b))),
        BinOp::Eq => Op::Done(Value::Bool(str_eq(a, b))),
        BinOp::Ne => Op::Done(Value::Bool(!str_eq(a, b))),
        BinOp::Lt => Op::Done(Value::Bool(str_before(a, b))),
        BinOp::Le => Op::Done(Value::Bool(!str_before(b, a))),
        BinOp::Gt => Op::Done(Value::Bool(str_before(b, a))),
        BinOp::Ge => Op::Done(Value::Bool(!str_before(a, b))),
        _ => Op::Fail("unsupported string op".to_owned()),
    }
}

/// A binary operation on two values.
pub fn eval_binop(l: &Value, op: BinOp, r: &Value) -> (o: Op)
    ensures
        o@ == binop_result(l@, op, r@),
{
    match (l, r) {
        (Value::Int(a), Value::Int(b)) => eval_int_op(*a, op, *b),
        (Value::Float(a), Value::Float(b)) => {
            if matches!(op, BinOp::And | BinOp::Or) {
                Op::Fail("unsupported float op".to_owned())
            } else {
                Op::FloatOp(op, a.clone(), b.clone())
            }
        },
        (Value::Bool(a), Value::Bool(b)) => eval_bool_op(*a, op, *b),
        (Value::Str(a), Value::Str(b)) => eval_str_op(a.as_str(), op, b.as_str()),
        (Value::Str(a), Value::Int(b)) => {
            if matches!(op, BinOp::Add) {
                Op::Done(Value::Str(cat2(a.as_str(), int_to_string(*b).as_str())))
            } else {
                Op::Fail("unsupported string+int op".to_owned())
            }
        },
        (Value::Int(a), Value::Str(b)) => {
            if matches!(op, BinOp::Add) {
                Op::Done(Value::Str(cat2(int_to_string(*a).as_str(), b.as_str())))
            } else {
                Op::Fail("unsupported int+string op".to_owned())
            }
        },
        _ => Op::Fail("type mismatch in binary operation".to_owned()),
    }
}

/// A unary operation on a value.
pub fn eval_unop(op: UnaryOp, v: &Value) -> (o: Op)
    ensures
        o@ == unop_result(op, v@),
{
    match (op, v) {
        (UnaryOp::Neg, Value::Int(n)) => {
            if *n == i64::MIN {
                overflowed("negation")
            } else {
                Op::Done(Value::Int(-*n))
            }
        },
        (UnaryOp::Neg, Value::Float(t)) => Op::FloatNeg(t.clone()),
        (UnaryOp::Not, Value::Bool(b)) => Op::Done(Value::Bool(!*b)),
        (UnaryOp::Not, Value::Int(n)) => Op::Done(Value::Bool(*n == 0)),
        (UnaryOp::Neg, _) => Op::Fail(
            cat2("invalid unary operation Neg on ", value_to_string(v).as_str()),
        ),
        (UnaryOp::Not, _) => Op::Fail(
            cat2("invalid unary operation Not on ", value_to_string(v).as_str()),
        ),
    }
}

// ---- strings ----

/// Whether `needle` stands in `s` at `i`.
pub open spec fn stands_at(s: Seq<char>, needle: Seq<char>, i: int) -> bool {
    0 <= i && i + needle.len() <= s.len() && s.subrange(i, i + needle.len()) == needle
}

/// Whether `needle` stands somewhere in `s`.
pub open spec fn text_contains(s: Seq<char>, needle: Seq<char>) -> bool {
    exists|i: int| stands_at(s, needle, i)
}

/// The parts of `s[from..]` between the places where `delim` stands, found
/// from the left; `i` has been reached in the search. `delim` is not empty.
pub open spec fn split_from(s: Seq<char>, delim: Seq<char>, from: int, i: int) -> Seq<Seq<char>>
    decreases s.len() - i,
{
    if i >= s.len() || delim.len() == 0 {
        seq![s.subrange(from, s.len() as int)]
    } else if stands_at(s, delim, i) {
        seq![s.subrange(from, i)] + split_from(s, delim, i + delim.len(), i + delim.len())
    } else {
        split_from(s, delim, from, i + 1)
    }
}

/// Each character of a text as a text of its own.
pub open spec fn single_chars(s: Seq<char>) -> Seq<Seq<char>> {
    s.map_values(|c: char| seq![c])
}

/// The parts of a text between the places where `delim` stands. An empty
/// `delim` stands before and behind every character.
pub open spec fn split_text(s: Seq<char>, delim: Seq<char>) -> Seq<Seq<char>> {
    if delim.len() == 0 {
        seq![Seq::<char>::empty()] + single_chars(s) + seq![Seq::<char>::empty()]
    } else {
        split_from(s, delim, 0, 0)
    }
}

proof fn lemma_join_cons(x: Seq<char>, rest: Seq<Seq<char>>, sep: Seq<char>)
    requires
        rest.len() > 0,
    ensures
        join_text(seq![x] + rest, sep) == x + sep + join_text(rest, sep),
    decreases rest.len(),
{
    let all = seq![x] + rest;
    if rest.len() == 1 {
        assert(all.drop_last() =~= seq![x]);
        assert(join_text(seq![x], sep) == x);
        assert(all.last() == rest[0]);
        assert(join_text(all, sep) =~= x + sep + rest[0]);
    } else {
        lemma_join_cons(x, rest.drop_last(), sep);
        assert(all.drop_last() =~= seq![x] + rest.drop_last());
        assert(all.last() == rest.last());
        assert(join_text(all, sep) =~= x + sep + join_text(rest, sep));
    }
}

proof fn lemma_join_split_from(s: Seq<char>, delim: Seq<char>, from: int, i: int)
    requires
        0 <= from <= i,
        from <= s.len(),
        delim.len() > 0,
    ensures
        split_from(s, delim, from, i).len() > 0,
        join_text(split_from(s, delim, from, i), delim) == s.subrange(from, s.len() as int),
    decreases s.len() - i,
{
    if i >= s.len() {
    } else if stands_at(s, delim, i) {
        let k = i + delim.len();
        lemma_join_split_from(s, delim, k, k);
        lemma_join_cons(s.subrange(from, i), split_from(s, delim, k, k), delim);
        assert(s.subrange(from, i) + delim + s.subrange(k, s.len() as int) =~= s.subrange(
            from,
            s.len() as int,
        ));
    } else {
        lemma_join_split_from(s, delim, from, i + 1);
    }
}

/// Joining the parts of a split with the delimiter gives the text back.
pub proof fn law_split_join(s: Seq<char>, delim: Seq<char>)
    requires
        delim.len() > 0,
    ensures
        join_text(split_text(s, delim), delim) == s,
{
    lemma_join_split_from(s, delim, 0, 0);
    assert(s.subrange(0, s.len() as int) =~= s);
}

fn stands_here(s: &Vec<char>, needle: &Vec<char>, i: usize) -> (r: bool)
    requires
        i <= s@.len(),
    ensures
        r == stands_at(s@, needle@, i as int),
{
    if needle.len() > s.len() - i {
        return false;
    }
    let mut k: usize = 0;
    while k < needle.len()
        invariant
            k <= needle@.len(),
            i + needle@.len() <= s@.len(),
            forall|j: int| 0 <= j < k ==> s@[i + j] == needle@[j],
        decreases needle@.len() - k,
    {
        assert(i + k < s.len());
        if s[i + k] != needle[k] {
            assert(s@.subrange(i as int, i + needle@.len())[k as int] != needle@[k as int]);
            return false;
        }
        k += 1;
    }
    assert(s@.subrange(i as int, i + needle@.len()) =~= needle@);
    true
}

/// Whether `needle` stands somewhere in `s`.
pub fn contains_str(s: &str, needle: &str) -> (r: bool)
    ensures
        r == text_contains(s@, needle@),
{
    let t = chars_of(s);
    let n = chars_of(needle);
    let mut i: usize = 0;
    loop
        invariant
            i <= t@.len(),
            t@ == s@,
            n@ == needle@,
            forall|j: int| 0 <= j < i ==> !stands_at(t@, n@, j),
        decreases t@.len() - i,
    {
        if stands_here(&t, &n, i) {
            assert(stands_at(s@, needle@, i as int));
            return true;
        }
        if i >= t.len() {
            return false;
        }
        i += 1;
    }
}

fn push_str_value(out: &mut Vec<Value>, t: String)
    ensures
        values_view(final(out)@) == values_view(old(out)@).push(ValueV::Str(t@)),
{
    let v = Value::Str(t);
    proof {
        lemma_values_push(out@, v);
    }
    out.push(v);
}

/// The texts as string values.
pub open spec fn str_values(ts: Seq<Seq<char>>) -> Seq<ValueV> {
    ts.map_values(|t: Seq<char>| ValueV::Str(t))
}

/// The parts of a text between the places where `delim` stands.
pub fn split_str(s: &str, delim: &str) -> (out: Vec<Value>)
    ensures
        values_view(out@) == str_values(split_text(s@, delim@)),
{
    let t = chars_of(s);
    let d = chars_of(delim);
    let mut out: Vec<Value> = Vec::new();
    assert(values_view(out@) =~= Seq::empty());
    if d.len() == 0 {
        let ghost want = split_text(s@, delim@);
        let empty = String::new();
        assert(empty@ =~= Seq::empty());
        push_str_value(&mut out, empty);
        let mut i: usize = 0;
        assert(values_view(out@) =~= str_values(want.take(1)));
        while i < t.len()
            invariant
                i <= t@.len(),
                t@ == s@,
                want == seq![Seq::<char>::empty()] + single_chars(s@) + seq![Seq::<char>::empty()],
                values_view(out@) == str_values(want.take(i + 1)),
            decreases t@.len() - i,
        {
            let one = string_of(&t, i, i + 1);
            proof {
                assert(one@ =~= seq![t@[i as int]]);
                assert(single_chars(s@)[i as int] == one@);
                assert(want[i + 1] == one@);
                assert(str_values(want.take(i + 2)) =~= str_values(want.take(i + 1)).push(
                    ValueV::Str(one@),
                ));
            }
            push_str_value(&mut out, one);
            i += 1;
        }
        let empty = String::new();
        assert(empty@ =~= Seq::empty());
        push_str_value(&mut out, empty);
        assert(values_view(out@) =~= str_values(want));
        return out;
    }
    let mut from: usize = 0;
    let mut i: usize = 0;
    let ghost want = str_values(split_from(s@, delim@, 0, 0));
    while i < t.len()
        invariant
            from <= i <= t@.len(),
            t@ == s@,
            d@ == delim@,
            d@.len() > 0,
            values_view(out@) + str_values(split_from(s@, delim@, from as int, i as int)) == want,
        decreases t@.len() - i,
    {
        if stands_here(&t, &d, i) {
            let part = string_of(&t, from, i);
            let ghost before = values_view(out@);
            let ghost rest = split_from(s@, delim@, i + d@.len(), i + d@.len());
            let ghost pv = part@;
            push_str_value(&mut out, part);
            proof {
                assert(str_values(seq![pv] + rest) =~= seq![ValueV::Str(pv)] + str_values(rest));
                assert(before + (seq![ValueV::Str(pv)] + str_values(rest)) =~= values_view(out@)
                    + str_values(rest));
                assert(i + d@.len() <= t.len());
            }
            i = i + d.len();
            from = i;
        } else {
            i += 1;
        }
    }
    let part = string_of(&t, from, t.len());
    let ghost before = values_view(out@);
    let ghost pv = part@;
    push_str_value(&mut out, part);
    proof {
        assert(str_values(seq![pv]) =~= seq![ValueV::Str(pv)]);
        assert(before + seq![ValueV::Str(pv)] =~= values_view(out@));
        assert(want =~= values_view(out@));
    }
    out
}

/// A position in something of length `len`, or why there is none.
pub open spec fn index_in(len: int, i: int, what: Seq<char>) -> Result<int, Seq<char>> {
    if 0 <= i < len {
        Ok(i)
    } else {
        Err(
            what + " index "@ + int_text(i) + " is out of bounds for length "@ + nat_text(
                len as nat,
            ),
        )
    }
}

/// Bounds-check an index.
pub fn checked_index(len: u128, i: i64, what: &str) -> (r: Result<u64, String>)
    ensures
        match index_in(len as int, i as int, what@) {
            Ok(k) => r is Ok && r->Ok_0 == k,
            Err(m) => r is Err && r->Err_0@ == m,
        },
{
    if i < 0 || (i as u128) >= len {
        return Err(
            cat5(
                what,
                " index ",
                int_to_string(i).as_str(),
                " is out of bounds for length ",
                wide_to_string(len).as_str(),
            ),
        );
    }
    Ok(i as u64)
}

/// The characters from `start` up to `end`.
pub open spec fn substring_result(s: Seq<char>, start: int, end: int) -> Result<ValueV, Seq<char>> {
    match index_in((s.len() + 1) as int, start, "substring start"@) {
        Err(m) => Err(m),
        Ok(b) => match index_in((s.len() + 1) as int, end, "substring end"@) {
            Err(m) => Err(m),
            Ok(e) => if b > e {
                Err("substring start "@ + int_text(b) + " is past end "@ + int_text(e))
            } else {
                Ok(ValueV::Str(s.subrange(b, e)))
            },
        },
    }
}

pub(crate) fn take_substring(s: &str, start: i64, end: i64) -> (o: Op)
    ensures
        o@ == outcome(substring_result(s@, start as int, end as int)),
{
    let t = chars_of(s);
    let b = match checked_index(t.len() as u128 + 1, start, "substring start") {
        Ok(b) => b,
        Err(m) => {
            return Op::Fail(m);
        },
    };
    let e = match checked_index(t.len() as u128 + 1, end, "substring end") {
        Ok(e) => e,
        Err(m) => {
            return Op::Fail(m);
        },
    };
    if b > e {
        return Op::Fail(
            cat2(
                cat3(
                    "substring start ",
                    int_to_string(start).as_str(),
                    " is past end ",
                ).as_str(),
                int_to_string(end).as_str(),
            ),
        );
    }
    Op::Done(Value::Str(string_of(&t, b as usize, e as usize)))
}

} // verus!
