//! What operators and builtins give of which values, and how values are shown.

use crate::ast::{BinOp, TypeV, UnaryOp};
use crate::builtins::builtin_signature;
use crate::primitives::{builtin_result, BuiltinV};
use crate::text::{
    int_text, join_text, nat_text, text_before, trim_back, trim_front, trim_text, whitespace,
};
use crate::value::{
    binop_result, law_division, quotient, remainder, split_from, split_text, stands_at,
    text_contains, unop_result, value_text, OpV, ValueV,
};
use vstd::prelude::*;

verus! {

// ---- operators ----

/// An integer of the language.
pub open spec fn fits(n: int) -> bool {
    i64::MIN <= n <= i64::MAX
}

/// An operation gives an integer where it fits, and fails elsewhere.
pub open spec fn gives_int(r: OpV, n: int) -> bool {
    if fits(n) {
        r == OpV::Done(ValueV::Int(n as i64))
    } else {
        r is Fail
    }
}

pub open spec fn gives_bool(r: OpV, b: bool) -> bool {
    r == OpV::Done(ValueV::Bool(b))
}

/// Integers are added, subtracted, multiplied and compared as integers; what does not fit
/// is a failure. `&&` and `||` take them for true where they are not zero.
pub proof fn law_integers(a: i64, op: BinOp, b: i64)
    ensures
        ({
            let r = binop_result(ValueV::Int(a), op, ValueV::Int(b));
            &&& op is Add ==> gives_int(r, a + b)
            &&& op is Sub ==> gives_int(r, a - b)
            &&& op is Mul ==> gives_int(r, a * b)
            &&& op is Eq ==> gives_bool(r, a == b)
            &&& op is Ne ==> gives_bool(r, a != b)
            &&& op is Lt ==> gives_bool(r, a < b)
            &&& op is Le ==> gives_bool(r, a <= b)
            &&& op is Gt ==> gives_bool(r, a > b)
            &&& op is Ge ==> gives_bool(r, a >= b)
            &&& op is And ==> gives_bool(r, a != 0 && b != 0)
            &&& op is Or ==> gives_bool(r, a != 0 || b != 0)
        }),
{
}

/// Division rounds towards zero, and the remainder has the sign of the dividend. A zero
/// divisor is a failure, and so is a quotient that does not fit.
pub proof fn law_integer_division(a: i64, b: i64, q: int, r: int)
    requires
        b != 0 ==> a == q * b + r,
        b != 0 ==> if a >= 0 {
            0 <= r && (r < b || r < -b)
        } else {
            r <= 0 && (-r < b || -r < -b)
        },
    ensures
        b == 0 ==> binop_result(ValueV::Int(a), BinOp::Div, ValueV::Int(b)) is Fail,
        b == 0 ==> binop_result(ValueV::Int(a), BinOp::Mod, ValueV::Int(b)) is Fail,
        b != 0 ==> gives_int(binop_result(ValueV::Int(a), BinOp::Div, ValueV::Int(b)), q),
        b != 0 && fits(q) ==> gives_int(
            binop_result(ValueV::Int(a), BinOp::Mod, ValueV::Int(b)),
            r,
        ),
        b != 0 && !fits(q) ==> binop_result(ValueV::Int(a), BinOp::Mod, ValueV::Int(b)) is Fail,
{
    if b != 0 {
        let q1 = quotient(a as int, b as int);
        let r1 = remainder(a as int, b as int);
        law_division(a as int, b as int);
        let d = if b > 0 {
            b as int
        } else {
            -b as int
        };
        let s = if b > 0 {
            q
        } else {
            -q
        };
        let s1 = if b > 0 {
            q1
        } else {
            -q1
        };
        assert(q * b == s * d && q1 * b == s1 * d) by (nonlinear_arith)
            requires
                b > 0 && d == b && s == q && s1 == q1 || b < 0 && d == -b && s == -q && s1 == -q1,
        ;
        assert(s == s1) by (nonlinear_arith)
            requires
                s * d + r == s1 * d + r1,
                d > 0,
                (0 <= r < d && 0 <= r1 < d) || (-d < r <= 0 && -d < r1 <= 0),
        ;
        assert(q == q1 && r == r1);
        if !fits(q) {
            lemma_overflow(a as int, b as int, q, r);
        } else {
            if a == i64::MIN && b == -1 {
                assert(q * b == -q) by (nonlinear_arith)
                    requires
                        b == -1,
                ;
            }
        }
    }
}

/// A quotient does not fit only of the least integer by -1.
proof fn lemma_overflow(a: int, b: int, q: int, r: int)
    requires
        i64::MIN <= a <= i64::MAX,
        i64::MIN <= b <= i64::MAX,
        b != 0,
        a == q * b + r,
        a >= 0 ==> 0 <= r,
        a < 0 ==> r <= 0,
        a >= 0 ==> r < b || r < -b,
        a < 0 ==> -r < b || -r < -b,
        !(i64::MIN <= q <= i64::MAX),
    ensures
        a == i64::MIN,
        b == -1,
{
    let d = if b > 0 {
        b
    } else {
        -b
    };
    let p = if q >= 0 {
        q
    } else {
        -q
    };
    let t = q * b;
    assert(t == p * d || t == -(p * d)) by (nonlinear_arith)
        requires
            t == q * b,
            b > 0 && d == b || b < 0 && d == -b,
            q >= 0 && p == q || q < 0 && p == -q,
    ;
    assert(p * d >= p) by (nonlinear_arith)
        requires
            d >= 1,
            p >= 0,
    ;
    if d >= 2 {
        assert(p * d >= 2 * p) by (nonlinear_arith)
            requires
                d >= 2,
                p >= 0,
        ;
    }
    assert(d == 1);
    assert(p * d == p) by (nonlinear_arith)
        requires
            d == 1,
    ;
    if b == 1 {
        assert(t == q) by (nonlinear_arith)
            requires
                t == q * b,
                b == 1,
        ;
    } else {
        assert(t == -q) by (nonlinear_arith)
            requires
                t == q * b,
                b == -1,
        ;
    }
}

/// Truth values are compared for equality and combined; nothing else is done with them.
pub proof fn law_truths(a: bool, op: BinOp, b: bool)
    ensures
        ({
            let r = binop_result(ValueV::Bool(a), op, ValueV::Bool(b));
            &&& op is Eq ==> gives_bool(r, a == b)
            &&& op is Ne ==> gives_bool(r, a != b)
            &&& op is And ==> gives_bool(r, a && b)
            &&& op is Or ==> gives_bool(r, a || b)
            &&& !(op is Eq || op is Ne || op is And || op is Or) ==> r is Fail
        }),
{
}

/// `a` comes before `b`: at the first place where they differ it has the lesser
/// character, or it is a proper beginning of `b`.
pub open spec fn comes_before(a: Seq<char>, b: Seq<char>, k: int) -> bool {
    &&& 0 <= k <= a.len()
    &&& k < b.len()
    &&& a.take(k) == b.take(k)
    &&& k < a.len() ==> (a[k] as u32) < (b[k] as u32)
}

/// Texts are ordered by their characters, like words in a dictionary.
pub proof fn law_text_order(a: Seq<char>, b: Seq<char>) -> (k: int)
    ensures
        text_before(a, b) ==> comes_before(a, b, k),
        forall|i: int| #[trigger] comes_before(a, b, i) ==> text_before(a, b),
    decreases a.len(),
{
    if b.len() > 0 && a.len() > 0 {
        let a1 = a.drop_first();
        let b1 = b.drop_first();
        let j = law_text_order(a1, b1);
        assert forall|i: int| #[trigger] comes_before(a, b, i) implies text_before(a, b) by {
            if i > 0 {
                assert(a.take(i)[0] == a[0] && b.take(i)[0] == b[0]);
                assert(a1.take(i - 1) =~= a.take(i).drop_first());
                assert(b1.take(i - 1) =~= b.take(i).drop_first());
                assert(comes_before(a1, b1, i - 1));
            } else {
                assert(a[0] != b[0]);
            }
        }
        if a[0] == b[0] {
            if text_before(a, b) {
                assert(a.take(j + 1) =~= seq![a[0]] + a1.take(j));
                assert(b.take(j + 1) =~= seq![b[0]] + b1.take(j));
                assert(comes_before(a, b, j + 1));
            }
            j + 1
        } else {
            assert(a.take(0) =~= b.take(0));
            0
        }
    } else {
        assert(a.take(0) =~= b.take(0));
        0
    }
}

/// Strings are put together by `+` and compared; nothing else is done with them. A string
/// and an integer are put together as texts.
pub proof fn law_strings(a: Seq<char>, op: BinOp, b: Seq<char>, n: i64)
    ensures
        ({
            let r = binop_result(ValueV::Str(a), op, ValueV::Str(b));
            &&& op is Add ==> r == OpV::Done(ValueV::Str(a + b))
            &&& op is Eq ==> gives_bool(r, a == b)
            &&& op is Ne ==> gives_bool(r, a != b)
            &&& op is Lt ==> gives_bool(r, text_before(a, b))
            &&& op is Gt ==> gives_bool(r, text_before(b, a))
            &&& op is Le ==> gives_bool(r, text_before(a, b) || a == b)
            &&& op is Ge ==> gives_bool(r, text_before(b, a) || a == b)
            &&& op is Sub || op is Mul || op is Div || op is Mod || op is And || op is Or
                ==> r is Fail
        }),
        binop_result(ValueV::Str(a), BinOp::Add, ValueV::Int(n)) == OpV::Done(
            ValueV::Str(a + int_text(n as int)),
        ),
        binop_result(ValueV::Int(n), BinOp::Add, ValueV::Str(b)) == OpV::Done(
            ValueV::Str(int_text(n as int) + b),
        ),
{
    law_one_comes_first(a, b);
}

proof fn lemma_characters_differ(x: char, y: char)
    ensures
        x as u32 == y as u32 ==> x == y,
{
}

/// Of two texts that differ exactly one comes first; of equal ones none does.
pub proof fn law_one_comes_first(a: Seq<char>, b: Seq<char>)
    ensures
        a == b ==> !text_before(a, b),
        a != b ==> text_before(a, b) != text_before(b, a),
    decreases a.len(),
{
    if a.len() > 0 && b.len() > 0 {
        law_one_comes_first(a.drop_first(), b.drop_first());
        lemma_characters_differ(a[0], b[0]);
        if a[0] == b[0] && a.drop_first() == b.drop_first() {
            assert(a =~= seq![a[0]] + a.drop_first());
            assert(b =~= seq![b[0]] + b.drop_first());
        }
    } else if a.len() == 0 && b.len() == 0 {
        assert(a =~= b);
    }
}

/// Negation and denial.
pub proof fn law_unaries(n: i64, b: bool)
    ensures
        gives_int(unop_result(UnaryOp::Neg, ValueV::Int(n)), -n),
        gives_bool(unop_result(UnaryOp::Not, ValueV::Bool(b)), !b),
        gives_bool(unop_result(UnaryOp::Not, ValueV::Int(n)), n == 0),
        unop_result(UnaryOp::Neg, ValueV::Bool(b)) is Fail,
{
}

/// Values of different kinds have no operation but `+` of a string and an integer.
pub proof fn law_kinds_do_not_mix(x: ValueV, op: BinOp, y: ValueV)
    requires
        x is Int && y is Bool || x is Bool && y is Int || x is Str && y is Bool || x is Bool
            && y is Str || x is Unit || y is Unit || x is Array || y is Array || x is Struct
            || y is Struct || x is EnumVariant || y is EnumVariant || x is Range || y is Range,
    ensures
        binop_result(x, op, y) is Fail,
{
}

// ---- texts of values ----

/// The number that digits stand for.
pub open spec fn number_of(t: Seq<char>) -> int
    decreases t.len(),
{
    if t.len() == 0 {
        0
    } else {
        10 * number_of(t.drop_last()) + (t.last() as u32 - 48)
    }
}

/// The text of a number is its digits, without a zero in front, and stands for it.
pub proof fn law_number_text(n: nat)
    ensures
        nat_text(n).len() > 0,
        number_of(nat_text(n)) == n,
        forall|i: int| 0 <= i < nat_text(n).len() ==> '0' <= #[trigger] nat_text(n)[i] <= '9',
        nat_text(n)[0] == '0' ==> n == 0,
    decreases n,
{
    let t = nat_text(n);
    if n < 10 {
        assert(t.drop_last() =~= Seq::empty());
        assert(number_of(Seq::<char>::empty()) == 0);
    } else {
        law_number_text(n / 10);
        let front = nat_text(n / 10);
        assert(t.drop_last() =~= front);
        assert(t[0] == front[0]);
        assert forall|i: int| 0 <= i < t.len() implies '0' <= #[trigger] t[i] <= '9' by {
            if i < front.len() {
                assert(t[i] == front[i]);
            }
        }
    }
}

/// A negative integer has a minus sign before its digits.
pub proof fn law_integer_text(n: int)
    ensures
        n >= 0 ==> number_of(int_text(n)) == n && int_text(n)[0] != '-',
        n < 0 ==> int_text(n)[0] == '-' && number_of(int_text(n).skip(1)) == -n,
{
    if n >= 0 {
        law_number_text(n as nat);
        assert('0' <= nat_text(n as nat)[0]);
    } else {
        law_number_text((-n) as nat);
        assert(int_text(n).skip(1) =~= nat_text((-n) as nat));
    }
}

/// Texts put together with a separator between each two: from the front.
pub proof fn law_join(first: Seq<char>, rest: Seq<Seq<char>>, sep: Seq<char>)
    ensures
        join_text(Seq::empty(), sep) == Seq::<char>::empty(),
        rest.len() == 0 ==> join_text(seq![first] + rest, sep) == first,
        rest.len() > 0 ==> join_text(seq![first] + rest, sep) == first + sep + join_text(rest, sep),
    decreases rest.len(),
{
    let all = seq![first] + rest;
    if rest.len() == 0 {
        assert(all =~= seq![first]);
    } else {
        assert(all.drop_last() =~= seq![first] + rest.drop_last());
        assert(all.last() == rest.last());
        law_join(first, rest.drop_last(), sep);
        if rest.len() == 1 {
            assert(join_text(all.drop_last(), sep) == first);
            assert(join_text(all, sep) == first + sep + rest[0]);
        } else {
            let r = join_text(rest.drop_last(), sep);
            assert((first + sep + r) + sep + rest.last() =~= first + sep + (r + sep
                + rest.last()));
        }
    }
}

/// How values are shown: an integer in decimal, a truth value as a word, a string as it
/// is, an array in brackets, a variant by its name and, where it carries values, these in
/// parentheses, a struct by its name and its fields in braces.
pub proof fn law_value_texts(v: ValueV, texts: Seq<Seq<char>>)
    ensures
        v matches ValueV::Int(n) ==> value_text(v) == int_text(n as int),
        v matches ValueV::Bool(b) ==> value_text(v) == if b {
            "true"@
        } else {
            "false"@
        },
        v matches ValueV::Str(s) ==> value_text(v) == s,
        v is Unit ==> value_text(v) == "()"@,
        v matches ValueV::Range(a, b) ==> value_text(v) == int_text(a as int) + ".."@ + int_text(
            b as int,
        ),
        v matches ValueV::Array(vs) ==> (texts.len() == vs.len() && (forall|i: int|
            0 <= i < vs.len() ==> #[trigger] texts[i] == value_text(vs[i])) ==> value_text(v)
            == "["@ + join_text(texts, ", "@) + "]"@),
        v matches ValueV::EnumVariant { variant, args, .. } ==> {
            &&& args.len() == 0 ==> value_text(v) == variant
            &&& args.len() > 0 && texts.len() == args.len() && (forall|i: int|
                0 <= i < args.len() ==> #[trigger] texts[i] == value_text(args[i]))
                ==> value_text(v) == variant + "("@ + join_text(texts, ", "@) + ")"@
        },
        v matches ValueV::Struct { name, fields } ==> (texts.len() == fields.len() && (forall|
            i: int,
        |
            0 <= i < fields.len() ==> #[trigger] texts[i] == fields[i].0 + ": "@ + value_text(
                fields[i].1,
            )) ==> value_text(v) == name + " { "@ + join_text(texts, ", "@) + " }"@),
{
    match v {
        ValueV::Array(vs) => {
            if texts.len() == vs.len() && (forall|i: int|
                0 <= i < vs.len() ==> #[trigger] texts[i] == value_text(vs[i])) {
                assert(crate::value::value_texts(vs) =~= texts);
            }
        },
        ValueV::EnumVariant { variant, args, .. } => {
            if texts.len() == args.len() && (forall|i: int|
                0 <= i < args.len() ==> #[trigger] texts[i] == value_text(args[i])) {
                assert(crate::value::value_texts(args) =~= texts);
            }
        },
        ValueV::Struct { name, fields } => {
            if texts.len() == fields.len() && (forall|i: int|
                0 <= i < fields.len() ==> #[trigger] texts[i] == fields[i].0 + ": "@ + value_text(
                    fields[i].1,
                )) {
                assert(crate::value::slot_texts(fields) =~= texts);
            }
        },
        _ => {},
    }
}

// ---- builtins ----

proof fn lemma_builtin_names()
    ensures
        "print"@.len() == 5,
        "panic"@.len() == 5,
        "print"@ != "panic"@,
        "len"@.len() == 3,
        "to_string"@.len() == 9,
        "int_to_str"@.len() == 10,
        "substring"@.len() == 9,
        "to_string"@ != "substring"@,
        "contains"@.len() == 8,
        "split"@.len() == 5,
        "split"@ != "print"@,
        "split"@ != "panic"@,
        "trim"@.len() == 4,
        "char_at"@.len() == 7,
        "array_len"@.len() == 9,
        "array_get"@.len() == 9,
        "array_set"@.len() == 9,
        "array_len"@ != "to_string"@,
        "array_len"@ != "substring"@,
        "array_get"@ != "to_string"@,
        "array_get"@ != "substring"@,
        "array_get"@ != "array_len"@,
        "array_set"@ != "to_string"@,
        "array_set"@ != "substring"@,
        "array_set"@ != "array_len"@,
        "array_set"@ != "array_get"@,
{
    reveal_strlit("print");
    reveal_strlit("panic");
    reveal_strlit("len");
    reveal_strlit("to_string");
    reveal_strlit("int_to_str");
    reveal_strlit("substring");
    reveal_strlit("contains");
    reveal_strlit("split");
    reveal_strlit("trim");
    reveal_strlit("char_at");
    reveal_strlit("array_len");
    reveal_strlit("array_get");
    reveal_strlit("array_set");
    assert("print"@[1] == 'r' && "panic"@[1] == 'a' && "split"@[0] == 's' && "print"@[0] == 'p'
        && "panic"@[0] == 'p');
    assert("to_string"@[0] == 't' && "substring"@[0] == 's' && "array_len"@[0] == 'a'
        && "array_get"@[0] == 'a' && "array_set"@[0] == 'a');
    assert("array_len"@[6] == 'l' && "array_get"@[6] == 'g' && "array_set"@[6] == 's');
}

/// `print` shows the text of its argument, `panic` fails with it, and `to_string` gives
/// it. `len` counts characters or elements.
pub proof fn law_builtins_of_one(v: ValueV, vals: Seq<ValueV>)
    requires
        vals == seq![v],
    ensures
        builtin_result("print"@, vals) == BuiltinV::Print(value_text(v)),
        builtin_result("panic"@, vals) == BuiltinV::Fail(value_text(v)),
        builtin_result("to_string"@, vals) == BuiltinV::Done(ValueV::Str(value_text(v))),
        v matches ValueV::Int(n) ==> builtin_result("int_to_str"@, vals) == BuiltinV::Done(
            ValueV::Str(int_text(n as int)),
        ),
        v matches ValueV::Str(s) ==> s.len() <= i64::MAX ==> (builtin_result("len"@, vals)
            matches BuiltinV::Done(ValueV::Int(n)) && n == s.len()),
        v matches ValueV::Array(a) ==> a.len() <= i64::MAX ==> (builtin_result("len"@, vals)
            matches BuiltinV::Done(ValueV::Int(n)) && n == a.len()) && (builtin_result(
            "array_len"@,
            vals,
        ) matches BuiltinV::Done(ValueV::Int(n)) && n == a.len()),
        v matches ValueV::Str(s) ==> builtin_result("trim"@, vals) == BuiltinV::Done(
            ValueV::Str(trim_text(s)),
        ),
        !(v is Int) ==> builtin_result("int_to_str"@, vals) is Fail,
        !(v is Str || v is Array) ==> builtin_result("len"@, vals) is Fail,
        !(v is Array) ==> builtin_result("array_len"@, vals) is Fail,
        !(v is Str) ==> builtin_result("trim"@, vals) is Fail,
{
    lemma_builtin_names();
}

/// `substring` gives the characters from the first position up to the second, where both
/// lie in the string and in this order, and fails elsewhere. `char_at` gives one
/// character.
pub proof fn law_builtins_of_strings(s: Seq<char>, b: i64, e: i64)
    ensures
        ({
            let r = builtin_result(
                "substring"@,
                seq![ValueV::Str(s), ValueV::Int(b), ValueV::Int(e)],
            );
            if 0 <= b <= e <= s.len() {
                r == BuiltinV::Done(ValueV::Str(s.subrange(b as int, e as int)))
            } else {
                r is Fail
            }
        }),
        ({
            let r = builtin_result("char_at"@, seq![ValueV::Str(s), ValueV::Int(b)]);
            if 0 <= b < s.len() {
                r == BuiltinV::Done(ValueV::Str(seq![s[b as int]]))
            } else {
                r is Fail
            }
        }),
{
    lemma_builtin_names();
}

/// `contains` says whether a text is a text before, the other, and a text behind.
pub proof fn law_contains(s: Seq<char>, needle: Seq<char>)
    ensures
        builtin_result("contains"@, seq![ValueV::Str(s), ValueV::Str(needle)]) == BuiltinV::Done(
            ValueV::Bool(
                exists|a: Seq<char>, b: Seq<char>| s == #[trigger] (a + needle + b),
            ),
        ),
{
    lemma_builtin_names();
    let split = exists|a: Seq<char>, b: Seq<char>| s == #[trigger] (a + needle + b);
    if text_contains(s, needle) {
        let i = choose|i: int| #[trigger] stands_at(s, needle, i);
        let a = s.take(i);
        let b = s.skip(i + needle.len());
        assert(s =~= a + needle + b);
    }
    if split {
        let (a, b) = choose|a: Seq<char>, b: Seq<char>| s == #[trigger] (a + needle + b);
        assert(s.subrange(a.len() as int, a.len() as int + needle.len()) =~= needle);
        assert(stands_at(s, needle, a.len() as int));
    }
}

/// `array_get` gives the element at a position and `array_set` an array with another
/// element there, where there is one; elsewhere they fail.
pub proof fn law_builtins_of_arrays(a: Seq<ValueV>, i: i64, v: ValueV)
    ensures
        ({
            let got = builtin_result("array_get"@, seq![ValueV::Array(a), ValueV::Int(i)]);
            let put = builtin_result("array_set"@, seq![ValueV::Array(a), ValueV::Int(i), v]);
            if 0 <= i < a.len() {
                got == BuiltinV::Done(a[i as int]) && put == BuiltinV::Done(
                    ValueV::Array(a.update(i as int, v)),
                )
            } else {
                got is Fail && put is Fail
            }
        }),
{
    lemma_builtin_names();
}

/// Trimming takes nothing but white space, and only at the ends.
pub proof fn law_trim_takes_white_space(s: Seq<char>) -> (r: (int, int))
    ensures
        0 <= r.0 <= r.1 <= s.len(),
        trim_text(s) == s.subrange(r.0, r.1),
        forall|k: int| 0 <= k < r.0 ==> whitespace(#[trigger] s[k]),
        forall|k: int| r.1 <= k < s.len() ==> whitespace(#[trigger] s[k]),
{
    let i = lemma_front(s);
    let f = trim_front(s);
    let n = lemma_back(f);
    assert(f.take(n) =~= s.subrange(i, i + n));
    assert forall|k: int| i + n <= k < s.len() implies whitespace(#[trigger] s[k]) by {
        assert(f[k - i] == s[k]);
    }
    (i, i + n)
}

proof fn lemma_front(s: Seq<char>) -> (i: int)
    ensures
        0 <= i <= s.len(),
        trim_front(s) == s.skip(i),
        forall|k: int| 0 <= k < i ==> whitespace(#[trigger] s[k]),
    decreases s.len(),
{
    if s.len() > 0 && whitespace(s[0]) {
        let rest = s.drop_first();
        let j = lemma_front(rest);
        assert(rest.skip(j) =~= s.skip(j + 1));
        assert forall|k: int| 0 <= k < j + 1 implies whitespace(#[trigger] s[k]) by {
            if k > 0 {
                assert(rest[k - 1] == s[k]);
            }
        }
        j + 1
    } else {
        assert(s.skip(0) =~= s);
        0
    }
}

proof fn lemma_back(s: Seq<char>) -> (n: int)
    ensures
        0 <= n <= s.len(),
        trim_back(s) == s.take(n),
        forall|k: int| n <= k < s.len() ==> whitespace(#[trigger] s[k]),
    decreases s.len(),
{
    if s.len() > 0 && whitespace(s.last()) {
        let rest = s.drop_last();
        let n = lemma_back(rest);
        assert(rest.take(n) =~= s.take(n));
        assert forall|k: int| n <= k < s.len() implies whitespace(#[trigger] s[k]) by {
            if k < rest.len() {
                assert(rest[k] == s[k]);
            }
        }
        n
    } else {
        assert(s.take(s.len() as int) =~= s);
        s.len() as int
    }
}

/// Splitting cuts at every place: no part holds the delimiter. Without a delimiter the
/// parts are the single characters between two empty ones.
pub proof fn law_split_cuts_everywhere(s: Seq<char>, delim: Seq<char>, k: int)
    requires
        0 <= k < split_text(s, delim).len(),
    ensures
        delim.len() > 0 ==> !text_contains(split_text(s, delim)[k], delim),
        delim.len() == 0 ==> split_text(s, delim).len() == s.len() + 2 && split_text(s, delim)[k]
            == if 0 < k <= s.len() {
            seq![s[k - 1]]
        } else {
            Seq::empty()
        },
{
    if delim.len() > 0 {
        lemma_parts_hold_no_delimiter(s, delim, 0, 0, k);
    }
}

proof fn lemma_parts_hold_no_delimiter(
    s: Seq<char>,
    delim: Seq<char>,
    from: int,
    i: int,
    k: int,
)
    requires
        delim.len() > 0,
        0 <= from <= i,
        from <= s.len(),
        forall|j: int| from <= j < i ==> !#[trigger] stands_at(s, delim, j),
        0 <= k < split_from(s, delim, from, i).len(),
    ensures
        !text_contains(split_from(s, delim, from, i)[k], delim),
    decreases s.len() - i,
{
    if i >= s.len() {
        lemma_no_delimiter(s, delim, from, s.len() as int);
    } else if stands_at(s, delim, i) {
        let rest = split_from(s, delim, i + delim.len(), i + delim.len());
        if k == 0 {
            lemma_no_delimiter(s, delim, from, i);
        } else {
            lemma_parts_hold_no_delimiter(s, delim, i + delim.len(), i + delim.len(), k - 1);
            assert(split_from(s, delim, from, i)[k] == rest[k - 1]);
        }
    } else {
        lemma_parts_hold_no_delimiter(s, delim, from, i + 1, k);
    }
}

proof fn lemma_no_delimiter(s: Seq<char>, delim: Seq<char>, from: int, to: int)
    requires
        0 <= from <= to <= s.len(),
        delim.len() > 0,
        forall|j: int| from <= j < to ==> !#[trigger] stands_at(s, delim, j),
    ensures
        !text_contains(s.subrange(from, to), delim),
{
    let part = s.subrange(from, to);
    if text_contains(part, delim) {
        let i = choose|i: int| stands_at(part, delim, i);
        assert(s.subrange(from + i, from + i + delim.len()) =~= part.subrange(
            i,
            i + delim.len(),
        ));
        assert(stands_at(s, delim, from + i));
    }
}

/// How many arguments each builtin takes, and the type of what it gives.
pub proof fn law_builtin_signatures()
    ensures
        builtin_signature("print"@) == Some((1nat, TypeV::Unit)),
        builtin_signature("panic"@) == Some((1nat, TypeV::Unit)),
        builtin_signature("len"@) == Some((1nat, TypeV::Int)),
        builtin_signature("to_string"@) == Some((1nat, TypeV::String)),
        builtin_signature("int_to_str"@) == Some((1nat, TypeV::String)),
        builtin_signature("substring"@) == Some((3nat, TypeV::String)),
        builtin_signature("contains"@) == Some((2nat, TypeV::Bool)),
        builtin_signature("split"@) == Some((2nat, TypeV::Array(Box::new(TypeV::String)))),
        builtin_signature("trim"@) == Some((1nat, TypeV::String)),
        builtin_signature("char_at"@) == Some((2nat, TypeV::String)),
        builtin_signature("array_len"@) == Some((1nat, TypeV::Int)),
        builtin_signature("array_get"@) == Some((2nat, TypeV::Inferred)),
        builtin_signature("array_set"@) == Some((3nat, TypeV::Inferred)),
{
    lemma_builtin_names();
}

/// An operation on two floating-point numbers is left to the host, with the operator and
/// the operands in their order.
pub proof fn law_floats(a: Seq<char>, op: BinOp, b: Seq<char>)
    ensures
        !(op is And || op is Or) ==> binop_result(ValueV::Float(a), op, ValueV::Float(b))
            == OpV::FloatOp(op, a, b),
        op is And || op is Or ==> binop_result(ValueV::Float(a), op, ValueV::Float(b)) is Fail,
        unop_result(UnaryOp::Neg, ValueV::Float(a)) == OpV::FloatNeg(a),
{
}

} // verus!
