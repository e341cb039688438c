//! What the builtin functions do with the values of their arguments.

use crate::text::{
    chars_of, int_text, int_to_string, str_eq, string_of, trim, trim_back, trim_front, trim_text,
    whitespace,
};
use crate::value::{
    checked_index, contains_str, dup_values, index_in, split_str, split_text, stands_at,
    str_values, substring_result, take_substring, text_contains, value_text, value_to_string,
    values_view, Op, OpV, Value, ValueV,
};
use vstd::prelude::*;

verus! {

/// The outcome of a call of a builtin.
pub enum BuiltinV {
    Done(ValueV),
    Fail(Seq<char>),
    /// A line goes to the output.
    Print(Seq<char>),
}

pub open spec fn builtin_outcome(r: Result<ValueV, Seq<char>>) -> BuiltinV {
    match r {
        Ok(v) => BuiltinV::Done(v),
        Err(m) => BuiltinV::Fail(m),
    }
}

/// The element of an array at a position.
pub open spec fn element_at(a: Seq<ValueV>, i: int) -> Result<ValueV, Seq<char>> {
    match index_in(a.len() as int, i, "array"@) {
        Ok(k) => Ok(a[k]),
        Err(m) => Err(m),
    }
}

/// An array with the element at a position replaced.
pub open spec fn element_set(a: Seq<ValueV>, i: int, v: ValueV) -> Result<ValueV, Seq<char>> {
    match index_in(a.len() as int, i, "array"@) {
        Ok(k) => Ok(ValueV::Array(a.update(k, v))),
        Err(m) => Err(m),
    }
}

/// The character of a string at a position, as a string.
pub open spec fn char_result(s: Seq<char>, i: int) -> Result<ValueV, Seq<char>> {
    match index_in(s.len() as int, i, "char_at"@) {
        Ok(k) => Ok(ValueV::Str(seq![s[k]])),
        Err(m) => Err(m),
    }
}

/// What a builtin does with the values of its arguments.
pub open spec fn builtin_result(name: Seq<char>, vals: Seq<ValueV>) -> BuiltinV {
    if name == "print"@ {
        BuiltinV::Print(value_text(vals[0]))
    } else if name == "panic"@ {
        BuiltinV::Fail(value_text(vals[0]))
    } else if name == "len"@ {
        match vals[0] {
            ValueV::Str(s) => BuiltinV::Done(ValueV::Int(s.len() as i64)),
            ValueV::Array(a) => BuiltinV::Done(ValueV::Int(a.len() as i64)),
            _ => BuiltinV::Fail("len expects string or array"@),
        }
    } else if name == "to_string"@ {
        BuiltinV::Done(ValueV::Str(value_text(vals[0])))
    } else if name == "int_to_str"@ {
        match vals[0] {
            ValueV::Int(n) => BuiltinV::Done(ValueV::Str(int_text(n as int))),
            _ => BuiltinV::Fail("int_to_str expects int"@),
        }
    } else if name == "substring"@ {
        match (vals[0], vals[1], vals[2]) {
            (ValueV::Str(s), ValueV::Int(b), ValueV::Int(e)) => builtin_outcome(
                substring_result(s, b as int, e as int),
            ),
            _ => BuiltinV::Fail("substring expects string, int, int"@),
        }
    } else if name == "contains"@ {
        match (vals[0], vals[1]) {
            (ValueV::Str(s), ValueV::Str(n)) => BuiltinV::Done(
                ValueV::Bool(text_contains(s, n)),
            ),
            _ => BuiltinV::Fail("contains expects string, string"@),
        }
    } else if name == "split"@ {
        match (vals[0], vals[1]) {
            (ValueV::Str(s), ValueV::Str(d)) => BuiltinV::Done(
                ValueV::Array(str_values(split_text(s, d))),
            ),
            _ => BuiltinV::Fail("split expects string, string"@),
        }
    } else if name == "trim"@ {
        match vals[0] {
            ValueV::Str(s) => BuiltinV::Done(ValueV::Str(trim_text(s))),
            _ => BuiltinV::Fail("trim expects string"@),
        }
    } else if name == "char_at"@ {
        match (vals[0], vals[1]) {
            (ValueV::Str(s), ValueV::Int(i)) => builtin_outcome(char_result(s, i as int)),
            _ => BuiltinV::Fail("char_at expects string, int"@),
        }
    } else if name == "array_len"@ {
        match vals[0] {
            ValueV::Array(a) => BuiltinV::Done(ValueV::Int(a.len() as i64)),
            _ => BuiltinV::Fail("array_len expects array"@),
        }
    } else if name == "array_get"@ {
        match (vals[0], vals[1]) {
            (ValueV::Array(a), ValueV::Int(i)) => builtin_outcome(element_at(a, i as int)),
            _ => BuiltinV::Fail("array_get expects array and int"@),
        }
    } else {
        match (vals[0], vals[1]) {
            (ValueV::Array(a), ValueV::Int(i)) => builtin_outcome(
                element_set(a, i as int, vals[2]),
            ),
            _ => BuiltinV::Fail("array_set expects array, int, value"@),
        }
    }
}

/// The outcome of a call of a builtin.
#[derive(Debug)]
pub enum Builtin {
    Done(Value),
    Fail(String),
    Print(String),
}

impl Builtin {
    pub open spec fn view(&self) -> BuiltinV {
        match self {
            Builtin::Done(v) => BuiltinV::Done(v@),
            Builtin::Fail(m) => BuiltinV::Fail(m@),
            Builtin::Print(t) => BuiltinV::Print(t@),
        }
    }
}

fn fail(m: &str) -> (b: Builtin)
    ensures
        b@ == BuiltinV::Fail(m@),
{
    Builtin::Fail(m.to_owned())
}

fn of_op(o: Op) -> (b: Builtin)
    requires
        o@ is Done || o@ is Fail,
    ensures
        o@ matches OpV::Done(v) ==> b@ == BuiltinV::Done(v),
        o@ matches OpV::Fail(m) ==> b@ == BuiltinV::Fail(m),
{
    match o {
        Op::Done(v) => Builtin::Done(v),
        Op::Fail(m) => Builtin::Fail(m),
        _ => Builtin::Done(Value::Unit),
    }
}

/// The element of an array at a position.
pub fn get_element(a: &Vec<Value>, i: i64) -> (r: Result<Value, String>)
    ensures
        match element_at(values_view(a@), i as int) {
            Ok(v) => r is Ok && r->Ok_0@ == v,
            Err(m) => r is Err && r->Err_0@ == m,
        },
{
    assert(values_view(a@).len() == a@.len());
    match checked_index(a.len() as u128, i, "array") {
        Ok(k) => {
            assert(values_view(a@)[k as int] == a@[k as int]@);
            Ok(a[k as usize].dup())
        },
        Err(m) => Err(m),
    }
}

fn set_element(a: &Vec<Value>, i: i64, v: &Value) -> (b: Builtin)
    ensures
        b@ == builtin_outcome(element_set(values_view(a@), i as int, v@)),
{
    assert(values_view(a@).len() == a@.len());
    match checked_index(a.len() as u128, i, "array") {
        Ok(k) => {
            let mut out = dup_values(a);
            assert(values_view(out@).len() == out@.len());
            let ghost before = out@;
            let copy = v.dup();
            out.set(k as usize, copy);
            assert(values_view(out@) =~= values_view(before).update(k as int, v@));
            Builtin::Done(Value::Array(out))
        },
        Err(m) => Builtin::Fail(m),
    }
}

fn get_char(s: &str, i: i64) -> (b: Builtin)
    ensures
        b@ == builtin_outcome(char_result(s@, i as int)),
{
    let t = chars_of(s);
    match checked_index(t.len() as u128, i, "char_at") {
        Ok(k) => {
            let at: usize = k as usize;
            let one = string_of(&t, at, at + 1);
            assert(one@ =~= seq![t@[at as int]]);
            Builtin::Done(Value::Str(one))
        },
        Err(m) => Builtin::Fail(m),
    }
}

fn length_of(v: &Value, strings: bool, message: &str) -> (b: Builtin)
    ensures
        b@ == (match v@ {
            ValueV::Str(s) => if strings {
                BuiltinV::Done(ValueV::Int(s.len() as i64))
            } else {
                BuiltinV::Fail(message@)
            },
            ValueV::Array(a) => BuiltinV::Done(ValueV::Int(a.len() as i64)),
            _ => BuiltinV::Fail(message@),
        }),
{
    match v {
        Value::Str(s) => {
            if strings {
                Builtin::Done(Value::Int(s.as_str().unicode_len() as i64))
            } else {
                fail(message)
            }
        },
        Value::Array(a) => {
            assert(values_view(a@).len() == a@.len());
            Builtin::Done(Value::Int(a.len() as i64))
        },
        _ => fail(message),
    }
}

/// What a builtin does with the values of its arguments.
pub fn call_builtin(name: &str, vals: &Vec<Value>) -> (b: Builtin)
    requires
        crate::builtins::builtin_signature(name@) is Some,
        vals@.len() >= (crate::builtins::builtin_signature(name@)->Some_0).0,
    ensures
        b@ == builtin_result(name@, values_view(vals@)),
{
    let ghost vs = values_view(vals@);
    assert(vs.len() == vals@.len());
    assert(vs[0] == vals@[0]@);
    if str_eq(name, "print") {
        return Builtin::Print(value_to_string(&vals[0]));
    }
    if str_eq(name, "panic") {
        return Builtin::Fail(value_to_string(&vals[0]));
    }
    if str_eq(name, "len") {
        return length_of(&vals[0], true, "len expects string or array");
    }
    if str_eq(name, "to_string") {
        return Builtin::Done(Value::Str(value_to_string(&vals[0])));
    }
    if str_eq(name, "int_to_str") {
        return match &vals[0] {
            Value::Int(n) => Builtin::Done(Value::Str(int_to_string(*n))),
            _ => fail("int_to_str expects int"),
        };
    }
    if str_eq(name, "substring") {
        assert(vs[1] == vals@[1]@);
        assert(vs[2] == vals@[2]@);
        return match (&vals[0], &vals[1], &vals[2]) {
            (Value::Str(s), Value::Int(b), Value::Int(e)) => of_op(
                take_substring(s.as_str(), *b, *e),
            ),
            _ => fail("substring expects string, int, int"),
        };
    }
    if str_eq(name, "contains") {
        assert(vs[1] == vals@[1]@);
        return match (&vals[0], &vals[1]) {
            (Value::Str(s), Value::Str(n)) => Builtin::Done(
                Value::Bool(contains_str(s.as_str(), n.as_str())),
            ),
            _ => fail("contains expects string, string"),
        };
    }
    if str_eq(name, "split") {
        assert(vs[1] == vals@[1]@);
        return match (&vals[0], &vals[1]) {
            (Value::Str(s), Value::Str(d)) => Builtin::Done(
                Value::Array(split_str(s.as_str(), d.as_str())),
            ),
            _ => fail("split expects string, string"),
        };
    }
    if str_eq(name, "trim") {
        return match &vals[0] {
            Value::Str(s) => Builtin::Done(Value::Str(trim(s.as_str()))),
            _ => fail("trim expects string"),
        };
    }
    if str_eq(name, "char_at") {
        assert(vs[1] == vals@[1]@);
        return match (&vals[0], &vals[1]) {
            (Value::Str(s), Value::Int(i)) => get_char(s.as_str(), *i),
            _ => fail("char_at expects string, int"),
        };
    }
    if str_eq(name, "array_len") {
        return length_of(&vals[0], false, "array_len expects array");
    }
    if str_eq(name, "array_get") {
        assert(vs[1] == vals@[1]@);
        return match (&vals[0], &vals[1]) {
            (Value::Array(a), Value::Int(i)) => match get_element(a, *i) {
                Ok(v) => Builtin::Done(v),
                Err(m) => Builtin::Fail(m),
            },
            _ => fail("array_get expects array and int"),
        };
    }
    assert(vs[1] == vals@[1]@);
    assert(vs[2] == vals@[2]@);
    match (&vals[0], &vals[1]) {
        (Value::Array(a), Value::Int(i)) => set_element(a, *i, &vals[2]),
        _ => fail("array_set expects array, int, value"),
    }
}

// ---- laws ----

/// Reading an array at the place that was just set gives what was set; every
/// other place, and the length, stay. Both succeed at the same places.
pub proof fn law_array_get_after_set(a: Seq<ValueV>, i: int, v: ValueV, k: int)
    ensures
        element_set(a, i, v) is Ok == element_at(a, i) is Ok,
        element_at(a, i) is Ok == (0 <= i < a.len()),
        element_set(a, i, v) matches Ok(now) ==> {
            &&& now is Array
            &&& now->Array_0.len() == a.len()
            &&& element_at(now->Array_0, i) == Ok::<ValueV, Seq<char>>(v)
            &&& k != i ==> element_at(now->Array_0, k) == element_at(a, k)
        },
{
}

/// A text cut at any place is the two parts put together.
pub proof fn law_substrings_make_the_whole(s: Seq<char>, k: int)
    requires
        0 <= k <= s.len(),
    ensures
        substring_result(s, 0, k) matches Ok(ValueV::Str(a)) && substring_result(
            s,
            k,
            s.len() as int,
        ) matches Ok(ValueV::Str(b)) && a + b == s,
{
    assert(s.subrange(0, k) + s.subrange(k, s.len() as int) =~= s);
}

/// A character is the substring of length one at its place.
pub proof fn law_char_is_a_substring(s: Seq<char>, i: int)
    requires
        0 <= i < s.len(),
    ensures
        char_result(s, i) == substring_result(s, i, i + 1),
{
    assert(s.subrange(i, i + 1) =~= seq![s[i]]);
}

/// A text contains every part of it.
pub proof fn law_parts_are_contained(a: Seq<char>, needle: Seq<char>, b: Seq<char>)
    ensures
        text_contains(a + needle + b, needle),
{
    let s = a + needle + b;
    assert(s.subrange(a.len() as int, a.len() as int + needle.len()) =~= needle);
    assert(stands_at(s, needle, a.len() as int));
}

proof fn lemma_trim_front(s: Seq<char>)
    ensures
        trim_front(s).len() == 0 || !whitespace(trim_front(s)[0]),
    decreases s.len(),
{
    if s.len() > 0 && whitespace(s[0]) {
        lemma_trim_front(s.drop_first());
    }
}

proof fn lemma_trim_back(s: Seq<char>)
    ensures
        trim_back(s).len() == 0 || !whitespace(trim_back(s).last()),
        trim_back(s).len() <= s.len(),
        trim_back(s) == s.take(trim_back(s).len() as int),
    decreases s.len(),
{
    if s.len() > 0 && whitespace(s.last()) {
        lemma_trim_back(s.drop_last());
        let n = trim_back(s).len() as int;
        assert(s.drop_last().take(n) =~= s.take(n));
    } else {
        assert(s.take(s.len() as int) =~= s);
    }
}

/// A trimmed text has no white space at its ends, so trimming it again changes
/// nothing.
pub proof fn law_trim_once(s: Seq<char>)
    ensures
        trim_text(s).len() > 0 ==> !whitespace(trim_text(s)[0]) && !whitespace(trim_text(s).last()),
        trim_text(trim_text(s)) == trim_text(s),
{
    let f = trim_front(s);
    lemma_trim_front(s);
    lemma_trim_back(f);
    let t = trim_text(s);
    if t.len() > 0 {
        assert(t[0] == f[0]);
    }
    assert(trim_front(t) == t);
    assert(trim_back(t) == t);
}

} // verus!
