//! Functions and methods the backends implement directly. Anything the
//! backends can execute must be listed here.

use crate::ast::{types_view, ExprKindV, ExprV, Type, TypeV};
use crate::text::str_eq;
use vstd::prelude::*;

verus! {

/// A call of `print`.
pub open spec fn prints(e: ExprV) -> bool {
    match *e.kind {
        ExprKindV::Call(callee, _) => match *callee.kind {
            ExprKindV::Ident(name) => name == "print"@,
            _ => false,
        },
        _ => false,
    }
}

/// Arity and result type of a free-standing builtin, by its name. `Inferred`
/// means "not known statically".
pub open spec fn builtin_signature(name: Seq<char>) -> Option<(nat, TypeV)> {
    if name == "print"@ {
        Some((1, TypeV::Unit))
    } else if name == "panic"@ {
        Some((1, TypeV::Unit))
    } else if name == "len"@ {
        Some((1, TypeV::Int))
    } else if name == "to_string"@ {
        Some((1, TypeV::String))
    } else if name == "int_to_str"@ {
        Some((1, TypeV::String))
    } else if name == "substring"@ {
        Some((3, TypeV::String))
    } else if name == "contains"@ {
        Some((2, TypeV::Bool))
    } else if name == "split"@ {
        Some((2, TypeV::Array(Box::new(TypeV::String))))
    } else if name == "trim"@ {
        Some((1, TypeV::String))
    } else if name == "char_at"@ {
        Some((2, TypeV::String))
    } else if name == "array_len"@ {
        Some((1, TypeV::Int))
    } else if name == "array_get"@ {
        Some((2, TypeV::Inferred))
    } else if name == "array_set"@ {
        Some((3, TypeV::Inferred))
    } else {
        None
    }
}

/// The names of all free-standing builtins.
pub open spec fn builtin_names() -> Seq<Seq<char>> {
    seq![
        "print"@,
        "panic"@,
        "len"@,
        "to_string"@,
        "int_to_str"@,
        "substring"@,
        "contains"@,
        "split"@,
        "trim"@,
        "char_at"@,
        "array_len"@,
        "array_get"@,
        "array_set"@,
    ]
}

/// A name has a signature exactly when it is listed as a builtin.
pub proof fn law_names_have_signatures(name: Seq<char>)
    ensures
        builtin_signature(name) is Some <==> builtin_names().contains(name),
{
    let names = builtin_names();
    assert(names[0] == "print"@ && names[1] == "panic"@ && names[2] == "len"@);
    assert(names[3] == "to_string"@ && names[4] == "int_to_str"@ && names[5] == "substring"@);
    assert(names[6] == "contains"@ && names[7] == "split"@ && names[8] == "trim"@);
    assert(names[9] == "char_at"@ && names[10] == "array_len"@ && names[11] == "array_get"@);
    assert(names[12] == "array_set"@);
}

/// Arity and result type of a free-standing builtin, or `None` if `name` is
/// not one. `Type::Inferred` in a result means "not known statically".
pub fn signature(name: &str) -> (r: Option<(usize, Type)>)
    ensures
        match builtin_signature(name@) {
            Some((arity, ty)) => r is Some && r->Some_0.0 == arity && r->Some_0.1@ == ty,
            None => r is None,
        },
{
    if str_eq(name, "print") {
        Some((1, Type::Unit))
    } else if str_eq(name, "panic") {
        Some((1, Type::Unit))
    } else if str_eq(name, "len") {
        Some((1, Type::Int))
    } else if str_eq(name, "to_string") {
        Some((1, Type::String))
    } else if str_eq(name, "int_to_str") {
        Some((1, Type::String))
    } else if str_eq(name, "substring") {
        Some((3, Type::String))
    } else if str_eq(name, "contains") {
        Some((2, Type::Bool))
    } else if str_eq(name, "split") {
        let element = Type::String;
        assert(element@ == TypeV::String);
        Some((2, Type::Array(Box::new(element))))
    } else if str_eq(name, "trim") {
        Some((1, Type::String))
    } else if str_eq(name, "char_at") {
        Some((2, Type::String))
    } else if str_eq(name, "array_len") {
        Some((1, Type::Int))
    } else if str_eq(name, "array_get") {
        // Arrays are untyped at runtime in the native backend, so the element
        // type is not recoverable here. Indexing with `a[i]` is checked
        // properly; these two are the older accessors.
        Some((2, Type::Inferred))
    } else if str_eq(name, "array_set") {
        Some((3, Type::Inferred))
    } else {
        None
    }
}

/// Arity and result type of a builtin method on `Option` or `Result`. `args`
/// are the enum's type arguments, so `unwrap` on an `Option<float>` is a
/// float. On a bare `Option` it is unknown: nothing said what it holds.
pub open spec fn builtin_method(owner: Seq<char>, args: Seq<TypeV>, method: Seq<char>) -> Option<
    (nat, TypeV),
> {
    if owner != "Option"@ && owner != "Result"@ {
        None
    } else if method == "unwrap"@ {
        Some(
            (
                0,
                if args.len() > 0 {
                    args[0]
                } else {
                    TypeV::Inferred
                },
            ),
        )
    } else if method == "is_some"@ || method == "is_none"@ || method == "is_ok"@ || method
        == "is_err"@ {
        Some((0, TypeV::Bool))
    } else {
        None
    }
}

/// Result type of a builtin method on `Option`/`Result`, or `None` if the
/// method is not one of them.
pub fn method_signature(owner: &str, type_args: &[Type], method: &str) -> (r: Option<(usize, Type)>)
    ensures
        match builtin_method(owner@, types_view(type_args@), method@) {
            Some((arity, ty)) => r is Some && r->Some_0.0 == arity && r->Some_0.1@ == ty,
            None => r is None,
        },
{
    if !str_eq(owner, "Option") && !str_eq(owner, "Result") {
        return None;
    }
    if str_eq(method, "unwrap") {
        let payload = if type_args.len() > 0 {
            type_args[0].dup()
        } else {
            Type::Inferred
        };
        return Some((0, payload));
    }
    if str_eq(method, "is_some") || str_eq(method, "is_none") || str_eq(method, "is_ok") || str_eq(
        method,
        "is_err",
    ) {
        return Some((0, Type::Bool));
    }
    None
}

} // verus!
