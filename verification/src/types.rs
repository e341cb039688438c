//! Agreement of types, what type parameters stand for, and type errors.

use crate::ast::{types_view, Type};
use crate::diagnostic::Diagnostic;
use crate::names::NameMap;
use crate::text::{cat2, cat3, cat5, cat7, join, nat_to_string, str_eq, texts};
use crate::typing::{
    bind, bind_from, compat, compat_from, constructor_text, constructor_texts, error_text, mismatch,
    mismatch_text, quoted_all, subst, subst_all, unbound, TypeErrorV,
};
use vstd::prelude::*;

verus! {

/// Two types agree, treating `Inferred` ("not known statically") as compatible
/// with anything, and a named type without arguments as compatible with any
/// arguments.
pub fn compatible(a: &Type, b: &Type) -> (r: bool)
    ensures
        r == compat(a@, b@),
    decreases a, 0int,
{
    match (a, b) {
        (Type::Inferred, _) => true,
        (_, Type::Inferred) => true,
        (Type::Named(n, xs), Type::Named(m, ys)) => {
            assert(types_view(xs@).len() == xs@.len());
            assert(types_view(ys@).len() == ys@.len());
            str_eq(n.as_str(), m.as_str()) && (xs.len() == 0 || ys.len() == 0 || (xs.len()
                == ys.len() && compatible_from(xs, ys)))
        },
        (Type::Array(x), Type::Array(y)) => compatible(x, y),
        (Type::Fn(xs, p), Type::Fn(ys, q)) => {
            assert(types_view(xs@).len() == xs@.len());
            assert(types_view(ys@).len() == ys@.len());
            xs.len() == ys.len() && compatible_from(xs, ys) && compatible(p, q)
        },
        (Type::Int, Type::Int) => true,
        (Type::Float, Type::Float) => true,
        (Type::Bool, Type::Bool) => true,
        (Type::String, Type::String) => true,
        (Type::Unit, Type::Unit) => true,
        (Type::Range, Type::Range) => true,
        _ => false,
    }
}

fn compatible_from(xs: &Vec<Type>, ys: &Vec<Type>) -> (r: bool)
    requires
        xs@.len() == ys@.len(),
    ensures
        r == compat_from(types_view(xs@), types_view(ys@), 0),
    decreases xs, 0int,
{
    let mut i: usize = 0;
    while i < xs.len()
        invariant
            i <= xs@.len(),
            xs@.len() == ys@.len(),
            compat_from(types_view(xs@), types_view(ys@), i as int) == compat_from(
                types_view(xs@),
                types_view(ys@),
                0,
            ),
        decreases xs@.len() - i,
    {
        if !compatible(&xs[i], &ys[i]) {
            return false;
        }
        i += 1;
    }
    true
}

/// Two types are the same.
pub fn same_type(a: &Type, b: &Type) -> (r: bool)
    ensures
        r == (a@ == b@),
    decreases a, 0int,
{
    match (a, b) {
        (Type::Named(n, xs), Type::Named(m, ys)) => str_eq(n.as_str(), m.as_str()) && same_types(
            xs,
            ys,
        ),
        (Type::Array(x), Type::Array(y)) => same_type(x, y),
        (Type::Fn(xs, p), Type::Fn(ys, q)) => same_types(xs, ys) && same_type(p, q),
        (Type::Inferred, Type::Inferred) => true,
        (Type::Int, Type::Int) => true,
        (Type::Float, Type::Float) => true,
        (Type::Bool, Type::Bool) => true,
        (Type::String, Type::String) => true,
        (Type::Unit, Type::Unit) => true,
        (Type::Range, Type::Range) => true,
        _ => false,
    }
}

/// Two lists of types are the same.
pub fn same_types(xs: &Vec<Type>, ys: &Vec<Type>) -> (r: bool)
    ensures
        r == (types_view(xs@) == types_view(ys@)),
    decreases xs, 0int,
{
    assert(types_view(xs@).len() == xs@.len());
    assert(types_view(ys@).len() == ys@.len());
    if xs.len() != ys.len() {
        return false;
    }
    let mut i: usize = 0;
    while i < xs.len()
        invariant
            i <= xs@.len(),
            xs@.len() == ys@.len(),
            forall|j: int| 0 <= j < i ==> types_view(xs@)[j] == types_view(ys@)[j],
        decreases xs@.len() - i,
    {
        if !same_type(&xs[i], &ys[i]) {
            assert(types_view(xs@)[i as int] != types_view(ys@)[i as int]);
            return false;
        }
        i += 1;
    }
    assert(types_view(xs@) =~= types_view(ys@));
    true
}

/// A type with each type parameter replaced by what it stands for.
pub fn substitute(t: &Type, b: &NameMap<Type>) -> (r: Type)
    ensures
        r@ == subst(t@, b@),
    decreases t, 0int,
{
    match t {
        Type::Named(n, args) => {
            assert(types_view(args@).len() == args@.len());
            if args.len() == 0 {
                match b.get(n.as_str()) {
                    Some(found) => {
                        return found.dup();
                    },
                    None => {},
                }
            }
            Type::Named(n.clone(), substitute_all(args, b))
        },
        Type::Array(el) => Type::Array(Box::new(substitute(el, b))),
        Type::Fn(args, ret) => Type::Fn(substitute_all(args, b), Box::new(substitute(ret, b))),
        Type::Inferred => Type::Inferred,
        Type::Int => Type::Int,
        Type::Float => Type::Float,
        Type::Bool => Type::Bool,
        Type::String => Type::String,
        Type::Unit => Type::Unit,
        Type::Range => Type::Range,
    }
}

/// Each of a list of types with its type parameters replaced.
pub fn substitute_all(ts: &Vec<Type>, b: &NameMap<Type>) -> (r: Vec<Type>)
    ensures
        types_view(r@) == subst_all(types_view(ts@), b@),
    decreases ts, 0int,
{
    let mut out: Vec<Type> = Vec::new();
    let mut i: usize = 0;
    while i < ts.len()
        invariant
            i <= ts@.len(),
            out@.len() == i,
            forall|j: int| 0 <= j < i ==> (#[trigger] out@[j])@ == subst(ts@[j]@, b@),
        decreases ts@.len() - i,
    {
        out.push(substitute(&ts[i], b));
        i += 1;
    }
    assert(types_view(out@) =~= subst_all(types_view(ts@), b@));
    out
}

/// Whether a text stands in a list.
pub fn contains_text(v: &Vec<String>, t: &str) -> (r: bool)
    ensures
        r == texts(v@).contains(t@),
{
    let mut i: usize = 0;
    while i < v.len()
        invariant
            i <= v@.len(),
            forall|j: int| 0 <= j < i ==> texts(v@)[j] != t@,
        decreases v@.len() - i,
    {
        assert(texts(v@)[i as int] == v@[i as int]@);
        if str_eq(v[i].as_str(), t) {
            return true;
        }
        i += 1;
    }
    false
}

/// Take into account what a parameter of type `p` says about the type
/// parameters `gs` when its argument has type `a`. Gives the two types that a
/// type parameter would have to stand for at once, where that happens.
pub(crate) fn bind_type(p: &Type, a: &Type, gs: &Vec<String>, b: &mut NameMap<Type>) -> (r: Option<
    (Type, Type),
>)
    ensures
        match bind(p@, a@, texts(gs@), old(b)@) {
            Ok(m) => r is None && final(b)@ == m,
            Err((x, y)) => r is Some && r->Some_0.0@ == x && r->Some_0.1@ == y,
        },
    decreases p, 0int,
{
    match p {
        Type::Named(n, ps) => {
            assert(types_view(ps@).len() == ps@.len());
            if ps.len() == 0 && contains_text(gs, n.as_str()) {
                let known = match b.get(n.as_str()) {
                    Some(Type::Inferred) => None,
                    Some(t) => Some(t.dup()),
                    None => None,
                };
                return match known {
                    None => {
                        b.insert(n.clone(), a.dup());
                        None
                    },
                    Some(t) => {
                        if compatible(&t, a) {
                            None
                        } else {
                            Some((t, a.dup()))
                        }
                    },
                };
            }
            match a {
                Type::Named(m, xs) => {
                    assert(types_view(xs@).len() == xs@.len());
                    if str_eq(n.as_str(), m.as_str()) && ps.len() == xs.len() {
                        bind_types(ps, xs, gs, b)
                    } else {
                        None
                    }
                },
                _ => None,
            }
        },
        Type::Array(x) => match a {
            Type::Array(y) => bind_type(x, y, gs, b),
            _ => None,
        },
        _ => None,
    }
}

fn bind_types(ps: &Vec<Type>, xs: &Vec<Type>, gs: &Vec<String>, b: &mut NameMap<Type>) -> (r:
    Option<(Type, Type)>)
    requires
        ps@.len() == xs@.len(),
    ensures
        match bind_from(types_view(ps@), types_view(xs@), texts(gs@), old(b)@, 0) {
            Ok(m) => r is None && final(b)@ == m,
            Err((x, y)) => r is Some && r->Some_0.0@ == x && r->Some_0.1@ == y,
        },
    decreases ps, 0int,
{
    let ghost start = b@;
    let mut i: usize = 0;
    while i < ps.len()
        invariant
            i <= ps@.len(),
            ps@.len() == xs@.len(),
            start == old(b)@,
            bind_from(types_view(ps@), types_view(xs@), texts(gs@), b@, i as int) == bind_from(
                types_view(ps@),
                types_view(xs@),
                texts(gs@),
                start,
                0,
            ),
        decreases ps@.len() - i,
    {
        let clash = bind_type(&ps[i], &xs[i], gs, b);
        if clash.is_some() {
            return clash;
        }
        i += 1;
    }
    None
}

/// The first type parameter that stands for nothing yet.
pub(crate) fn find_unbound(gs: &Vec<String>, b: &NameMap<Type>) -> (r: Option<String>)
    ensures
        match unbound(texts(gs@), b@, 0) {
            Some(g) => r is Some && r->Some_0@ == g,
            None => r is None,
        },
        r is None ==> forall|j: int| 0 <= j < gs@.len() ==> b@.contains_key(#[trigger] texts(gs@)[j]),
{
    let mut i: usize = 0;
    while i < gs.len()
        invariant
            i <= gs@.len(),
            unbound(texts(gs@), b@, i as int) == unbound(texts(gs@), b@, 0),
            forall|j: int| 0 <= j < i ==> b@.contains_key(#[trigger] texts(gs@)[j]),
        decreases gs@.len() - i,
    {
        assert(texts(gs@)[i as int] == gs@[i as int]@);
        if !b.contains(gs[i].as_str()) {
            return Some(gs[i].clone());
        }
        i += 1;
    }
    None
}

/// What each type parameter stands for, in order.
pub(crate) fn bound_types(gs: &Vec<String>, b: &NameMap<Type>) -> (r: Vec<Type>)
    requires
        forall|j: int| 0 <= j < gs@.len() ==> b@.contains_key(#[trigger] texts(gs@)[j]),
    ensures
        types_view(r@) == texts(gs@).map_values(|g: Seq<char>| b@[g]),
{
    let mut out: Vec<Type> = Vec::new();
    let mut i: usize = 0;
    while i < gs.len()
        invariant
            i <= gs@.len(),
            out@.len() == i,
            forall|j: int| 0 <= j < gs@.len() ==> b@.contains_key(#[trigger] texts(gs@)[j]),
            forall|j: int| 0 <= j < i ==> (#[trigger] out@[j])@ == b@[gs@[j]@],
        decreases gs@.len() - i,
    {
        assert(b@.contains_key(texts(gs@)[i as int]));
        match b.get(gs[i].as_str()) {
            Some(t) => {
                out.push(t.dup());
            },
            None => {
                out.push(Type::Inferred);
            },
        }
        i += 1;
    }
    assert(types_view(out@) =~= texts(gs@).map_values(|g: Seq<char>| b@[g]));
    out
}

/// A type by the name of its constructor.
fn name_constructor(t: &Type) -> (s: String)
    ensures
        s@ == constructor_text(t@),
    decreases t, 0int,
{
    match t {
        Type::Inferred => "Inferred".to_owned(),
        Type::Int => "Int".to_owned(),
        Type::Float => "Float".to_owned(),
        Type::Bool => "Bool".to_owned(),
        Type::String => "String".to_owned(),
        Type::Unit => "Unit".to_owned(),
        Type::Range => "Range".to_owned(),
        Type::Named(n, args) => {
            let parts = name_constructors(args);
            cat5("Named(\"", n.as_str(), "\", [", join(&parts, ", ").as_str(), "])")
        },
        Type::Array(el) => cat3("Array(", name_constructor(el).as_str(), ")"),
        Type::Fn(args, ret) => {
            let parts = name_constructors(args);
            cat5(
                "Fn([",
                join(&parts, ", ").as_str(),
                "], ",
                name_constructor(ret).as_str(),
                ")",
            )
        },
    }
}

fn name_constructors(ts: &Vec<Type>) -> (r: Vec<String>)
    ensures
        texts(r@) == constructor_texts(types_view(ts@)),
    decreases ts, 0int,
{
    let mut out: Vec<String> = Vec::new();
    let mut i: usize = 0;
    while i < ts.len()
        invariant
            i <= ts@.len(),
            out@.len() == i,
            forall|j: int| 0 <= j < i ==> (#[trigger] out@[j])@ == constructor_text(ts@[j]@),
        decreases ts@.len() - i,
    {
        out.push(name_constructor(&ts[i]));
        i += 1;
    }
    assert(texts(out@) =~= constructor_texts(types_view(ts@)));
    out
}

/// What can be wrong with a construct's types.
#[derive(Debug)]
#[allow(inconsistent_fields)]
pub enum TypeError {
    UndefinedVariable(String),
    UndefinedFunction(String),
    UndefinedType(String),
    UndefinedTrait(String),
    TypeMismatch { expected: String, found: String },
    NotAFunction(String),
    WrongArity { name: String, expected: usize, found: usize },
    UnknownField { ty: String, field: String },
    MissingImpl { trait_name: String, for_type: String, method: String },
    AmbiguousVariant { name: String, candidates: Vec<String> },
    /// Nothing in a call says what a type parameter stands for.
    CannotInfer { name: String, param: String },
    /// A match that some values match no arm of; what is missing by name.
    NotExhaustive(Vec<String>),
    /// A call of a function that is only declared.
    ExternCall(String),
    /// Raised inside a nested statement, which already knows where it is.
    Located(Diagnostic),
}

fn quote_all(names: &Vec<String>) -> (r: Vec<String>)
    ensures
        texts(r@) == quoted_all(texts(names@)),
{
    let mut out: Vec<String> = Vec::new();
    let mut i: usize = 0;
    while i < names.len()
        invariant
            i <= names@.len(),
            out@.len() == i,
            forall|j: int| 0 <= j < i ==> (#[trigger] out@[j])@ == "`"@ + names@[j]@ + "`"@,
        decreases names@.len() - i,
    {
        out.push(cat3("`", names[i].as_str(), "`"));
        i += 1;
    }
    assert(texts(out@) =~= quoted_all(texts(names@)));
    out
}

impl TypeError {
    pub open spec fn view(&self) -> TypeErrorV {
        match self {
            TypeError::UndefinedVariable(n) => TypeErrorV::UndefinedVariable(n@),
            TypeError::UndefinedFunction(n) => TypeErrorV::UndefinedFunction(n@),
            TypeError::UndefinedType(n) => TypeErrorV::UndefinedType(n@),
            TypeError::UndefinedTrait(n) => TypeErrorV::UndefinedTrait(n@),
            TypeError::TypeMismatch { expected, found } => TypeErrorV::TypeMismatch {
                expected: expected@,
                found: found@,
            },
            TypeError::NotAFunction(n) => TypeErrorV::NotAFunction(n@),
            TypeError::WrongArity { name, expected, found } => TypeErrorV::WrongArity {
                name: name@,
                expected: *expected as nat,
                found: *found as nat,
            },
            TypeError::UnknownField { ty, field } => TypeErrorV::UnknownField {
                ty: ty@,
                field: field@,
            },
            TypeError::MissingImpl { trait_name, for_type, method } => TypeErrorV::MissingImpl {
                trait_name: trait_name@,
                for_type: for_type@,
                method: method@,
            },
            TypeError::AmbiguousVariant { name, candidates } => TypeErrorV::AmbiguousVariant {
                name: name@,
                candidates: texts(candidates@),
            },
            TypeError::CannotInfer { name, param } => TypeErrorV::CannotInfer {
                name: name@,
                param: param@,
            },
            TypeError::NotExhaustive(missing) => TypeErrorV::NotExhaustive(texts(missing@)),
            TypeError::ExternCall(n) => TypeErrorV::ExternCall(n@),
            TypeError::Located(d) => TypeErrorV::Located(d@),
        }
    }

    /// The message that the error is reported with.
    pub fn to_text(&self) -> (s: String)
        ensures
            s@ == error_text(self@),
    {
        match self {
            TypeError::UndefinedVariable(n) => cat3("undefined variable: `", n.as_str(), "`"),
            TypeError::UndefinedFunction(n) => cat3("undefined function: `", n.as_str(), "`"),
            TypeError::UndefinedType(n) => cat3("undefined type: `", n.as_str(), "`"),
            TypeError::UndefinedTrait(n) => cat3("undefined trait: `", n.as_str(), "`"),
            TypeError::TypeMismatch { expected, found } => cat5(
                "type mismatch: expected `",
                expected.as_str(),
                "`, found `",
                found.as_str(),
                "`",
            ),
            TypeError::NotAFunction(n) => cat3("`", n.as_str(), "` is not a function"),
            TypeError::WrongArity { name, expected, found } => {
                let head = cat5(
                    "`",
                    name.as_str(),
                    "` expects ",
                    nat_to_string(*expected as u64).as_str(),
                    " args, found ",
                );
                cat2(head.as_str(), nat_to_string(*found as u64).as_str())
            },
            TypeError::UnknownField { ty, field } => cat5(
                "type `",
                ty.as_str(),
                "` has no field `",
                field.as_str(),
                "`",
            ),
            TypeError::MissingImpl { trait_name, for_type, method } => cat7(
                "trait `",
                trait_name.as_str(),
                "` for `",
                for_type.as_str(),
                "` missing method `",
                method.as_str(),
                "`",
            ),
            TypeError::AmbiguousVariant { name, candidates } => {
                let parts = quote_all(candidates);
                cat5(
                    "variant `",
                    name.as_str(),
                    "` is declared by ",
                    join(&parts, " and ").as_str(),
                    "; rename one of them to disambiguate",
                )
            },
            TypeError::CannotInfer { name, param } => cat5(
                "cannot tell what `",
                param.as_str(),
                "` stands for in this call of `",
                name.as_str(),
                "`",
            ),
            TypeError::NotExhaustive(missing) => {
                if missing.len() == 0 {
                    "no matching pattern for some values: add a `_` arm".to_owned()
                } else {
                    let parts = quote_all(missing);
                    cat2(
                        "no matching pattern for some values: the match does not cover ",
                        join(&parts, ", ").as_str(),
                    )
                }
            },
            TypeError::ExternCall(n) => cat3(
                "`",
                n.as_str(),
                "` is declared `extern`, and such functions cannot be called yet",
            ),
            TypeError::Located(d) => d.message.clone(),
        }
    }

    /// A value of one type stands where another was expected.
    pub(crate) fn mismatch(expected: &Type, found: &Type) -> (e: Self)
        ensures
            e@ == mismatch(expected@, found@),
    {
        TypeError::TypeMismatch { expected: expected.to_text(), found: found.to_text() }
    }

    /// As `mismatch`, with what was expected in words.
    pub(crate) fn mismatch_text(expected: &str, found: &Type) -> (e: Self)
        ensures
            e@ == mismatch_text(expected@, found@),
    {
        TypeError::TypeMismatch { expected: expected.to_owned(), found: found.to_text() }
    }

    /// A type parameter would have to stand for two types at once.
    pub(crate) fn clash(want: &Type, got: &Type) -> (e: Self)
        ensures
            e@ == (TypeErrorV::TypeMismatch {
                expected: constructor_text(want@),
                found: constructor_text(got@),
            }),
    {
        TypeError::TypeMismatch { expected: name_constructor(want), found: name_constructor(got) }
    }

    /// A call or a pattern with the wrong number of parts.
    pub(crate) fn arity(name: &str, expected: usize, found: usize) -> (e: Self)
        ensures
            e@ == crate::typing::arity_error(name@, expected as nat, found as nat),
    {
        TypeError::WrongArity { name: name.to_owned(), expected, found }
    }
}

} // verus!
