//! The typing rules of the language, as functions from a construct and what is
//! known about names to the construct's type.

use crate::ast::{
    BinOp, ExprKindV, ExprV, PatternV, StmtKindV, StmtV, TraitMethodV, TypeV, UnaryOp,
};
use crate::ast::type_text;
use crate::builtins::{builtin_method, builtin_signature};
use crate::diagnostic::{DiagnosticV, Span};
use crate::grammar::name_of;
use crate::text::{join_text, nat_text};
use crate::variants::{lookup_v, of_enum, program_variants, sorted_by_tag, LookupV, VariantV};
use vstd::prelude::*;

verus! {

/// What can be wrong with a construct's types.
#[allow(inconsistent_fields)]
pub enum TypeErrorV {
    UndefinedVariable(Seq<char>),
    UndefinedFunction(Seq<char>),
    UndefinedType(Seq<char>),
    UndefinedTrait(Seq<char>),
    TypeMismatch { expected: Seq<char>, found: Seq<char> },
    NotAFunction(Seq<char>),
    WrongArity { name: Seq<char>, expected: nat, found: nat },
    UnknownField { ty: Seq<char>, field: Seq<char> },
    MissingImpl { trait_name: Seq<char>, for_type: Seq<char>, method: Seq<char> },
    AmbiguousVariant { name: Seq<char>, candidates: Seq<Seq<char>> },
    CannotInfer { name: Seq<char>, param: Seq<char> },
    NotExhaustive(Seq<Seq<char>>),
    ExternCall(Seq<char>),
    Located(DiagnosticV),
}

/// Names in backquotes.
pub open spec fn quoted_all(names: Seq<Seq<char>>) -> Seq<Seq<char>> {
    names.map_values(|n: Seq<char>| "`"@ + n + "`"@)
}

/// The message that a type error is reported with.
pub open spec fn error_text(e: TypeErrorV) -> Seq<char> {
    match e {
        TypeErrorV::UndefinedVariable(n) => "undefined variable: `"@ + n + "`"@,
        TypeErrorV::UndefinedFunction(n) => "undefined function: `"@ + n + "`"@,
        TypeErrorV::UndefinedType(n) => "undefined type: `"@ + n + "`"@,
        TypeErrorV::UndefinedTrait(n) => "undefined trait: `"@ + n + "`"@,
        TypeErrorV::TypeMismatch { expected, found } => "type mismatch: expected `"@ + expected
            + "`, found `"@ + found + "`"@,
        TypeErrorV::NotAFunction(n) => "`"@ + n + "` is not a function"@,
        TypeErrorV::WrongArity { name, expected, found } => "`"@ + name + "` expects "@ + nat_text(
            expected,
        ) + " args, found "@ + nat_text(found),
        TypeErrorV::UnknownField { ty, field } => "type `"@ + ty + "` has no field `"@ + field
            + "`"@,
        TypeErrorV::MissingImpl { trait_name, for_type, method } => "trait `"@ + trait_name
            + "` for `"@ + for_type + "` missing method `"@ + method + "`"@,
        TypeErrorV::AmbiguousVariant { name, candidates } => "variant `"@ + name
            + "` is declared by "@ + join_text(quoted_all(candidates), " and "@)
            + "; rename one of them to disambiguate"@,
        TypeErrorV::CannotInfer { name, param } => "cannot tell what `"@ + param
            + "` stands for in this call of `"@ + name + "`"@,
        TypeErrorV::NotExhaustive(missing) => if missing.len() == 0 {
            "no matching pattern for some values: add a `_` arm"@
        } else {
            "no matching pattern for some values: the match does not cover "@ + join_text(
                quoted_all(missing),
                ", "@,
            )
        },
        TypeErrorV::ExternCall(n) => "`"@ + n
            + "` is declared `extern`, and such functions cannot be called yet"@,
        TypeErrorV::Located(d) => d.message,
    }
}

/// A function's type parameters, parameter types and result type.
pub struct SigV {
    pub generics: Seq<Seq<char>>,
    pub params: Seq<TypeV>,
    pub ret: TypeV,
}

/// The methods that one `impl` gives a type.
pub struct ImplV {
    pub trait_name: Seq<char>,
    pub for_type: Seq<char>,
    pub methods: Seq<StmtV>,
}

/// One way a generic function is called: in which function, where, which
/// function, and what its type parameters stand for.
pub struct InstanceV {
    pub enclosing: Seq<char>,
    pub span: Span,
    pub name: Seq<char>,
    pub args: Seq<TypeV>,
}

/// What is known about the names of a program at one place in it.
pub struct EnvV {
    pub scopes: Seq<Map<Seq<char>, TypeV>>,
    pub functions: Map<Seq<char>, SigV>,
    pub structs: Map<Seq<char>, Seq<(Seq<char>, TypeV)>>,
    pub variants: Seq<VariantV>,
    pub traits: Map<Seq<char>, Seq<TraitMethodV>>,
    pub impls: Seq<ImplV>,
    pub extern_fns: Map<Seq<char>, SigV>,
    pub macros: Map<Seq<char>, nat>,
    pub current_return: Option<TypeV>,
    pub enclosing: Seq<char>,
    pub in_generic: bool,
    pub instantiations: Seq<InstanceV>,
}

/// The outcome of a check, and what is known after it.
pub type Checked<T> = (Result<T, TypeErrorV>, EnvV);

impl EnvV {
    pub open spec fn push_scope(self) -> EnvV {
        EnvV { scopes: self.scopes.push(Map::empty()), ..self }
    }

    pub open spec fn pop_scope(self) -> EnvV {
        EnvV {
            scopes: if self.scopes.len() > 0 {
                self.scopes.drop_last()
            } else {
                self.scopes
            },
            ..self
        }
    }

    /// A name in the innermost scope.
    pub open spec fn define(self, name: Seq<char>, ty: TypeV) -> EnvV {
        EnvV {
            scopes: self.scopes.update(
                self.scopes.len() - 1,
                self.scopes.last().insert(name, ty),
            ),
            ..self
        }
    }

    /// Names and their types in the innermost scope.
    pub open spec fn define_all(self, params: Seq<(Seq<char>, TypeV)>) -> EnvV
        decreases params.len(),
    {
        if params.len() == 0 {
            self
        } else {
            self.define_all(params.drop_last()).define(params.last().0, params.last().1)
        }
    }

    pub open spec fn lookup(self, name: Seq<char>) -> Option<TypeV> {
        find_in(self.scopes, name)
    }
}

/// Defining names changes nothing but the innermost scope.
pub proof fn lemma_define_all_keeps(env: EnvV, params: Seq<(Seq<char>, TypeV)>)
    ensures
        env.define_all(params) == (EnvV { scopes: env.define_all(params).scopes, ..env }),
    decreases params.len(),
{
    if params.len() > 0 {
        lemma_define_all_keeps(env, params.drop_last());
    }
}

/// The type of a name in the innermost scope that has it.
pub open spec fn find_in(scopes: Seq<Map<Seq<char>, TypeV>>, name: Seq<char>) -> Option<TypeV>
    decreases scopes.len(),
{
    if scopes.len() == 0 {
        None
    } else if scopes.last().contains_key(name) {
        Some(scopes.last()[name])
    } else {
        find_in(scopes.drop_last(), name)
    }
}

// ---- declarations ----

/// The types of a list of parameters.
pub open spec fn param_types(params: Seq<(Seq<char>, TypeV)>) -> Seq<TypeV> {
    params.map_values(|p: (Seq<char>, TypeV)| p.1)
}

/// The functions that a program declares. A later declaration replaces an
/// earlier one of the same name; so with the tables below.
pub open spec fn fn_table(stmts: Seq<StmtV>) -> Map<Seq<char>, SigV>
    decreases stmts.len(),
{
    if stmts.len() == 0 {
        Map::empty()
    } else {
        let rest = fn_table(stmts.drop_last());
        match stmts.last().kind {
            StmtKindV::Fn { name, generics, params, ret, .. } => rest.insert(
                name,
                SigV { generics, params: param_types(params), ret },
            ),
            _ => rest,
        }
    }
}

/// The structs that a program declares, with their fields.
pub open spec fn struct_table(stmts: Seq<StmtV>) -> Map<Seq<char>, Seq<(Seq<char>, TypeV)>>
    decreases stmts.len(),
{
    if stmts.len() == 0 {
        Map::empty()
    } else {
        let rest = struct_table(stmts.drop_last());
        match stmts.last().kind {
            StmtKindV::Struct { name, fields, .. } => rest.insert(name, fields),
            _ => rest,
        }
    }
}

/// The traits that a program declares, with their methods.
pub open spec fn trait_table(stmts: Seq<StmtV>) -> Map<Seq<char>, Seq<TraitMethodV>>
    decreases stmts.len(),
{
    if stmts.len() == 0 {
        Map::empty()
    } else {
        let rest = trait_table(stmts.drop_last());
        match stmts.last().kind {
            StmtKindV::Trait { name, methods } => rest.insert(name, methods),
            _ => rest,
        }
    }
}

/// The foreign functions that a program declares.
pub open spec fn extern_table(stmts: Seq<StmtV>) -> Map<Seq<char>, SigV>
    decreases stmts.len(),
{
    if stmts.len() == 0 {
        Map::empty()
    } else {
        let rest = extern_table(stmts.drop_last());
        match stmts.last().kind {
            StmtKindV::ExternFn { name, params, ret } => rest.insert(
                name,
                SigV { generics: Seq::empty(), params: param_types(params), ret },
            ),
            _ => rest,
        }
    }
}

/// The macros that a program declares, with how many parameters each has.
pub open spec fn macro_table(stmts: Seq<StmtV>) -> Map<Seq<char>, nat>
    decreases stmts.len(),
{
    if stmts.len() == 0 {
        Map::empty()
    } else {
        let rest = macro_table(stmts.drop_last());
        match stmts.last().kind {
            StmtKindV::Macro { name, params, .. } => rest.insert(name, params.len()),
            _ => rest,
        }
    }
}

/// The `impl`s of a program, in order.
pub open spec fn impl_table(stmts: Seq<StmtV>) -> Seq<ImplV>
    decreases stmts.len(),
{
    if stmts.len() == 0 {
        Seq::empty()
    } else {
        let rest = impl_table(stmts.drop_last());
        match stmts.last().kind {
            StmtKindV::Impl { trait_name, for_type, methods } => rest.push(
                ImplV { trait_name, for_type, methods },
            ),
            _ => rest,
        }
    }
}

/// What a program's declarations say, before any statement is walked.
pub open spec fn declared(stmts: Seq<StmtV>) -> EnvV {
    EnvV {
        scopes: seq![Map::empty()],
        functions: fn_table(stmts),
        structs: struct_table(stmts),
        variants: program_variants(stmts),
        traits: trait_table(stmts),
        impls: impl_table(stmts),
        extern_fns: extern_table(stmts),
        macros: macro_table(stmts),
        current_return: None,
        enclosing: Seq::empty(),
        in_generic: false,
        instantiations: Seq::empty(),
    }
}

// ---- agreement of types ----

/// Two types agree. What is not known statically agrees with anything, and so
/// do the arguments of a named type that states none.
pub open spec fn compat(a: TypeV, b: TypeV) -> bool
    decreases a, 0int,
{
    match (a, b) {
        (TypeV::Inferred, _) => true,
        (_, TypeV::Inferred) => true,
        (TypeV::Named(n, xs), TypeV::Named(m, ys)) => n == m && (xs.len() == 0 || ys.len() == 0
            || (xs.len() == ys.len() && compat_from(xs, ys, 0))),
        (TypeV::Array(x), TypeV::Array(y)) => compat(*x, *y),
        (TypeV::Fn(xs, r), TypeV::Fn(ys, s)) => xs.len() == ys.len() && compat_from(xs, ys, 0)
            && compat(*r, *s),
        _ => a == b,
    }
}

/// The types of two lists agree one by one, from the `i`-th on.
pub open spec fn compat_from(xs: Seq<TypeV>, ys: Seq<TypeV>, i: int) -> bool
    decreases xs, xs.len() - i,
{
    if i < 0 || i >= xs.len() {
        true
    } else {
        compat(xs[i], ys[i]) && compat_from(xs, ys, i + 1)
    }
}

/// Every type agrees with itself.
pub proof fn law_compat_reflexive(t: TypeV)
    ensures
        compat(t, t),
    decreases t, 0int,
{
    match t {
        TypeV::Named(n, xs) => {
            lemma_compat_from_reflexive(xs, 0);
        },
        TypeV::Array(x) => {
            law_compat_reflexive(*x);
        },
        TypeV::Fn(xs, r) => {
            lemma_compat_from_reflexive(xs, 0);
            law_compat_reflexive(*r);
        },
        _ => {},
    }
}

proof fn lemma_compat_from_reflexive(xs: Seq<TypeV>, i: int)
    ensures
        compat_from(xs, xs, i),
    decreases xs, xs.len() - i,
{
    if 0 <= i < xs.len() {
        law_compat_reflexive(xs[i]);
        lemma_compat_from_reflexive(xs, i + 1);
    }
}

/// Agreement does not depend on which type is the expected one.
pub proof fn law_compat_symmetric(a: TypeV, b: TypeV)
    ensures
        compat(a, b) == compat(b, a),
    decreases a, 0int,
{
    match (a, b) {
        (TypeV::Named(n, xs), TypeV::Named(m, ys)) => {
            if xs.len() == ys.len() {
                lemma_compat_from_symmetric(xs, ys, 0);
            }
        },
        (TypeV::Array(x), TypeV::Array(y)) => {
            law_compat_symmetric(*x, *y);
        },
        (TypeV::Fn(xs, r), TypeV::Fn(ys, s)) => {
            if xs.len() == ys.len() {
                lemma_compat_from_symmetric(xs, ys, 0);
            }
            law_compat_symmetric(*r, *s);
        },
        _ => {},
    }
}

proof fn lemma_compat_from_symmetric(xs: Seq<TypeV>, ys: Seq<TypeV>, i: int)
    requires
        xs.len() == ys.len(),
    ensures
        compat_from(xs, ys, i) == compat_from(ys, xs, i),
    decreases xs, xs.len() - i,
{
    if 0 <= i < xs.len() {
        law_compat_symmetric(xs[i], ys[i]);
        lemma_compat_from_symmetric(xs, ys, i + 1);
    }
}

// ---- type parameters ----

/// A type with each type parameter replaced by what it stands for.
pub open spec fn subst(t: TypeV, b: Map<Seq<char>, TypeV>) -> TypeV
    decreases t,
{
    match t {
        TypeV::Named(n, args) => if args.len() == 0 && b.contains_key(n) {
            b[n]
        } else {
            TypeV::Named(n, subst_all(args, b))
        },
        TypeV::Array(el) => TypeV::Array(Box::new(subst(*el, b))),
        TypeV::Fn(args, ret) => TypeV::Fn(subst_all(args, b), Box::new(subst(*ret, b))),
        _ => t,
    }
}

pub open spec fn subst_all(ts: Seq<TypeV>, b: Map<Seq<char>, TypeV>) -> Seq<TypeV>
    decreases ts,
{
    Seq::new(
        ts.len(),
        |i: int|
            if 0 <= i < ts.len() {
                subst(ts[i], b)
            } else {
                arbitrary()
            },
    )
}

/// Replacing nothing changes nothing.
pub proof fn law_subst_nothing(t: TypeV)
    ensures
        subst(t, Map::empty()) == t,
    decreases t,
{
    match t {
        TypeV::Named(n, args) => {
            lemma_subst_all_nothing(args);
        },
        TypeV::Array(el) => {
            law_subst_nothing(*el);
        },
        TypeV::Fn(args, ret) => {
            lemma_subst_all_nothing(args);
            law_subst_nothing(*ret);
        },
        _ => {},
    }
}

proof fn lemma_subst_all_nothing(ts: Seq<TypeV>)
    ensures
        subst_all(ts, Map::empty()) == ts,
    decreases ts,
{
    assert forall|i: int| 0 <= i < ts.len() implies subst_all(ts, Map::empty())[i] == ts[i] by {
        law_subst_nothing(ts[i]);
    }
    assert(subst_all(ts, Map::empty()) =~= ts);
}

/// What the type parameters `gs` stand for, once a parameter of type `p` has
/// been given an argument of type `a`; or the two types that one of them would
/// have to stand for at once.
pub open spec fn bind(p: TypeV, a: TypeV, gs: Seq<Seq<char>>, b: Map<Seq<char>, TypeV>) -> Result<
    Map<Seq<char>, TypeV>,
    (TypeV, TypeV),
>
    decreases p, 0int,
{
    match p {
        TypeV::Named(n, ps) => if ps.len() == 0 && gs.contains(n) {
            if !b.contains_key(n) || b[n] is Inferred {
                Ok(b.insert(n, a))
            } else if compat(b[n], a) {
                Ok(b)
            } else {
                Err((b[n], a))
            }
        } else {
            match a {
                TypeV::Named(m, xs) => if n == m && ps.len() == xs.len() {
                    bind_from(ps, xs, gs, b, 0)
                } else {
                    Ok(b)
                },
                _ => Ok(b),
            }
        },
        TypeV::Array(x) => match a {
            TypeV::Array(y) => bind(*x, *y, gs, b),
            _ => Ok(b),
        },
        _ => Ok(b),
    }
}

pub open spec fn bind_from(
    ps: Seq<TypeV>,
    xs: Seq<TypeV>,
    gs: Seq<Seq<char>>,
    b: Map<Seq<char>, TypeV>,
    i: int,
) -> Result<Map<Seq<char>, TypeV>, (TypeV, TypeV)>
    decreases ps, ps.len() - i,
{
    if i < 0 || i >= ps.len() {
        Ok(b)
    } else {
        match bind(ps[i], xs[i], gs, b) {
            Err(e) => Err(e),
            Ok(b2) => bind_from(ps, xs, gs, b2, i + 1),
        }
    }
}

/// The first type parameter that stands for nothing yet.
pub open spec fn unbound(gs: Seq<Seq<char>>, b: Map<Seq<char>, TypeV>, i: int) -> Option<Seq<char>>
    decreases gs.len() - i,
{
    if i < 0 || i >= gs.len() {
        None
    } else if !b.contains_key(gs[i]) {
        Some(gs[i])
    } else {
        unbound(gs, b, i + 1)
    }
}

/// A type by the name of its constructor.
pub open spec fn constructor_text(t: TypeV) -> Seq<char>
    decreases t,
{
    match t {
        TypeV::Inferred => "Inferred"@,
        TypeV::Int => "Int"@,
        TypeV::Float => "Float"@,
        TypeV::Bool => "Bool"@,
        TypeV::String => "String"@,
        TypeV::Unit => "Unit"@,
        TypeV::Range => "Range"@,
        TypeV::Named(n, args) => "Named(\""@ + n + "\", ["@ + join_text(
            constructor_texts(args),
            ", "@,
        ) + "])"@,
        TypeV::Array(el) => "Array("@ + constructor_text(*el) + ")"@,
        TypeV::Fn(args, ret) => "Fn(["@ + join_text(constructor_texts(args), ", "@) + "], "@
            + constructor_text(*ret) + ")"@,
    }
}

pub open spec fn constructor_texts(ts: Seq<TypeV>) -> Seq<Seq<char>>
    decreases ts,
{
    Seq::new(
        ts.len(),
        |i: int|
            if 0 <= i < ts.len() {
                constructor_text(ts[i])
            } else {
                arbitrary()
            },
    )
}

// ---- single rules ----

pub open spec fn mismatch(expected: TypeV, found: TypeV) -> TypeErrorV {
    TypeErrorV::TypeMismatch { expected: type_text(expected), found: type_text(found) }
}

pub open spec fn mismatch_text(expected: Seq<char>, found: TypeV) -> TypeErrorV {
    TypeErrorV::TypeMismatch { expected, found: type_text(found) }
}

/// A truth value, or something that may be one.
pub open spec fn truth_like(t: TypeV) -> bool {
    t is Bool || t is Int || t is Inferred
}

/// The type of a binary operation on operands of the given types.
pub open spec fn binary_type(op: BinOp, lt: TypeV, rt: TypeV) -> Result<TypeV, TypeErrorV> {
    if !compat(lt, rt) {
        Err(mismatch(lt, rt))
    } else {
        match op {
            BinOp::Add | BinOp::Sub | BinOp::Mul | BinOp::Div | BinOp::Mod => Ok(lt),
            BinOp::Eq | BinOp::Ne | BinOp::Lt | BinOp::Le | BinOp::Gt | BinOp::Ge => Ok(
                TypeV::Bool,
            ),
            BinOp::And | BinOp::Or => if !truth_like(lt) {
                Err(mismatch(TypeV::Bool, lt))
            } else if !truth_like(rt) {
                Err(mismatch(TypeV::Bool, rt))
            } else {
                Ok(TypeV::Bool)
            },
        }
    }
}

/// The type of a unary operation on an operand of the given type.
pub open spec fn unary_type(op: UnaryOp, t: TypeV) -> Result<TypeV, TypeErrorV> {
    match op {
        UnaryOp::Neg => if t is Int || t is Float {
            Ok(t)
        } else {
            Err(mismatch_text("int or float"@, t))
        },
        UnaryOp::Not => if t is Bool || t is Int {
            Ok(TypeV::Bool)
        } else {
            Err(mismatch_text("bool or int"@, t))
        },
    }
}

/// What a `for` loop's variable holds when it walks a value of type `t`.
pub open spec fn element_type(t: TypeV) -> Option<TypeV> {
    match t {
        TypeV::Range => Some(TypeV::Int),
        TypeV::Int => Some(TypeV::Int),
        TypeV::Array(el) => Some(*el),
        TypeV::Inferred => Some(TypeV::Inferred),
        _ => None,
    }
}

/// The type of a variant that has been given arguments of the given types.
pub open spec fn variant_type(v: VariantV, args: Seq<TypeV>) -> TypeV {
    if v.enum_name == "Option"@ && v.name == "Some"@ && args.len() == 1 {
        TypeV::Named(v.enum_name, seq![args[0]])
    } else if v.enum_name == "Result"@ && v.name == "Ok"@ && args.len() == 1 {
        TypeV::Named(v.enum_name, seq![args[0], TypeV::Inferred])
    } else if v.enum_name == "Result"@ && v.name == "Err"@ && args.len() == 1 {
        TypeV::Named(v.enum_name, seq![TypeV::Inferred, args[0]])
    } else {
        TypeV::Named(v.enum_name, Seq::empty())
    }
}

/// The payload types of a variant in a value of type `t`: for `Option` and
/// `Result` they are the type's arguments, where it states any.
pub open spec fn payload_types(v: VariantV, t: TypeV) -> Seq<TypeV> {
    match t {
        TypeV::Named(n, args) => if n == v.enum_name && v.payload.len() == 1 {
            if (n == "Option"@ && v.name == "Some"@ || n == "Result"@ && v.name == "Ok"@)
                && args.len() > 0 {
                seq![args[0]]
            } else if n == "Result"@ && v.name == "Err"@ && args.len() > 1 {
                seq![args[1]]
            } else {
                v.payload
            }
        } else {
            v.payload
        },
        _ => v.payload,
    }
}

/// The type of a field or parameter, by name.
pub open spec fn named_type(fields: Seq<(Seq<char>, TypeV)>, name: Seq<char>, i: int) -> Option<
    TypeV,
>
    decreases fields.len() - i,
{
    if i < 0 || i >= fields.len() {
        None
    } else if fields[i].0 == name {
        Some(fields[i].1)
    } else {
        named_type(fields, name, i + 1)
    }
}

/// A method's parameters and result.
pub open spec fn method_in(methods: Seq<StmtV>, name: Seq<char>, i: int) -> Option<
    (Seq<(Seq<char>, TypeV)>, TypeV),
>
    decreases methods.len() - i,
{
    if i < 0 || i >= methods.len() {
        None
    } else {
        match methods[i].kind {
            StmtKindV::Fn { name: n, params, ret, .. } => if n == name {
                Some((params, ret))
            } else {
                method_in(methods, name, i + 1)
            },
            _ => method_in(methods, name, i + 1),
        }
    }
}

/// The method that a type has: the first of that name in its `impl`s.
pub open spec fn lookup_method(
    impls: Seq<ImplV>,
    for_type: Seq<char>,
    name: Seq<char>,
    i: int,
) -> Option<(Seq<(Seq<char>, TypeV)>, TypeV)>
    decreases impls.len() - i,
{
    if i < 0 || i >= impls.len() {
        None
    } else if impls[i].for_type == for_type && method_in(impls[i].methods, name, 0) is Some {
        method_in(impls[i].methods, name, 0)
    } else {
        lookup_method(impls, for_type, name, i + 1)
    }
}

/// The types of a method's parameters without its receiver.
pub open spec fn method_params(params: Seq<(Seq<char>, TypeV)>) -> Seq<TypeV> {
    if params.len() > 0 && params[0].0 == "self"@ {
        param_types(params.skip(1))
    } else {
        param_types(params)
    }
}

// ---- exhaustiveness ----

/// A pattern that every value matches.
pub open spec fn irrefutable(p: PatternV) -> bool {
    p is Wildcard || p is Variable
}

/// Patterns that all values match.
pub open spec fn irrefutable_each(ps: Seq<PatternV>) -> bool {
    forall|k: int| 0 <= k < ps.len() ==> irrefutable(#[trigger] ps[k])
}

/// Some unguarded arm holds a pattern that every value matches.
pub open spec fn has_catch_all(arms: Seq<(Seq<PatternV>, Option<ExprV>, ExprV)>) -> bool {
    exists|i: int, j: int|
        0 <= i < arms.len() && 0 <= j < arms[i].0.len() && arms[i].1 is None && irrefutable(
            #[trigger] arms[i].0[j],
        )
}

/// A pattern matches every value of a variant: it names the variant and binds
/// its whole payload.
pub open spec fn covers_variant(p: PatternV, v: VariantV, all: Seq<VariantV>) -> bool {
    match p {
        PatternV::EnumVariant { name, inner } => match lookup_v(all, name) {
            LookupV::Unique(w) => w.enum_name == v.enum_name && w.name == v.name
                && irrefutable_each(inner),
            _ => false,
        },
        _ => false,
    }
}

/// Some unguarded arm covers a variant.
pub open spec fn variant_covered(
    arms: Seq<(Seq<PatternV>, Option<ExprV>, ExprV)>,
    v: VariantV,
    all: Seq<VariantV>,
) -> bool {
    exists|i: int, j: int|
        0 <= i < arms.len() && 0 <= j < arms[i].0.len() && arms[i].1 is None && covers_variant(
            #[trigger] arms[i].0[j],
            v,
            all,
        )
}

/// A pattern that is the given truth value.
pub open spec fn is_truth(p: PatternV, b: bool) -> bool {
    match p {
        PatternV::Literal(e) => *e.kind == ExprKindV::Bool(b),
        _ => false,
    }
}

/// Some unguarded arm is the given truth value.
pub open spec fn truth_covered(
    arms: Seq<(Seq<PatternV>, Option<ExprV>, ExprV)>,
    b: bool,
) -> bool {
    exists|i: int, j: int|
        0 <= i < arms.len() && 0 <= j < arms[i].0.len() && arms[i].1 is None && is_truth(
            #[trigger] arms[i].0[j],
            b,
        )
}

/// The names of the variants that no arm covers.
pub open spec fn missing_variants(
    vs: Seq<VariantV>,
    arms: Seq<(Seq<PatternV>, Option<ExprV>, ExprV)>,
    all: Seq<VariantV>,
) -> Seq<Seq<char>>
    decreases vs.len(),
{
    if vs.len() == 0 {
        Seq::empty()
    } else if variant_covered(arms, vs.last(), all) {
        missing_variants(vs.drop_last(), arms, all)
    } else {
        missing_variants(vs.drop_last(), arms, all).push(vs.last().name)
    }
}

/// The truth values that no arm covers.
pub open spec fn missing_truths(arms: Seq<(Seq<PatternV>, Option<ExprV>, ExprV)>) -> Seq<
    Seq<char>,
> {
    (if truth_covered(arms, true) {
        Seq::empty()
    } else {
        seq!["true"@]
    }) + (if truth_covered(arms, false) {
        Seq::empty()
    } else {
        seq!["false"@]
    })
}

/// What a match on a value of type `t` leaves uncovered: `None` when it covers
/// everything, otherwise what is missing by name, where it has one. Of a type
/// that is not known nothing is claimed.
pub open spec fn uncovered(
    t: TypeV,
    arms: Seq<(Seq<PatternV>, Option<ExprV>, ExprV)>,
    all: Seq<VariantV>,
) -> Option<Seq<Seq<char>>> {
    if has_catch_all(arms) {
        None
    } else {
        match t {
            TypeV::Inferred => None,
            TypeV::Bool => if missing_truths(arms).len() == 0 {
                None
            } else {
                Some(missing_truths(arms))
            },
            TypeV::Named(n, _) => {
                let vs = sorted_by_tag(of_enum(all, n));
                let missing = missing_variants(vs, arms, all);
                if vs.len() == 0 {
                    Some(Seq::empty())
                } else if missing.len() == 0 {
                    None
                } else {
                    Some(missing)
                }
            },
            _ => Some(Seq::empty()),
        }
    }
}

// ---- expressions ----

/// The type of an expression.
pub open spec fn check_expr(e: ExprV, env: EnvV) -> Checked<TypeV>
    decreases e, 1int,
{
    match *e.kind {
        ExprKindV::Int(_) => (Ok(TypeV::Int), env),
        ExprKindV::Float(_) => (Ok(TypeV::Float), env),
        ExprKindV::Bool(_) => (Ok(TypeV::Bool), env),
        ExprKindV::Str(_) => (Ok(TypeV::String), env),
        ExprKindV::Ident(name) => (ident_type(name, env), env),
        ExprKindV::Binary(_, _, _) => check_binary(e, env),
        ExprKindV::Unary(_, _) => check_unary(e, env),
        ExprKindV::Call(_, _) => check_call(e, env),
        ExprKindV::MethodCall(_, _, _) => check_method_call(e, env),
        ExprKindV::FieldAccess(_, _) => check_field(e, env),
        ExprKindV::StructLit { .. } => check_struct_lit(e, env),
        ExprKindV::Match { .. } => check_match(e, env),
        ExprKindV::If { .. } => check_if(e, env),
        ExprKindV::While { .. } => check_while(e, env),
        ExprKindV::For { .. } => check_for(e, env),
        ExprKindV::Range(_, _) => check_range(e, env),
        ExprKindV::ArrayLit(_) => check_array(e, env),
        ExprKindV::Index(_, _) => check_index(e, env),
    }
}

/// The type of a name: that of a variant, or of a variable.
pub open spec fn ident_type(name: Seq<char>, env: EnvV) -> Result<TypeV, TypeErrorV> {
    match lookup_v(env.variants, name) {
        LookupV::Unique(v) => Ok(TypeV::Named(v.enum_name, Seq::empty())),
        LookupV::Ambiguous(candidates) => Err(TypeErrorV::AmbiguousVariant { name, candidates }),
        LookupV::Unknown => match env.lookup(name) {
            Some(t) => Ok(t),
            None => Err(TypeErrorV::UndefinedVariable(name)),
        },
    }
}

pub open spec fn check_binary(e: ExprV, env: EnvV) -> Checked<TypeV>
    decreases e, 0int,
{
    match *e.kind {
        ExprKindV::Binary(l, op, r) => match check_expr(*l, env) {
            (Err(x), env1) => (Err(x), env1),
            (Ok(lt), env1) => match check_expr(*r, env1) {
                (Err(x), env2) => (Err(x), env2),
                (Ok(rt), env2) => (binary_type(op, lt, rt), env2),
            },
        },
        _ => (Ok(TypeV::Inferred), env),
    }
}

pub open spec fn check_unary(e: ExprV, env: EnvV) -> Checked<TypeV>
    decreases e, 0int,
{
    match *e.kind {
        ExprKindV::Unary(op, x) => match check_expr(*x, env) {
            (Err(x), env1) => (Err(x), env1),
            (Ok(t), env1) => (unary_type(op, t), env1),
        },
        _ => (Ok(TypeV::Inferred), env),
    }
}

/// Expressions that may have any type, from the `i`-th on.
pub open spec fn check_each(es: Seq<ExprV>, i: int, env: EnvV) -> Checked<()>
    decreases es, es.len() - i,
{
    if i < 0 || i >= es.len() {
        (Ok(()), env)
    } else {
        match check_expr(es[i], env) {
            (Err(x), env1) => (Err(x), env1),
            (Ok(_), env1) => check_each(es, i + 1, env1),
        }
    }
}

/// Expressions that have to agree with the expected types, from the `i`-th on;
/// the types that they have.
pub open spec fn check_against(
    es: Seq<ExprV>,
    expected: Seq<TypeV>,
    i: int,
    acc: Seq<TypeV>,
    env: EnvV,
) -> Checked<Seq<TypeV>>
    decreases es, es.len() - i,
{
    if i < 0 || i >= es.len() {
        (Ok(acc), env)
    } else {
        match check_expr(es[i], env) {
            (Err(x), env1) => (Err(x), env1),
            (Ok(t), env1) => if compat(expected[i], t) {
                check_against(es, expected, i + 1, acc.push(t), env1)
            } else {
                (Err(mismatch(expected[i], t)), env1)
            },
        }
    }
}

/// The arguments of a call of a function with type parameters, from the `i`-th
/// on; what the type parameters stand for.
pub open spec fn check_generic(
    es: Seq<ExprV>,
    sig: SigV,
    i: int,
    b: Map<Seq<char>, TypeV>,
    env: EnvV,
) -> Checked<Map<Seq<char>, TypeV>>
    decreases es, es.len() - i,
{
    if i < 0 || i >= es.len() {
        (Ok(b), env)
    } else {
        match check_expr(es[i], env) {
            (Err(x), env1) => (Err(x), env1),
            (Ok(t), env1) => match bind(sig.params[i], t, sig.generics, b) {
                Err((want, got)) => (
                    Err(
                        TypeErrorV::TypeMismatch {
                            expected: constructor_text(want),
                            found: constructor_text(got),
                        },
                    ),
                    env1,
                ),
                Ok(b1) => if compat(subst(sig.params[i], b1), t) {
                    check_generic(es, sig, i + 1, b1, env1)
                } else {
                    (Err(mismatch(subst(sig.params[i], b1), t)), env1)
                },
            },
        }
    }
}

pub open spec fn arity_error(name: Seq<char>, expected: nat, found: nat) -> TypeErrorV {
    TypeErrorV::WrongArity { name, expected, found }
}

/// What a call's name refers to is looked up in this order: builtins, macros,
/// variants, functions, foreign functions.
pub open spec fn check_call(e: ExprV, env: EnvV) -> Checked<TypeV>
    decreases e, 0int,
{
    match *e.kind {
        ExprKindV::Call(callee, args) => match name_of(*callee) {
            None => (Err(TypeErrorV::NotAFunction("non-identifier call"@)), env),
            Some(name) => if builtin_signature(name) is Some {
                let (arity, ret) = builtin_signature(name)->Some_0;
                check_plain_call(name, args, arity, ret, env)
            } else if env.macros.contains_key(name) {
                check_plain_call(name, args, env.macros[name], TypeV::Inferred, env)
            } else {
                match lookup_v(env.variants, name) {
                    LookupV::Unique(v) => check_variant_call(name, v, args, env),
                    LookupV::Ambiguous(candidates) => (
                        Err(TypeErrorV::AmbiguousVariant { name, candidates }),
                        env,
                    ),
                    LookupV::Unknown => if env.functions.contains_key(name) {
                        check_fn_call(name, env.functions[name], args, e.span, env)
                    } else if env.extern_fns.contains_key(name) {
                        (Err(TypeErrorV::ExternCall(name)), env)
                    } else {
                        (Err(TypeErrorV::UndefinedFunction(name)), env)
                    },
                }
            },
        },
        _ => (Ok(TypeV::Inferred), env),
    }
}

/// A call whose arguments may have any type.
pub open spec fn check_plain_call(
    name: Seq<char>,
    args: Seq<ExprV>,
    arity: nat,
    ret: TypeV,
    env: EnvV,
) -> Checked<TypeV>
    decreases args, args.len() + 1,
{
    if args.len() != arity {
        (Err(arity_error(name, arity, args.len())), env)
    } else {
        match check_each(args, 0, env) {
            (Err(x), env1) => (Err(x), env1),
            (Ok(_), env1) => (Ok(ret), env1),
        }
    }
}

pub open spec fn check_variant_call(
    name: Seq<char>,
    v: VariantV,
    args: Seq<ExprV>,
    env: EnvV,
) -> Checked<TypeV>
    decreases args, args.len() + 1,
{
    if v.payload.len() != args.len() {
        (Err(arity_error(name, v.payload.len(), args.len())), env)
    } else {
        match check_against(args, v.payload, 0, Seq::empty(), env) {
            (Err(x), env1) => (Err(x), env1),
            (Ok(ts), env1) => (Ok(variant_type(v, ts)), env1),
        }
    }
}

/// A call of a declared function. Where the function has type parameters, what
/// they stand for is recorded, unless the call stands in a generic function,
/// whose own parameters are not known yet.
pub open spec fn check_fn_call(
    name: Seq<char>,
    sig: SigV,
    args: Seq<ExprV>,
    span: Span,
    env: EnvV,
) -> Checked<TypeV>
    decreases args, args.len() + 1,
{
    if sig.params.len() != args.len() {
        (Err(arity_error(name, sig.params.len(), args.len())), env)
    } else {
        match check_generic(args, sig, 0, Map::empty(), env) {
            (Err(x), env1) => (Err(x), env1),
            (Ok(b), env1) => match unbound(sig.generics, b, 0) {
                Some(param) => (Err(TypeErrorV::CannotInfer { name, param }), env1),
                None => (Ok(subst(sig.ret, b)), recorded(name, sig, b, span, env1)),
            },
        }
    }
}

/// What is known after a call of a function with type parameters.
pub open spec fn recorded(
    name: Seq<char>,
    sig: SigV,
    b: Map<Seq<char>, TypeV>,
    span: Span,
    env: EnvV,
) -> EnvV {
    if sig.generics.len() == 0 || env.in_generic {
        env
    } else {
        EnvV {
            instantiations: env.instantiations.push(
                InstanceV {
                    enclosing: env.enclosing,
                    span,
                    name,
                    args: sig.generics.map_values(|g: Seq<char>| b[g]),
                },
            ),
            ..env
        }
    }
}

pub open spec fn check_method_call(e: ExprV, env: EnvV) -> Checked<TypeV>
    decreases e, 0int,
{
    match *e.kind {
        ExprKindV::MethodCall(obj, method, args) => match check_expr(*obj, env) {
            (Err(x), env1) => (Err(x), env1),
            (Ok(t), env1) => match t {
                TypeV::Named(n, targs) => if builtin_method(n, targs, method) is Some {
                    let (arity, ret) = builtin_method(n, targs, method)->Some_0;
                    check_plain_call(method, args, arity, ret, env1)
                } else {
                    match lookup_method(env1.impls, n, method, 0) {
                        None => (
                            Err(TypeErrorV::UnknownField { ty: n, field: method }),
                            env1,
                        ),
                        Some((params, ret)) => check_user_method(
                            method,
                            method_params(params),
                            ret,
                            args,
                            env1,
                        ),
                    }
                },
                _ => (
                    Err(TypeErrorV::UnknownField { ty: type_text(t), field: method }),
                    env1,
                ),
            },
        },
        _ => (Ok(TypeV::Inferred), env),
    }
}

pub open spec fn check_user_method(
    method: Seq<char>,
    params: Seq<TypeV>,
    ret: TypeV,
    args: Seq<ExprV>,
    env: EnvV,
) -> Checked<TypeV>
    decreases args, args.len() + 1,
{
    if params.len() != args.len() {
        (Err(arity_error(method, params.len(), args.len())), env)
    } else {
        match check_against(args, params, 0, Seq::empty(), env) {
            (Err(x), env1) => (Err(x), env1),
            (Ok(_), env1) => (Ok(ret), env1),
        }
    }
}

/// The type of a field of a value of type `t`.
pub open spec fn field_type(t: TypeV, field: Seq<char>, env: EnvV) -> Result<TypeV, TypeErrorV> {
    match t {
        TypeV::Named(n, _) => if env.structs.contains_key(n) && named_type(
            env.structs[n],
            field,
            0,
        ) is Some {
            Ok(named_type(env.structs[n], field, 0)->Some_0)
        } else {
            Err(TypeErrorV::UnknownField { ty: n, field })
        },
        _ => Err(TypeErrorV::UnknownField { ty: type_text(t), field }),
    }
}

pub open spec fn check_field(e: ExprV, env: EnvV) -> Checked<TypeV>
    decreases e, 0int,
{
    match *e.kind {
        ExprKindV::FieldAccess(obj, field) => match check_expr(*obj, env) {
            (Err(x), env1) => (Err(x), env1),
            (Ok(t), env1) => (field_type(t, field, env1), env1),
        },
        _ => (Ok(TypeV::Inferred), env),
    }
}

/// The fields of a struct literal, from the `i`-th on. They may stand in any
/// order.
pub open spec fn check_fields(
    name: Seq<char>,
    def: Seq<(Seq<char>, TypeV)>,
    fields: Seq<(Seq<char>, ExprV)>,
    i: int,
    env: EnvV,
) -> Checked<()>
    decreases fields, fields.len() - i,
{
    if i < 0 || i >= fields.len() {
        (Ok(()), env)
    } else {
        match named_type(def, fields[i].0, 0) {
            None => (Err(TypeErrorV::UnknownField { ty: name, field: fields[i].0 }), env),
            Some(want) => match check_expr(fields[i].1, env) {
                (Err(x), env1) => (Err(x), env1),
                (Ok(t), env1) => if compat(want, t) {
                    check_fields(name, def, fields, i + 1, env1)
                } else {
                    (Err(mismatch(want, t)), env1)
                },
            },
        }
    }
}

pub open spec fn check_struct_lit(e: ExprV, env: EnvV) -> Checked<TypeV>
    decreases e, 0int,
{
    match *e.kind {
        ExprKindV::StructLit { name, fields } => if !env.structs.contains_key(name) {
            (Err(TypeErrorV::UndefinedType(name)), env)
        } else {
            let def = env.structs[name];
            if def.len() != fields.len() {
                (Err(arity_error(name, def.len(), fields.len())), env)
            } else {
                match check_fields(name, def, fields, 0, env) {
                    (Err(x), env1) => (Err(x), env1),
                    (Ok(_), env1) => (Ok(TypeV::Named(name, Seq::empty())), env1),
                }
            }
        },
        _ => (Ok(TypeV::Inferred), env),
    }
}

/// A pattern for a value of type `t`; its variables become known.
pub open spec fn check_pattern(p: PatternV, t: TypeV, env: EnvV) -> Checked<()>
    decreases p, 1int,
{
    match p {
        PatternV::Literal(e) => match check_expr(e, env) {
            (Err(x), env1) => (Err(x), env1),
            (Ok(pt), env1) => if compat(pt, t) {
                (Ok(()), env1)
            } else {
                (Err(mismatch(t, pt)), env1)
            },
        },
        PatternV::Variable(name) => (Ok(()), env.define(name, t)),
        PatternV::Wildcard => (Ok(()), env),
        PatternV::EnumVariant { name, inner } => match lookup_v(env.variants, name) {
            LookupV::Ambiguous(candidates) => (
                Err(TypeErrorV::AmbiguousVariant { name, candidates }),
                env,
            ),
            LookupV::Unknown => (Err(TypeErrorV::UndefinedType(name)), env),
            LookupV::Unique(v) => if !compat(t, TypeV::Named(v.enum_name, Seq::empty())) {
                (
                    Err(
                        TypeErrorV::TypeMismatch {
                            expected: type_text(t),
                            found: "Enum "@ + v.enum_name,
                        },
                    ),
                    env,
                )
            } else if v.payload.len() != inner.len() {
                (Err(arity_error(name, v.payload.len(), inner.len())), env)
            } else {
                check_patterns(inner, payload_types(v, t), 0, env)
            },
        },
    }
}

/// Patterns for values of the given types, from the `i`-th on.
pub open spec fn check_patterns(
    ps: Seq<PatternV>,
    ts: Seq<TypeV>,
    i: int,
    env: EnvV,
) -> Checked<()>
    decreases ps, ps.len() - i,
{
    if i < 0 || i >= ps.len() {
        (Ok(()), env)
    } else {
        match check_pattern(ps[i], ts[i], env) {
            (Err(x), env1) => (Err(x), env1),
            (Ok(_), env1) => check_patterns(ps, ts, i + 1, env1),
        }
    }
}

/// Patterns that are alternatives for one value, from the `i`-th on.
pub open spec fn check_alternatives(ps: Seq<PatternV>, t: TypeV, i: int, env: EnvV) -> Checked<()>
    decreases ps, ps.len() - i,
{
    if i < 0 || i >= ps.len() {
        (Ok(()), env)
    } else {
        match check_pattern(ps[i], t, env) {
            (Err(x), env1) => (Err(x), env1),
            (Ok(_), env1) => check_alternatives(ps, t, i + 1, env1),
        }
    }
}

/// An optional expression.
pub open spec fn check_opt(e: Option<ExprV>, env: EnvV) -> Checked<()>
    decreases e, 0int,
{
    match e {
        None => (Ok(()), env),
        Some(x) => match check_expr(x, env) {
            (Err(x), env1) => (Err(x), env1),
            (Ok(_), env1) => (Ok(()), env1),
        },
    }
}

/// One match arm, in a scope of its own; the type of its body.
pub open spec fn check_arm(
    arm: (Seq<PatternV>, Option<ExprV>, ExprV),
    t: TypeV,
    env: EnvV,
) -> Checked<TypeV>
    decreases arm, 0int,
{
    match check_alternatives(arm.0, t, 0, env.push_scope()) {
        (Err(x), env1) => (Err(x), env1),
        (Ok(_), env1) => match check_opt(arm.1, env1) {
            (Err(x), env2) => (Err(x), env2),
            (Ok(_), env2) => match check_expr(arm.2, env2) {
                (Err(x), env3) => (Err(x), env3),
                (Ok(bt), env3) => (Ok(bt), env3.pop_scope()),
            },
        },
    }
}

/// Match arms from the `i`-th on; `found` is the type of the first.
pub open spec fn check_arms(
    arms: Seq<(Seq<PatternV>, Option<ExprV>, ExprV)>,
    t: TypeV,
    i: int,
    found: Option<TypeV>,
    env: EnvV,
) -> Checked<Option<TypeV>>
    decreases arms, arms.len() - i,
{
    if i < 0 || i >= arms.len() {
        (Ok(found), env)
    } else {
        match check_arm(arms[i], t, env) {
            (Err(x), env1) => (Err(x), env1),
            (Ok(bt), env1) => match found {
                None => check_arms(arms, t, i + 1, Some(bt), env1),
                Some(first) => if compat(first, bt) {
                    check_arms(arms, t, i + 1, found, env1)
                } else {
                    (Err(mismatch(first, bt)), env1)
                },
            },
        }
    }
}

pub open spec fn check_match(e: ExprV, env: EnvV) -> Checked<TypeV>
    decreases e, 0int,
{
    match *e.kind {
        ExprKindV::Match { scrutinee, arms } => match check_expr(*scrutinee, env) {
            (Err(x), env1) => (Err(x), env1),
            (Ok(t), env1) => match check_arms(arms, t, 0, None, env1) {
                (Err(x), env2) => (Err(x), env2),
                (Ok(found), env2) => match uncovered(t, arms, env2.variants) {
                    Some(missing) => (Err(TypeErrorV::NotExhaustive(missing)), env2),
                    None => (
                        Ok(
                            match found {
                                Some(bt) => bt,
                                None => TypeV::Unit,
                            },
                        ),
                        env2,
                    ),
                },
            },
        },
        _ => (Ok(TypeV::Inferred), env),
    }
}

pub open spec fn check_if(e: ExprV, env: EnvV) -> Checked<TypeV>
    decreases e, 0int,
{
    match *e.kind {
        ExprKindV::If { cond, then_body, else_body } => match check_expr(*cond, env) {
            (Err(x), env1) => (Err(x), env1),
            (Ok(_), env1) => match check_expr(*then_body, env1) {
                (Err(x), env2) => (Err(x), env2),
                (Ok(tt), env2) => match else_body {
                    None => (Ok(TypeV::Unit), env2),
                    Some(eb) => match check_expr(*eb, env2) {
                        (Err(x), env3) => (Err(x), env3),
                        (Ok(et), env3) => if compat(tt, et) {
                            (Ok(tt), env3)
                        } else {
                            (Err(mismatch(tt, et)), env3)
                        },
                    },
                },
            },
        },
        _ => (Ok(TypeV::Inferred), env),
    }
}

pub open spec fn check_while(e: ExprV, env: EnvV) -> Checked<TypeV>
    decreases e, 0int,
{
    match *e.kind {
        ExprKindV::While { cond, body } => match check_expr(*cond, env) {
            (Err(x), env1) => (Err(x), env1),
            (Ok(_), env1) => match check_block(body, env1) {
                (Err(x), env2) => (Err(x), env2),
                (Ok(_), env2) => (Ok(TypeV::Int), env2),
            },
        },
        _ => (Ok(TypeV::Inferred), env),
    }
}

pub open spec fn check_for(e: ExprV, env: EnvV) -> Checked<TypeV>
    decreases e, 0int,
{
    match *e.kind {
        ExprKindV::For { var, iter, body } => match check_expr(*iter, env) {
            (Err(x), env1) => (Err(x), env1),
            (Ok(t), env1) => match check_loop_body(var, t, body, env1) {
                (Err(x), env2) => (Err(x), env2),
                (Ok(_), env2) => (Ok(TypeV::Int), env2),
            },
        },
        _ => (Ok(TypeV::Inferred), env),
    }
}

pub open spec fn check_range(e: ExprV, env: EnvV) -> Checked<TypeV>
    decreases e, 0int,
{
    match *e.kind {
        ExprKindV::Range(a, b) => match check_expr(*a, env) {
            (Err(x), env1) => (Err(x), env1),
            (Ok(at), env1) => match check_expr(*b, env1) {
                (Err(x), env2) => (Err(x), env2),
                (Ok(bt), env2) => if !(at is Int) {
                    (Err(mismatch(TypeV::Int, at)), env2)
                } else if !(bt is Int) {
                    (Err(mismatch(TypeV::Int, bt)), env2)
                } else {
                    (Ok(TypeV::Range), env2)
                },
            },
        },
        _ => (Ok(TypeV::Inferred), env),
    }
}

/// Array elements from the `i`-th on; each has to agree with the first.
pub open spec fn check_elements(es: Seq<ExprV>, first: TypeV, i: int, env: EnvV) -> Checked<()>
    decreases es, es.len() - i,
{
    if i < 0 || i >= es.len() {
        (Ok(()), env)
    } else {
        match check_expr(es[i], env) {
            (Err(x), env1) => (Err(x), env1),
            (Ok(t), env1) => if compat(t, first) {
                check_elements(es, first, i + 1, env1)
            } else {
                (Err(mismatch(first, t)), env1)
            },
        }
    }
}

pub open spec fn check_array(e: ExprV, env: EnvV) -> Checked<TypeV>
    decreases e, 0int,
{
    match *e.kind {
        ExprKindV::ArrayLit(es) => if es.len() == 0 {
            (Ok(TypeV::Array(Box::new(TypeV::Inferred))), env)
        } else {
            match check_expr(es[0], env) {
                (Err(x), env1) => (Err(x), env1),
                (Ok(first), env1) => match check_elements(es, first, 1, env1) {
                    (Err(x), env2) => (Err(x), env2),
                    (Ok(_), env2) => (Ok(TypeV::Array(Box::new(first))), env2),
                },
            }
        },
        _ => (Ok(TypeV::Inferred), env),
    }
}

pub open spec fn check_index(e: ExprV, env: EnvV) -> Checked<TypeV>
    decreases e, 0int,
{
    match *e.kind {
        ExprKindV::Index(a, i) => match check_expr(*a, env) {
            (Err(x), env1) => (Err(x), env1),
            (Ok(at), env1) => match check_expr(*i, env1) {
                (Err(x), env2) => (Err(x), env2),
                (Ok(it), env2) => if !(it is Int) {
                    (Err(mismatch(TypeV::Int, it)), env2)
                } else {
                    match at {
                        TypeV::Array(el) => (Ok(*el), env2),
                        _ => (Err(mismatch_text("array"@, at)), env2),
                    }
                },
            },
        },
        _ => (Ok(TypeV::Inferred), env),
    }
}

// ---- statements ----

/// Statements from the `i`-th on.
pub open spec fn check_stmts(ss: Seq<StmtV>, i: int, env: EnvV) -> Checked<()>
    decreases ss, ss.len() - i,
{
    if i < 0 || i >= ss.len() {
        (Ok(()), env)
    } else {
        match check_stmt(ss[i], env) {
            (Err(d), env1) => (Err(TypeErrorV::Located(d)), env1),
            (Ok(_), env1) => check_stmts(ss, i + 1, env1),
        }
    }
}

/// Statements in a scope of their own.
pub open spec fn check_block(ss: Seq<StmtV>, env: EnvV) -> Checked<()>
    decreases ss, ss.len() + 1,
{
    match check_stmts(ss, 0, env.push_scope()) {
        (Err(x), env1) => (Err(x), env1),
        (Ok(_), env1) => (Ok(()), env1.pop_scope()),
    }
}

/// The body of a `for` loop that walks a value of type `t`.
pub open spec fn check_loop_body(
    var: Seq<char>,
    t: TypeV,
    body: Seq<StmtV>,
    env: EnvV,
) -> Checked<()>
    decreases body, body.len() + 1,
{
    match element_type(t) {
        None => (Err(mismatch_text("range, array or int"@, t)), env),
        Some(el) => match check_stmts(body, 0, env.push_scope().define(var, el)) {
            (Err(x), env1) => (Err(x), env1),
            (Ok(_), env1) => (Ok(()), env1.pop_scope()),
        },
    }
}

/// A statement. An error in it is reported at the innermost statement that
/// holds it.
pub open spec fn check_stmt(s: StmtV, env: EnvV) -> (Result<(), DiagnosticV>, EnvV)
    decreases s, 2int,
{
    match check_stmt_inner(s, env) {
        (Ok(_), env1) => (Ok(()), env1),
        (Err(TypeErrorV::Located(d)), env1) => (Err(d), env1),
        (Err(x), env1) => (Err(DiagnosticV { message: error_text(x), span: s.span }), env1),
    }
}

pub open spec fn check_stmt_inner(s: StmtV, env: EnvV) -> Checked<()>
    decreases s, 1int,
{
    match s.kind {
        StmtKindV::Let { name, ty, value } => match check_expr(value, env) {
            (Err(x), env1) => (Err(x), env1),
            (Ok(t), env1) => if !(ty is Inferred) && !compat(ty, t) {
                (Err(mismatch(ty, t)), env1)
            } else {
                (Ok(()), env1.define(name, t))
            },
        },
        StmtKindV::Fn { .. } => check_fn(s, env),
        StmtKindV::While { cond, body } => match check_expr(cond, env) {
            (Err(x), env1) => (Err(x), env1),
            (Ok(_), env1) => check_block(body, env1),
        },
        StmtKindV::For { var, iter, body } => match check_expr(iter, env) {
            (Err(x), env1) => (Err(x), env1),
            (Ok(t), env1) => check_loop_body(var, t, body, env1),
        },
        StmtKindV::Assign { name, value } => match check_expr(value, env) {
            (Err(x), env1) => (Err(x), env1),
            (Ok(t), env1) => match env1.lookup(name) {
                Some(want) => if compat(want, t) {
                    (Ok(()), env1)
                } else {
                    (Err(mismatch(want, t)), env1)
                },
                None => (Ok(()), env1),
            },
        },
        StmtKindV::If { cond, then_body, else_body } => match check_expr(cond, env) {
            (Err(x), env1) => (Err(x), env1),
            (Ok(_), env1) => match check_block(then_body, env1) {
                (Err(x), env2) => (Err(x), env2),
                (Ok(_), env2) => match else_body {
                    None => (Ok(()), env2),
                    Some(eb) => check_block(eb, env2),
                },
            },
        },
        StmtKindV::Expr(e) => match check_expr(e, env) {
            (Err(x), env1) => (Err(x), env1),
            (Ok(_), env1) => (Ok(()), env1),
        },
        StmtKindV::Return(e) => check_return(e, env),
        _ => (Ok(()), env),
    }
}

/// What is known at the start of a function's body.
pub open spec fn inside_fn(
    name: Seq<char>,
    generic: bool,
    params: Seq<(Seq<char>, TypeV)>,
    ret: TypeV,
    env: EnvV,
) -> EnvV {
    EnvV {
        current_return: Some(ret),
        enclosing: name,
        in_generic: generic,
        ..env.push_scope().define_all(params)
    }
}

/// What is known behind a function that stood in `outer`.
pub open spec fn after_fn(env: EnvV, outer: EnvV) -> EnvV {
    EnvV {
        current_return: outer.current_return,
        enclosing: outer.enclosing,
        in_generic: outer.in_generic,
        ..env.pop_scope()
    }
}

/// A function's body, in a scope that has its parameters.
pub open spec fn check_fn(s: StmtV, env: EnvV) -> Checked<()>
    decreases s, 0int,
{
    match s.kind {
        StmtKindV::Fn { name, generics, params, ret, body } => match check_stmts(
            body,
            0,
            inside_fn(name, generics.len() > 0, params, ret, env),
        ) {
            (Err(x), env1) => (Err(x), env1),
            (Ok(_), env1) => (Ok(()), after_fn(env1, env)),
        },
        _ => (Ok(()), env),
    }
}

/// A `return` has to agree with the result type of its function; at top level
/// that is unit.
pub open spec fn check_return(e: Option<ExprV>, env: EnvV) -> Checked<()>
    decreases e, 0int,
{
    let ret = match env.current_return {
        Some(t) => t,
        None => TypeV::Unit,
    };
    match e {
        None => if ret is Unit {
            (Ok(()), env)
        } else {
            (Err(mismatch(ret, TypeV::Unit)), env)
        },
        Some(x) => match check_expr(x, env) {
            (Err(x), env1) => (Err(x), env1),
            (Ok(t), env1) => if compat(ret, t) {
                (Ok(()), env1)
            } else {
                (Err(mismatch(ret, t)), env1)
            },
        },
    }
}

// ---- programs ----

/// Whether a method of that name stands in a list of functions.
pub open spec fn has_method(methods: Seq<StmtV>, name: Seq<char>) -> bool {
    method_in(methods, name, 0) is Some
}

/// The first method from the `i`-th on that a trait requires and an `impl`
/// lacks.
pub open spec fn lacking(required: Seq<TraitMethodV>, methods: Seq<StmtV>, i: int) -> Option<
    Seq<char>,
>
    decreases required.len() - i,
{
    if i < 0 || i >= required.len() {
        None
    } else if !has_method(methods, required[i].name) {
        Some(required[i].name)
    } else {
        lacking(required, methods, i + 1)
    }
}

/// What is wrong with an `impl`. One without a trait has nothing to meet.
pub open spec fn impl_error(s: StmtV, traits: Map<Seq<char>, Seq<TraitMethodV>>) -> Option<
    TypeErrorV,
> {
    match s.kind {
        StmtKindV::Impl { trait_name, for_type, methods } => if trait_name.len() == 0 {
            None
        } else if !traits.contains_key(trait_name) {
            Some(TypeErrorV::UndefinedTrait(trait_name))
        } else {
            match lacking(traits[trait_name], methods, 0) {
                Some(method) => Some(TypeErrorV::MissingImpl { trait_name, for_type, method }),
                None => None,
            }
        },
        _ => None,
    }
}

/// The first `impl` from the `i`-th statement on that something is wrong with.
pub open spec fn check_impls(
    ss: Seq<StmtV>,
    i: int,
    traits: Map<Seq<char>, Seq<TraitMethodV>>,
) -> Result<(), DiagnosticV>
    decreases ss.len() - i,
{
    if i < 0 || i >= ss.len() {
        Ok(())
    } else {
        match impl_error(ss[i], traits) {
            Some(x) => Err(DiagnosticV { message: error_text(x), span: ss[i].span }),
            None => check_impls(ss, i + 1, traits),
        }
    }
}

/// Whether a program type-checks; what is known at its end, or the first thing
/// that is wrong.
pub open spec fn check_program(ss: Seq<StmtV>) -> Result<EnvV, DiagnosticV> {
    match check_impls(ss, 0, trait_table(ss)) {
        Err(d) => Err(d),
        Ok(_) => match check_stmts(ss, 0, declared(ss)) {
            (Ok(_), env) => Ok(env),
            (Err(TypeErrorV::Located(d)), _) => Err(d),
            (Err(x), _) => Err(DiagnosticV { message: error_text(x), span: Span { line: 1, col: 1 } }),
        },
    }
}

} // verus!
