//! Type checker for the Zarrin language.

use crate::ast::{
    arms_view, exprs_view, fields_view, opt_expr_view, params_view, patterns_view, stmts_view,
    types_view, BinOp, Expr, ExprKind, Pattern, PatternV, Program, Stmt, StmtKind, TraitMethod,
    Type, TypeV, UnaryOp,
};
use crate::ast::{arm_view, methods_view};
use crate::builtins;
use crate::diagnostic::{Diagnostic, Span};
use crate::env::{find_method, FnSig, TypeEnv};
use crate::exhaustive::find_uncovered;
use crate::names::NameMap;
use crate::text::{cat2, str_eq, texts};
use crate::types::{bind_type, bound_types, compatible, find_unbound, substitute, TypeError};
use crate::typing::{
    binary_type, check_against, check_alternatives, check_arm, check_arms, check_array,
    check_binary, check_block, check_call, check_each, check_elements, check_expr, check_field,
    check_fields, check_fn, check_fn_call, check_for, check_generic, check_if, check_impls,
    check_index, check_loop_body, check_match, check_method_call, check_opt, check_pattern,
    check_patterns, check_plain_call, check_program, check_range, check_return, check_stmt,
    check_stmt_inner, check_stmts, check_struct_lit, check_unary, check_user_method,
    check_variant_call, check_while, declared, element_type, field_type, ident_type, impl_error,
    lacking, lemma_define_all_keeps, method_params, named_type, payload_types, truth_like,
    unary_type, variant_type, Checked, EnvV,
};
use crate::variants::{Lookup, Variant};
use vstd::prelude::*;

verus! {

broadcast use crate::ast::group_views;

/// A checker's outcome is the one that the typing rules give.
pub open spec fn says_type(r: Result<Type, TypeError>, env: EnvV, want: Checked<TypeV>) -> bool {
    &&& env == want.1
    &&& match want.0 {
        Ok(t) => r is Ok && r->Ok_0@ == t,
        Err(x) => r is Err && r->Err_0@ == x,
    }
}

/// As `says_type`, for a check that gives no type.
pub open spec fn says_ok(r: Result<(), TypeError>, env: EnvV, want: Checked<()>) -> bool {
    &&& env == want.1
    &&& match want.0 {
        Ok(_) => r is Ok,
        Err(x) => r is Err && r->Err_0@ == x,
    }
}

spec fn says_types(r: Result<Vec<Type>, TypeError>, env: EnvV, want: Checked<Seq<TypeV>>) -> bool {
    &&& env == want.1
    &&& match want.0 {
        Ok(ts) => r is Ok && types_view(r->Ok_0@) == ts,
        Err(x) => r is Err && r->Err_0@ == x,
    }
}

spec fn says_bindings(
    r: Result<NameMap<Type>, TypeError>,
    env: EnvV,
    want: Checked<Map<Seq<char>, TypeV>>,
) -> bool {
    &&& env == want.1
    &&& match want.0 {
        Ok(b) => r is Ok && r->Ok_0@ == b,
        Err(x) => r is Err && r->Err_0@ == x,
    }
}

spec fn says_found(
    r: Result<Option<Type>, TypeError>,
    env: EnvV,
    want: Checked<Option<TypeV>>,
) -> bool {
    &&& env == want.1
    &&& match want.0 {
        Ok(t) => r is Ok && crate::env::opt_type_view(r->Ok_0) == t,
        Err(x) => r is Err && r->Err_0@ == x,
    }
}

/// The type of a binary operation on operands of the given types.
fn type_of_binary(op: BinOp, lt: Type, rt: Type) -> (r: Result<Type, TypeError>)
    ensures
        match binary_type(op, lt@, rt@) {
            Ok(t) => r is Ok && r->Ok_0@ == t,
            Err(x) => r is Err && r->Err_0@ == x,
        },
{
    if !compatible(&lt, &rt) {
        return Err(TypeError::mismatch(&lt, &rt));
    }
    match op {
        BinOp::Add | BinOp::Sub | BinOp::Mul | BinOp::Div | BinOp::Mod => Ok(lt),
        BinOp::Eq | BinOp::Ne | BinOp::Lt | BinOp::Le | BinOp::Gt | BinOp::Ge => Ok(Type::Bool),
        BinOp::And | BinOp::Or => {
            if !is_truth_like(&lt) {
                return Err(TypeError::mismatch(&Type::Bool, &lt));
            }
            if !is_truth_like(&rt) {
                return Err(TypeError::mismatch(&Type::Bool, &rt));
            }
            Ok(Type::Bool)
        },
    }
}

fn is_truth_like(t: &Type) -> (r: bool)
    ensures
        r == truth_like(t@),
{
    matches!(t, Type::Bool | Type::Int | Type::Inferred)
}

/// The type of a unary operation on an operand of the given type.
fn type_of_unary(op: UnaryOp, t: Type) -> (r: Result<Type, TypeError>)
    ensures
        match unary_type(op, t@) {
            Ok(t) => r is Ok && r->Ok_0@ == t,
            Err(x) => r is Err && r->Err_0@ == x,
        },
{
    match op {
        UnaryOp::Neg => {
            if matches!(t, Type::Int | Type::Float) {
                Ok(t)
            } else {
                Err(TypeError::mismatch_text("int or float", &t))
            }
        },
        UnaryOp::Not => {
            if matches!(t, Type::Bool | Type::Int) {
                Ok(Type::Bool)
            } else {
                Err(TypeError::mismatch_text("bool or int", &t))
            }
        },
    }
}

/// What a `for` loop's variable holds.
pub(crate) fn type_of_element(t: &Type) -> (r: Option<Type>)
    ensures
        crate::env::opt_type_view(r) == element_type(t@),
{
    match t {
        Type::Range => Some(Type::Int),
        Type::Int => Some(Type::Int),
        Type::Array(el) => Some(el.dup()),
        Type::Inferred => Some(Type::Inferred),
        _ => None,
    }
}

fn one_type(t: Type) -> (v: Vec<Type>)
    ensures
        types_view(v@) == seq![t@],
{
    let ghost tv = t@;
    let mut v: Vec<Type> = Vec::new();
    v.push(t);
    assert(types_view(v@) =~= seq![tv]);
    v
}

fn no_types() -> (v: Vec<Type>)
    ensures
        types_view(v@) == Seq::<TypeV>::empty(),
{
    let v: Vec<Type> = Vec::new();
    assert(types_view(v@) =~= Seq::empty());
    v
}

/// The type of a variant that has been given arguments of the given types.
fn type_of_variant(v: &Variant, args: &Vec<Type>) -> (r: Type)
    ensures
        r@ == variant_type(v@, types_view(args@)),
{
    assert(types_view(args@).len() == args@.len());
    let owner = v.enum_name.clone();
    if args.len() == 1 {
        let a = args[0].dup();
        let ghost av = a@;
        assert(av == types_view(args@)[0]);
        if str_eq(owner.as_str(), "Option") && str_eq(v.name.as_str(), "Some") {
            return Type::Named(owner, one_type(a));
        }
        if str_eq(owner.as_str(), "Result") && str_eq(v.name.as_str(), "Ok") {
            let mut ts = one_type(a);
            let unknown = Type::Inferred;
            assert(unknown@ == TypeV::Inferred);
            ts.push(unknown);
            assert(types_view(ts@) =~= seq![av, TypeV::Inferred]);
            return Type::Named(owner, ts);
        }
        if str_eq(owner.as_str(), "Result") && str_eq(v.name.as_str(), "Err") {
            let mut ts = one_type(Type::Inferred);
            ts.push(a);
            assert(types_view(ts@) =~= seq![TypeV::Inferred, av]);
            return Type::Named(owner, ts);
        }
    }
    Type::Named(owner, no_types())
}

/// The payload types of a variant in a value of type `t`.
pub(crate) fn types_of_payload(v: &Variant, t: &Type) -> (r: Vec<Type>)
    ensures
        types_view(r@) == payload_types(v@, t@),
{
    assert(types_view(v.payload@).len() == v.payload@.len());
    match t {
        Type::Named(n, args) => {
            assert(types_view(args@).len() == args@.len());
            let n = n.as_str();
            if str_eq(n, v.enum_name.as_str()) && v.payload.len() == 1 {
                let some = str_eq(n, "Option") && str_eq(v.name.as_str(), "Some");
                let ok = str_eq(n, "Result") && str_eq(v.name.as_str(), "Ok");
                let err = str_eq(n, "Result") && str_eq(v.name.as_str(), "Err");
                if (some || ok) && args.len() > 0 {
                    assert(types_view(args@)[0] == args@[0]@);
                    return one_type(args[0].dup());
                }
                if err && args.len() > 1 {
                    assert(types_view(args@)[1] == args@[1]@);
                    return one_type(args[1].dup());
                }
            }
        },
        _ => {},
    }
    crate::ast::dup_types(&v.payload)
}

/// The type of a field or parameter, by name.
fn find_named(fields: &Vec<(String, Type)>, name: &str) -> (r: Option<Type>)
    ensures
        crate::env::opt_type_view(r) == named_type(params_view(fields@), name@, 0),
{
    let ghost all = params_view(fields@);
    let mut i: usize = 0;
    while i < fields.len()
        invariant
            i <= fields@.len(),
            all == params_view(fields@),
            named_type(all, name@, i as int) == named_type(all, name@, 0),
        decreases fields@.len() - i,
    {
        assert(all[i as int] == (fields@[i as int].0@, fields@[i as int].1@));
        if str_eq(fields[i].0.as_str(), name) {
            return Some(fields[i].1.dup());
        }
        i += 1;
    }
    None
}

/// The types of a method's parameters without its receiver.
fn types_after_self(params: &Vec<(String, Type)>) -> (r: Vec<Type>)
    ensures
        types_view(r@) == method_params(params_view(params@)),
{
    let ghost all = params_view(params@);
    let first: usize = if params.len() > 0 && str_eq(params[0].0.as_str(), "self") {
        1
    } else {
        0
    };
    let mut out: Vec<Type> = Vec::new();
    let mut i: usize = first;
    while i < params.len()
        invariant
            first <= i <= params@.len(),
            first <= 1,
            out@.len() == i - first,
            forall|j: int| 0 <= j < i - first ==> (#[trigger] out@[j])@ == params@[j + first].1@,
        decreases params@.len() - i,
    {
        out.push(params[i].1.dup());
        i += 1;
    }
    assert(types_view(out@) =~= method_params(all));
    out
}

/// The type of a field of a value of type `t`.
fn type_of_field(t: &Type, field: &str, env: &TypeEnv) -> (r: Result<Type, TypeError>)
    ensures
        match field_type(t@, field@, env@) {
            Ok(t) => r is Ok && r->Ok_0@ == t,
            Err(x) => r is Err && r->Err_0@ == x,
        },
{
    match t {
        Type::Named(n, _) => {
            match env.struct_fields(n.as_str()) {
                Some(fields) => match find_named(&fields, field) {
                    Some(ft) => {
                        return Ok(ft);
                    },
                    None => {},
                },
                None => {},
            }
            Err(TypeError::UnknownField { ty: n.clone(), field: field.to_owned() })
        },
        _ => Err(TypeError::UnknownField { ty: t.to_text(), field: field.to_owned() }),
    }
}

/// The type of a name: that of a variant, or of a variable.
fn type_of_ident(name: &String, env: &TypeEnv) -> (r: Result<Type, TypeError>)
    ensures
        match ident_type(name@, env@) {
            Ok(t) => r is Ok && r->Ok_0@ == t,
            Err(x) => r is Err && r->Err_0@ == x,
        },
{
    match env.lookup_variant(name.as_str()) {
        Lookup::Unique(v) => Ok(Type::Named(v.enum_name, no_types())),
        Lookup::Ambiguous(candidates) => Err(
            TypeError::AmbiguousVariant { name: name.clone(), candidates },
        ),
        Lookup::Unknown => match env.lookup(name.as_str()) {
            Some(t) => Ok(t),
            None => Err(TypeError::UndefinedVariable(name.clone())),
        },
    }
}

pub struct TypeChecker;

impl TypeChecker {
    /// Declarations only: signatures, structs, traits, externs, macros. No
    /// statement bodies are walked, so this is what a backend needs before it
    /// can ask about an expression.
    pub fn env_for(program: &Program) -> (env: TypeEnv)
        ensures
            env@ == declared(program@),
            env@.scopes.len() == 1,
    {
        TypeEnv::declare(program)
    }

    /// Whether a program type-checks.
    pub fn check(program: &Program) -> (r: Result<(), Diagnostic>)
        ensures
            match check_program(program@) {
                Ok(_) => r is Ok,
                Err(d) => r is Err && r->Err_0@ == d,
            },
    {
        match Self::check_collecting(program) {
            Ok(_) => Ok(()),
            Err(d) => Err(d),
        }
    }

    /// Check a program, and hand back what is known at its end: among it the
    /// ways in which generic functions are called.
    pub fn check_collecting(program: &Program) -> (r: Result<TypeEnv, Diagnostic>)
        ensures
            match check_program(program@) {
                Ok(env) => r is Ok && r->Ok_0@ == env,
                Err(d) => r is Err && r->Err_0@ == d,
            },
    {
        let mut env = Self::env_for(program);
        Self::check_impls(program, &env)?;
        match Self::check_stmts(&program.stmts, &mut env) {
            Ok(_) => Ok(env),
            Err(e) => match e {
                TypeError::Located(d) => Err(d),
                other => Err(Diagnostic::new(other.to_text(), Span::new(1, 1))),
            },
        }
    }

    /// An `impl` of a named trait has to give every method of it. An inherent
    /// `impl T { .. }` has nothing to check against.
    fn check_impls(program: &Program, env: &TypeEnv) -> (r: Result<(), Diagnostic>)
        ensures
            match check_impls(program@, 0, env@.traits) {
                Ok(_) => r is Ok,
                Err(d) => r is Err && r->Err_0@ == d,
            },
    {
        let ghost all = stmts_view(program.stmts@);
        let mut i: usize = 0;
        while i < program.stmts.len()
            invariant
                i <= program.stmts@.len(),
                all == stmts_view(program.stmts@),
                check_impls(all, i as int, env@.traits) == check_impls(all, 0, env@.traits),
            decreases program.stmts@.len() - i,
        {
            assert(all[i as int] == program.stmts@[i as int]@);
            match Self::find_impl_error(&program.stmts[i], env) {
                Some(e) => {
                    return Err(Diagnostic::new(e.to_text(), program.stmts[i].span));
                },
                None => {},
            }
            i += 1;
        }
        Ok(())
    }

    fn find_impl_error(s: &Stmt, env: &TypeEnv) -> (r: Option<TypeError>)
        ensures
            match impl_error(s@, env@.traits) {
                Some(x) => r is Some && r->Some_0@ == x,
                None => r is None,
            },
    {
        match &s.kind {
            StmtKind::Impl { trait_name, for_type, methods } => {
                if trait_name.as_str().unicode_len() == 0 {
                    return None;
                }
                match env.trait_methods(trait_name.as_str()) {
                    None => Some(TypeError::UndefinedTrait(trait_name.clone())),
                    Some(required) => match Self::find_lacking(required, methods) {
                        Some(method) => Some(
                            TypeError::MissingImpl {
                                trait_name: trait_name.clone(),
                                for_type: for_type.clone(),
                                method,
                            },
                        ),
                        None => None,
                    },
                }
            },
            _ => None,
        }
    }

    fn find_lacking(required: &Vec<TraitMethod>, methods: &Vec<Stmt>) -> (r: Option<String>)
        ensures
            match lacking(methods_view(required@), stmts_view(methods@), 0) {
                Some(n) => r is Some && r->Some_0@ == n,
                None => r is None,
            },
    {
        let ghost all = methods_view(required@);
        let mut i: usize = 0;
        while i < required.len()
            invariant
                i <= required@.len(),
                all == methods_view(required@),
                lacking(all, stmts_view(methods@), i as int) == lacking(
                    all,
                    stmts_view(methods@),
                    0,
                ),
            decreases required@.len() - i,
        {
            assert(all[i as int] == required@[i as int]@);
            if find_method(methods, required[i].name.as_str()).is_none() {
                return Some(required[i].name.clone());
            }
            i += 1;
        }
        None
    }

    /// Statements are the granularity at which a type error picks up the
    /// location it is reported against. An error coming back from a nested
    /// statement already carries one.
    fn check_stmt(stmt: &Stmt, env: &mut TypeEnv) -> (r: Result<(), Diagnostic>)
        requires
            old(env)@.scopes.len() > 0,
        ensures
            final(env)@ == check_stmt(stmt@, old(env)@).1,
            match check_stmt(stmt@, old(env)@).0 {
                Ok(_) => r is Ok,
                Err(d) => r is Err && r->Err_0@ == d,
            },
            final(env)@.scopes.len() >= old(env)@.scopes.len(),
            r is Ok ==> final(env)@.scopes.len() == old(env)@.scopes.len(),
        decreases stmt, 2int,
    {
        match Self::check_stmt_inner(stmt, env) {
            Ok(_) => Ok(()),
            Err(e) => match e {
                // keep the innermost position rather than the enclosing statement's
                TypeError::Located(d) => Err(d),
                other => Err(Diagnostic::new(other.to_text(), stmt.span)),
            },
        }
    }

    /// The type of an expression. The backends call this rather than
    /// re-deriving the rules; on a program that already type-checked it cannot
    /// fail, so they treat an error as "unknown" and fall back.
    pub fn type_of(expr: &Expr, env: &mut TypeEnv) -> (r: Option<Type>)
        requires
            old(env)@.scopes.len() > 0,
        ensures
            final(env)@ == check_expr(expr@, old(env)@).1,
            match check_expr(expr@, old(env)@).0 {
                Ok(t) => r is Some && r->Some_0@ == t,
                Err(_) => r is None,
            },
    {
        match Self::check_expr(expr, env) {
            Ok(t) => Some(t),
            Err(_) => None,
        }
    }

    /// The type of an expression, or what is wrong with it.
    pub fn check_expr(expr: &Expr, env: &mut TypeEnv) -> (r: Result<Type, TypeError>)
        requires
            old(env)@.scopes.len() > 0,
        ensures
            says_type(r, final(env)@, check_expr(expr@, old(env)@)),
            final(env)@.scopes.len() >= old(env)@.scopes.len(),
            r is Ok ==> final(env)@.scopes.len() == old(env)@.scopes.len(),
        decreases expr, 1int,
    {
        assert(*expr@.kind == (*expr.kind)@);
        match &*expr.kind {
            ExprKind::Int(_) => Ok(Type::Int),
            ExprKind::Float(_) => Ok(Type::Float),
            ExprKind::Bool(_) => Ok(Type::Bool),
            ExprKind::Str(_) => Ok(Type::String),
            ExprKind::Ident(name) => type_of_ident(name, env),
            ExprKind::Binary(_, _, _) => Self::check_binary(expr, env),
            ExprKind::Unary(_, _) => Self::check_unary(expr, env),
            ExprKind::Call(_, _) => Self::check_call(expr, env),
            ExprKind::MethodCall(_, _, _) => Self::check_method_call(expr, env),
            ExprKind::FieldAccess(_, _) => Self::check_field(expr, env),
            ExprKind::StructLit { .. } => Self::check_struct_lit(expr, env),
            ExprKind::Match { .. } => Self::check_match(expr, env),
            ExprKind::If { .. } => Self::check_if(expr, env),
            ExprKind::While { .. } => Self::check_while(expr, env),
            ExprKind::For { .. } => Self::check_for(expr, env),
            ExprKind::Range(_, _) => Self::check_range(expr, env),
            ExprKind::ArrayLit(_) => Self::check_array(expr, env),
            ExprKind::Index(_, _) => Self::check_index(expr, env),
        }
    }

    fn check_binary(expr: &Expr, env: &mut TypeEnv) -> (r: Result<Type, TypeError>)
        requires
            old(env)@.scopes.len() > 0,
        ensures
            says_type(r, final(env)@, check_binary(expr@, old(env)@)),
            final(env)@.scopes.len() >= old(env)@.scopes.len(),
            r is Ok ==> final(env)@.scopes.len() == old(env)@.scopes.len(),
        decreases expr, 0int,
    {
        assert(*expr@.kind == (*expr.kind)@);
        match &*expr.kind {
            ExprKind::Binary(l, op, r) => {
                let lt = Self::check_expr(l, env)?;
                let rt = Self::check_expr(r, env)?;
                type_of_binary(*op, lt, rt)
            },
            _ => Ok(Type::Inferred),
        }
    }

    fn check_unary(expr: &Expr, env: &mut TypeEnv) -> (r: Result<Type, TypeError>)
        requires
            old(env)@.scopes.len() > 0,
        ensures
            says_type(r, final(env)@, check_unary(expr@, old(env)@)),
            final(env)@.scopes.len() >= old(env)@.scopes.len(),
            r is Ok ==> final(env)@.scopes.len() == old(env)@.scopes.len(),
        decreases expr, 0int,
    {
        assert(*expr@.kind == (*expr.kind)@);
        match &*expr.kind {
            ExprKind::Unary(op, e) => {
                let t = Self::check_expr(e, env)?;
                type_of_unary(*op, t)
            },
            _ => Ok(Type::Inferred),
        }
    }

    fn check_each(es: &Vec<Expr>, env: &mut TypeEnv) -> (r: Result<(), TypeError>)
        requires
            old(env)@.scopes.len() > 0,
        ensures
            says_ok(r, final(env)@, check_each(exprs_view(es@), 0, old(env)@)),
            final(env)@.scopes.len() >= old(env)@.scopes.len(),
            r is Ok ==> final(env)@.scopes.len() == old(env)@.scopes.len(),
        decreases es, es@.len(),
    {
        let ghost start = env@;
        let mut i: usize = 0;
        while i < es.len()
            invariant
                i <= es@.len(),
                start == old(env)@,
                start.scopes.len() > 0,
                env@.scopes.len() == start.scopes.len(),
                check_each(exprs_view(es@), i as int, env@) == check_each(exprs_view(es@), 0, start),
            decreases es@.len() - i,
        {
            assert(exprs_view(es@).len() == es@.len());
            assert(exprs_view(es@)[i as int] == es@[i as int]@);
            Self::check_expr(&es[i], env)?;
            i += 1;
        }
        assert(exprs_view(es@).len() == es@.len());
        Ok(())
    }

    fn check_against(es: &Vec<Expr>, expected: &Vec<Type>, env: &mut TypeEnv) -> (r: Result<Vec<Type>, TypeError>)
        requires
            old(env)@.scopes.len() > 0,
            es@.len() == expected@.len(),
        ensures
            says_types(r, final(env)@, check_against(exprs_view(es@), types_view(expected@), 0, Seq::empty(), old(env)@)),
            final(env)@.scopes.len() >= old(env)@.scopes.len(),
            r is Ok ==> final(env)@.scopes.len() == old(env)@.scopes.len(),
        decreases es, es@.len(),
    {
        let mut out: Vec<Type> = Vec::new();
        assert(types_view(out@) =~= Seq::empty());
        let ghost start = env@;
        let mut i: usize = 0;
        while i < es.len()
            invariant
                i <= es@.len(),
                start == old(env)@,
                start.scopes.len() > 0,
                env@.scopes.len() == start.scopes.len(),
                es@.len() == expected@.len(),
                check_against(exprs_view(es@), types_view(expected@), i as int, types_view(out@), env@) == check_against(exprs_view(es@), types_view(expected@), 0, Seq::empty(), start),
            decreases es@.len() - i,
        {
            assert(exprs_view(es@).len() == es@.len());
            assert(exprs_view(es@)[i as int] == es@[i as int]@);
            assert(types_view(expected@)[i as int] == expected@[i as int]@);
            let t = Self::check_expr(&es[i], env)?;
            if !compatible(&expected[i], &t) {
                return Err(TypeError::mismatch(&expected[i], &t));
            }
            out.push(t);
            i += 1;
        }
        assert(exprs_view(es@).len() == es@.len());
        Ok(out)
    }

    fn check_generic(es: &Vec<Expr>, sig: &FnSig, env: &mut TypeEnv) -> (r: Result<NameMap<Type>, TypeError>)
        requires
            old(env)@.scopes.len() > 0,
            es@.len() == sig.params@.len(),
        ensures
            says_bindings(r, final(env)@, check_generic(exprs_view(es@), sig@, 0, Map::empty(), old(env)@)),
            final(env)@.scopes.len() >= old(env)@.scopes.len(),
            r is Ok ==> final(env)@.scopes.len() == old(env)@.scopes.len(),
        decreases es, es@.len(),
    {
        let mut b: NameMap<Type> = NameMap::new();
        let ghost start = env@;
        let mut i: usize = 0;
        while i < es.len()
            invariant
                i <= es@.len(),
                start == old(env)@,
                start.scopes.len() > 0,
                env@.scopes.len() == start.scopes.len(),
                es@.len() == sig.params@.len(),
                check_generic(exprs_view(es@), sig@, i as int, b@, env@) == check_generic(exprs_view(es@), sig@, 0, Map::empty(), start),
            decreases es@.len() - i,
        {
            assert(exprs_view(es@).len() == es@.len());
            assert(exprs_view(es@)[i as int] == es@[i as int]@);
            assert(sig@.params[i as int] == sig.params@[i as int]@);
            let t = Self::check_expr(&es[i], env)?;
            match bind_type(&sig.params[i], &t, &sig.generics, &mut b) {
                Some((want, got)) => {
                    return Err(TypeError::clash(&want, &got));
                },
                None => {},
            }
            let expected = substitute(&sig.params[i], &b);
            if !compatible(&expected, &t) {
                return Err(TypeError::mismatch(&expected, &t));
            }
            i += 1;
        }
        assert(exprs_view(es@).len() == es@.len());
        Ok(b)
    }

    fn check_call(expr: &Expr, env: &mut TypeEnv) -> (r: Result<Type, TypeError>)
        requires
            old(env)@.scopes.len() > 0,
        ensures
            says_type(r, final(env)@, check_call(expr@, old(env)@)),
            final(env)@.scopes.len() >= old(env)@.scopes.len(),
            r is Ok ==> final(env)@.scopes.len() == old(env)@.scopes.len(),
        decreases expr, 0int,
    {
        assert(*expr@.kind == (*expr.kind)@);
        match &*expr.kind {
            ExprKind::Call(callee, args) => {
                assert(*callee@.kind == (*callee.kind)@);
                let name = match &*callee.kind {
                    ExprKind::Ident(n) => n,
                    _ => {
                        return Err(TypeError::NotAFunction("non-identifier call".to_owned()));
                    },
                };
                match builtins::signature(name.as_str()) {
                    Some((arity, ret)) => {
                        return Self::check_plain_call(name.as_str(), args, arity, ret, env);
                    },
                    None => {},
                }
                match env.macro_arity(name.as_str()) {
                    Some(arity) => {
                        return Self::check_plain_call(name.as_str(), args, arity, Type::Inferred, env);
                    },
                    None => {},
                }
                match env.lookup_variant(name.as_str()) {
                    Lookup::Unique(v) => {
                        return Self::check_variant_call(name.as_str(), &v, args, env);
                    },
                    Lookup::Ambiguous(candidates) => {
                        return Err(TypeError::AmbiguousVariant { name: name.clone(), candidates });
                    },
                    Lookup::Unknown => {},
                }
                match env.function(name.as_str()) {
                    Some(sig) => {
                        return Self::check_fn_call(name.as_str(), &sig, args, expr.span, env);
                    },
                    None => {},
                }
                if env.is_extern(name.as_str()) {
                    return Err(TypeError::ExternCall(name.clone()));
                }
                Err(TypeError::UndefinedFunction(name.clone()))
            },
            _ => Ok(Type::Inferred),
        }
    }

    fn check_plain_call(name: &str, args: &Vec<Expr>, arity: usize, ret: Type, env: &mut TypeEnv) -> (r: Result<Type, TypeError>)
        requires
            old(env)@.scopes.len() > 0,
        ensures
            says_type(r, final(env)@, check_plain_call(name@, exprs_view(args@), arity as nat, ret@, old(env)@)),
            final(env)@.scopes.len() >= old(env)@.scopes.len(),
            r is Ok ==> final(env)@.scopes.len() == old(env)@.scopes.len(),
        decreases args, args@.len() + 1,
    {
        assert(exprs_view(args@).len() == args@.len());
        if args.len() != arity {
            return Err(TypeError::arity(name, arity, args.len()));
        }
        Self::check_each(args, env)?;
        Ok(ret)
    }

    fn check_variant_call(name: &str, v: &Variant, args: &Vec<Expr>, env: &mut TypeEnv) -> (r: Result<Type, TypeError>)
        requires
            old(env)@.scopes.len() > 0,
        ensures
            says_type(r, final(env)@, check_variant_call(name@, v@, exprs_view(args@), old(env)@)),
            final(env)@.scopes.len() >= old(env)@.scopes.len(),
            r is Ok ==> final(env)@.scopes.len() == old(env)@.scopes.len(),
        decreases args, args@.len() + 1,
    {
        assert(exprs_view(args@).len() == args@.len());
        assert(types_view(v.payload@).len() == v.payload@.len());
        if v.payload.len() != args.len() {
            return Err(TypeError::arity(name, v.payload.len(), args.len()));
        }
        let ts = Self::check_against(args, &v.payload, env)?;
        Ok(type_of_variant(v, &ts))
    }

    fn check_fn_call(name: &str, sig: &FnSig, args: &Vec<Expr>, span: Span, env: &mut TypeEnv) -> (r: Result<Type, TypeError>)
        requires
            old(env)@.scopes.len() > 0,
        ensures
            says_type(r, final(env)@, check_fn_call(name@, sig@, exprs_view(args@), span, old(env)@)),
            final(env)@.scopes.len() >= old(env)@.scopes.len(),
            r is Ok ==> final(env)@.scopes.len() == old(env)@.scopes.len(),
        decreases args, args@.len() + 1,
    {
        assert(exprs_view(args@).len() == args@.len());
        assert(types_view(sig.params@).len() == sig.params@.len());
        if sig.params.len() != args.len() {
            return Err(TypeError::arity(name, sig.params.len(), args.len()));
        }
        let b = Self::check_generic(args, sig, env)?;
        match find_unbound(&sig.generics, &b) {
            Some(param) => {
                return Err(TypeError::CannotInfer { name: name.to_owned(), param });
            },
            None => {},
        }
        if sig.generics.len() > 0 {
            let bound = bound_types(&sig.generics, &b);
            env.record(name, span, bound);
        }
        Ok(substitute(&sig.ret, &b))
    }

    fn check_method_call(expr: &Expr, env: &mut TypeEnv) -> (r: Result<Type, TypeError>)
        requires
            old(env)@.scopes.len() > 0,
        ensures
            says_type(r, final(env)@, check_method_call(expr@, old(env)@)),
            final(env)@.scopes.len() >= old(env)@.scopes.len(),
            r is Ok ==> final(env)@.scopes.len() == old(env)@.scopes.len(),
        decreases expr, 0int,
    {
        assert(*expr@.kind == (*expr.kind)@);
        match &*expr.kind {
            ExprKind::MethodCall(obj, method, args) => {
                let t = Self::check_expr(obj, env)?;
                match &t {
                    Type::Named(n, targs) => {
                        match builtins::method_signature(n.as_str(), targs.as_slice(), method.as_str()) {
                            Some((arity, ret)) => {
                                return Self::check_plain_call(method.as_str(), args, arity, ret, env);
                            },
                            None => {},
                        }
                        match env.lookup_method(n.as_str(), method.as_str()) {
                            Some((params, ret)) => {
                                let params = types_after_self(&params);
                                Self::check_user_method(method.as_str(), &params, ret, args, env)
                            },
                            None => Err(
                                TypeError::UnknownField { ty: n.clone(), field: method.clone() },
                            ),
                        }
                    },
                    _ => Err(TypeError::UnknownField { ty: t.to_text(), field: method.clone() }),
                }
            },
            _ => Ok(Type::Inferred),
        }
    }

    fn check_user_method(method: &str, params: &Vec<Type>, ret: Type, args: &Vec<Expr>, env: &mut TypeEnv) -> (r: Result<Type, TypeError>)
        requires
            old(env)@.scopes.len() > 0,
        ensures
            says_type(r, final(env)@, check_user_method(method@, types_view(params@), ret@, exprs_view(args@), old(env)@)),
            final(env)@.scopes.len() >= old(env)@.scopes.len(),
            r is Ok ==> final(env)@.scopes.len() == old(env)@.scopes.len(),
        decreases args, args@.len() + 1,
    {
        assert(exprs_view(args@).len() == args@.len());
        assert(types_view(params@).len() == params@.len());
        if params.len() != args.len() {
            return Err(TypeError::arity(method, params.len(), args.len()));
        }
        Self::check_against(args, params, env)?;
        Ok(ret)
    }

    fn check_field(expr: &Expr, env: &mut TypeEnv) -> (r: Result<Type, TypeError>)
        requires
            old(env)@.scopes.len() > 0,
        ensures
            says_type(r, final(env)@, check_field(expr@, old(env)@)),
            final(env)@.scopes.len() >= old(env)@.scopes.len(),
            r is Ok ==> final(env)@.scopes.len() == old(env)@.scopes.len(),
        decreases expr, 0int,
    {
        assert(*expr@.kind == (*expr.kind)@);
        match &*expr.kind {
            ExprKind::FieldAccess(obj, field) => {
                let t = Self::check_expr(obj, env)?;
                type_of_field(&t, field.as_str(), env)
            },
            _ => Ok(Type::Inferred),
        }
    }

    fn check_fields(name: &str, def: &Vec<(String, Type)>, fields: &Vec<(String, Expr)>, env: &mut TypeEnv) -> (r: Result<(), TypeError>)
        requires
            old(env)@.scopes.len() > 0,
        ensures
            says_ok(r, final(env)@, check_fields(name@, params_view(def@), fields_view(fields@), 0, old(env)@)),
            final(env)@.scopes.len() >= old(env)@.scopes.len(),
            r is Ok ==> final(env)@.scopes.len() == old(env)@.scopes.len(),
        decreases fields, fields@.len(),
    {
        let ghost start = env@;
        let mut i: usize = 0;
        while i < fields.len()
            invariant
                i <= fields@.len(),
                start == old(env)@,
                start.scopes.len() > 0,
                env@.scopes.len() == start.scopes.len(),
                check_fields(name@, params_view(def@), fields_view(fields@), i as int, env@) == check_fields(name@, params_view(def@), fields_view(fields@), 0, start),
            decreases fields@.len() - i,
        {
            assert(fields_view(fields@).len() == fields@.len());
            assert(fields_view(fields@)[i as int] == (fields@[i as int].0@, fields@[i as int].1@));
            let want = match find_named(def, fields[i].0.as_str()) {
                Some(t) => t,
                None => {
                    return Err(
                        TypeError::UnknownField { ty: name.to_owned(), field: fields[i].0.clone() },
                    );
                },
            };
            let t = Self::check_expr(&fields[i].1, env)?;
            if !compatible(&want, &t) {
                return Err(TypeError::mismatch(&want, &t));
            }
            i += 1;
        }
        assert(fields_view(fields@).len() == fields@.len());
        Ok(())
    }

    fn check_struct_lit(expr: &Expr, env: &mut TypeEnv) -> (r: Result<Type, TypeError>)
        requires
            old(env)@.scopes.len() > 0,
        ensures
            says_type(r, final(env)@, check_struct_lit(expr@, old(env)@)),
            final(env)@.scopes.len() >= old(env)@.scopes.len(),
            r is Ok ==> final(env)@.scopes.len() == old(env)@.scopes.len(),
        decreases expr, 0int,
    {
        assert(*expr@.kind == (*expr.kind)@);
        match &*expr.kind {
            ExprKind::StructLit { name, fields } => {
                let def = match env.struct_fields(name.as_str()) {
                    Some(def) => def,
                    None => {
                        return Err(TypeError::UndefinedType(name.clone()));
                    },
                };
                assert(params_view(def@).len() == def@.len());
                assert(fields_view(fields@).len() == fields@.len());
                if def.len() != fields.len() {
                    return Err(TypeError::arity(name.as_str(), def.len(), fields.len()));
                }
                Self::check_fields(name.as_str(), &def, fields, env)?;
                Ok(Type::Named(name.clone(), no_types()))
            },
            _ => Ok(Type::Inferred),
        }
    }

    fn check_pattern(p: &Pattern, t: &Type, env: &mut TypeEnv) -> (r: Result<(), TypeError>)
        requires
            old(env)@.scopes.len() > 0,
        ensures
            says_ok(r, final(env)@, check_pattern(p@, t@, old(env)@)),
            final(env)@.scopes.len() >= old(env)@.scopes.len(),
            r is Ok ==> final(env)@.scopes.len() == old(env)@.scopes.len(),
        decreases p, 1int,
    {
        match p {
            Pattern::Literal(e) => {
                let pt = Self::check_expr(e, env)?;
                if !compatible(&pt, t) {
                    return Err(TypeError::mismatch(t, &pt));
                }
                Ok(())
            },
            Pattern::Variable(name) => {
                env.define(name.as_str(), t.dup());
                Ok(())
            },
            Pattern::Wildcard => Ok(()),
            Pattern::EnumVariant { name, inner } => {
                assert(p@ == (PatternV::EnumVariant { name: name@, inner: patterns_view(inner@) }));
                assert(patterns_view(inner@).len() == inner@.len());
                match env.lookup_variant(name.as_str()) {
                    Lookup::Ambiguous(candidates) => Err(
                        TypeError::AmbiguousVariant { name: name.clone(), candidates },
                    ),
                    Lookup::Unknown => Err(TypeError::UndefinedType(name.clone())),
                    Lookup::Unique(v) => {
                        let own = Type::Named(v.enum_name.clone(), no_types());
                        if !compatible(t, &own) {
                            return Err(
                                TypeError::TypeMismatch {
                                    expected: t.to_text(),
                                    found: cat2("Enum ", v.enum_name.as_str()),
                                },
                            );
                        }
                        assert(types_view(v.payload@).len() == v.payload@.len());
                        if v.payload.len() != inner.len() {
                            return Err(TypeError::arity(name.as_str(), v.payload.len(), inner.len()));
                        }
                        let payload = types_of_payload(&v, t);
                        assert(types_view(payload@).len() == payload@.len());
                        Self::check_patterns(inner, &payload, env)
                    },
                }
            },
        }
    }

    fn check_patterns(ps: &Vec<Pattern>, ts: &Vec<Type>, env: &mut TypeEnv) -> (r: Result<(), TypeError>)
        requires
            old(env)@.scopes.len() > 0,
            ps@.len() == ts@.len(),
        ensures
            says_ok(r, final(env)@, check_patterns(patterns_view(ps@), types_view(ts@), 0, old(env)@)),
            final(env)@.scopes.len() >= old(env)@.scopes.len(),
            r is Ok ==> final(env)@.scopes.len() == old(env)@.scopes.len(),
        decreases ps, ps@.len(),
    {
        let ghost start = env@;
        let mut i: usize = 0;
        while i < ps.len()
            invariant
                i <= ps@.len(),
                start == old(env)@,
                start.scopes.len() > 0,
                env@.scopes.len() == start.scopes.len(),
                ps@.len() == ts@.len(),
                check_patterns(patterns_view(ps@), types_view(ts@), i as int, env@) == check_patterns(patterns_view(ps@), types_view(ts@), 0, start),
            decreases ps@.len() - i,
        {
            assert(patterns_view(ps@).len() == ps@.len());
            assert(patterns_view(ps@)[i as int] == ps@[i as int]@);
            assert(types_view(ts@)[i as int] == ts@[i as int]@);
            Self::check_pattern(&ps[i], &ts[i], env)?;
            i += 1;
        }
        assert(patterns_view(ps@).len() == ps@.len());
        Ok(())
    }

    fn check_alternatives(ps: &Vec<Pattern>, t: &Type, env: &mut TypeEnv) -> (r: Result<(), TypeError>)
        requires
            old(env)@.scopes.len() > 0,
        ensures
            says_ok(r, final(env)@, check_alternatives(patterns_view(ps@), t@, 0, old(env)@)),
            final(env)@.scopes.len() >= old(env)@.scopes.len(),
            r is Ok ==> final(env)@.scopes.len() == old(env)@.scopes.len(),
        decreases ps, ps@.len(),
    {
        let ghost start = env@;
        let mut i: usize = 0;
        while i < ps.len()
            invariant
                i <= ps@.len(),
                start == old(env)@,
                start.scopes.len() > 0,
                env@.scopes.len() == start.scopes.len(),
                check_alternatives(patterns_view(ps@), t@, i as int, env@) == check_alternatives(patterns_view(ps@), t@, 0, start),
            decreases ps@.len() - i,
        {
            assert(patterns_view(ps@).len() == ps@.len());
            assert(patterns_view(ps@)[i as int] == ps@[i as int]@);
            Self::check_pattern(&ps[i], t, env)?;
            i += 1;
        }
        assert(patterns_view(ps@).len() == ps@.len());
        Ok(())
    }

    fn check_opt(e: &Option<Expr>, env: &mut TypeEnv) -> (r: Result<(), TypeError>)
        requires
            old(env)@.scopes.len() > 0,
        ensures
            says_ok(r, final(env)@, check_opt(opt_expr_view(*e), old(env)@)),
            final(env)@.scopes.len() >= old(env)@.scopes.len(),
            r is Ok ==> final(env)@.scopes.len() == old(env)@.scopes.len(),
        decreases e, 0int,
    {
        match e {
            None => Ok(()),
            Some(x) => {
                Self::check_expr(x, env)?;
                Ok(())
            },
        }
    }

    fn check_arm(arm: &(Vec<Pattern>, Option<Expr>, Expr), t: &Type, env: &mut TypeEnv) -> (r: Result<Type, TypeError>)
        requires
            old(env)@.scopes.len() > 0,
        ensures
            says_type(r, final(env)@, check_arm(arm_view(*arm), t@, old(env)@)),
            final(env)@.scopes.len() >= old(env)@.scopes.len(),
            r is Ok ==> final(env)@.scopes.len() == old(env)@.scopes.len(),
        decreases arm, 0int,
    {
        env.push_scope();
        Self::check_alternatives(&arm.0, t, env)?;
        Self::check_opt(&arm.1, env)?;
        let bt = Self::check_expr(&arm.2, env)?;
        env.pop_scope();
        Ok(bt)
    }

    fn check_arms(arms: &Vec<(Vec<Pattern>, Option<Expr>, Expr)>, t: &Type, env: &mut TypeEnv) -> (r: Result<Option<Type>, TypeError>)
        requires
            old(env)@.scopes.len() > 0,
        ensures
            says_found(r, final(env)@, check_arms(arms_view(arms@), t@, 0, None, old(env)@)),
            final(env)@.scopes.len() >= old(env)@.scopes.len(),
            r is Ok ==> final(env)@.scopes.len() == old(env)@.scopes.len(),
        decreases arms, arms@.len(),
    {
        let mut found: Option<Type> = None;
        let ghost start = env@;
        let mut i: usize = 0;
        while i < arms.len()
            invariant
                i <= arms@.len(),
                start == old(env)@,
                start.scopes.len() > 0,
                env@.scopes.len() == start.scopes.len(),
                check_arms(arms_view(arms@), t@, i as int, crate::env::opt_type_view(found), env@) == check_arms(arms_view(arms@), t@, 0, None, start),
            decreases arms@.len() - i,
        {
            assert(arms_view(arms@).len() == arms@.len());
            assert(arms_view(arms@)[i as int] == arm_view(arms@[i as int]));
            let bt = Self::check_arm(&arms[i], t, env)?;
            match &found {
                None => {
                    found = Some(bt);
                },
                Some(first) => {
                    if !compatible(first, &bt) {
                        return Err(TypeError::mismatch(first, &bt));
                    }
                },
            }
            i += 1;
        }
        assert(arms_view(arms@).len() == arms@.len());
        Ok(found)
    }

    fn check_match(expr: &Expr, env: &mut TypeEnv) -> (r: Result<Type, TypeError>)
        requires
            old(env)@.scopes.len() > 0,
        ensures
            says_type(r, final(env)@, check_match(expr@, old(env)@)),
            final(env)@.scopes.len() >= old(env)@.scopes.len(),
            r is Ok ==> final(env)@.scopes.len() == old(env)@.scopes.len(),
        decreases expr, 0int,
    {
        assert(*expr@.kind == (*expr.kind)@);
        match &*expr.kind {
            ExprKind::Match { scrutinee, arms } => {
                let t = Self::check_expr(scrutinee, env)?;
                let found = Self::check_arms(arms, &t, env)?;
                match find_uncovered(&t, arms, env) {
                    Some(missing) => Err(TypeError::NotExhaustive(missing)),
                    None => match found {
                        Some(bt) => Ok(bt),
                        None => Ok(Type::Unit),
                    },
                }
            },
            _ => Ok(Type::Inferred),
        }
    }

    fn check_if(expr: &Expr, env: &mut TypeEnv) -> (r: Result<Type, TypeError>)
        requires
            old(env)@.scopes.len() > 0,
        ensures
            says_type(r, final(env)@, check_if(expr@, old(env)@)),
            final(env)@.scopes.len() >= old(env)@.scopes.len(),
            r is Ok ==> final(env)@.scopes.len() == old(env)@.scopes.len(),
        decreases expr, 0int,
    {
        assert(*expr@.kind == (*expr.kind)@);
        match &*expr.kind {
            ExprKind::If { cond, then_body, else_body } => {
                Self::check_expr(cond, env)?;
                let tt = Self::check_expr(then_body, env)?;
                match else_body {
                    None => Ok(Type::Unit),
                    Some(eb) => {
                        let et = Self::check_expr(eb, env)?;
                        if !compatible(&tt, &et) {
                            return Err(TypeError::mismatch(&tt, &et));
                        }
                        Ok(tt)
                    },
                }
            },
            _ => Ok(Type::Inferred),
        }
    }

    fn check_while(expr: &Expr, env: &mut TypeEnv) -> (r: Result<Type, TypeError>)
        requires
            old(env)@.scopes.len() > 0,
        ensures
            says_type(r, final(env)@, check_while(expr@, old(env)@)),
            final(env)@.scopes.len() >= old(env)@.scopes.len(),
            r is Ok ==> final(env)@.scopes.len() == old(env)@.scopes.len(),
        decreases expr, 0int,
    {
        assert(*expr@.kind == (*expr.kind)@);
        match &*expr.kind {
            ExprKind::While { cond, body } => {
                Self::check_expr(cond, env)?;
                Self::check_block(body, env)?;
                Ok(Type::Int)
            },
            _ => Ok(Type::Inferred),
        }
    }

    fn check_for(expr: &Expr, env: &mut TypeEnv) -> (r: Result<Type, TypeError>)
        requires
            old(env)@.scopes.len() > 0,
        ensures
            says_type(r, final(env)@, check_for(expr@, old(env)@)),
            final(env)@.scopes.len() >= old(env)@.scopes.len(),
            r is Ok ==> final(env)@.scopes.len() == old(env)@.scopes.len(),
        decreases expr, 0int,
    {
        assert(*expr@.kind == (*expr.kind)@);
        match &*expr.kind {
            ExprKind::For { var, iter, body } => {
                let t = Self::check_expr(iter, env)?;
                Self::check_loop_body(var.as_str(), &t, body, env)?;
                Ok(Type::Int)
            },
            _ => Ok(Type::Inferred),
        }
    }

    fn check_range(expr: &Expr, env: &mut TypeEnv) -> (r: Result<Type, TypeError>)
        requires
            old(env)@.scopes.len() > 0,
        ensures
            says_type(r, final(env)@, check_range(expr@, old(env)@)),
            final(env)@.scopes.len() >= old(env)@.scopes.len(),
            r is Ok ==> final(env)@.scopes.len() == old(env)@.scopes.len(),
        decreases expr, 0int,
    {
        assert(*expr@.kind == (*expr.kind)@);
        match &*expr.kind {
            ExprKind::Range(a, b) => {
                let at = Self::check_expr(a, env)?;
                let bt = Self::check_expr(b, env)?;
                if !matches!(at, Type::Int) {
                    return Err(TypeError::mismatch(&Type::Int, &at));
                }
                if !matches!(bt, Type::Int) {
                    return Err(TypeError::mismatch(&Type::Int, &bt));
                }
                Ok(Type::Range)
            },
            _ => Ok(Type::Inferred),
        }
    }

    fn check_elements(es: &Vec<Expr>, first: &Type, env: &mut TypeEnv) -> (r: Result<(), TypeError>)
        requires
            old(env)@.scopes.len() > 0,
            es@.len() >= 1,
        ensures
            says_ok(r, final(env)@, check_elements(exprs_view(es@), first@, 1, old(env)@)),
            final(env)@.scopes.len() >= old(env)@.scopes.len(),
            r is Ok ==> final(env)@.scopes.len() == old(env)@.scopes.len(),
        decreases es, es@.len(),
    {
        let ghost start = env@;
        let mut i: usize = 1;
        while i < es.len()
            invariant
                1 <= i <= es@.len(),
                start == old(env)@,
                start.scopes.len() > 0,
                env@.scopes.len() == start.scopes.len(),
                check_elements(exprs_view(es@), first@, i as int, env@) == check_elements(
                    exprs_view(es@),
                    first@,
                    1,
                    start,
                ),
            decreases es@.len() - i,
        {
            assert(exprs_view(es@).len() == es@.len());
            assert(exprs_view(es@)[i as int] == es@[i as int]@);
            let t = Self::check_expr(&es[i], env)?;
            if !compatible(&t, first) {
                return Err(TypeError::mismatch(first, &t));
            }
            i += 1;
        }
        assert(exprs_view(es@).len() == es@.len());
        Ok(())
    }

    fn check_array(expr: &Expr, env: &mut TypeEnv) -> (r: Result<Type, TypeError>)
        requires
            old(env)@.scopes.len() > 0,
        ensures
            says_type(r, final(env)@, check_array(expr@, old(env)@)),
            final(env)@.scopes.len() >= old(env)@.scopes.len(),
            r is Ok ==> final(env)@.scopes.len() == old(env)@.scopes.len(),
        decreases expr, 0int,
    {
        assert(*expr@.kind == (*expr.kind)@);
        match &*expr.kind {
            ExprKind::ArrayLit(es) => {
                assert(exprs_view(es@).len() == es@.len());
                if es.len() == 0 {
                    let unknown = Type::Inferred;
                    assert(unknown@ == TypeV::Inferred);
                    return Ok(Type::Array(Box::new(unknown)));
                }
                assert(exprs_view(es@)[0] == es@[0]@);
                let first = Self::check_expr(&es[0], env)?;
                Self::check_elements(es, &first, env)?;
                Ok(Type::Array(Box::new(first)))
            },
            _ => Ok(Type::Inferred),
        }
    }

    fn check_index(expr: &Expr, env: &mut TypeEnv) -> (r: Result<Type, TypeError>)
        requires
            old(env)@.scopes.len() > 0,
        ensures
            says_type(r, final(env)@, check_index(expr@, old(env)@)),
            final(env)@.scopes.len() >= old(env)@.scopes.len(),
            r is Ok ==> final(env)@.scopes.len() == old(env)@.scopes.len(),
        decreases expr, 0int,
    {
        assert(*expr@.kind == (*expr.kind)@);
        match &*expr.kind {
            ExprKind::Index(a, i) => {
                let at = Self::check_expr(a, env)?;
                let it = Self::check_expr(i, env)?;
                if !matches!(it, Type::Int) {
                    return Err(TypeError::mismatch(&Type::Int, &it));
                }
                match at {
                    Type::Array(el) => Ok(*el),
                    other => Err(TypeError::mismatch_text("array", &other)),
                }
            },
            _ => Ok(Type::Inferred),
        }
    }

    pub(crate) fn check_stmts(ss: &Vec<Stmt>, env: &mut TypeEnv) -> (r: Result<(), TypeError>)
        requires
            old(env)@.scopes.len() > 0,
        ensures
            says_ok(r, final(env)@, check_stmts(stmts_view(ss@), 0, old(env)@)),
            final(env)@.scopes.len() >= old(env)@.scopes.len(),
            r is Ok ==> final(env)@.scopes.len() == old(env)@.scopes.len(),
        decreases ss, ss@.len(),
    {
        let ghost start = env@;
        let mut i: usize = 0;
        while i < ss.len()
            invariant
                i <= ss@.len(),
                start == old(env)@,
                start.scopes.len() > 0,
                env@.scopes.len() == start.scopes.len(),
                check_stmts(stmts_view(ss@), i as int, env@) == check_stmts(stmts_view(ss@), 0, start),
            decreases ss@.len() - i,
        {
            assert(stmts_view(ss@).len() == ss@.len());
            assert(stmts_view(ss@)[i as int] == ss@[i as int]@);
            match Self::check_stmt(&ss[i], env) {
                Ok(_) => {},
                Err(d) => {
                    return Err(TypeError::Located(d));
                },
            }
            i += 1;
        }
        assert(stmts_view(ss@).len() == ss@.len());
        Ok(())
    }

    fn check_block(ss: &Vec<Stmt>, env: &mut TypeEnv) -> (r: Result<(), TypeError>)
        requires
            old(env)@.scopes.len() > 0,
        ensures
            says_ok(r, final(env)@, check_block(stmts_view(ss@), old(env)@)),
            final(env)@.scopes.len() >= old(env)@.scopes.len(),
            r is Ok ==> final(env)@.scopes.len() == old(env)@.scopes.len(),
        decreases ss, ss@.len() + 1,
    {
        env.push_scope();
        Self::check_stmts(ss, env)?;
        env.pop_scope();
        Ok(())
    }

    fn check_loop_body(var: &str, t: &Type, body: &Vec<Stmt>, env: &mut TypeEnv) -> (r: Result<(), TypeError>)
        requires
            old(env)@.scopes.len() > 0,
        ensures
            says_ok(r, final(env)@, check_loop_body(var@, t@, stmts_view(body@), old(env)@)),
            final(env)@.scopes.len() >= old(env)@.scopes.len(),
            r is Ok ==> final(env)@.scopes.len() == old(env)@.scopes.len(),
        decreases body, body@.len() + 1,
    {
        let el = match type_of_element(t) {
            Some(el) => el,
            None => {
                return Err(TypeError::mismatch_text("range, array or int", t));
            },
        };
        env.push_scope();
        env.define(var, el);
        Self::check_stmts(body, env)?;
        env.pop_scope();
        Ok(())
    }

    fn check_stmt_inner(stmt: &Stmt, env: &mut TypeEnv) -> (r: Result<(), TypeError>)
        requires
            old(env)@.scopes.len() > 0,
        ensures
            says_ok(r, final(env)@, check_stmt_inner(stmt@, old(env)@)),
            final(env)@.scopes.len() >= old(env)@.scopes.len(),
            r is Ok ==> final(env)@.scopes.len() == old(env)@.scopes.len(),
        decreases stmt, 1int,
    {
        assert(stmt@.kind == stmt.kind@);
        match &stmt.kind {
            StmtKind::Let { name, ty, value } => {
                let t = Self::check_expr(value, env)?;
                if !matches!(ty, Type::Inferred) && !compatible(ty, &t) {
                    return Err(TypeError::mismatch(ty, &t));
                }
                env.define(name.as_str(), t);
                Ok(())
            },
            StmtKind::Fn { .. } => Self::check_fn(stmt, env),
            StmtKind::While { cond, body } => {
                Self::check_expr(cond, env)?;
                Self::check_block(body, env)
            },
            StmtKind::For { var, iter, body } => {
                let t = Self::check_expr(iter, env)?;
                Self::check_loop_body(var.as_str(), &t, body, env)
            },
            StmtKind::Assign { name, value } => {
                let t = Self::check_expr(value, env)?;
                match env.lookup(name.as_str()) {
                    Some(want) => {
                        if !compatible(&want, &t) {
                            return Err(TypeError::mismatch(&want, &t));
                        }
                    },
                    None => {},
                }
                Ok(())
            },
            StmtKind::If { cond, then_body, else_body } => {
                Self::check_expr(cond, env)?;
                Self::check_block(then_body, env)?;
                match else_body {
                    Some(eb) => Self::check_block(eb, env),
                    None => Ok(()),
                }
            },
            StmtKind::Expr(e) => {
                Self::check_expr(e, env)?;
                Ok(())
            },
            StmtKind::Return(e) => Self::check_return(e, env),
            _ => Ok(()),
        }
    }

    fn check_fn(stmt: &Stmt, env: &mut TypeEnv) -> (r: Result<(), TypeError>)
        requires
            old(env)@.scopes.len() > 0,
        ensures
            says_ok(r, final(env)@, check_fn(stmt@, old(env)@)),
            final(env)@.scopes.len() >= old(env)@.scopes.len(),
            r is Ok ==> final(env)@.scopes.len() == old(env)@.scopes.len(),
        decreases stmt, 0int,
    {
        assert(stmt@.kind == stmt.kind@);
        match &stmt.kind {
            StmtKind::Fn { name, generics, params, ret, body } => {
                assert(texts(generics@).len() == generics@.len());
                proof {
                    lemma_define_all_keeps(env@.push_scope(), params_view(params@));
                }
                env.push_scope();
                env.define_all(params);
                let out = env.enter_fn(name.as_str(), generics.len() > 0, ret.dup());
                Self::check_stmts(body, env)?;
                env.pop_scope();
                env.leave_fn(out);
                Ok(())
            },
            _ => Ok(()),
        }
    }

    fn check_return(e: &Option<Expr>, env: &mut TypeEnv) -> (r: Result<(), TypeError>)
        requires
            old(env)@.scopes.len() > 0,
        ensures
            says_ok(r, final(env)@, check_return(opt_expr_view(*e), old(env)@)),
            final(env)@.scopes.len() >= old(env)@.scopes.len(),
            r is Ok ==> final(env)@.scopes.len() == old(env)@.scopes.len(),
        decreases e, 0int,
    {
        let ret = env.return_type();
        match e {
            None => {
                if matches!(ret, Type::Unit) {
                    Ok(())
                } else {
                    Err(TypeError::mismatch(&ret, &Type::Unit))
                }
            },
            Some(x) => {
                let t = Self::check_expr(x, env)?;
                if !compatible(&ret, &t) {
                    return Err(TypeError::mismatch(&ret, &t));
                }
                Ok(())
            },
        }
    }

}

} // verus!
