//! Replace generic functions with one concrete copy per way they are called.
//!
//! Both backends need to know a value's type: the interpreter to print it, the
//! native one to lay it out, count references to it and release it. A single
//! function whose parameter is `T` cannot answer that, so `id(5)` and
//! `id("hi")` become separate functions with `T` replaced throughout.
//!
//! Which call means which type is the type checker's answer, read back from the
//! instantiations that it records. A call is told by the function that it
//! stands in and its position.

use crate::ast::{
    arm_view, arms_view, dup_params, dup_patterns, dup_stmts, dup_texts, dup_types, exprs_view,
    fields_view, opt_expr_view, params_view, stmts_view, types_view, Expr, ExprKind, ExprKindV,
    ExprV, Pattern, PatternV, Program, Stmt, StmtKind, StmtKindV, StmtV, Type, TypeV,
};
use crate::diagnostic::{Diagnostic, DiagnosticV, Span};
use crate::env::{instances_view, Instance};
use crate::lexer::{is_word, word_part, word_start};
use crate::names::NameMap;
use crate::text::{cat2, cat3, join, join_text, str_eq, texts};
use crate::typecheck::TypeChecker;
use crate::types::{same_types, substitute};
use crate::typing::{check_program, subst, InstanceV};
use vstd::prelude::*;

verus! {

broadcast use crate::ast::group_views;

// ---- names of copies ----

/// A type as a part of a copy's name.
pub open spec fn tag(t: TypeV) -> Seq<char>
    decreases t,
{
    match t {
        TypeV::Int => "int"@,
        TypeV::Float => "float"@,
        TypeV::Bool => "bool"@,
        TypeV::String => "string"@,
        TypeV::Unit => "unit"@,
        TypeV::Range => "range"@,
        TypeV::Inferred => "any"@,
        TypeV::Named(n, args) => if args.len() == 0 {
            n
        } else {
            n + "."@ + join_text(tags(args), "."@)
        },
        TypeV::Array(el) => "arr."@ + tag(*el),
        TypeV::Fn(args, ret) => "fn."@ + join_text(tags(args), "."@) + "."@ + tag(*ret),
    }
}

pub open spec fn tags(ts: Seq<TypeV>) -> Seq<Seq<char>>
    decreases ts,
{
    Seq::new(
        ts.len(),
        |i: int|
            if 0 <= i < ts.len() {
                tag(ts[i])
            } else {
                arbitrary()
            },
    )
}

/// The name of a copy: `id` called with `string` becomes `id$string`.
pub open spec fn mangled(name: Seq<char>, args: Seq<TypeV>) -> Seq<char>
    decreases args.len(),
{
    if args.len() == 0 {
        name
    } else {
        mangled(name, args.drop_last()) + "$"@ + tag(args.last())
    }
}

pub(crate) fn type_tag(t: &Type) -> (s: String)
    ensures
        s@ == tag(t@),
    decreases t,
{
    match t {
        Type::Int => "int".to_owned(),
        Type::Float => "float".to_owned(),
        Type::Bool => "bool".to_owned(),
        Type::String => "string".to_owned(),
        Type::Unit => "unit".to_owned(),
        Type::Range => "range".to_owned(),
        Type::Inferred => "any".to_owned(),
        Type::Named(n, args) => {
            assert(types_view(args@).len() == args@.len());
            if args.len() == 0 {
                n.clone()
            } else {
                cat3(n.as_str(), ".", join(&type_tags(args), ".").as_str())
            }
        },
        Type::Array(el) => cat2("arr.", type_tag(el).as_str()),
        Type::Fn(args, ret) => {
            let parts = join(&type_tags(args), ".");
            let head = cat3("fn.", parts.as_str(), ".");
            cat2(head.as_str(), type_tag(ret).as_str())
        },
    }
}

fn type_tags(ts: &Vec<Type>) -> (r: Vec<String>)
    ensures
        texts(r@) == tags(types_view(ts@)),
    decreases ts,
{
    let mut out: Vec<String> = Vec::new();
    let mut i: usize = 0;
    while i < ts.len()
        invariant
            i <= ts@.len(),
            out@.len() == i,
            forall|j: int| 0 <= j < i ==> (#[trigger] out@[j])@ == tag(ts@[j]@),
        decreases ts@.len() - i,
    {
        out.push(type_tag(&ts[i]));
        i += 1;
    }
    assert(texts(out@) =~= tags(types_view(ts@)));
    out
}

/// A specialised name: `id` called with `string` becomes `id$string`.
pub fn mangle(name: &str, args: &Vec<Type>) -> (s: String)
    ensures
        s@ == mangled(name@, types_view(args@)),
{
    let ghost all = types_view(args@);
    let mut out: String = name.to_owned();
    let mut i: usize = 0;
    assert(all.take(0) =~= Seq::empty());
    while i < args.len()
        invariant
            i <= args@.len(),
            all == types_view(args@),
            out@ == mangled(name@, all.take(i as int)),
        decreases args@.len() - i,
    {
        proof {
            assert(all.take(i + 1).drop_last() =~= all.take(i as int));
            assert(all.take(i + 1).last() == args@[i as int]@);
        }
        out = cat3(out.as_str(), "$", type_tag(&args[i]).as_str());
        i += 1;
    }
    assert(all.take(i as int) =~= all);
    out
}

// ---- rewriting call sites ----

/// The name of the copy that a call in a function is to use, if any.
pub open spec fn renamed(insts: Seq<InstanceV>, enclosing: Seq<char>, span: Span) -> Option<
    Seq<char>,
>
    decreases insts.len(),
{
    if insts.len() == 0 {
        None
    } else if insts.last().enclosing == enclosing && insts.last().span == span {
        Some(mangled(insts.last().name, insts.last().args))
    } else {
        renamed(insts.drop_last(), enclosing, span)
    }
}

/// An expression with its calls of generic functions turned to copies.
pub open spec fn rewritten(e: ExprV, insts: Seq<InstanceV>, encl: Seq<char>) -> ExprV
    decreases e,
{
    let kind = match *e.kind {
        ExprKindV::Call(callee, args) => {
            let args2 = rewritten_exprs(args, insts, encl);
            match (renamed(insts, encl, e.span), *callee.kind) {
                (Some(target), ExprKindV::Ident(_)) => ExprKindV::Call(
                    Box::new(ExprV { kind: Box::new(ExprKindV::Ident(target)), span: callee.span }),
                    args2,
                ),
                _ => ExprKindV::Call(Box::new(rewritten(*callee, insts, encl)), args2),
            }
        },
        ExprKindV::Binary(l, op, r) => ExprKindV::Binary(
            Box::new(rewritten(*l, insts, encl)),
            op,
            Box::new(rewritten(*r, insts, encl)),
        ),
        ExprKindV::Unary(op, x) => ExprKindV::Unary(op, Box::new(rewritten(*x, insts, encl))),
        ExprKindV::Range(a, b) => ExprKindV::Range(
            Box::new(rewritten(*a, insts, encl)),
            Box::new(rewritten(*b, insts, encl)),
        ),
        ExprKindV::ArrayLit(es) => ExprKindV::ArrayLit(rewritten_exprs(es, insts, encl)),
        ExprKindV::Index(a, i) => ExprKindV::Index(
            Box::new(rewritten(*a, insts, encl)),
            Box::new(rewritten(*i, insts, encl)),
        ),
        ExprKindV::FieldAccess(o, f) => ExprKindV::FieldAccess(
            Box::new(rewritten(*o, insts, encl)),
            f,
        ),
        ExprKindV::MethodCall(o, m, args) => ExprKindV::MethodCall(
            Box::new(rewritten(*o, insts, encl)),
            m,
            rewritten_exprs(args, insts, encl),
        ),
        ExprKindV::StructLit { name, fields } => ExprKindV::StructLit {
            name,
            fields: rewritten_fields(fields, insts, encl),
        },
        ExprKindV::Match { scrutinee, arms } => ExprKindV::Match {
            scrutinee: Box::new(rewritten(*scrutinee, insts, encl)),
            arms: rewritten_arms(arms, insts, encl),
        },
        ExprKindV::If { cond, then_body, else_body } => ExprKindV::If {
            cond: Box::new(rewritten(*cond, insts, encl)),
            then_body: Box::new(rewritten(*then_body, insts, encl)),
            else_body: match else_body {
                Some(x) => Some(Box::new(rewritten(*x, insts, encl))),
                None => None,
            },
        },
        ExprKindV::While { cond, body } => ExprKindV::While {
            cond: Box::new(rewritten(*cond, insts, encl)),
            body: rewritten_stmts(body, insts, encl),
        },
        ExprKindV::For { var, iter, body } => ExprKindV::For {
            var,
            iter: Box::new(rewritten(*iter, insts, encl)),
            body: rewritten_stmts(body, insts, encl),
        },
        other => other,
    };
    ExprV { kind: Box::new(kind), span: e.span }
}

pub open spec fn rewritten_opt(
    e: Option<ExprV>,
    insts: Seq<InstanceV>,
    encl: Seq<char>,
) -> Option<ExprV>
    decreases e,
{
    match e {
        Some(x) => Some(rewritten(x, insts, encl)),
        None => None,
    }
}

pub open spec fn rewritten_exprs(
    es: Seq<ExprV>,
    insts: Seq<InstanceV>,
    encl: Seq<char>,
) -> Seq<ExprV>
    decreases es,
{
    Seq::new(
        es.len(),
        |i: int|
            if 0 <= i < es.len() {
                rewritten(es[i], insts, encl)
            } else {
                arbitrary()
            },
    )
}

pub open spec fn rewritten_fields(
    fs: Seq<(Seq<char>, ExprV)>,
    insts: Seq<InstanceV>,
    encl: Seq<char>,
) -> Seq<(Seq<char>, ExprV)>
    decreases fs,
{
    Seq::new(
        fs.len(),
        |i: int|
            if 0 <= i < fs.len() {
                (fs[i].0, rewritten(fs[i].1, insts, encl))
            } else {
                arbitrary()
            },
    )
}

pub open spec fn rewritten_arms(
    arms: Seq<(Seq<PatternV>, Option<ExprV>, ExprV)>,
    insts: Seq<InstanceV>,
    encl: Seq<char>,
) -> Seq<(Seq<PatternV>, Option<ExprV>, ExprV)>
    decreases arms,
{
    Seq::new(
        arms.len(),
        |i: int|
            if 0 <= i < arms.len() {
                (
                    arms[i].0,
                    rewritten_opt(arms[i].1, insts, encl),
                    rewritten(arms[i].2, insts, encl),
                )
            } else {
                arbitrary()
            },
    )
}

/// A method's own name is how the checker attributes calls inside it.
pub open spec fn fn_name(s: StmtV) -> Seq<char> {
    match s.kind {
        StmtKindV::Fn { name, .. } => name,
        _ => ""@,
    }
}

/// A statement with its calls of generic functions turned to copies.
pub open spec fn rewritten_stmt(s: StmtV, insts: Seq<InstanceV>, encl: Seq<char>) -> StmtV
    decreases s,
{
    let kind = match s.kind {
        StmtKindV::Let { name, ty, value } => StmtKindV::Let {
            name,
            ty,
            value: rewritten(value, insts, encl),
        },
        StmtKindV::Assign { name, value } => StmtKindV::Assign {
            name,
            value: rewritten(value, insts, encl),
        },
        StmtKindV::Return(e) => StmtKindV::Return(rewritten_opt(e, insts, encl)),
        StmtKindV::Expr(e) => StmtKindV::Expr(rewritten(e, insts, encl)),
        StmtKindV::Break(e) => StmtKindV::Break(rewritten_opt(e, insts, encl)),
        StmtKindV::Continue(e) => StmtKindV::Continue(rewritten_opt(e, insts, encl)),
        StmtKindV::While { cond, body } => StmtKindV::While {
            cond: rewritten(cond, insts, encl),
            body: rewritten_stmts(body, insts, encl),
        },
        StmtKindV::For { var, iter, body } => StmtKindV::For {
            var,
            iter: rewritten(iter, insts, encl),
            body: rewritten_stmts(body, insts, encl),
        },
        StmtKindV::If { cond, then_body, else_body } => StmtKindV::If {
            cond: rewritten(cond, insts, encl),
            then_body: rewritten_stmts(then_body, insts, encl),
            else_body: match else_body {
                Some(b) => Some(rewritten_stmts(b, insts, encl)),
                None => None,
            },
        },
        StmtKindV::Fn { name, generics, params, ret, body } => StmtKindV::Fn {
            name,
            generics,
            params,
            ret,
            body: rewritten_stmts(body, insts, name),
        },
        StmtKindV::Impl { trait_name, for_type, methods } => StmtKindV::Impl {
            trait_name,
            for_type,
            methods: rewritten_methods(methods, insts),
        },
        other => other,
    };
    StmtV { kind, span: s.span }
}

pub open spec fn rewritten_stmts(
    ss: Seq<StmtV>,
    insts: Seq<InstanceV>,
    encl: Seq<char>,
) -> Seq<StmtV>
    decreases ss,
{
    Seq::new(
        ss.len(),
        |i: int|
            if 0 <= i < ss.len() {
                rewritten_stmt(ss[i], insts, encl)
            } else {
                arbitrary()
            },
    )
}

pub open spec fn rewritten_methods(ss: Seq<StmtV>, insts: Seq<InstanceV>) -> Seq<StmtV>
    decreases ss,
{
    Seq::new(
        ss.len(),
        |i: int|
            if 0 <= i < ss.len() {
                rewritten_stmt(ss[i], insts, fn_name(ss[i]))
            } else {
                arbitrary()
            },
    )
}

fn find_rename(insts: &Vec<Instance>, enclosing: &str, span: Span) -> (r: Option<String>)
    ensures
        match renamed(instances_view(insts@), enclosing@, span) {
            Some(t) => r is Some && r->Some_0@ == t,
            None => r is None,
        },
{
    let ghost all = instances_view(insts@);
    let mut i: usize = insts.len();
    assert(all.take(i as int) =~= all);
    while i > 0
        invariant
            i <= insts@.len(),
            all == instances_view(insts@),
            renamed(all.take(i as int), enclosing@, span) == renamed(all, enclosing@, span),
        decreases i,
    {
        proof {
            assert(all.take(i as int).drop_last() =~= all.take(i - 1));
            assert(all.take(i as int).last() == insts@[i - 1]@);
        }
        i -= 1;
        if str_eq(insts[i].enclosing.as_str(), enclosing) && insts[i].span.line == span.line
            && insts[i].span.col == span.col {
            return Some(mangle(insts[i].name.as_str(), &insts[i].args));
        }
    }
    None
}

fn rewrite_call(callee: &Expr, args: Vec<Expr>, span: Span, insts: &Vec<Instance>, encl: &str) -> (r:
    ExprKind)
    ensures
        r@ == (match (renamed(instances_view(insts@), encl@, span), *callee@.kind) {
            (Some(target), ExprKindV::Ident(_)) => ExprKindV::Call(
                Box::new(ExprV { kind: Box::new(ExprKindV::Ident(target)), span: callee@.span }),
                exprs_view(args@),
            ),
            _ => ExprKindV::Call(
                Box::new(rewritten(callee@, instances_view(insts@), encl@)),
                exprs_view(args@),
            ),
        }),
    decreases callee, 1int,
{
    assert(*callee@.kind == (*callee.kind)@);
    let named = matches!(*callee.kind, ExprKind::Ident(_));
    match find_rename(insts, encl, span) {
        Some(target) => {
            if named {
                let name = Expr::new(ExprKind::Ident(target), callee.span);
                return ExprKind::Call(Box::new(name), args);
            }
        },
        None => {},
    }
    ExprKind::Call(Box::new(rewrite_expr(callee, insts, encl)), args)
}

fn rewrite_expr(e: &Expr, insts: &Vec<Instance>, encl: &str) -> (r: Expr)
    ensures
        r@ == rewritten(e@, instances_view(insts@), encl@),
    decreases e, 0int,
{
    assert(*e@.kind == (*e.kind)@);
    let kind = match &*e.kind {
        ExprKind::Call(callee, args) => {
            let args2 = rewrite_exprs(args, insts, encl);
            rewrite_call(callee, args2, e.span, insts, encl)
        },
        ExprKind::Binary(l, op, r) => ExprKind::Binary(
            Box::new(rewrite_expr(l, insts, encl)),
            *op,
            Box::new(rewrite_expr(r, insts, encl)),
        ),
        ExprKind::Unary(op, x) => ExprKind::Unary(*op, Box::new(rewrite_expr(x, insts, encl))),
        ExprKind::Range(a, b) => ExprKind::Range(
            Box::new(rewrite_expr(a, insts, encl)),
            Box::new(rewrite_expr(b, insts, encl)),
        ),
        ExprKind::ArrayLit(es) => ExprKind::ArrayLit(rewrite_exprs(es, insts, encl)),
        ExprKind::Index(a, i) => ExprKind::Index(
            Box::new(rewrite_expr(a, insts, encl)),
            Box::new(rewrite_expr(i, insts, encl)),
        ),
        ExprKind::FieldAccess(o, f) => ExprKind::FieldAccess(
            Box::new(rewrite_expr(o, insts, encl)),
            f.clone(),
        ),
        ExprKind::MethodCall(o, m, args) => ExprKind::MethodCall(
            Box::new(rewrite_expr(o, insts, encl)),
            m.clone(),
            rewrite_exprs(args, insts, encl),
        ),
        ExprKind::StructLit { name, fields } => ExprKind::StructLit {
            name: name.clone(),
            fields: rewrite_fields(fields, insts, encl),
        },
        ExprKind::Match { scrutinee, arms } => ExprKind::Match {
            scrutinee: Box::new(rewrite_expr(scrutinee, insts, encl)),
            arms: rewrite_arms(arms, insts, encl),
        },
        ExprKind::If { cond, then_body, else_body } => ExprKind::If {
            cond: Box::new(rewrite_expr(cond, insts, encl)),
            then_body: Box::new(rewrite_expr(then_body, insts, encl)),
            else_body: match else_body {
                Some(x) => Some(Box::new(rewrite_expr(x, insts, encl))),
                None => None,
            },
        },
        ExprKind::While { cond, body } => ExprKind::While {
            cond: Box::new(rewrite_expr(cond, insts, encl)),
            body: rewrite_stmts(body, insts, encl),
        },
        ExprKind::For { var, iter, body } => ExprKind::For {
            var: var.clone(),
            iter: Box::new(rewrite_expr(iter, insts, encl)),
            body: rewrite_stmts(body, insts, encl),
        },
        other => other.dup(),
    };
    Expr::new(kind, e.span)
}

fn rewrite_opt(e: &Option<Expr>, insts: &Vec<Instance>, encl: &str) -> (r: Option<Expr>)
    ensures
        opt_expr_view(r) == rewritten_opt(opt_expr_view(*e), instances_view(insts@), encl@),
    decreases e, 0int,
{
    match e {
        Some(x) => Some(rewrite_expr(x, insts, encl)),
        None => None,
    }
}

fn rewrite_exprs(es: &Vec<Expr>, insts: &Vec<Instance>, encl: &str) -> (r: Vec<Expr>)
    ensures
        exprs_view(r@) == rewritten_exprs(exprs_view(es@), instances_view(insts@), encl@),
    decreases es, 0int,
{
    let mut out: Vec<Expr> = Vec::new();
    let mut i: usize = 0;
    while i < es.len()
        invariant
            i <= es@.len(),
            out@.len() == i,
            forall|j: int|
                0 <= j < i ==> (#[trigger] out@[j])@ == rewritten(
                    es@[j]@,
                    instances_view(insts@),
                    encl@,
                ),
        decreases es@.len() - i,
    {
        out.push(rewrite_expr(&es[i], insts, encl));
        i += 1;
    }
    assert(exprs_view(out@) =~= rewritten_exprs(
        exprs_view(es@),
        instances_view(insts@),
        encl@,
    ));
    out
}

fn rewrite_fields(fs: &Vec<(String, Expr)>, insts: &Vec<Instance>, encl: &str) -> (r: Vec<
    (String, Expr),
>)
    ensures
        fields_view(r@) == rewritten_fields(fields_view(fs@), instances_view(insts@), encl@),
    decreases fs, 0int,
{
    let mut out: Vec<(String, Expr)> = Vec::new();
    let mut i: usize = 0;
    while i < fs.len()
        invariant
            i <= fs@.len(),
            out@.len() == i,
            forall|j: int|
                0 <= j < i ==> (#[trigger] out@[j]).0@ == fs@[j].0@ && out@[j].1@ == rewritten(
                    fs@[j].1@,
                    instances_view(insts@),
                    encl@,
                ),
        decreases fs@.len() - i,
    {
        out.push((fs[i].0.clone(), rewrite_expr(&fs[i].1, insts, encl)));
        i += 1;
    }
    assert(fields_view(out@) =~= rewritten_fields(
        fields_view(fs@),
        instances_view(insts@),
        encl@,
    ));
    out
}

fn rewrite_arms(
    arms: &Vec<(Vec<Pattern>, Option<Expr>, Expr)>,
    insts: &Vec<Instance>,
    encl: &str,
) -> (r: Vec<(Vec<Pattern>, Option<Expr>, Expr)>)
    ensures
        arms_view(r@) == rewritten_arms(arms_view(arms@), instances_view(insts@), encl@),
    decreases arms, 0int,
{
    let ghost iv = instances_view(insts@);
    let mut out: Vec<(Vec<Pattern>, Option<Expr>, Expr)> = Vec::new();
    let mut i: usize = 0;
    while i < arms.len()
        invariant
            i <= arms@.len(),
            out@.len() == i,
            iv == instances_view(insts@),
            forall|j: int|
                0 <= j < i ==> arm_view(#[trigger] out@[j]) == (
                    arm_view(arms@[j]).0,
                    rewritten_opt(arm_view(arms@[j]).1, iv, encl@),
                    rewritten(arm_view(arms@[j]).2, iv, encl@),
                ),
        decreases arms@.len() - i,
    {
        let arm = (
            dup_patterns(&arms[i].0),
            rewrite_opt(&arms[i].1, insts, encl),
            rewrite_expr(&arms[i].2, insts, encl),
        );
        out.push(arm);
        i += 1;
    }
    assert(arms_view(out@) =~= rewritten_arms(arms_view(arms@), iv, encl@));
    out
}

fn name_of(s: &Stmt) -> (n: String)
    ensures
        n@ == fn_name(s@),
{
    match &s.kind {
        StmtKind::Fn { name, .. } => name.clone(),
        _ => "".to_owned(),
    }
}

fn rewrite_stmt(s: &Stmt, insts: &Vec<Instance>, encl: &str) -> (r: Stmt)
    ensures
        r@ == rewritten_stmt(s@, instances_view(insts@), encl@),
    decreases s, 0int,
{
    assert(s@.kind == s.kind@);
    let kind = match &s.kind {
        StmtKind::Let { name, ty, value } => StmtKind::Let {
            name: name.clone(),
            ty: ty.dup(),
            value: rewrite_expr(value, insts, encl),
        },
        StmtKind::Assign { name, value } => StmtKind::Assign {
            name: name.clone(),
            value: rewrite_expr(value, insts, encl),
        },
        StmtKind::Return(e) => StmtKind::Return(rewrite_opt(e, insts, encl)),
        StmtKind::Expr(e) => StmtKind::Expr(rewrite_expr(e, insts, encl)),
        StmtKind::Break(e) => StmtKind::Break(rewrite_opt(e, insts, encl)),
        StmtKind::Continue(e) => StmtKind::Continue(rewrite_opt(e, insts, encl)),
        StmtKind::While { cond, body } => StmtKind::While {
            cond: rewrite_expr(cond, insts, encl),
            body: rewrite_stmts(body, insts, encl),
        },
        StmtKind::For { var, iter, body } => StmtKind::For {
            var: var.clone(),
            iter: rewrite_expr(iter, insts, encl),
            body: rewrite_stmts(body, insts, encl),
        },
        StmtKind::If { cond, then_body, else_body } => StmtKind::If {
            cond: rewrite_expr(cond, insts, encl),
            then_body: rewrite_stmts(then_body, insts, encl),
            else_body: match else_body {
                Some(b) => Some(rewrite_stmts(b, insts, encl)),
                None => None,
            },
        },
        StmtKind::Fn { name, generics, params, ret, body } => StmtKind::Fn {
            name: name.clone(),
            generics: dup_texts(generics),
            params: dup_params(params),
            ret: ret.dup(),
            body: rewrite_stmts(body, insts, name.as_str()),
        },
        StmtKind::Impl { trait_name, for_type, methods } => StmtKind::Impl {
            trait_name: trait_name.clone(),
            for_type: for_type.clone(),
            methods: rewrite_methods(methods, insts),
        },
        other => other.dup(),
    };
    Stmt::new(kind, s.span)
}

pub(crate) fn rewrite_stmts(ss: &Vec<Stmt>, insts: &Vec<Instance>, encl: &str) -> (r: Vec<Stmt>)
    ensures
        stmts_view(r@) == rewritten_stmts(stmts_view(ss@), instances_view(insts@), encl@),
    decreases ss, 0int,
{
    let mut out: Vec<Stmt> = Vec::new();
    let mut i: usize = 0;
    while i < ss.len()
        invariant
            i <= ss@.len(),
            out@.len() == i,
            forall|j: int|
                0 <= j < i ==> (#[trigger] out@[j])@ == rewritten_stmt(
                    ss@[j]@,
                    instances_view(insts@),
                    encl@,
                ),
        decreases ss@.len() - i,
    {
        out.push(rewrite_stmt(&ss[i], insts, encl));
        i += 1;
    }
    assert(stmts_view(out@) =~= rewritten_stmts(
        stmts_view(ss@),
        instances_view(insts@),
        encl@,
    ));
    out
}

fn rewrite_methods(ss: &Vec<Stmt>, insts: &Vec<Instance>) -> (r: Vec<Stmt>)
    ensures
        stmts_view(r@) == rewritten_methods(stmts_view(ss@), instances_view(insts@)),
    decreases ss, 0int,
{
    let mut out: Vec<Stmt> = Vec::new();
    let mut i: usize = 0;
    while i < ss.len()
        invariant
            i <= ss@.len(),
            out@.len() == i,
            forall|j: int|
                0 <= j < i ==> (#[trigger] out@[j])@ == rewritten_stmt(
                    ss@[j]@,
                    instances_view(insts@),
                    fn_name(ss@[j]@),
                ),
        decreases ss@.len() - i,
    {
        let name = name_of(&ss[i]);
        out.push(rewrite_stmt(&ss[i], insts, name.as_str()));
        i += 1;
    }
    assert(stmts_view(out@) =~= rewritten_methods(stmts_view(ss@), instances_view(insts@)));
    out
}

// ---- substituting type parameters in a copy ----

/// A statement of a copy: the types that it writes down lose their parameters.
pub open spec fn specialised(s: StmtV, b: Map<Seq<char>, TypeV>) -> StmtV
    decreases s,
{
    let kind = match s.kind {
        StmtKindV::Let { name, ty, value } => StmtKindV::Let { name, ty: subst(ty, b), value },
        StmtKindV::While { cond, body } => StmtKindV::While {
            cond,
            body: specialised_all(body, b),
        },
        StmtKindV::For { var, iter, body } => StmtKindV::For {
            var,
            iter,
            body: specialised_all(body, b),
        },
        StmtKindV::If { cond, then_body, else_body } => StmtKindV::If {
            cond,
            then_body: specialised_all(then_body, b),
            else_body: match else_body {
                Some(v) => Some(specialised_all(v, b)),
                None => None,
            },
        },
        other => other,
    };
    StmtV { kind, span: s.span }
}

pub open spec fn specialised_all(ss: Seq<StmtV>, b: Map<Seq<char>, TypeV>) -> Seq<StmtV>
    decreases ss,
{
    Seq::new(
        ss.len(),
        |i: int|
            if 0 <= i < ss.len() {
                specialised(ss[i], b)
            } else {
                arbitrary()
            },
    )
}

fn substitute_stmt(s: &Stmt, b: &NameMap<Type>) -> (r: Stmt)
    ensures
        r@ == specialised(s@, b@),
    decreases s, 0int,
{
    assert(s@.kind == s.kind@);
    let kind = match &s.kind {
        StmtKind::Let { name, ty, value } => StmtKind::Let {
            name: name.clone(),
            ty: substitute(ty, b),
            value: value.dup(),
        },
        StmtKind::While { cond, body } => StmtKind::While {
            cond: cond.dup(),
            body: substitute_stmts(body, b),
        },
        StmtKind::For { var, iter, body } => StmtKind::For {
            var: var.clone(),
            iter: iter.dup(),
            body: substitute_stmts(body, b),
        },
        StmtKind::If { cond, then_body, else_body } => StmtKind::If {
            cond: cond.dup(),
            then_body: substitute_stmts(then_body, b),
            else_body: match else_body {
                Some(v) => Some(substitute_stmts(v, b)),
                None => None,
            },
        },
        other => other.dup(),
    };
    Stmt::new(kind, s.span)
}

fn substitute_stmts(ss: &Vec<Stmt>, b: &NameMap<Type>) -> (r: Vec<Stmt>)
    ensures
        stmts_view(r@) == specialised_all(stmts_view(ss@), b@),
    decreases ss, 0int,
{
    let mut out: Vec<Stmt> = Vec::new();
    let mut i: usize = 0;
    while i < ss.len()
        invariant
            i <= ss@.len(),
            out@.len() == i,
            forall|j: int| 0 <= j < i ==> (#[trigger] out@[j])@ == specialised(ss@[j]@, b@),
        decreases ss@.len() - i,
    {
        out.push(substitute_stmt(&ss[i], b));
        i += 1;
    }
    assert(stmts_view(out@) =~= specialised_all(stmts_view(ss@), b@));
    out
}

/// Parameters whose types have lost their type parameters.
pub open spec fn subst_params(
    params: Seq<(Seq<char>, TypeV)>,
    b: Map<Seq<char>, TypeV>,
) -> Seq<(Seq<char>, TypeV)> {
    Seq::new(params.len(), |i: int| (params[i].0, subst(params[i].1, b)))
}

fn substitute_params(params: &Vec<(String, Type)>, b: &NameMap<Type>) -> (r: Vec<(String, Type)>)
    ensures
        params_view(r@) == subst_params(params_view(params@), b@),
{
    let mut out: Vec<(String, Type)> = Vec::new();
    let mut i: usize = 0;
    while i < params.len()
        invariant
            i <= params@.len(),
            out@.len() == i,
            forall|j: int|
                0 <= j < i ==> (#[trigger] out@[j]).0@ == params@[j].0@ && out@[j].1@ == subst(
                    params@[j].1@,
                    b@,
                ),
        decreases params@.len() - i,
    {
        out.push((params[i].0.clone(), substitute(&params[i].1, b)));
        i += 1;
    }
    assert(params_view(out@) =~= subst_params(params_view(params@), b@));
    out
}

// ---- the copies ----

/// What the first `n` type parameters stand for.
pub open spec fn type_bindings(gs: Seq<Seq<char>>, args: Seq<TypeV>, n: int) -> Map<
    Seq<char>,
    TypeV,
>
    decreases n,
{
    if n <= 0 {
        Map::empty()
    } else {
        type_bindings(gs, args, n - 1).insert(gs[n - 1], args[n - 1])
    }
}

/// As many type parameters as there are types for them.
pub open spec fn paired(gs: Seq<Seq<char>>, args: Seq<TypeV>) -> int {
    if gs.len() < args.len() {
        gs.len() as int
    } else {
        args.len() as int
    }
}

fn bind_params(gs: &Vec<String>, args: &Vec<Type>) -> (b: NameMap<Type>)
    ensures
        b@ == type_bindings(
            texts(gs@),
            types_view(args@),
            paired(texts(gs@), types_view(args@)),
        ),
{
    let mut b: NameMap<Type> = NameMap::new();
    assert(types_view(args@).len() == args@.len());
    assert(texts(gs@).len() == gs@.len());
    let n: usize = if gs.len() < args.len() {
        gs.len()
    } else {
        args.len()
    };
    let mut i: usize = 0;
    while i < n
        invariant
            i <= n,
            n <= gs@.len(),
            n <= args@.len(),
            b@ == type_bindings(texts(gs@), types_view(args@), i as int),
        decreases n - i,
    {
        assert(types_view(args@)[i as int] == args@[i as int]@);
        assert(texts(gs@)[i as int] == gs@[i as int]@);
        b.insert(gs[i].clone(), args[i].dup());
        i += 1;
    }
    b
}

/// One way in which a generic function is called: its name, and what its type
/// parameters stand for.
pub type WantedV = (Seq<char>, Seq<TypeV>);

/// The ways in which generic functions are called, each once, and the place of
/// the last call that added one.
pub open spec fn wanted(
    insts: Seq<InstanceV>,
    i: int,
    acc: Seq<WantedV>,
    last: Span,
) -> (Seq<WantedV>, Span)
    decreases insts.len() - i,
{
    if i < 0 || i >= insts.len() {
        (acc, last)
    } else if acc.contains((insts[i].name, insts[i].args)) {
        wanted(insts, i + 1, acc, last)
    } else {
        wanted(insts, i + 1, acc.push((insts[i].name, insts[i].args)), insts[i].span)
    }
}

/// A generic function, by name.
pub open spec fn template(ss: Seq<StmtV>, name: Seq<char>) -> Option<StmtV>
    decreases ss.len(),
{
    if ss.len() == 0 {
        None
    } else {
        match ss.last().kind {
            StmtKindV::Fn { name: n, generics, .. } => if n == name && generics.len() > 0 {
                Some(ss.last())
            } else {
                template(ss.drop_last(), name)
            },
            _ => template(ss.drop_last(), name),
        }
    }
}

/// Whether a function has a name.
pub open spec fn declares_fn(s: StmtV, name: Seq<char>) -> bool {
    match s.kind {
        StmtKindV::Fn { name: n, .. } => n == name,
        _ => false,
    }
}

pub open spec fn has_fn(ss: Seq<StmtV>, name: Seq<char>) -> bool {
    exists|i: int| 0 <= i < ss.len() && declares_fn(#[trigger] ss[i], name)
}

/// The copy of a generic function for some types.
pub open spec fn copy_of(t: StmtV, args: Seq<TypeV>) -> StmtV {
    match t.kind {
        StmtKindV::Fn { name, generics, params, ret, body } => {
            let b = type_bindings(generics, args, paired(generics, args));
            StmtV {
                kind: StmtKindV::Fn {
                    name: mangled(name, args),
                    generics: Seq::empty(),
                    params: subst_params(params, b),
                    ret: subst(ret, b),
                    body: specialised_all(body, b),
                },
                span: t.span,
            }
        },
        _ => t,
    }
}

/// The statements with the copies that are wanted and not there yet.
pub open spec fn with_copies(
    from: Seq<StmtV>,
    ss: Seq<StmtV>,
    want: Seq<WantedV>,
    i: int,
) -> Seq<StmtV>
    decreases want.len() - i,
{
    if i < 0 || i >= want.len() {
        ss
    } else if has_fn(ss, mangled(want[i].0, want[i].1)) {
        with_copies(from, ss, want, i + 1)
    } else {
        match template(from, want[i].0) {
            Some(t) => with_copies(from, ss.push(copy_of(t, want[i].1)), want, i + 1),
            None => with_copies(from, ss, want, i + 1),
        }
    }
}

/// The report that copies never end.
pub open spec fn unbounded_call(span: Span) -> DiagnosticV {
    DiagnosticV {
        message: "this call needs a new copy of the function every time it runs, so there is no finite set of copies to compile; give the recursive call a type that does not grow"@,
        span,
    }
}

/// How many times copies are made before a program is given up.
pub const ROUNDS: usize = 16;

/// A program from one round on.
pub open spec fn expanded_from(ss: Seq<StmtV>, round: int, last: Span) -> Result<
    Seq<StmtV>,
    DiagnosticV,
>
    decreases ROUNDS - round,
{
    if round >= ROUNDS {
        Err(unbounded_call(last))
    } else {
        match check_program(ss) {
            Err(d) => if round > 0 {
                Err(unbounded_call(d.span))
            } else {
                Err(d)
            },
            Ok(env) => if env.instantiations.len() == 0 {
                Ok(ss)
            } else {
                let w = wanted(env.instantiations, 0, Seq::empty(), last);
                let rewritten = rewritten_stmts(ss, env.instantiations, ""@);
                let all = with_copies(ss, rewritten, w.0, 0);
                if all.len() == rewritten.len() {
                    Ok(all)
                } else {
                    expanded_from(all, round + 1, w.1)
                }
            },
        }
    }
}

/// A program in which no generic function is left called.
pub open spec fn expanded(ss: Seq<StmtV>) -> Result<Seq<StmtV>, DiagnosticV> {
    expanded_from(ss, 0, Span { line: 1, col: 1 })
}

fn unbounded(span: Span) -> (d: Diagnostic)
    ensures
        d@ == unbounded_call(span),
{
    Diagnostic::new(
        "this call needs a new copy of the function every time it runs, so there is no finite set of copies to compile; give the recursive call a type that does not grow".to_owned(),
        span,
    )
}

struct Wanted {
    name: String,
    args: Vec<Type>,
}

impl Wanted {
    spec fn view(&self) -> WantedV {
        (self.name@, types_view(self.args@))
    }
}

spec fn wanted_view(s: Seq<Wanted>) -> Seq<WantedV> {
    s.map_values(|w: Wanted| w@)
}

fn is_wanted(ws: &Vec<Wanted>, name: &str, args: &Vec<Type>) -> (r: bool)
    ensures
        r == wanted_view(ws@).contains((name@, types_view(args@))),
{
    let mut i: usize = 0;
    while i < ws.len()
        invariant
            i <= ws@.len(),
            forall|j: int| 0 <= j < i ==> wanted_view(ws@)[j] != (name@, types_view(args@)),
        decreases ws@.len() - i,
    {
        assert(wanted_view(ws@)[i as int] == ws@[i as int]@);
        if str_eq(ws[i].name.as_str(), name) && same_types(&ws[i].args, args) {
            return true;
        }
        i += 1;
    }
    false
}

fn find_wanted(insts: &Vec<Instance>, last: Span) -> (r: (Vec<Wanted>, Span))
    ensures
        (wanted_view(r.0@), r.1) == wanted(instances_view(insts@), 0, Seq::empty(), last),
{
    let ghost all = instances_view(insts@);
    let ghost first = last;
    let mut out: Vec<Wanted> = Vec::new();
    let mut place: Span = last;
    assert(wanted_view(out@) =~= Seq::empty());
    let mut i: usize = 0;
    while i < insts.len()
        invariant
            i <= insts@.len(),
            all == instances_view(insts@),
            wanted(all, i as int, wanted_view(out@), place) == wanted(
                all,
                0,
                Seq::empty(),
                first,
            ),
        decreases insts@.len() - i,
    {
        assert(all[i as int] == insts@[i as int]@);
        if !is_wanted(&out, insts[i].name.as_str(), &insts[i].args) {
            let ghost before = out@;
            let w = Wanted { name: insts[i].name.clone(), args: dup_types(&insts[i].args) };
            let ghost wv = w@;
            out.push(w);
            assert(wanted_view(out@) =~= wanted_view(before).push(wv));
            place = insts[i].span;
        }
        i += 1;
    }
    (out, place)
}

fn find_template<'a>(ss: &'a Vec<Stmt>, name: &str) -> (r: Option<&'a Stmt>)
    ensures
        match template(stmts_view(ss@), name@) {
            Some(t) => r is Some && r->Some_0@ == t && t.kind is Fn,
            None => r is None,
        },
{
    let ghost all = stmts_view(ss@);
    let mut i: usize = ss.len();
    assert(all.take(i as int) =~= all);
    while i > 0
        invariant
            i <= ss@.len(),
            all == stmts_view(ss@),
            template(all.take(i as int), name@) == template(all, name@),
        decreases i,
    {
        proof {
            assert(all.take(i as int).drop_last() =~= all.take(i - 1));
            assert(all.take(i as int).last() == ss@[i - 1]@);
        }
        i -= 1;
        match &ss[i].kind {
            StmtKind::Fn { name: n, generics, .. } => {
                assert(texts(generics@).len() == generics@.len());
                if str_eq(n.as_str(), name) && generics.len() > 0 {
                    return Some(&ss[i]);
                }
            },
            _ => {},
        }
    }
    None
}

fn is_declared(ss: &Vec<Stmt>, name: &str) -> (r: bool)
    ensures
        r == has_fn(stmts_view(ss@), name@),
{
    let ghost all = stmts_view(ss@);
    let mut i: usize = 0;
    while i < ss.len()
        invariant
            i <= ss@.len(),
            all == stmts_view(ss@),
            forall|j: int| 0 <= j < i ==> !declares_fn(#[trigger] all[j], name@),
        decreases ss@.len() - i,
    {
        assert(all[i as int] == ss@[i as int]@);
        match &ss[i].kind {
            StmtKind::Fn { name: n, .. } => {
                if str_eq(n.as_str(), name) {
                    assert(declares_fn(all[i as int], name@));
                    return true;
                }
            },
            _ => {},
        }
        assert(!declares_fn(all[i as int], name@));
        i += 1;
    }
    assert(all.len() == ss@.len());
    false
}

fn copy_template(t: &Stmt, args: &Vec<Type>) -> (r: Stmt)
    ensures
        r@ == copy_of(t@, types_view(args@)),
{
    assert(t@.kind == t.kind@);
    match &t.kind {
        StmtKind::Fn { name, generics, params, ret, body } => {
            let b = bind_params(generics, args);
            let none: Vec<String> = Vec::new();
            assert(texts(none@) =~= Seq::empty());
            let kind = StmtKind::Fn {
                name: mangle(name.as_str(), args),
                generics: none,
                params: substitute_params(params, &b),
                ret: substitute(ret, &b),
                body: substitute_stmts(body, &b),
            };
            Stmt::new(kind, t.span)
        },
        _ => t.dup(),
    }
}

fn add_copies(from: &Vec<Stmt>, ss: Vec<Stmt>, want: &Vec<Wanted>) -> (r: Vec<Stmt>)
    ensures
        stmts_view(r@) == with_copies(
            stmts_view(from@),
            stmts_view(ss@),
            wanted_view(want@),
            0,
        ),
{
    let ghost fv = stmts_view(from@);
    let ghost wv = wanted_view(want@);
    let ghost start = stmts_view(ss@);
    let mut out: Vec<Stmt> = ss;
    let mut i: usize = 0;
    while i < want.len()
        invariant
            i <= want@.len(),
            fv == stmts_view(from@),
            wv == wanted_view(want@),
            with_copies(fv, stmts_view(out@), wv, i as int) == with_copies(fv, start, wv, 0),
        decreases want@.len() - i,
    {
        assert(wv[i as int] == want@[i as int]@);
        let target = mangle(want[i].name.as_str(), &want[i].args);
        if !is_declared(&out, target.as_str()) {
            match find_template(from, want[i].name.as_str()) {
                Some(t) => {
                    out.push(copy_template(t, &want[i].args));
                },
                None => {},
            }
        }
        i += 1;
    }
    out
}

/// Rewrite the program so no generic function is left called.
///
/// Runs to a fixed point: specialising one function can expose calls inside it
/// that are only now concrete. Programs where that never settles are rejected
/// rather than expanded forever.
pub fn expand(program: &Program) -> (r: Result<Program, Diagnostic>)
    ensures
        match expanded(program@) {
            Ok(ss) => r is Ok && r->Ok_0@ == ss,
            Err(d) => r is Err && r->Err_0@ == d,
        },
{
    let ghost start = program@;
    let mut current = Program { stmts: dup_stmts(&program.stmts) };
    let mut last: Span = Span::new(1, 1);
    let mut round: usize = 0;
    while round < ROUNDS
        invariant
            round <= ROUNDS,
            start == program@,
            expanded_from(current@, round as int, last) == expanded(start),
        decreases ROUNDS - round,
    {
        // Round zero checks the program as written, so its errors are the
        // user's. Later rounds check copies this pass made, and the only way
        // one of those fails is a generic function whose type argument grows
        // every time it recurses: an infinite family of copies.
        let env = match TypeChecker::check_collecting(&current) {
            Ok(env) => env,
            Err(d) => {
                if round > 0 {
                    return Err(unbounded(d.span));
                }
                return Err(d);
            },
        };
        let insts = env.instantiations();
        if insts.len() == 0 {
            return Ok(current);
        }
        let (want, place) = find_wanted(insts, last);
        let changed = rewrite_stmts(&current.stmts, insts, "");
        let before = changed.len();
        assert(stmts_view(changed@).len() == changed@.len());
        let stmts = add_copies(&current.stmts, changed, &want);
        assert(stmts_view(stmts@).len() == stmts@.len());
        let added = stmts.len() != before;
        current = Program { stmts };
        if !added {
            return Ok(current);
        }
        last = place;
        round += 1;
    }
    Err(unbounded(last))
}

// ---- laws ----

/// Programs are checked before anything else is done with them: what the
/// checker rejects is rejected with its own report.
pub proof fn law_check_comes_first(ss: Seq<StmtV>)
    ensures
        check_program(ss) matches Err(d) ==> expanded(ss) == Err::<Seq<StmtV>, DiagnosticV>(d),
{
}

/// A program that calls no generic function stays as it is.
pub proof fn law_plain_program_is_unchanged(ss: Seq<StmtV>)
    ensures
        check_program(ss) matches Ok(env) ==> (env.instantiations.len() == 0 ==> expanded(ss)
            == Ok::<Seq<StmtV>, DiagnosticV>(ss)),
{
}

/// A statement that stands for another: at the same place in the source, and
/// with the same signature where it declares a function.
pub open spec fn keeps_header(a: StmtV, b: StmtV) -> bool {
    &&& a.span == b.span
    &&& match a.kind {
        StmtKindV::Fn { name, generics, params, ret, .. } => b.kind matches StmtKindV::Fn {
            name: name2,
            generics: generics2,
            params: params2,
            ret: ret2,
            ..
        } && name == name2 && generics == generics2 && params == params2 && ret == ret2,
        _ => !(b.kind is Fn),
    }
}

/// A function without type parameters.
pub open spec fn is_concrete(s: StmtV) -> bool {
    s.kind matches StmtKindV::Fn { generics, .. } && generics.len() == 0
}

/// A program made of another by additions: what was there keeps its place and
/// its signature, and what is new comes after it and is concrete.
pub open spec fn extends(ss: Seq<StmtV>, out: Seq<StmtV>) -> bool {
    &&& ss.len() <= out.len()
    &&& forall|i: int| 0 <= i < ss.len() ==> keeps_header(ss[i], #[trigger] out[i])
    &&& forall|i: int| ss.len() <= i < out.len() ==> is_concrete(#[trigger] out[i])
}

proof fn lemma_template(ss: Seq<StmtV>, name: Seq<char>)
    ensures
        template(ss, name) matches Some(t) ==> t.kind is Fn && declares_fn(t, name),
    decreases ss.len(),
{
    if ss.len() > 0 {
        lemma_template(ss.drop_last(), name);
    }
}

proof fn lemma_with_copies(from: Seq<StmtV>, ss: Seq<StmtV>, want: Seq<WantedV>, i: int)
    requires
        0 <= i,
    ensures
        ({
            let out = with_copies(from, ss, want, i);
            &&& ss.len() <= out.len()
            &&& forall|k: int| 0 <= k < ss.len() ==> ss[k] == #[trigger] out[k]
            &&& forall|k: int| ss.len() <= k < out.len() ==> is_concrete(#[trigger] out[k])
            &&& forall|k: int|
                i <= k < want.len() && template(from, (#[trigger] want[k]).0) is Some ==> has_fn(
                    out,
                    mangled(want[k].0, want[k].1),
                )
        }),
    decreases want.len() - i,
{
    if i < want.len() {
        let out = with_copies(from, ss, want, i);
        let wanted_name = mangled(want[i].0, want[i].1);
        if has_fn(ss, wanted_name) {
            lemma_with_copies(from, ss, want, i + 1);
            let k = choose|k: int| 0 <= k < ss.len() && declares_fn(#[trigger] ss[k], wanted_name);
            assert(declares_fn(out[k], wanted_name));
        } else {
            match template(from, want[i].0) {
                Some(t) => {
                    lemma_template(from, want[i].0);
                    let more = ss.push(copy_of(t, want[i].1));
                    lemma_with_copies(from, more, want, i + 1);
                    assert(more[ss.len() as int] == copy_of(t, want[i].1));
                    assert(declares_fn(out[ss.len() as int], wanted_name));
                    assert forall|k: int| 0 <= k < ss.len() implies ss[k] == #[trigger] out[k] by {
                        assert(more[k] == ss[k]);
                    }
                },
                None => lemma_with_copies(from, ss, want, i + 1),
            }
        }
    }
}

proof fn lemma_rewritten_headers(ss: Seq<StmtV>, insts: Seq<InstanceV>, encl: Seq<char>)
    ensures
        rewritten_stmts(ss, insts, encl).len() == ss.len(),
        forall|i: int|
            0 <= i < ss.len() ==> keeps_header(
                ss[i],
                #[trigger] rewritten_stmts(ss, insts, encl)[i],
            ),
{
    assert forall|i: int| 0 <= i < ss.len() implies keeps_header(
        ss[i],
        #[trigger] rewritten_stmts(ss, insts, encl)[i],
    ) by {
        assert(rewritten_stmts(ss, insts, encl)[i] == rewritten_stmt(ss[i], insts, encl));
    }
}

proof fn lemma_expanded_extends(ss: Seq<StmtV>, round: int, last: Span)
    ensures
        expanded_from(ss, round, last) matches Ok(out) ==> extends(ss, out),
    decreases ROUNDS - round,
{
    if round < ROUNDS {
        match check_program(ss) {
            Ok(env) => {
                if env.instantiations.len() > 0 {
                    let w = wanted(env.instantiations, 0, Seq::empty(), last);
                    let now = rewritten_stmts(ss, env.instantiations, ""@);
                    let all = with_copies(ss, now, w.0, 0);
                    lemma_rewritten_headers(ss, env.instantiations, ""@);
                    lemma_with_copies(ss, now, w.0, 0);
                    assert forall|i: int| 0 <= i < ss.len() implies keeps_header(
                        ss[i],
                        #[trigger] all[i],
                    ) by {
                        assert(now[i] == all[i]);
                    }
                    assert(extends(ss, all));
                    if all.len() != now.len() {
                        lemma_expanded_extends(all, round + 1, w.1);
                        match expanded_from(all, round + 1, w.1) {
                            Ok(out) => {
                                assert forall|i: int| 0 <= i < ss.len() implies keeps_header(
                                    ss[i],
                                    #[trigger] out[i],
                                ) by {
                                    assert(keeps_header(all[i], out[i]));
                                    assert(keeps_header(ss[i], all[i]));
                                }
                                assert forall|i: int| ss.len() <= i < out.len() implies is_concrete(
                                    #[trigger] out[i],
                                ) by {
                                    if i < all.len() {
                                        assert(is_concrete(all[i]));
                                        assert(keeps_header(all[i], out[i]));
                                    }
                                }
                            },
                            Err(_) => {},
                        }
                    }
                }
            },
            Err(_) => {},
        }
    }
}

/// Expanding a program keeps every statement of it in its place, generic
/// functions with their signatures among them, and adds nothing but concrete
/// functions after them.
pub proof fn law_originals_stay(ss: Seq<StmtV>)
    ensures
        expanded(ss) matches Ok(out) ==> extends(ss, out),
{
    lemma_expanded_extends(ss, 0, Span { line: 1, col: 1 });
}

/// Whatever is recorded is wanted, and once only.
pub proof fn law_each_copy_is_wanted_once(
    insts: Seq<InstanceV>,
    i: int,
    acc: Seq<WantedV>,
    last: Span,
)
    requires
        0 <= i,
        acc.no_duplicates(),
    ensures
        wanted(insts, i, acc, last).0.no_duplicates(),
        forall|w: WantedV| acc.contains(w) ==> #[trigger] wanted(insts, i, acc, last).0.contains(w),
        forall|k: int|
            i <= k < insts.len() ==> wanted(insts, i, acc, last).0.contains(
                ((#[trigger] insts[k]).name, insts[k].args),
            ),
    decreases insts.len() - i,
{
    if i < insts.len() {
        let w = (insts[i].name, insts[i].args);
        if acc.contains(w) {
            law_each_copy_is_wanted_once(insts, i + 1, acc, last);
        } else {
            let more = acc.push(w);
            assert(more[acc.len() as int] == w);
            assert forall|x: WantedV| acc.contains(x) implies more.contains(x) by {
                let k = choose|k: int| 0 <= k < acc.len() && acc[k] == x;
                assert(more[k] == x);
            }
            assert(more.contains(w));
            law_each_copy_is_wanted_once(insts, i + 1, more, insts[i].span);
        }
    }
}

proof fn lemma_expanded_calls(ss: Seq<StmtV>, round: int, last: Span) -> (r: (
    Seq<StmtV>,
    Seq<InstanceV>,
))
    requires
        expanded_from(ss, round, last) is Ok,
    ensures
        calls_are_concrete(expanded_from(ss, round, last)->Ok_0, r.0, r.1),
    decreases ROUNDS - round,
{
    let env = check_program(ss)->Ok_0;
    let insts = env.instantiations;
    if insts.len() == 0 {
        (ss, insts)
    } else {
        let w = wanted(insts, 0, Seq::empty(), last);
        let now = rewritten_stmts(ss, insts, ""@);
        let all = with_copies(ss, now, w.0, 0);
        if all.len() == now.len() {
            lemma_rewritten_headers(ss, insts, ""@);
            lemma_with_copies(ss, now, w.0, 0);
            assert(all =~= now);
            law_each_copy_is_wanted_once(insts, 0, Seq::empty(), last);
            assert forall|k: int|
                0 <= k < insts.len() && template(ss, (#[trigger] insts[k]).name) is Some implies has_fn(
                all,
                mangled(insts[k].name, insts[k].args),
            ) by {
                let x = (insts[k].name, insts[k].args);
                assert(w.0.contains(x));
                let n = choose|n: int| 0 <= n < w.0.len() && w.0[n] == x;
                assert(template(ss, w.0[n].0) is Some);
            }
            (ss, insts)
        } else {
            lemma_expanded_calls(all, round + 1, w.1)
        }
    }
}

/// A program in which every call that the checker takes for a call of a generic
/// function goes to a concrete copy that is there: `out` is the program `ss`,
/// accepted with the calls `insts` on record, after these calls were renamed.
pub open spec fn calls_are_concrete(
    out: Seq<StmtV>,
    ss: Seq<StmtV>,
    insts: Seq<InstanceV>,
) -> bool {
    &&& check_program(ss) matches Ok(env) && env.instantiations == insts
    &&& if insts.len() == 0 {
        out == ss
    } else {
        out == rewritten_stmts(ss, insts, ""@)
    }
    &&& forall|k: int|
        0 <= k < insts.len() && template(ss, (#[trigger] insts[k]).name) is Some ==> has_fn(
            out,
            mangled(insts[k].name, insts[k].args),
        )
}

/// No call of a generic function is left: an expanded program is one that the
/// checker accepts, with each recorded call turned to a copy that is there.
pub proof fn law_no_generic_call_is_left(ss: Seq<StmtV>) -> (r: (Seq<StmtV>, Seq<InstanceV>))
    requires
        expanded(ss) is Ok,
    ensures
        calls_are_concrete(expanded(ss)->Ok_0, r.0, r.1),
{
    lemma_expanded_calls(ss, 0, Span { line: 1, col: 1 })
}

proof fn lemma_mangled_marks(name: Seq<char>, args: Seq<TypeV>)
    requires
        args.len() > 0,
    ensures
        exists|i: int| 0 <= i < mangled(name, args).len() && #[trigger] mangled(name, args)[i] == '$',
{
    reveal_strlit("$");
    let head = mangled(name, args.drop_last());
    let whole = mangled(name, args);
    assert(whole[head.len() as int] == '$');
}

/// The name of a copy is none that a program can give: a word of the source
/// never holds its mark.
pub proof fn law_copy_names_are_no_words(name: Seq<char>, args: Seq<TypeV>, word: Seq<char>)
    requires
        args.len() > 0,
        is_word(word),
    ensures
        mangled(name, args) != word,
{
    lemma_mangled_marks(name, args);
    let i = choose|i: int|
        0 <= i < mangled(name, args).len() && #[trigger] mangled(name, args)[i] == '$';
    assert(!word_part('$') && !word_start('$'));
    if mangled(name, args) == word {
        assert(word[i] == '$');
    }
}

/// A copy of a generic function has no type parameters. It has the parameters of the
/// function, with the types that they stand for, and its statements.
pub proof fn law_copy(t: StmtV, args: Seq<TypeV>)
    requires
        t.kind is Fn,
        t.kind->Fn_generics.len() == args.len(),
        t.kind->Fn_generics.no_duplicates(),
    ensures
        ({
            let c = copy_of(t, args).kind;
            let f = t.kind;
            let b = type_bindings(f->Fn_generics, args, args.len() as int);
            &&& c is Fn
            &&& c->Fn_name == mangled(f->Fn_name, args)
            &&& c->Fn_generics.len() == 0
            &&& c->Fn_params.len() == f->Fn_params.len()
            &&& forall|k: int|
                0 <= k < f->Fn_params.len() ==> (#[trigger] c->Fn_params[k]).0
                    == f->Fn_params[k].0 && c->Fn_params[k].1 == subst(f->Fn_params[k].1, b)
            &&& c->Fn_ret == subst(f->Fn_ret, b)
            &&& c->Fn_body.len() == f->Fn_body.len()
            &&& forall|k: int|
                0 <= k < args.len() ==> b.contains_key(#[trigger] f->Fn_generics[k])
                    && b[f->Fn_generics[k]] == args[k]
            &&& copy_of(t, args).span == t.span
        }),
{
    let gs = t.kind->Fn_generics;
    assert(paired(gs, args) == args.len());
    lemma_type_bindings(gs, args, args.len() as int);
    assert(specialised_all(t.kind->Fn_body, type_bindings(gs, args, args.len() as int)).len()
        == t.kind->Fn_body.len());
}

proof fn lemma_type_bindings(gs: Seq<Seq<char>>, args: Seq<TypeV>, n: int)
    requires
        0 <= n <= args.len(),
        gs.len() == args.len(),
        gs.no_duplicates(),
    ensures
        forall|k: int|
            0 <= k < n ==> type_bindings(gs, args, n).contains_key(#[trigger] gs[k])
                && type_bindings(gs, args, n)[gs[k]] == args[k],
    decreases n,
{
    if n > 0 {
        lemma_type_bindings(gs, args, n - 1);
        assert forall|k: int| 0 <= k < n implies type_bindings(gs, args, n).contains_key(
            #[trigger] gs[k],
        ) && type_bindings(gs, args, n)[gs[k]] == args[k] by {
            if k < n - 1 {
                assert(gs[k] != gs[n - 1]);
            }
        }
    }
}

} // verus!
