//! Abstract syntax of the Zarrin language, with a mathematical model of each
//! node.

use crate::diagnostic::Span;
use crate::text::{cat2, cat3, join, join_text, texts};
use vstd::prelude::*;

verus! {

/// A type of the language.
#[derive(Debug, PartialEq)]
pub enum Type {
    Inferred,
    Int,
    Float,
    Bool,
    String,
    Unit,
    /// What `a..b` has: the integers from `a` up to `b`.
    Range,
    /// A declared type by name, with whatever type arguments were worked out
    /// for it. `Option` on its own carries none (its payload is unknown),
    /// while `Some(1.5)` produces `Option<float>`.
    Named(String, Vec<Type>),
    Fn(Vec<Type>, Box<Type>),
    Array(Box<Type>),
}

/// The model of a `Type`.
pub enum TypeV {
    Inferred,
    Int,
    Float,
    Bool,
    String,
    Unit,
    Range,
    Named(Seq<char>, Seq<TypeV>),
    Fn(Seq<TypeV>, Box<TypeV>),
    Array(Box<TypeV>),
}

#[derive(Debug, Clone, Copy, PartialEq, Eq, Structural)]
pub enum BinOp {
    Add,
    Sub,
    Mul,
    Div,
    Mod,
    Eq,
    Ne,
    Lt,
    Le,
    Gt,
    Ge,
    And,
    Or,
}

#[derive(Debug, Clone, Copy, PartialEq, Eq, Structural)]
pub enum UnaryOp {
    Neg,
    Not,
}

#[derive(Debug, PartialEq)]
pub enum Pattern {
    Literal(Expr),
    Variable(String),
    Wildcard,
    EnumVariant { name: String, inner: Vec<Pattern> },
}

/// The model of a `Pattern`.
pub enum PatternV {
    Literal(ExprV),
    Variable(Seq<char>),
    Wildcard,
    EnumVariant { name: Seq<char>, inner: Seq<PatternV> },
}

/// An expression and where it came from.
#[derive(Debug, PartialEq)]
pub struct Expr {
    pub kind: Box<ExprKind>,
    pub span: Span,
}

/// The model of an `Expr`.
pub struct ExprV {
    pub kind: Box<ExprKindV>,
    pub span: Span,
}

#[derive(Debug, PartialEq)]
pub enum ExprKind {
    Int(i64),
    /// A floating-point literal, kept as the text it was written with.
    Float(String),
    Bool(bool),
    Str(String),
    Ident(String),
    Binary(Box<Expr>, BinOp, Box<Expr>),
    Unary(UnaryOp, Box<Expr>),
    Range(Box<Expr>, Box<Expr>),
    ArrayLit(Vec<Expr>),
    Index(Box<Expr>, Box<Expr>),
    Call(Box<Expr>, Vec<Expr>),
    FieldAccess(Box<Expr>, String),
    MethodCall(Box<Expr>, String, Vec<Expr>),
    StructLit { name: String, fields: Vec<(String, Expr)> },
    Match { scrutinee: Box<Expr>, arms: Vec<(Vec<Pattern>, Option<Expr>, Expr)> },
    If { cond: Box<Expr>, then_body: Box<Expr>, else_body: Option<Box<Expr>> },
    While { cond: Box<Expr>, body: Vec<Stmt> },
    For { var: String, iter: Box<Expr>, body: Vec<Stmt> },
}

/// The model of a match arm: its patterns, its guard and its body.
pub type ArmV = (Seq<PatternV>, Option<ExprV>, ExprV);

/// The model of an `ExprKind`.
pub enum ExprKindV {
    Int(i64),
    Float(Seq<char>),
    Bool(bool),
    Str(Seq<char>),
    Ident(Seq<char>),
    Binary(Box<ExprV>, BinOp, Box<ExprV>),
    Unary(UnaryOp, Box<ExprV>),
    Range(Box<ExprV>, Box<ExprV>),
    ArrayLit(Seq<ExprV>),
    Index(Box<ExprV>, Box<ExprV>),
    Call(Box<ExprV>, Seq<ExprV>),
    FieldAccess(Box<ExprV>, Seq<char>),
    MethodCall(Box<ExprV>, Seq<char>, Seq<ExprV>),
    StructLit { name: Seq<char>, fields: Seq<(Seq<char>, ExprV)> },
    Match { scrutinee: Box<ExprV>, arms: Seq<(Seq<PatternV>, Option<ExprV>, ExprV)> },
    If { cond: Box<ExprV>, then_body: Box<ExprV>, else_body: Option<Box<ExprV>> },
    While { cond: Box<ExprV>, body: Seq<StmtV> },
    For { var: Seq<char>, iter: Box<ExprV>, body: Seq<StmtV> },
}

/// A statement together with where it came from. Errors found after parsing
/// (type errors, and failures at run time) are reported against the statement
/// being processed.
#[derive(Debug, PartialEq)]
pub struct Stmt {
    pub kind: StmtKind,
    pub span: Span,
}

/// The model of a `Stmt`.
pub struct StmtV {
    pub kind: StmtKindV,
    pub span: Span,
}

#[allow(inconsistent_fields)]
#[derive(Debug, PartialEq)]
pub enum StmtKind {
    Let { name: String, ty: Type, value: Expr },
    Fn {
        name: String,
        generics: Vec<String>,
        params: Vec<(String, Type)>,
        ret: Type,
        body: Vec<Stmt>,
    },
    Struct { name: String, generics: Vec<String>, fields: Vec<(String, Type)> },
    Enum { name: String, variants: Vec<(String, Vec<Type>)> },
    Trait { name: String, methods: Vec<TraitMethod> },
    Impl { trait_name: String, for_type: String, methods: Vec<Stmt> },
    ExternFn { name: String, params: Vec<(String, Type)>, ret: Type },
    While { cond: Expr, body: Vec<Stmt> },
    For { var: String, iter: Expr, body: Vec<Stmt> },
    Break(Option<Expr>),
    Continue(Option<Expr>),
    Assign { name: String, value: Expr },
    If { cond: Expr, then_body: Vec<Stmt>, else_body: Option<Vec<Stmt>> },
    Macro { name: String, params: Vec<String>, body: Vec<Stmt> },
    Expr(Expr),
    Return(Option<Expr>),
    Import(String),
}

/// The model of a `StmtKind`.
#[allow(inconsistent_fields)]
pub enum StmtKindV {
    Let { name: Seq<char>, ty: TypeV, value: ExprV },
    Fn {
        name: Seq<char>,
        generics: Seq<Seq<char>>,
        params: Seq<(Seq<char>, TypeV)>,
        ret: TypeV,
        body: Seq<StmtV>,
    },
    Struct { name: Seq<char>, generics: Seq<Seq<char>>, fields: Seq<(Seq<char>, TypeV)> },
    Enum { name: Seq<char>, variants: Seq<(Seq<char>, Seq<TypeV>)> },
    Trait { name: Seq<char>, methods: Seq<TraitMethodV> },
    Impl { trait_name: Seq<char>, for_type: Seq<char>, methods: Seq<StmtV> },
    ExternFn { name: Seq<char>, params: Seq<(Seq<char>, TypeV)>, ret: TypeV },
    While { cond: ExprV, body: Seq<StmtV> },
    For { var: Seq<char>, iter: ExprV, body: Seq<StmtV> },
    Break(Option<ExprV>),
    Continue(Option<ExprV>),
    Assign { name: Seq<char>, value: ExprV },
    If { cond: ExprV, then_body: Seq<StmtV>, else_body: Option<Seq<StmtV>> },
    Macro { name: Seq<char>, params: Seq<Seq<char>>, body: Seq<StmtV> },
    Expr(ExprV),
    Return(Option<ExprV>),
    Import(Seq<char>),
}

#[derive(Debug, PartialEq)]
pub struct TraitMethod {
    pub name: String,
    pub params: Vec<(String, Type)>,
    pub ret: Type,
}

/// The model of a `TraitMethod`.
pub struct TraitMethodV {
    pub name: Seq<char>,
    pub params: Seq<(Seq<char>, TypeV)>,
    pub ret: TypeV,
}

#[derive(Debug, PartialEq)]
pub struct Program {
    pub stmts: Vec<Stmt>,
}

impl Type {
    pub open spec fn view(&self) -> TypeV
        decreases self,
    {
        match self {
            Type::Inferred => TypeV::Inferred,
            Type::Int => TypeV::Int,
            Type::Float => TypeV::Float,
            Type::Bool => TypeV::Bool,
            Type::String => TypeV::String,
            Type::Unit => TypeV::Unit,
            Type::Range => TypeV::Range,
            Type::Named(n, args) => TypeV::Named(n@, types_view(args@)),
            Type::Fn(args, ret) => TypeV::Fn(types_view(args@), Box::new((**ret).view())),
            Type::Array(el) => TypeV::Array(Box::new((**el).view())),
        }
    }
}

/// The models of a list of types.
pub open spec fn types_view(s: Seq<Type>) -> Seq<TypeV>
    decreases s,
{
    Seq::new(
        s.len(),
        |i: int|
            if 0 <= i < s.len() {
                s[i].view()
            } else {
                arbitrary()
            },
    )
}

/// The models of named types: parameters, or the fields of a struct.
pub open spec fn params_view(s: Seq<(String, Type)>) -> Seq<(Seq<char>, TypeV)>
    decreases s,
{
    Seq::new(
        s.len(),
        |i: int|
            if 0 <= i < s.len() {
                (s[i].0@, s[i].1.view())
            } else {
                arbitrary()
            },
    )
}

/// The models of the variants that an enum declares.
pub open spec fn cases_view(s: Seq<(String, Vec<Type>)>) -> Seq<(Seq<char>, Seq<TypeV>)>
    decreases s,
{
    Seq::new(
        s.len(),
        |i: int|
            if 0 <= i < s.len() {
                (s[i].0@, types_view(s[i].1@))
            } else {
                arbitrary()
            },
    )
}

/// The models of the methods that a trait declares.
pub open spec fn methods_view(s: Seq<TraitMethod>) -> Seq<TraitMethodV>
    decreases s,
{
    Seq::new(
        s.len(),
        |i: int|
            if 0 <= i < s.len() {
                s[i].view()
            } else {
                arbitrary()
            },
    )
}

impl TraitMethod {
    pub open spec fn view(&self) -> TraitMethodV {
        TraitMethodV { name: self.name@, params: params_view(self.params@), ret: self.ret@ }
    }
}

impl Pattern {
    pub open spec fn view(&self) -> PatternV
        decreases self,
    {
        match self {
            Pattern::Literal(e) => PatternV::Literal(e.view()),
            Pattern::Variable(n) => PatternV::Variable(n@),
            Pattern::Wildcard => PatternV::Wildcard,
            Pattern::EnumVariant { name, inner } => PatternV::EnumVariant {
                name: name@,
                inner: patterns_view(inner@),
            },
        }
    }
}

impl Expr {
    pub open spec fn view(&self) -> ExprV
        decreases self,
    {
        ExprV { kind: Box::new((*self.kind).view()), span: self.span }
    }

    pub fn new(kind: ExprKind, span: Span) -> (e: Self)
        ensures
            e@ == (ExprV { kind: Box::new(kind@), span }),
            *e.kind == kind,
            e.span == span,
    {
        Expr { kind: Box::new(kind), span }
    }
}

impl ExprKind {
    pub open spec fn view(&self) -> ExprKindV
        decreases self,
    {
        match self {
            ExprKind::Int(n) => ExprKindV::Int(*n),
            ExprKind::Float(t) => ExprKindV::Float(t@),
            ExprKind::Bool(b) => ExprKindV::Bool(*b),
            ExprKind::Str(t) => ExprKindV::Str(t@),
            ExprKind::Ident(n) => ExprKindV::Ident(n@),
            ExprKind::Binary(l, op, r) => ExprKindV::Binary(
                Box::new((**l).view()),
                *op,
                Box::new((**r).view()),
            ),
            ExprKind::Unary(op, e) => ExprKindV::Unary(*op, Box::new((**e).view())),
            ExprKind::Range(a, b) => ExprKindV::Range(
                Box::new((**a).view()),
                Box::new((**b).view()),
            ),
            ExprKind::ArrayLit(es) => ExprKindV::ArrayLit(exprs_view(es@)),
            ExprKind::Index(a, i) => ExprKindV::Index(
                Box::new((**a).view()),
                Box::new((**i).view()),
            ),
            ExprKind::Call(f, args) => ExprKindV::Call(
                Box::new((**f).view()),
                exprs_view(args@),
            ),
            ExprKind::FieldAccess(e, n) => ExprKindV::FieldAccess(Box::new((**e).view()), n@),
            ExprKind::MethodCall(e, n, args) => ExprKindV::MethodCall(
                Box::new((**e).view()),
                n@,
                exprs_view(args@),
            ),
            ExprKind::StructLit { name, fields } => ExprKindV::StructLit {
                name: name@,
                fields: fields_view(fields@),
            },
            ExprKind::Match { scrutinee, arms } => ExprKindV::Match {
                scrutinee: Box::new((**scrutinee).view()),
                arms: arms_view(arms@),
            },
            ExprKind::If { cond, then_body, else_body } => ExprKindV::If {
                cond: Box::new((**cond).view()),
                then_body: Box::new((**then_body).view()),
                else_body: match else_body {
                    Some(e) => Some(Box::new((**e).view())),
                    None => None,
                },
            },
            ExprKind::While { cond, body } => ExprKindV::While {
                cond: Box::new((**cond).view()),
                body: stmts_view(body@),
            },
            ExprKind::For { var, iter, body } => ExprKindV::For {
                var: var@,
                iter: Box::new((**iter).view()),
                body: stmts_view(body@),
            },
        }
    }
}

impl Stmt {
    pub open spec fn view(&self) -> StmtV
        decreases self,
    {
        StmtV { kind: self.kind.view(), span: self.span }
    }

    pub fn new(kind: StmtKind, span: Span) -> (s: Self)
        ensures
            s@ == (StmtV { kind: kind@, span }),
            s.kind == kind,
            s.span == span,
    {
        Stmt { kind, span }
    }
}

impl StmtKind {
    pub open spec fn view(&self) -> StmtKindV
        decreases self,
    {
        match self {
            StmtKind::Let { name, ty, value } => StmtKindV::Let {
                name: name@,
                ty: ty.view(),
                value: value.view(),
            },
            StmtKind::Fn { name, generics, params, ret, body } => StmtKindV::Fn {
                name: name@,
                generics: texts(generics@),
                params: params_view(params@),
                ret: ret.view(),
                body: stmts_view(body@),
            },
            StmtKind::Struct { name, generics, fields } => StmtKindV::Struct {
                name: name@,
                generics: texts(generics@),
                fields: params_view(fields@),
            },
            StmtKind::Enum { name, variants } => StmtKindV::Enum {
                name: name@,
                variants: cases_view(variants@),
            },
            StmtKind::Trait { name, methods } => StmtKindV::Trait {
                name: name@,
                methods: methods_view(methods@),
            },
            StmtKind::Impl { trait_name, for_type, methods } => StmtKindV::Impl {
                trait_name: trait_name@,
                for_type: for_type@,
                methods: stmts_view(methods@),
            },
            StmtKind::ExternFn { name, params, ret } => StmtKindV::ExternFn {
                name: name@,
                params: params_view(params@),
                ret: ret.view(),
            },
            StmtKind::While { cond, body } => StmtKindV::While {
                cond: cond.view(),
                body: stmts_view(body@),
            },
            StmtKind::For { var, iter, body } => StmtKindV::For {
                var: var@,
                iter: iter.view(),
                body: stmts_view(body@),
            },
            StmtKind::Break(e) => StmtKindV::Break(opt_expr_view(*e)),
            StmtKind::Continue(e) => StmtKindV::Continue(opt_expr_view(*e)),
            StmtKind::Assign { name, value } => StmtKindV::Assign {
                name: name@,
                value: value.view(),
            },
            StmtKind::If { cond, then_body, else_body } => StmtKindV::If {
                cond: cond.view(),
                then_body: stmts_view(then_body@),
                else_body: match else_body {
                    Some(b) => Some(stmts_view(b@)),
                    None => None,
                },
            },
            StmtKind::Macro { name, params, body } => StmtKindV::Macro {
                name: name@,
                params: texts(params@),
                body: stmts_view(body@),
            },
            StmtKind::Expr(e) => StmtKindV::Expr(e.view()),
            StmtKind::Return(e) => StmtKindV::Return(opt_expr_view(*e)),
            StmtKind::Import(p) => StmtKindV::Import(p@),
        }
    }
}

/// The model of an optional expression.
pub open spec fn opt_expr_view(e: Option<Expr>) -> Option<ExprV>
    decreases e,
{
    match e {
        Some(x) => Some(x.view()),
        None => None,
    }
}

/// The model of a match arm.
pub open spec fn arm_view(a: (Vec<Pattern>, Option<Expr>, Expr)) -> (
    Seq<PatternV>,
    Option<ExprV>,
    ExprV,
)
    decreases a,
{
    (patterns_view(a.0@), opt_expr_view(a.1), a.2.view())
}

/// The models of a list of patterns.
pub open spec fn patterns_view(s: Seq<Pattern>) -> Seq<PatternV>
    decreases s,
{
    Seq::new(
        s.len(),
        |i: int|
            if 0 <= i < s.len() {
                s[i].view()
            } else {
                arbitrary()
            },
    )
}

/// The models of a list of expressions.
pub open spec fn exprs_view(s: Seq<Expr>) -> Seq<ExprV>
    decreases s,
{
    Seq::new(
        s.len(),
        |i: int|
            if 0 <= i < s.len() {
                s[i].view()
            } else {
                arbitrary()
            },
    )
}

/// The models of the fields that a struct literal gives.
pub open spec fn fields_view(s: Seq<(String, Expr)>) -> Seq<(Seq<char>, ExprV)>
    decreases s,
{
    Seq::new(
        s.len(),
        |i: int|
            if 0 <= i < s.len() {
                (s[i].0@, s[i].1.view())
            } else {
                arbitrary()
            },
    )
}

/// The models of a list of match arms.
pub open spec fn arms_view(s: Seq<(Vec<Pattern>, Option<Expr>, Expr)>) -> Seq<(Seq<PatternV>, Option<ExprV>, ExprV)>
    decreases s,
{
    Seq::new(
        s.len(),
        |i: int|
            if 0 <= i < s.len() {
                arm_view(s[i])
            } else {
                arbitrary()
            },
    )
}

/// The models of a list of statements.
pub open spec fn stmts_view(s: Seq<Stmt>) -> Seq<StmtV>
    decreases s,
{
    Seq::new(
        s.len(),
        |i: int|
            if 0 <= i < s.len() {
                s[i].view()
            } else {
                arbitrary()
            },
    )
}

impl Program {
    pub open spec fn view(&self) -> Seq<StmtV> {
        stmts_view(self.stmts@)
    }
}

pub broadcast proof fn lemma_texts_push(s: Seq<String>, x: String)
    ensures
        #[trigger] texts(s.push(x)) == texts(s).push(x@),
{
    assert(texts(s.push(x)) =~= texts(s).push(x@));
}

pub broadcast proof fn lemma_types_view_push(s: Seq<Type>, x: Type)
    ensures
        #[trigger] types_view(s.push(x)) == types_view(s).push(x@),
{
    assert(types_view(s.push(x)) =~= types_view(s).push(x@));
}

pub broadcast proof fn lemma_params_view_push(s: Seq<(String, Type)>, x: (String, Type))
    ensures
        #[trigger] params_view(s.push(x)) == params_view(s).push((x.0@, x.1@)),
{
    assert(params_view(s.push(x)) =~= params_view(s).push((x.0@, x.1@)));
}

pub broadcast proof fn lemma_cases_view_push(s: Seq<(String, Vec<Type>)>, x: (String, Vec<Type>))
    ensures
        #[trigger] cases_view(s.push(x)) == cases_view(s).push((x.0@, types_view(x.1@))),
{
    assert(cases_view(s.push(x)) =~= cases_view(s).push((x.0@, types_view(x.1@))));
}

pub broadcast proof fn lemma_methods_view_push(s: Seq<TraitMethod>, x: TraitMethod)
    ensures
        #[trigger] methods_view(s.push(x)) == methods_view(s).push(x@),
{
    assert(methods_view(s.push(x)) =~= methods_view(s).push(x@));
}

pub broadcast proof fn lemma_patterns_view_push(s: Seq<Pattern>, x: Pattern)
    ensures
        #[trigger] patterns_view(s.push(x)) == patterns_view(s).push(x@),
{
    assert(patterns_view(s.push(x)) =~= patterns_view(s).push(x@));
}

pub broadcast proof fn lemma_exprs_view_push(s: Seq<Expr>, x: Expr)
    ensures
        #[trigger] exprs_view(s.push(x)) == exprs_view(s).push(x@),
{
    assert(exprs_view(s.push(x)) =~= exprs_view(s).push(x@));
}

pub broadcast proof fn lemma_fields_view_push(s: Seq<(String, Expr)>, x: (String, Expr))
    ensures
        #[trigger] fields_view(s.push(x)) == fields_view(s).push((x.0@, x.1@)),
{
    assert(fields_view(s.push(x)) =~= fields_view(s).push((x.0@, x.1@)));
}

pub broadcast proof fn lemma_arms_view_push(s: Seq<(Vec<Pattern>, Option<Expr>, Expr)>, x: (Vec<Pattern>, Option<Expr>, Expr))
    ensures
        #[trigger] arms_view(s.push(x)) == arms_view(s).push(arm_view(x)),
{
    assert(arms_view(s.push(x)) =~= arms_view(s).push(arm_view(x)));
}

pub broadcast proof fn lemma_stmts_view_push(s: Seq<Stmt>, x: Stmt)
    ensures
        #[trigger] stmts_view(s.push(x)) == stmts_view(s).push(x@),
{
    assert(stmts_view(s.push(x)) =~= stmts_view(s).push(x@));
}

/// The model of a list with one more item is the model of the list with one
/// more item.
pub broadcast group group_views {
    lemma_texts_push,
    lemma_types_view_push,
    lemma_params_view_push,
    lemma_cases_view_push,
    lemma_methods_view_push,
    lemma_patterns_view_push,
    lemma_exprs_view_push,
    lemma_fields_view_push,
    lemma_arms_view_push,
    lemma_stmts_view_push,
}

/// A type the way it is written in source: `[int]`, `Option<float>`.
pub open spec fn type_text(t: TypeV) -> Seq<char>
    decreases t,
{
    match t {
        TypeV::Inferred => "unknown"@,
        TypeV::Int => "int"@,
        TypeV::Float => "float"@,
        TypeV::Bool => "bool"@,
        TypeV::String => "string"@,
        TypeV::Unit => "()"@,
        TypeV::Range => "range"@,
        TypeV::Named(n, args) => if args.len() == 0 {
            n
        } else {
            n + "<"@ + join_text(type_texts(args), ", "@) + ">"@
        },
        TypeV::Array(el) => "["@ + type_text(*el) + "]"@,
        TypeV::Fn(args, ret) => "fn("@ + join_text(type_texts(args), ", "@) + ") -> "@
            + type_text(*ret),
    }
}

/// The texts of a list of types.
pub open spec fn type_texts(ts: Seq<TypeV>) -> Seq<Seq<char>>
    decreases ts,
{
    Seq::new(
        ts.len(),
        |i: int|
            if 0 <= i < ts.len() {
                type_text(ts[i])
            } else {
                arbitrary()
            },
    )
}

impl Type {
    /// The type the way it is written in source.
    pub fn to_text(&self) -> (s: String)
        ensures
            s@ == type_text(self@),
        decreases self,
    {
        match self {
            Type::Inferred => "unknown".to_owned(),
            Type::Int => "int".to_owned(),
            Type::Float => "float".to_owned(),
            Type::Bool => "bool".to_owned(),
            Type::String => "string".to_owned(),
            Type::Unit => "()".to_owned(),
            Type::Range => "range".to_owned(),
            Type::Named(n, args) => {
                assert(types_view(args@).len() == args@.len());
                if args.len() == 0 {
                    n.clone()
                } else {
                    let parts = texts_of_types(args);
                    cat2(
                        cat3(n.as_str(), "<", join(&parts, ", ").as_str()).as_str(),
                        ">",
                    )
                }
            },
            Type::Array(el) => cat3("[", el.to_text().as_str(), "]"),
            Type::Fn(args, ret) => {
                let parts = texts_of_types(args);
                cat2(
                    cat3("fn(", join(&parts, ", ").as_str(), ") -> ").as_str(),
                    ret.to_text().as_str(),
                )
            },
        }
    }
}

fn texts_of_types(ts: &Vec<Type>) -> (r: Vec<String>)
    ensures
        texts(r@) == type_texts(types_view(ts@)),
    decreases ts,
{
    let mut out: Vec<String> = Vec::new();
    let mut i: usize = 0;
    while i < ts.len()
        invariant
            i <= ts@.len(),
            out@.len() == i,
            forall|j: int| 0 <= j < i ==> (#[trigger] out@[j])@ == type_text(ts@[j]@),
        decreases ts@.len() - i,
    {
        out.push(ts[i].to_text());
        i += 1;
    }
    assert(texts(out@) =~= type_texts(types_view(ts@)));
    out
}

/// A copy of a list.
pub fn dup_texts(v: &Vec<String>) -> (r: Vec<String>)
    ensures
        texts(r@) == texts(v@),
    decreases v,
{
    let mut out: Vec<String> = Vec::new();
    let mut i: usize = 0;
    while i < v.len()
        invariant
            i <= v@.len(),
            out@.len() == i,
            forall|j: int| 0 <= j < i ==> (#[trigger] out@[j])@ == v@[j]@,
        decreases v@.len() - i,
    {
        out.push(v[i].clone());
        i += 1;
    }
    assert(texts(out@) =~= texts(v@));
    out
}

/// A copy of a list.
pub fn dup_types(v: &Vec<Type>) -> (r: Vec<Type>)
    ensures
        types_view(r@) == types_view(v@),
    decreases v,
{
    let mut out: Vec<Type> = Vec::new();
    let mut i: usize = 0;
    while i < v.len()
        invariant
            i <= v@.len(),
            out@.len() == i,
            forall|j: int| 0 <= j < i ==> (#[trigger] out@[j])@ == v@[j]@,
        decreases v@.len() - i,
    {
        out.push(v[i].dup());
        i += 1;
    }
    assert(types_view(out@) =~= types_view(v@));
    out
}

/// A copy of a list.
pub fn dup_params(v: &Vec<(String, Type)>) -> (r: Vec<(String, Type)>)
    ensures
        params_view(r@) == params_view(v@),
    decreases v,
{
    let mut out: Vec<(String, Type)> = Vec::new();
    let mut i: usize = 0;
    while i < v.len()
        invariant
            i <= v@.len(),
            out@.len() == i,
            forall|j: int| 0 <= j < i ==> (#[trigger] out@[j]).0@ == v@[j].0@ && out@[j].1@ == v@[j].1@,
        decreases v@.len() - i,
    {
        out.push((v[i].0.clone(), v[i].1.dup()));
        i += 1;
    }
    assert(params_view(out@) =~= params_view(v@));
    out
}

/// A copy of a list.
pub fn dup_cases(v: &Vec<(String, Vec<Type>)>) -> (r: Vec<(String, Vec<Type>)>)
    ensures
        cases_view(r@) == cases_view(v@),
    decreases v,
{
    let mut out: Vec<(String, Vec<Type>)> = Vec::new();
    let mut i: usize = 0;
    while i < v.len()
        invariant
            i <= v@.len(),
            out@.len() == i,
            forall|j: int| 0 <= j < i ==> (#[trigger] out@[j]).0@ == v@[j].0@ && types_view(out@[j].1@) == types_view(v@[j].1@),
        decreases v@.len() - i,
    {
        out.push((v[i].0.clone(), dup_types(&v[i].1)));
        i += 1;
    }
    assert(cases_view(out@) =~= cases_view(v@));
    out
}

/// A copy of a list.
pub fn dup_methods(v: &Vec<TraitMethod>) -> (r: Vec<TraitMethod>)
    ensures
        methods_view(r@) == methods_view(v@),
    decreases v,
{
    let mut out: Vec<TraitMethod> = Vec::new();
    let mut i: usize = 0;
    while i < v.len()
        invariant
            i <= v@.len(),
            out@.len() == i,
            forall|j: int| 0 <= j < i ==> (#[trigger] out@[j])@ == v@[j]@,
        decreases v@.len() - i,
    {
        out.push(v[i].dup());
        i += 1;
    }
    assert(methods_view(out@) =~= methods_view(v@));
    out
}

/// A copy of a list.
pub fn dup_patterns(v: &Vec<Pattern>) -> (r: Vec<Pattern>)
    ensures
        patterns_view(r@) == patterns_view(v@),
    decreases v,
{
    let mut out: Vec<Pattern> = Vec::new();
    let mut i: usize = 0;
    while i < v.len()
        invariant
            i <= v@.len(),
            out@.len() == i,
            forall|j: int| 0 <= j < i ==> (#[trigger] out@[j])@ == v@[j]@,
        decreases v@.len() - i,
    {
        out.push(v[i].dup());
        i += 1;
    }
    assert(patterns_view(out@) =~= patterns_view(v@));
    out
}

/// A copy of a list.
pub fn dup_exprs(v: &Vec<Expr>) -> (r: Vec<Expr>)
    ensures
        exprs_view(r@) == exprs_view(v@),
    decreases v,
{
    let mut out: Vec<Expr> = Vec::new();
    let mut i: usize = 0;
    while i < v.len()
        invariant
            i <= v@.len(),
            out@.len() == i,
            forall|j: int| 0 <= j < i ==> (#[trigger] out@[j])@ == v@[j]@,
        decreases v@.len() - i,
    {
        out.push(v[i].dup());
        i += 1;
    }
    assert(exprs_view(out@) =~= exprs_view(v@));
    out
}

/// A copy of a list.
pub fn dup_fields(v: &Vec<(String, Expr)>) -> (r: Vec<(String, Expr)>)
    ensures
        fields_view(r@) == fields_view(v@),
    decreases v,
{
    let mut out: Vec<(String, Expr)> = Vec::new();
    let mut i: usize = 0;
    while i < v.len()
        invariant
            i <= v@.len(),
            out@.len() == i,
            forall|j: int| 0 <= j < i ==> (#[trigger] out@[j]).0@ == v@[j].0@ && out@[j].1@ == v@[j].1@,
        decreases v@.len() - i,
    {
        out.push((v[i].0.clone(), v[i].1.dup()));
        i += 1;
    }
    assert(fields_view(out@) =~= fields_view(v@));
    out
}

/// A copy of a list.
pub fn dup_arms(v: &Vec<(Vec<Pattern>, Option<Expr>, Expr)>) -> (r: Vec<(Vec<Pattern>, Option<Expr>, Expr)>)
    ensures
        arms_view(r@) == arms_view(v@),
    decreases v,
{
    let mut out: Vec<(Vec<Pattern>, Option<Expr>, Expr)> = Vec::new();
    let mut i: usize = 0;
    while i < v.len()
        invariant
            i <= v@.len(),
            out@.len() == i,
            forall|j: int| 0 <= j < i ==> arm_view(#[trigger] out@[j]) == arm_view(v@[j]),
        decreases v@.len() - i,
    {
        out.push((dup_patterns(&v[i].0), dup_opt_expr(&v[i].1), v[i].2.dup()));
        i += 1;
    }
    assert(arms_view(out@) =~= arms_view(v@));
    out
}

/// A copy of a list.
pub fn dup_stmts(v: &Vec<Stmt>) -> (r: Vec<Stmt>)
    ensures
        stmts_view(r@) == stmts_view(v@),
    decreases v,
{
    let mut out: Vec<Stmt> = Vec::new();
    let mut i: usize = 0;
    while i < v.len()
        invariant
            i <= v@.len(),
            out@.len() == i,
            forall|j: int| 0 <= j < i ==> (#[trigger] out@[j])@ == v@[j]@,
        decreases v@.len() - i,
    {
        out.push(v[i].dup());
        i += 1;
    }
    assert(stmts_view(out@) =~= stmts_view(v@));
    out
}

fn dup_opt_expr(e: &Option<Expr>) -> (r: Option<Expr>)
    ensures
        opt_expr_view(r) == opt_expr_view(*e),
    decreases e,
{
    match e {
        Some(x) => Some(x.dup()),
        None => None,
    }
}

impl Type {
    /// A copy of the node.
    pub fn dup(&self) -> (r: Self)
        ensures
            r@ == self@,
        decreases self,
    {
        match self {
            Type::Inferred => Type::Inferred,
            Type::Int => Type::Int,
            Type::Float => Type::Float,
            Type::Bool => Type::Bool,
            Type::String => Type::String,
            Type::Unit => Type::Unit,
            Type::Range => Type::Range,
            Type::Named(n, args) => Type::Named(n.clone(), dup_types(args)),
            Type::Fn(args, ret) => Type::Fn(dup_types(args), Box::new(ret.dup())),
            Type::Array(el) => Type::Array(Box::new(el.dup())),
        }
    }
}

impl TraitMethod {
    /// A copy of the node.
    pub fn dup(&self) -> (r: Self)
        ensures
            r@ == self@,
    {
        TraitMethod {
            name: self.name.clone(),
            params: dup_params(&self.params),
            ret: self.ret.dup(),
        }
    }
}

impl Pattern {
    /// A copy of the node.
    pub fn dup(&self) -> (r: Self)
        ensures
            r@ == self@,
        decreases self,
    {
        match self {
            Pattern::Literal(e) => Pattern::Literal(e.dup()),
            Pattern::Variable(n) => Pattern::Variable(n.clone()),
            Pattern::Wildcard => Pattern::Wildcard,
            Pattern::EnumVariant { name, inner } => Pattern::EnumVariant {
                name: name.clone(),
                inner: dup_patterns(inner),
            },
        }
    }
}

impl Expr {
    /// A copy of the node.
    pub fn dup(&self) -> (r: Self)
        ensures
            r@ == self@,
        decreases self,
    {
        Expr { kind: Box::new(self.kind.dup()), span: self.span }
    }
}

impl ExprKind {
    /// A copy of the node.
    pub fn dup(&self) -> (r: Self)
        ensures
            r@ == self@,
        decreases self,
    {
        match self {
            ExprKind::Int(n) => ExprKind::Int(*n),
            ExprKind::Float(t) => ExprKind::Float(t.clone()),
            ExprKind::Bool(b) => ExprKind::Bool(*b),
            ExprKind::Str(t) => ExprKind::Str(t.clone()),
            ExprKind::Ident(n) => ExprKind::Ident(n.clone()),
            ExprKind::Binary(l, op, r) => ExprKind::Binary(
                Box::new(l.dup()),
                *op,
                Box::new(r.dup()),
            ),
            ExprKind::Unary(op, e) => ExprKind::Unary(*op, Box::new(e.dup())),
            ExprKind::Range(a, b) => ExprKind::Range(Box::new(a.dup()), Box::new(b.dup())),
            ExprKind::ArrayLit(es) => ExprKind::ArrayLit(dup_exprs(es)),
            ExprKind::Index(a, i) => ExprKind::Index(Box::new(a.dup()), Box::new(i.dup())),
            ExprKind::Call(f, args) => ExprKind::Call(Box::new(f.dup()), dup_exprs(args)),
            ExprKind::FieldAccess(e, n) => ExprKind::FieldAccess(Box::new(e.dup()), n.clone()),
            ExprKind::MethodCall(e, n, args) => ExprKind::MethodCall(
                Box::new(e.dup()),
                n.clone(),
                dup_exprs(args),
            ),
            ExprKind::StructLit { name, fields } => ExprKind::StructLit {
                name: name.clone(),
                fields: dup_fields(fields),
            },
            ExprKind::Match { scrutinee, arms } => ExprKind::Match {
                scrutinee: Box::new(scrutinee.dup()),
                arms: dup_arms(arms),
            },
            ExprKind::If { cond, then_body, else_body } => ExprKind::If {
                cond: Box::new(cond.dup()),
                then_body: Box::new(then_body.dup()),
                else_body: match else_body {
                    Some(e) => Some(Box::new(e.dup())),
                    None => None,
                },
            },
            ExprKind::While { cond, body } => ExprKind::While {
                cond: Box::new(cond.dup()),
                body: dup_stmts(body),
            },
            ExprKind::For { var, iter, body } => ExprKind::For {
                var: var.clone(),
                iter: Box::new(iter.dup()),
                body: dup_stmts(body),
            },
        }
    }
}

impl Stmt {
    /// A copy of the node.
    pub fn dup(&self) -> (r: Self)
        ensures
            r@ == self@,
        decreases self,
    {
        Stmt { kind: self.kind.dup(), span: self.span }
    }
}

impl StmtKind {
    /// A copy of the node.
    pub fn dup(&self) -> (r: Self)
        ensures
            r@ == self@,
        decreases self,
    {
        match self {
            StmtKind::Let { name, ty, value } => StmtKind::Let {
                name: name.clone(),
                ty: ty.dup(),
                value: value.dup(),
            },
            StmtKind::Fn { name, generics, params, ret, body } => StmtKind::Fn {
                name: name.clone(),
                generics: dup_texts(generics),
                params: dup_params(params),
                ret: ret.dup(),
                body: dup_stmts(body),
            },
            StmtKind::Struct { name, generics, fields } => StmtKind::Struct {
                name: name.clone(),
                generics: dup_texts(generics),
                fields: dup_params(fields),
            },
            StmtKind::Enum { name, variants } => StmtKind::Enum {
                name: name.clone(),
                variants: dup_cases(variants),
            },
            StmtKind::Trait { name, methods } => StmtKind::Trait {
                name: name.clone(),
                methods: dup_methods(methods),
            },
            StmtKind::Impl { trait_name, for_type, methods } => StmtKind::Impl {
                trait_name: trait_name.clone(),
                for_type: for_type.clone(),
                methods: dup_stmts(methods),
            },
            StmtKind::ExternFn { name, params, ret } => StmtKind::ExternFn {
                name: name.clone(),
                params: dup_params(params),
                ret: ret.dup(),
            },
            StmtKind::While { cond, body } => StmtKind::While {
                cond: cond.dup(),
                body: dup_stmts(body),
            },
            StmtKind::For { var, iter, body } => StmtKind::For {
                var: var.clone(),
                iter: iter.dup(),
                body: dup_stmts(body),
            },
            StmtKind::Break(e) => StmtKind::Break(dup_opt_expr(e)),
            StmtKind::Continue(e) => StmtKind::Continue(dup_opt_expr(e)),
            StmtKind::Assign { name, value } => StmtKind::Assign {
                name: name.clone(),
                value: value.dup(),
            },
            StmtKind::If { cond, then_body, else_body } => StmtKind::If {
                cond: cond.dup(),
                then_body: dup_stmts(then_body),
                else_body: match else_body {
                    Some(b) => Some(dup_stmts(b)),
                    None => None,
                },
            },
            StmtKind::Macro { name, params, body } => StmtKind::Macro {
                name: name.clone(),
                params: dup_texts(params),
                body: dup_stmts(body),
            },
            StmtKind::Expr(e) => StmtKind::Expr(e.dup()),
            StmtKind::Return(e) => StmtKind::Return(dup_opt_expr(e)),
            StmtKind::Import(p) => StmtKind::Import(p.clone()),
        }
    }
}

} // verus!
