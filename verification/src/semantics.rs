//! How programs run: a machine that takes one small step at a time. Whatever
//! needs the outside (output, the clock, floating-point arithmetic) is an
//! action that the machine hands to its host.

use crate::ast::{
    BinOp, ExprKindV, ExprV, PatternV, StmtKindV, StmtV, TypeV, UnaryOp,
};
use crate::builtins::builtin_signature;
use crate::diagnostic::{DiagnosticV, Span};
use crate::grammar::name_of;
use crate::primitives::{builtin_result, element_at, BuiltinV};
use crate::text::{join_text, nat_text};
use crate::typing::named_type;
use crate::value::{
    binop_result, chooses, equal_values, holds, unop_result, OpV, ValueV,
};
use crate::variants::{lookup_v, program_variants, LookupV, VariantV};
use vstd::prelude::*;

verus! {

/// What a loop walks, and where it stands.
pub enum WalkV {
    /// As long as a condition holds.
    Cond(ExprV),
    /// A variable over the integers from the first up to the second.
    Range(Seq<char>, int, int),
    /// A variable over values, from the given position on.
    Items(Seq<char>, Seq<ValueV>, int),
}

/// A loop that is running. As an expression it has a value.
pub struct LoopV {
    pub is_expr: bool,
    pub walk: WalkV,
    pub body: Seq<StmtV>,
    pub result: ValueV,
}

/// What to do with the values of some expressions once they are known.
pub enum TaskV {
    Bin(BinOp),
    Un(UnaryOp),
    Range,
    Array,
    Index,
    Builtin(Seq<char>),
    Variant(Seq<char>, Seq<char>),
    Struct(Seq<char>, Seq<Seq<char>>),
    Field(Seq<char>),
    Method(Seq<char>, Seq<ExprV>),
    /// Run a body with parameters, and with `self` where there is a receiver.
    Invoke(Seq<Seq<char>>, Seq<StmtV>, Option<ValueV>),
    Sleep,
    IfExpr(ExprV, Option<ExprV>),
    MatchOn(Seq<(Seq<PatternV>, Option<ExprV>, ExprV)>),
    /// The guard of a pattern that has matched: the arms, which arm, the next
    /// of its patterns, and the value that is matched.
    Guard(Seq<(Seq<PatternV>, Option<ExprV>, ExprV)>, int, int, ValueV),
    WhileTest(LoopV),
    ForStart(bool, Seq<char>, Seq<StmtV>),
    Let(Seq<char>),
    Assign(Seq<char>),
    Discard,
    Return,
    Break,
    IfStmt(Seq<StmtV>, Option<Seq<StmtV>>),
}

/// What a list of statements belongs to.
pub enum BlockV {
    /// The program itself.
    Top,
    /// A call; the scopes of the caller.
    Call(Seq<Map<Seq<char>, ValueV>>),
    If,
    Loop(LoopV),
}

/// Something that waits for what is being worked on.
pub enum FrameV {
    /// Expressions that are evaluated from left to right.
    Collect { task: TaskV, exprs: Seq<ExprV>, vals: Seq<ValueV> },
    /// The body of a match arm, in whose scope it runs.
    Arm,
    /// Statements, from `next` on, and the statement that they are part of.
    Block { kind: BlockV, stmts: Seq<StmtV>, next: int, span: Span },
    /// The end of the program.
    End,
}

/// What the machine is about to do.
pub enum CtlV {
    Eval(ExprV),
    Exec(StmtV),
    /// An expression has a value.
    Value(ValueV),
    /// All values of the uppermost frame are known.
    Ready,
    /// A statement is done, or a block starts.
    Next,
    /// The host owes an answer.
    Wait,
    Stopped,
}

/// What the host has to do after a step.
pub enum ActionV {
    Continue,
    Print(Seq<char>),
    Fail(DiagnosticV),
    Done,
    /// Answer with the number that a literal denotes.
    FloatLit(Seq<char>),
    /// Answer with the negated number.
    FloatNeg(Seq<char>),
    /// Answer with the number, or the truth value, that an operation gives.
    FloatOp(BinOp, Seq<char>, Seq<char>),
    /// Answer with the milliseconds since 1970.
    Clock,
    /// Wait for some milliseconds.
    Sleep(i64),
}

/// A running program.
pub struct MachineV {
    pub program: Seq<StmtV>,
    /// Top-level `let` bindings, visible everywhere.
    pub globals: Map<Seq<char>, ValueV>,
    /// The block scopes of the current call, so that a callee never sees its
    /// caller's locals.
    pub scopes: Seq<Map<Seq<char>, ValueV>>,
    /// The statement being run.
    pub span: Span,
    pub returned: Option<ValueV>,
    pub should_break: bool,
    pub should_continue: bool,
    pub break_value: Option<ValueV>,
    pub stack: Seq<FrameV>,
    pub ctl: CtlV,
}

/// A machine after a step, and what the host has to do.
pub type Stepped = (MachineV, ActionV);

// ---- names ----

/// The value of a name in the innermost scope that has it.
pub open spec fn find_value(scopes: Seq<Map<Seq<char>, ValueV>>, name: Seq<char>) -> Option<ValueV>
    decreases scopes.len(),
{
    if scopes.len() == 0 {
        None
    } else if scopes.last().contains_key(name) {
        Some(scopes.last()[name])
    } else {
        find_value(scopes.drop_last(), name)
    }
}

/// The scopes with a name's innermost binding replaced, where it has one.
pub open spec fn replace_value(
    scopes: Seq<Map<Seq<char>, ValueV>>,
    name: Seq<char>,
    v: ValueV,
) -> Option<Seq<Map<Seq<char>, ValueV>>>
    decreases scopes.len(),
{
    if scopes.len() == 0 {
        None
    } else if scopes.last().contains_key(name) {
        Some(scopes.drop_last().push(scopes.last().insert(name, v)))
    } else {
        match replace_value(scopes.drop_last(), name, v) {
            Some(rest) => Some(rest.push(scopes.last())),
            None => None,
        }
    }
}

/// Parameters bound to values, on top of what is there.
pub open spec fn bound(
    base: Map<Seq<char>, ValueV>,
    params: Seq<Seq<char>>,
    vals: Seq<ValueV>,
    n: int,
) -> Map<Seq<char>, ValueV>
    decreases n,
{
    if n <= 0 {
        base
    } else {
        bound(base, params, vals, n - 1).insert(params[n - 1], vals[n - 1])
    }
}

/// What a call's frame holds before its parameters: the receiver, where there
/// is one.
pub open spec fn receiver_frame(receiver: Option<ValueV>) -> Map<Seq<char>, ValueV> {
    match receiver {
        Some(obj) => Map::empty().insert("self"@, obj),
        None => Map::empty(),
    }
}

impl MachineV {
    pub open spec fn with(self, ctl: CtlV) -> MachineV {
        MachineV { ctl, ..self }
    }

    pub open spec fn push(self, frame: FrameV) -> MachineV {
        MachineV { stack: self.stack.push(frame), ..self }
    }

    pub open spec fn pop(self) -> MachineV {
        MachineV { stack: self.stack.drop_last(), ..self }
    }

    pub open spec fn push_scope(self) -> MachineV {
        MachineV { scopes: self.scopes.push(Map::empty()), ..self }
    }

    pub open spec fn pop_scope(self) -> MachineV {
        MachineV {
            scopes: if self.scopes.len() > 0 {
                self.scopes.drop_last()
            } else {
                self.scopes
            },
            ..self
        }
    }

    /// A new binding in the innermost scope. At top level there is none, so it
    /// becomes a global.
    pub open spec fn declare(self, name: Seq<char>, v: ValueV) -> MachineV {
        if self.scopes.len() > 0 {
            MachineV {
                scopes: self.scopes.drop_last().push(self.scopes.last().insert(name, v)),
                ..self
            }
        } else {
            MachineV { globals: self.globals.insert(name, v), ..self }
        }
    }

    /// Bindings one after the other.
    pub open spec fn declare_all(self, bs: Seq<(Seq<char>, ValueV)>) -> MachineV
        decreases bs.len(),
    {
        if bs.len() == 0 {
            self
        } else {
            self.declare_all(bs.drop_last()).declare(bs.last().0, bs.last().1)
        }
    }

    /// An existing binding updated wherever it lives; a new one where there is
    /// none.
    pub open spec fn assign(self, name: Seq<char>, v: ValueV) -> MachineV {
        match replace_value(self.scopes, name, v) {
            Some(scopes) => MachineV { scopes, ..self },
            None => if self.globals.contains_key(name) {
                MachineV { globals: self.globals.insert(name, v), ..self }
            } else {
                self.declare(name, v)
            },
        }
    }

    pub open spec fn lookup(self, name: Seq<char>) -> Option<ValueV> {
        match find_value(self.scopes, name) {
            Some(v) => Some(v),
            None => if self.globals.contains_key(name) {
                Some(self.globals[name])
            } else {
                None
            },
        }
    }

    /// The variants that the program can use.
    pub open spec fn variants(self) -> Seq<VariantV> {
        program_variants(self.program)
    }

    /// The program fails at the statement being run.
    pub open spec fn fail(self, message: Seq<char>) -> Stepped {
        (self.with(CtlV::Stopped), ActionV::Fail(DiagnosticV { message, span: self.span }))
    }

    pub open spec fn give(self, v: ValueV) -> Stepped {
        (self.with(CtlV::Value(v)), ActionV::Continue)
    }

    pub open spec fn next(self) -> Stepped {
        (self.with(CtlV::Next), ActionV::Continue)
    }

    pub open spec fn ask(self, action: ActionV) -> Stepped {
        (self.with(CtlV::Wait), action)
    }

    /// Evaluate expressions from left to right, then do something with their
    /// values.
    pub open spec fn begin(self, task: TaskV, exprs: Seq<ExprV>) -> Stepped {
        (
            self.push(FrameV::Collect { task, exprs, vals: Seq::empty() }).with(
                if exprs.len() == 0 {
                    CtlV::Ready
                } else {
                    CtlV::Eval(exprs[0])
                },
            ),
            ActionV::Continue,
        )
    }

    pub open spec fn run_block(self, kind: BlockV, stmts: Seq<StmtV>) -> Stepped {
        self.push(FrameV::Block { kind, stmts, next: 0, span: self.span }).next()
    }

    /// Run a body in a fresh frame: globals stay visible, the caller's locals
    /// do not.
    pub open spec fn call_frame(self, frame: Map<Seq<char>, ValueV>, body: Seq<StmtV>) -> Stepped {
        (MachineV { scopes: seq![frame], ..self }).run_block(BlockV::Call(self.scopes), body)
    }

    pub open spec fn of_op(self, o: OpV) -> Stepped {
        match o {
            OpV::Done(v) => self.give(v),
            OpV::Fail(m) => self.fail(m),
            OpV::FloatOp(op, a, b) => self.ask(ActionV::FloatOp(op, a, b)),
            OpV::FloatNeg(a) => self.ask(ActionV::FloatNeg(a)),
        }
    }

    pub open spec fn of_result(self, r: Result<ValueV, Seq<char>>) -> Stepped {
        match r {
            Ok(v) => self.give(v),
            Err(m) => self.fail(m),
        }
    }
}

// ---- declarations ----

/// The names of a list of parameters.
pub open spec fn param_names(params: Seq<(Seq<char>, TypeV)>) -> Seq<Seq<char>> {
    params.map_values(|p: (Seq<char>, TypeV)| p.0)
}

/// A function's parameters and body: those of its last declaration.
pub open spec fn find_fn(stmts: Seq<StmtV>, name: Seq<char>) -> Option<
    (Seq<Seq<char>>, Seq<StmtV>),
>
    decreases stmts.len(),
{
    if stmts.len() == 0 {
        None
    } else {
        match stmts.last().kind {
            StmtKindV::Fn { name: n, params, body, .. } => if n == name {
                Some((param_names(params), body))
            } else {
                find_fn(stmts.drop_last(), name)
            },
            _ => find_fn(stmts.drop_last(), name),
        }
    }
}

/// A macro's parameters and body: those of its last declaration.
pub open spec fn find_macro(stmts: Seq<StmtV>, name: Seq<char>) -> Option<
    (Seq<Seq<char>>, Seq<StmtV>),
>
    decreases stmts.len(),
{
    if stmts.len() == 0 {
        None
    } else {
        match stmts.last().kind {
            StmtKindV::Macro { name: n, params, body } => if n == name {
                Some((params, body))
            } else {
                find_macro(stmts.drop_last(), name)
            },
            _ => find_macro(stmts.drop_last(), name),
        }
    }
}

/// Whether a foreign function is declared.
pub open spec fn has_extern(stmts: Seq<StmtV>, name: Seq<char>) -> bool
    decreases stmts.len(),
{
    if stmts.len() == 0 {
        false
    } else {
        match stmts.last().kind {
            StmtKindV::ExternFn { name: n, .. } => n == name || has_extern(
                stmts.drop_last(),
                name,
            ),
            _ => has_extern(stmts.drop_last(), name),
        }
    }
}

/// A struct's fields: those of its last declaration.
pub open spec fn find_struct(stmts: Seq<StmtV>, name: Seq<char>) -> Option<
    Seq<(Seq<char>, TypeV)>,
>
    decreases stmts.len(),
{
    if stmts.len() == 0 {
        None
    } else {
        match stmts.last().kind {
            StmtKindV::Struct { name: n, fields, .. } => if n == name {
                Some(fields)
            } else {
                find_struct(stmts.drop_last(), name)
            },
            _ => find_struct(stmts.drop_last(), name),
        }
    }
}

/// The first function of a name in a list, from the `i`-th on.
pub open spec fn fn_in(methods: Seq<StmtV>, name: Seq<char>, i: int) -> Option<
    (Seq<Seq<char>>, Seq<StmtV>),
>
    decreases methods.len() - i,
{
    if i < 0 || i >= methods.len() {
        None
    } else {
        match methods[i].kind {
            StmtKindV::Fn { name: n, params, body, .. } => if n == name {
                Some((param_names(params), body))
            } else {
                fn_in(methods, name, i + 1)
            },
            _ => fn_in(methods, name, i + 1),
        }
    }
}

/// The method of a type: the first of that name in its `impl`s, from the
/// `i`-th statement on.
pub open spec fn find_method(
    stmts: Seq<StmtV>,
    for_type: Seq<char>,
    name: Seq<char>,
    i: int,
) -> Option<(Seq<Seq<char>>, Seq<StmtV>)>
    decreases stmts.len() - i,
{
    if i < 0 || i >= stmts.len() {
        None
    } else {
        match stmts[i].kind {
            StmtKindV::Impl { for_type: t, methods, .. } => if t == for_type && fn_in(
                methods,
                name,
                0,
            ) is Some {
                fn_in(methods, name, 0)
            } else {
                find_method(stmts, for_type, name, i + 1)
            },
            _ => find_method(stmts, for_type, name, i + 1),
        }
    }
}

/// A statement that only declares something.
pub open spec fn is_declaration(s: StmtV) -> bool {
    s.kind is Fn || s.kind is Struct || s.kind is Enum || s.kind is Trait || s.kind is Macro
        || s.kind is ExternFn || s.kind is Impl
}

// ---- struct values ----

/// A field's value in a list of named values, from the `i`-th on.
pub open spec fn slot(fields: Seq<(Seq<char>, ValueV)>, name: Seq<char>, i: int) -> Option<ValueV>
    decreases fields.len() - i,
{
    if i < 0 || i >= fields.len() {
        None
    } else if fields[i].0 == name {
        Some(fields[i].1)
    } else {
        slot(fields, name, i + 1)
    }
}

/// The fields that a struct literal gives, paired with their values. Where a
/// field is given twice, the later value counts.
pub open spec fn given(names: Seq<Seq<char>>, vals: Seq<ValueV>, n: int) -> Seq<
    (Seq<char>, ValueV),
>
    decreases n,
{
    if n <= 0 {
        Seq::empty()
    } else {
        put(given(names, vals, n - 1), names[n - 1], vals[n - 1], 0)
    }
}

/// A named value put in place of the one of that name, or at the end.
pub open spec fn put(
    fields: Seq<(Seq<char>, ValueV)>,
    name: Seq<char>,
    v: ValueV,
    i: int,
) -> Seq<(Seq<char>, ValueV)>
    decreases fields.len() - i,
{
    if i < 0 || i >= fields.len() {
        fields.push((name, v))
    } else if fields[i].0 == name {
        fields.update(i, (name, v))
    } else {
        put(fields, name, v, i + 1)
    }
}

/// The fields of a struct that have been given, in declaration order, from the
/// `i`-th on.
pub open spec fn in_order(
    def: Seq<(Seq<char>, TypeV)>,
    fields: Seq<(Seq<char>, ValueV)>,
    i: int,
    acc: Seq<(Seq<char>, ValueV)>,
) -> Seq<(Seq<char>, ValueV)>
    decreases def.len() - i,
{
    if i < 0 || i >= def.len() {
        acc
    } else {
        match slot(fields, def[i].0, 0) {
            Some(v) => in_order(def, fields, i + 1, acc.push((def[i].0, v))),
            None => in_order(def, fields, i + 1, acc),
        }
    }
}

/// The fields that a struct does not declare, from the `i`-th on.
pub open spec fn undeclared(
    def: Seq<(Seq<char>, TypeV)>,
    fields: Seq<(Seq<char>, ValueV)>,
    i: int,
    acc: Seq<(Seq<char>, ValueV)>,
) -> Seq<(Seq<char>, ValueV)>
    decreases fields.len() - i,
{
    if i < 0 || i >= fields.len() {
        acc
    } else if named_type(def, fields[i].0, 0) is Some {
        undeclared(def, fields, i + 1, acc)
    } else {
        undeclared(def, fields, i + 1, acc.push(fields[i]))
    }
}

/// The fields of a struct value: in declaration order, whatever the order of
/// the literal; fields that are not declared come last.
pub open spec fn arranged(
    def: Option<Seq<(Seq<char>, TypeV)>>,
    fields: Seq<(Seq<char>, ValueV)>,
) -> Seq<(Seq<char>, ValueV)> {
    match def {
        None => fields,
        Some(d) => undeclared(d, fields, 0, in_order(d, fields, 0, Seq::empty())),
    }
}

// ---- patterns ----

/// The value of a literal in a pattern.
pub open spec fn literal_value(e: ExprV) -> Option<ValueV> {
    match *e.kind {
        ExprKindV::Int(n) => Some(ValueV::Int(n)),
        ExprKindV::Bool(b) => Some(ValueV::Bool(b)),
        ExprKindV::Str(s) => Some(ValueV::Str(s)),
        _ => None,
    }
}

pub open spec fn ambiguous_text(name: Seq<char>, candidates: Seq<Seq<char>>) -> Seq<char> {
    "variant `"@ + name + "` is declared by "@ + join_text(candidates, " and "@)
        + "; rename one of them to disambiguate"@
}

/// Whether a value matches a pattern, and what the pattern's variables then
/// stand for; or why that cannot be told.
pub open spec fn matched(
    p: PatternV,
    v: ValueV,
    all: Seq<VariantV>,
    acc: Seq<(Seq<char>, ValueV)>,
) -> Result<Option<Seq<(Seq<char>, ValueV)>>, Seq<char>>
    decreases p, 0int,
{
    match p {
        PatternV::Literal(e) => match literal_value(e) {
            Some(w) => if equal_values(w, v) {
                Ok(Some(acc))
            } else {
                Ok(None)
            },
            None => Ok(None),
        },
        PatternV::Variable(name) => Ok(Some(acc.push((name, v)))),
        PatternV::Wildcard => Ok(Some(acc)),
        PatternV::EnumVariant { name, inner } => match lookup_v(all, name) {
            LookupV::Ambiguous(candidates) => Err(ambiguous_text(name, candidates)),
            LookupV::Unknown => Ok(None),
            LookupV::Unique(w) => match v {
                ValueV::EnumVariant { enum_name, variant, args } => if enum_name == w.enum_name
                    && variant == w.name && args.len() == inner.len() {
                    matched_from(inner, args, all, 0, acc)
                } else {
                    Ok(None)
                },
                _ => Ok(None),
            },
        },
    }
}

/// Whether values match patterns one by one, from the `i`-th on.
pub open spec fn matched_from(
    ps: Seq<PatternV>,
    vs: Seq<ValueV>,
    all: Seq<VariantV>,
    i: int,
    acc: Seq<(Seq<char>, ValueV)>,
) -> Result<Option<Seq<(Seq<char>, ValueV)>>, Seq<char>>
    decreases ps, ps.len() - i,
{
    if i < 0 || i >= ps.len() {
        Ok(Some(acc))
    } else {
        match matched(ps[i], vs[i], all, acc) {
            Err(m) => Err(m),
            Ok(None) => Ok(None),
            Ok(Some(acc1)) => matched_from(ps, vs, all, i + 1, acc1),
        }
    }
}

/// Try the arms of a match from pattern `j` of arm `i` on. A pattern that
/// matches binds its variables in a scope of its own; then comes the guard, or
/// the body.
pub open spec fn try_arms(
    m: MachineV,
    arms: Seq<(Seq<PatternV>, Option<ExprV>, ExprV)>,
    i: int,
    j: int,
    v: ValueV,
) -> Stepped
    decreases
            arms.len() - i,
            if 0 <= i < arms.len() {
                arms[i].0.len() - j
            } else {
                0
            },
{
    if i < 0 || i >= arms.len() {
        m.fail("no matching pattern"@)
    } else if j < 0 || j >= arms[i].0.len() {
        try_arms(m, arms, i + 1, 0, v)
    } else {
        match matched(arms[i].0[j], v, m.variants(), Seq::empty()) {
            Err(message) => m.push_scope().fail(message),
            Ok(None) => try_arms(m, arms, i, j + 1, v),
            Ok(Some(bs)) => {
                let m1 = m.push_scope().declare_all(bs);
                match arms[i].1 {
                    Some(g) => m1.begin(TaskV::Guard(arms, i, j + 1, v), seq![g]),
                    None => (m1.push(FrameV::Arm).with(CtlV::Eval(arms[i].2)), ActionV::Continue),
                }
            },
        }
    }
}

// ---- loops ----

/// The next turn of a loop, or its end.
pub open spec fn loop_next(m: MachineV, l: LoopV) -> Stepped {
    match l.walk {
        WalkV::Cond(c) => m.begin(TaskV::WhileTest(l), seq![c]),
        WalkV::Range(var, i, end) => if i < end {
            m.push_scope().declare(var, ValueV::Int(i as i64)).run_block(
                BlockV::Loop(LoopV { walk: WalkV::Range(var, i + 1, end), ..l }),
                l.body,
            )
        } else {
            loop_end(m, l)
        },
        WalkV::Items(var, vs, k) => if k < vs.len() {
            m.push_scope().declare(var, vs[k]).run_block(
                BlockV::Loop(LoopV { walk: WalkV::Items(var, vs, k + 1), ..l }),
                l.body,
            )
        } else {
            loop_end(m, l)
        },
    }
}

pub open spec fn loop_end(m: MachineV, l: LoopV) -> Stepped {
    if l.is_expr {
        m.give(l.result)
    } else {
        m.next()
    }
}

/// What a `for` loop does with the value that it is to walk.
pub open spec fn for_start(
    m: MachineV,
    is_expr: bool,
    var: Seq<char>,
    body: Seq<StmtV>,
    v: ValueV,
) -> Stepped {
    match v {
        ValueV::Range(a, b) => loop_next(
            m,
            LoopV {
                is_expr,
                walk: WalkV::Range(var, a as int, b as int),
                body,
                result: ValueV::Unit,
            },
        ),
        ValueV::Int(n) => loop_next(
            m,
            LoopV { is_expr, walk: WalkV::Range(var, 0, n as int), body, result: ValueV::Unit },
        ),
        ValueV::Array(vs) => loop_next(
            m,
            LoopV { is_expr, walk: WalkV::Items(var, vs, 0), body, result: ValueV::Unit },
        ),
        _ => m.fail("for loop requires range, array or int"@),
    }
}

/// After a statement of a loop's body: what a `return`, `continue` or `break`
/// in it does. `m` no longer has the body's frame.
pub open spec fn loop_signal(m: MachineV, l: LoopV) -> Option<Stepped> {
    let m1 = m.pop_scope();
    let turn = loop_next(MachineV { should_continue: false, ..m1 }, l);
    if l.is_expr {
        if m.should_break {
            Some(
                (MachineV { should_break: false, break_value: None, ..m1 }).give(
                    match m.break_value {
                        Some(v) => v,
                        None => l.result,
                    },
                ),
            )
        } else if m.should_continue {
            Some(turn)
        } else {
            match m.returned {
                Some(v) => Some((MachineV { returned: None, ..m1 }).give(v)),
                None => None,
            }
        }
    } else if m.returned is Some {
        Some(m1.next())
    } else if m.should_continue {
        Some(turn)
    } else if m.should_break {
        Some((MachineV { should_break: false, break_value: None, ..m1 }).next())
    } else {
        None
    }
}

// ---- blocks ----

/// After a statement of a block: what a `return`, `break` or `continue` in it
/// does to the block. `m` no longer has the block's frame.
pub open spec fn signal(m: MachineV, kind: BlockV) -> Option<Stepped> {
    match kind {
        BlockV::Top => None,
        BlockV::Call(saved) => match m.returned {
            Some(v) => Some((MachineV { returned: None, scopes: saved, ..m }).give(v)),
            None => None,
        },
        BlockV::If => if m.returned is Some || m.should_break || m.should_continue {
            Some(m.pop_scope().next())
        } else {
            None
        },
        BlockV::Loop(l) => loop_signal(m, l),
    }
}

/// The end of a block. `m` no longer has the block's frame.
pub open spec fn block_end(m: MachineV, kind: BlockV) -> Stepped {
    match kind {
        BlockV::Top => match find_fn(m.program, "main"@) {
            Some((_, body)) => m.push(FrameV::End).call_frame(Map::empty(), body),
            None => (m.with(CtlV::Stopped), ActionV::Done),
        },
        BlockV::Call(saved) => (MachineV { scopes: saved, ..m }).give(ValueV::Unit),
        BlockV::If => m.pop_scope().next(),
        BlockV::Loop(l) => loop_next(m.pop_scope(), l),
    }
}

/// The next statement of a block. Declarations at top level are passed over, and what
/// a statement there returns goes nowhere.
pub open spec fn block_next(before: MachineV, kind: BlockV, stmts: Seq<StmtV>, next: int) -> Stepped {
    let m = if kind is Top {
        MachineV { returned: None, ..before }
    } else {
        before
    };
    if 0 <= next < stmts.len() {
        let m1 = m.push(FrameV::Block { kind, stmts, next: next + 1, span: m.span });
        if kind is Top && is_declaration(stmts[next]) {
            m1.next()
        } else {
            (m1.with(CtlV::Exec(stmts[next])), ActionV::Continue)
        }
    } else {
        block_end(m, kind)
    }
}

/// A block goes on, after its first `next` statements.
pub open spec fn block_step(m: MachineV, kind: BlockV, stmts: Seq<StmtV>, next: int) -> Stepped {
    if next > 0 && signal(m, kind) is Some {
        signal(m, kind)->Some_0
    } else {
        block_next(m, kind, stmts, next)
    }
}

// ---- statements ----

/// The first step of a statement.
pub open spec fn exec_step(before: MachineV, s: StmtV) -> Stepped {
    let m = MachineV { span: s.span, ..before };
    match s.kind {
        StmtKindV::Let { name, value, .. } => m.begin(TaskV::Let(name), seq![value]),
        StmtKindV::Assign { name, value } => m.begin(TaskV::Assign(name), seq![value]),
        StmtKindV::Expr(e) => m.begin(TaskV::Discard, seq![e]),
        StmtKindV::Return(e) => match e {
            Some(x) => m.begin(TaskV::Return, seq![x]),
            None => (MachineV { returned: Some(ValueV::Unit), ..m }).next(),
        },
        StmtKindV::Break(e) => match e {
            Some(x) => m.begin(TaskV::Break, seq![x]),
            None => (MachineV { should_break: true, ..m }).next(),
        },
        StmtKindV::Continue(_) => (MachineV { should_continue: true, ..m }).next(),
        StmtKindV::While { cond, body } => loop_next(
            m,
            LoopV { is_expr: false, walk: WalkV::Cond(cond), body, result: ValueV::Unit },
        ),
        StmtKindV::For { var, iter, body } => m.begin(
            TaskV::ForStart(false, var, body),
            seq![iter],
        ),
        StmtKindV::If { cond, then_body, else_body } => m.begin(
            TaskV::IfStmt(then_body, else_body),
            seq![cond],
        ),
        _ => m.next(),
    }
}

// ---- expressions ----

pub open spec fn arity_text(name: Seq<char>, expected: nat, found: nat) -> Seq<char> {
    "`"@ + name + "` expects "@ + nat_text(expected) + " args, found "@ + nat_text(found)
}

/// The first `n` expressions, evaluated for a task.
pub open spec fn begin_call(
    m: MachineV,
    task: TaskV,
    name: Seq<char>,
    n: nat,
    args: Seq<ExprV>,
) -> Stepped {
    if args.len() < n {
        m.fail(arity_text(name, n, args.len()))
    } else {
        m.begin(task, args.take(n as int))
    }
}

/// A call of a foreign function: only the clock and sleeping are there.
pub open spec fn extern_call(m: MachineV, name: Seq<char>, args: Seq<ExprV>) -> Stepped {
    if name == "clock"@ {
        m.ask(ActionV::Clock)
    } else if name == "sleep_ms"@ {
        begin_call(m, TaskV::Sleep, name, 1, args)
    } else {
        m.fail("extern fn `"@ + name + "` not yet implemented in interpreter"@)
    }
}

/// What a call's name refers to is looked up in this order: builtins,
/// variants, macros, foreign functions, functions.
pub open spec fn call_step(m: MachineV, name: Seq<char>, args: Seq<ExprV>) -> Stepped {
    if builtin_signature(name) is Some {
        begin_call(m, TaskV::Builtin(name), name, (builtin_signature(name)->Some_0).0, args)
    } else {
        match lookup_v(m.variants(), name) {
            LookupV::Ambiguous(candidates) => m.fail(ambiguous_text(name, candidates)),
            LookupV::Unique(v) => m.begin(TaskV::Variant(v.enum_name, v.name), args),
            LookupV::Unknown => declared_call(m, name, args),
        }
    }
}

/// A call of a macro, a foreign function or a function.
pub open spec fn declared_call(m: MachineV, name: Seq<char>, args: Seq<ExprV>) -> Stepped {
    match find_macro(m.program, name) {
        Some((params, body)) => begin_call(
            m,
            TaskV::Invoke(params, body, None),
            name,
            params.len(),
            args,
        ),
        None => if has_extern(m.program, name) {
            extern_call(m, name, args)
        } else {
            match find_fn(m.program, name) {
                Some((params, body)) => begin_call(
                    m,
                    TaskV::Invoke(params, body, None),
                    name,
                    params.len(),
                    args,
                ),
                None => m.fail("undefined function: "@ + name),
            }
        },
    }
}

/// The value of a name: a variant without payload, or a variable.
pub open spec fn name_step(m: MachineV, name: Seq<char>) -> Stepped {
    match lookup_v(m.variants(), name) {
        LookupV::Ambiguous(candidates) => m.fail(ambiguous_text(name, candidates)),
        LookupV::Unique(v) => m.give(
            ValueV::EnumVariant { enum_name: v.enum_name, variant: v.name, args: Seq::empty() },
        ),
        LookupV::Unknown => match m.lookup(name) {
            Some(v) => m.give(v),
            None => m.fail("undefined variable: "@ + name),
        },
    }
}

/// The names that a struct literal gives.
pub open spec fn field_names(fields: Seq<(Seq<char>, ExprV)>) -> Seq<Seq<char>> {
    fields.map_values(|f: (Seq<char>, ExprV)| f.0)
}

/// The expressions that a struct literal gives.
pub open spec fn field_exprs(fields: Seq<(Seq<char>, ExprV)>) -> Seq<ExprV> {
    fields.map_values(|f: (Seq<char>, ExprV)| f.1)
}

pub open spec fn unboxed(e: Option<Box<ExprV>>) -> Option<ExprV> {
    match e {
        Some(x) => Some(*x),
        None => None,
    }
}

/// The first step of an expression.
pub open spec fn eval_step(m: MachineV, e: ExprV) -> Stepped {
    match *e.kind {
        ExprKindV::Int(n) => m.give(ValueV::Int(n)),
        ExprKindV::Float(t) => m.ask(ActionV::FloatLit(t)),
        ExprKindV::Bool(b) => m.give(ValueV::Bool(b)),
        ExprKindV::Str(s) => m.give(ValueV::Str(s)),
        ExprKindV::Ident(name) => name_step(m, name),
        ExprKindV::Binary(l, op, r) => m.begin(TaskV::Bin(op), seq![*l, *r]),
        ExprKindV::Unary(op, x) => m.begin(TaskV::Un(op), seq![*x]),
        ExprKindV::Range(a, b) => m.begin(TaskV::Range, seq![*a, *b]),
        ExprKindV::ArrayLit(es) => m.begin(TaskV::Array, es),
        ExprKindV::Index(a, i) => m.begin(TaskV::Index, seq![*a, *i]),
        ExprKindV::Call(callee, args) => match name_of(*callee) {
            Some(name) => call_step(m, name, args),
            None => m.fail("cannot call non-function"@),
        },
        ExprKindV::FieldAccess(obj, field) => m.begin(TaskV::Field(field), seq![*obj]),
        ExprKindV::MethodCall(obj, method, args) => m.begin(
            TaskV::Method(method, args),
            seq![*obj],
        ),
        ExprKindV::StructLit { name, fields } => m.begin(
            TaskV::Struct(name, field_names(fields)),
            field_exprs(fields),
        ),
        ExprKindV::Match { scrutinee, arms } => m.begin(TaskV::MatchOn(arms), seq![*scrutinee]),
        ExprKindV::If { cond, then_body, else_body } => m.begin(
            TaskV::IfExpr(*then_body, unboxed(else_body)),
            seq![*cond],
        ),
        ExprKindV::While { cond, body } => loop_next(
            m,
            LoopV { is_expr: true, walk: WalkV::Cond(*cond), body, result: ValueV::Unit },
        ),
        ExprKindV::For { var, iter, body } => m.begin(
            TaskV::ForStart(true, var, body),
            seq![*iter],
        ),
    }
}

/// What `unwrap` gives.
pub open spec fn unwrapped(enum_name: Seq<char>, variant: Seq<char>, args: Seq<ValueV>) -> Result<
    ValueV,
    Seq<char>,
> {
    let full = if enum_name == "Option"@ {
        variant == "Some"@
    } else {
        variant == "Ok"@
    };
    if full {
        if args.len() > 0 {
            Ok(args[0])
        } else {
            Err("unwrap() found no payload"@)
        }
    } else if enum_name == "Option"@ {
        Err("unwrap() called on None"@)
    } else if variant == "Err"@ {
        Err("unwrap() called on Err"@)
    } else {
        Err("unknown Result variant: "@ + variant)
    }
}

/// The builtin methods of enum values.
pub open spec fn builtin_call(obj: ValueV, method: Seq<char>) -> Option<
    Result<ValueV, Seq<char>>,
> {
    match obj {
        ValueV::EnumVariant { enum_name, variant, args } => if method == "unwrap"@ && (enum_name
            == "Option"@ || enum_name == "Result"@) {
            Some(unwrapped(enum_name, variant, args))
        } else if method == "is_some"@ {
            Some(Ok(ValueV::Bool(variant == "Some"@)))
        } else if method == "is_none"@ {
            Some(Ok(ValueV::Bool(variant == "None"@)))
        } else if method == "is_ok"@ {
            Some(Ok(ValueV::Bool(variant == "Ok"@)))
        } else if method == "is_err"@ {
            Some(Ok(ValueV::Bool(variant == "Err"@)))
        } else {
            None
        },
        _ => None,
    }
}

/// The type whose methods a value has.
pub open spec fn method_owner(obj: ValueV) -> Option<Seq<char>> {
    match obj {
        ValueV::Struct { name, .. } => Some(name),
        ValueV::EnumVariant { enum_name, .. } => Some(enum_name),
        _ => None,
    }
}

/// A call of a declared method: all arguments are evaluated, and as many as
/// the method has parameters are used.
pub open spec fn invoke_method(
    m: MachineV,
    obj: ValueV,
    method: Seq<char>,
    params: Seq<Seq<char>>,
    body: Seq<StmtV>,
    args: Seq<ExprV>,
) -> Stepped {
    let takes_self = params.len() > 0 && params[0] == "self"@;
    let rest = if takes_self {
        params.skip(1)
    } else {
        params
    };
    let receiver = if takes_self {
        Some(obj)
    } else {
        None
    };
    if args.len() < rest.len() {
        m.fail(arity_text(method, rest.len(), args.len()))
    } else {
        m.begin(TaskV::Invoke(rest, body, receiver), args)
    }
}

/// A method call on a value.
pub open spec fn method_step(
    m: MachineV,
    obj: ValueV,
    method: Seq<char>,
    args: Seq<ExprV>,
) -> Stepped {
    match builtin_call(obj, method) {
        Some(r) => m.of_result(r),
        None => match method_owner(obj) {
            None => m.fail("no methods on this value"@),
            Some(owner) => match find_method(m.program, owner, method, 0) {
                Some((params, body)) => invoke_method(m, obj, method, params, body, args),
                None => m.fail("method `"@ + method + "` not found for `"@ + owner + "`"@),
            },
        },
    }
}

/// The value of a field.
pub open spec fn field_result(v: ValueV, field: Seq<char>) -> Result<ValueV, Seq<char>> {
    match v {
        ValueV::Struct { fields, .. } => match slot(fields, field, 0) {
            Some(x) => Ok(x),
            None => Err("field `"@ + field + "` not found"@),
        },
        _ => Err("cannot access field on non-struct"@),
    }
}

/// What a task does once the values are known.
pub open spec fn apply(m: MachineV, task: TaskV, vals: Seq<ValueV>) -> Stepped {
    match task {
        TaskV::Bin(op) => m.of_op(binop_result(vals[0], op, vals[1])),
        TaskV::Un(op) => m.of_op(unop_result(op, vals[0])),
        TaskV::Range => match (vals[0], vals[1]) {
            (ValueV::Int(a), ValueV::Int(b)) => m.give(ValueV::Range(a, b)),
            _ => m.fail("range requires two ints"@),
        },
        TaskV::Array => m.give(ValueV::Array(vals)),
        TaskV::Index => match (vals[0], vals[1]) {
            (ValueV::Array(a), ValueV::Int(i)) => m.of_result(element_at(a, i as int)),
            _ => m.fail("array indexing requires array and int"@),
        },
        TaskV::Builtin(name) => if builtin_signature(name) is None {
            m.fail("undefined function: "@ + name)
        } else {
            match builtin_result(name, vals) {
                BuiltinV::Done(v) => m.give(v),
                BuiltinV::Fail(message) => m.fail(message),
                BuiltinV::Print(line) => (
                    m.with(CtlV::Value(ValueV::Unit)),
                    ActionV::Print(line),
                ),
            }
        },
        TaskV::Variant(enum_name, variant) => m.give(
            ValueV::EnumVariant { enum_name, variant, args: vals },
        ),
        TaskV::Struct(name, names) => m.give(
            ValueV::Struct {
                name,
                fields: arranged(
                    find_struct(m.program, name),
                    given(names, vals, names.len() as int),
                ),
            },
        ),
        TaskV::Field(field) => m.of_result(field_result(vals[0], field)),
        TaskV::Method(method, args) => method_step(m, vals[0], method, args),
        TaskV::Invoke(params, body, receiver) => m.call_frame(
            bound(receiver_frame(receiver), params, vals, params.len() as int),
            body,
        ),
        TaskV::Sleep => match vals[0] {
            ValueV::Int(ms) => m.ask(ActionV::Sleep(ms)),
            _ => m.give(ValueV::Unit),
        },
        TaskV::IfExpr(then_body, else_body) => if chooses(vals[0]) {
            (m.with(CtlV::Eval(then_body)), ActionV::Continue)
        } else {
            match else_body {
                Some(x) => (m.with(CtlV::Eval(x)), ActionV::Continue),
                None => m.give(ValueV::Unit),
            }
        },
        TaskV::MatchOn(arms) => try_arms(m, arms, 0, 0, vals[0]),
        TaskV::Guard(arms, i, j, v) => if holds(vals[0]) && 0 <= i < arms.len() {
            (m.push(FrameV::Arm).with(CtlV::Eval(arms[i].2)), ActionV::Continue)
        } else {
            try_arms(m.pop_scope(), arms, i, j, v)
        },
        TaskV::WhileTest(l) => if holds(vals[0]) {
            m.push_scope().run_block(BlockV::Loop(l), l.body)
        } else {
            loop_end(m, l)
        },
        TaskV::ForStart(is_expr, var, body) => for_start(m, is_expr, var, body, vals[0]),
        TaskV::Let(name) => m.declare(name, vals[0]).next(),
        TaskV::Assign(name) => m.assign(name, vals[0]).next(),
        TaskV::Discard => m.next(),
        TaskV::Return => (MachineV { returned: Some(vals[0]), ..m }).next(),
        TaskV::Break => (MachineV {
            break_value: Some(vals[0]),
            should_break: true,
            ..m
        }).next(),
        TaskV::IfStmt(then_body, else_body) => if chooses(vals[0]) {
            m.push_scope().run_block(BlockV::If, then_body)
        } else {
            match else_body {
                Some(b) => m.push_scope().run_block(BlockV::If, b),
                None => m.next(),
            }
        },
    }
}

/// How many values a task works on, at least.
pub open spec fn needs(task: TaskV) -> nat {
    match task {
        TaskV::Bin(_) | TaskV::Range | TaskV::Index => 2,
        TaskV::Array | TaskV::Variant(_, _) => 0,
        TaskV::Builtin(name) => match builtin_signature(name) {
            Some((arity, _)) => arity,
            None => 0,
        },
        TaskV::Struct(_, names) => names.len(),
        TaskV::Invoke(params, _, _) => params.len(),
        _ => 1,
    }
}

/// One step of a program.
pub open spec fn step(m: MachineV) -> Stepped {
    let m0 = m.with(CtlV::Stopped);
    match m.ctl {
        CtlV::Eval(e) => eval_step(m0, e),
        CtlV::Exec(s) => exec_step(m0, s),
        CtlV::Value(v) => value_step(m0, v),
        CtlV::Ready => ready_step(m0),
        CtlV::Next => next_step(m0),
        CtlV::Wait => (m, ActionV::Continue),
        CtlV::Stopped => (m0, ActionV::Done),
    }
}

/// The values of the uppermost frame are known.
pub open spec fn ready_step(m: MachineV) -> Stepped {
    if m.stack.len() == 0 {
        (m, ActionV::Done)
    } else {
        match m.stack.last() {
            FrameV::Collect { task, vals, .. } => if vals.len() >= needs(task) {
                apply(m.pop(), task, vals)
            } else {
                (m.pop(), ActionV::Done)
            },
            _ => (m.pop(), ActionV::Done),
        }
    }
}

/// A statement is done, or a block starts. What comes next is again part of the
/// statement that the block stands in.
pub open spec fn next_step(m: MachineV) -> Stepped {
    if m.stack.len() == 0 {
        (m, ActionV::Done)
    } else {
        match m.stack.last() {
            FrameV::Block { kind, stmts, next, span } => block_step(
                MachineV { span, ..m.pop() },
                kind,
                stmts,
                next,
            ),
            _ => (m.pop(), ActionV::Done),
        }
    }
}

/// A value goes to whatever waits for it.
pub open spec fn value_step(m: MachineV, v: ValueV) -> Stepped {
    if m.stack.len() == 0 {
        (m, ActionV::Done)
    } else {
        match m.stack.last() {
            FrameV::Collect { task, exprs, vals } => {
                let now = vals.push(v);
                (
                    m.pop().push(FrameV::Collect { task, exprs, vals: now }).with(
                        if now.len() < exprs.len() {
                            CtlV::Eval(exprs[now.len() as int])
                        } else {
                            CtlV::Ready
                        },
                    ),
                    ActionV::Continue,
                )
            },
            FrameV::Arm => m.pop().pop_scope().give(v),
            _ => (m.pop(), ActionV::Done),
        }
    }
}

/// The host's answer to an action.
pub open spec fn answered(m: MachineV, v: ValueV) -> MachineV {
    if m.ctl is Wait {
        m.with(CtlV::Value(v))
    } else {
        m
    }
}

/// A program before its first step.
pub open spec fn loaded(program: Seq<StmtV>) -> MachineV {
    MachineV {
        program,
        globals: Map::empty(),
        scopes: Seq::empty(),
        span: Span { line: 1, col: 1 },
        returned: None,
        should_break: false,
        should_continue: false,
        break_value: None,
        stack: seq![
            FrameV::Block {
                kind: BlockV::Top,
                stmts: program,
                next: 0,
                span: Span { line: 1, col: 1 },
            },
        ],
        ctl: CtlV::Next,
    }
}

/// At most `n` steps, up to the first after which the host has something to
/// do.
pub open spec fn steps(m: MachineV, n: nat) -> Stepped
    decreases n,
{
    if n == 0 || m.ctl is Wait {
        (m, ActionV::Continue)
    } else {
        match step(m) {
            (m1, ActionV::Continue) => steps(m1, (n - 1) as nat),
            (m1, action) => (m1, action),
        }
    }
}

} // verus!
