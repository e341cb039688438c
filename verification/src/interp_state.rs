//! The state of a running program.

use crate::ast::{
    arms_view, exprs_view, stmts_view, BinOp, Expr, ExprV, Pattern, Program, Stmt, UnaryOp,
};
use crate::diagnostic::{Diagnostic, Span};
use crate::names::NameMap;
use crate::semantics::{
    find_value, replace_value, ActionV, BlockV, CtlV, FrameV, LoopV, MachineV, Stepped, TaskV,
    WalkV,
};
use crate::value::{opt_value_view, values_view, Op, Value, ValueV};
use crate::variants::{lookup_v, program_variants, Lookup, VariantIndex};
use vstd::prelude::*;

verus! {

/// What a loop walks, and where it stands.
pub enum Walk<'a> {
    Cond(&'a Expr),
    Range(&'a String, i64, i64),
    Items(&'a String, Vec<Value>, usize),
}

/// A loop that is running.
pub struct Loop<'a> {
    pub is_expr: bool,
    pub walk: Walk<'a>,
    pub body: &'a Vec<Stmt>,
    pub result: Value,
}

/// What to do with the values of some expressions once they are known.
pub enum Task<'a> {
    Bin(BinOp),
    Un(UnaryOp),
    Range,
    Array,
    Index,
    Builtin(&'a String),
    Variant(String, String),
    Struct(&'a String, Vec<&'a String>),
    Field(&'a String),
    Method(&'a String, &'a Vec<Expr>),
    Invoke(Vec<&'a String>, &'a Vec<Stmt>, Option<Value>),
    Sleep,
    IfExpr(&'a Expr, Option<&'a Expr>),
    MatchOn(&'a Vec<(Vec<Pattern>, Option<Expr>, Expr)>),
    Guard(&'a Vec<(Vec<Pattern>, Option<Expr>, Expr)>, usize, usize, Value),
    WhileTest(Loop<'a>),
    ForStart(bool, &'a String, &'a Vec<Stmt>),
    Let(&'a String),
    Assign(&'a String),
    Discard,
    Return,
    Break,
    IfStmt(&'a Vec<Stmt>, Option<&'a Vec<Stmt>>),
}

/// What a list of statements belongs to.
pub enum BlockKind<'a> {
    Top,
    Call(Vec<NameMap<Value>>),
    If,
    Loop(Loop<'a>),
}

/// Something that waits for what is being worked on.
pub enum Frame<'a> {
    Collect { task: Task<'a>, exprs: Vec<&'a Expr>, vals: Vec<Value> },
    Arm,
    Block { kind: BlockKind<'a>, stmts: &'a Vec<Stmt>, next: usize, span: Span },
    End,
}

/// What the machine is about to do.
pub enum Ctl<'a> {
    Eval(&'a Expr),
    Exec(&'a Stmt),
    Value(Value),
    Ready,
    Next,
    Wait,
    Stopped,
}

/// What the host has to do after a step.
#[derive(Debug)]
pub enum Action {
    Continue,
    /// A line goes to the output.
    Print(String),
    /// The program has failed.
    Fail(Diagnostic),
    /// The program has ended.
    Done,
    /// Answer with the number that a literal denotes.
    FloatLit(String),
    /// Answer with the negated number.
    FloatNeg(String),
    /// Answer with the number, or the truth value, that an operation gives.
    FloatOp(BinOp, String, String),
    /// Answer with the milliseconds since 1970.
    Clock,
    /// Wait for some milliseconds, then answer with unit.
    Sleep(i64),
}

/// The models of a list of expressions that are referred to.
pub open spec fn refs_view(s: Seq<&Expr>) -> Seq<ExprV> {
    s.map_values(|e: &Expr| e@)
}

/// The texts that a list refers to.
pub open spec fn text_refs(s: Seq<&String>) -> Seq<Seq<char>> {
    s.map_values(|t: &String| t@)
}

/// The models of a list of scopes.
pub open spec fn scopes_view(s: Seq<NameMap<Value>>) -> Seq<Map<Seq<char>, ValueV>> {
    s.map_values(|m: NameMap<Value>| m@)
}

/// The models of a list of frames.
pub open spec fn frames_view(s: Seq<Frame>) -> Seq<FrameV> {
    s.map_values(|f: Frame| f@)
}

impl<'a> Walk<'a> {
    pub open spec fn view(&self) -> WalkV {
        match self {
            Walk::Cond(e) => WalkV::Cond(e@),
            Walk::Range(var, i, end) => WalkV::Range(var@, *i as int, *end as int),
            Walk::Items(var, vs, k) => WalkV::Items(var@, values_view(vs@), *k as int),
        }
    }
}

impl<'a> Loop<'a> {
    pub open spec fn view(&self) -> LoopV {
        LoopV {
            is_expr: self.is_expr,
            walk: self.walk@,
            body: stmts_view(self.body@),
            result: self.result@,
        }
    }
}

impl<'a> Task<'a> {
    pub open spec fn view(&self) -> TaskV {
        match self {
            Task::Bin(op) => TaskV::Bin(*op),
            Task::Un(op) => TaskV::Un(*op),
            Task::Range => TaskV::Range,
            Task::Array => TaskV::Array,
            Task::Index => TaskV::Index,
            Task::Builtin(name) => TaskV::Builtin(name@),
            Task::Variant(e, v) => TaskV::Variant(e@, v@),
            Task::Struct(name, names) => TaskV::Struct(name@, text_refs(names@)),
            Task::Field(name) => TaskV::Field(name@),
            Task::Method(name, args) => TaskV::Method(name@, exprs_view(args@)),
            Task::Invoke(params, body, receiver) => TaskV::Invoke(
                text_refs(params@),
                stmts_view(body@),
                opt_value_view(*receiver),
            ),
            Task::Sleep => TaskV::Sleep,
            Task::IfExpr(t, e) => TaskV::IfExpr(
                t@,
                match e {
                    Some(x) => Some(x@),
                    None => None,
                },
            ),
            Task::MatchOn(arms) => TaskV::MatchOn(arms_view(arms@)),
            Task::Guard(arms, i, j, v) => TaskV::Guard(
                arms_view(arms@),
                *i as int,
                *j as int,
                v@,
            ),
            Task::WhileTest(l) => TaskV::WhileTest(l@),
            Task::ForStart(is_expr, var, body) => TaskV::ForStart(
                *is_expr,
                var@,
                stmts_view(body@),
            ),
            Task::Let(name) => TaskV::Let(name@),
            Task::Assign(name) => TaskV::Assign(name@),
            Task::Discard => TaskV::Discard,
            Task::Return => TaskV::Return,
            Task::Break => TaskV::Break,
            Task::IfStmt(t, e) => TaskV::IfStmt(
                stmts_view(t@),
                match e {
                    Some(b) => Some(stmts_view(b@)),
                    None => None,
                },
            ),
        }
    }
}

impl<'a> BlockKind<'a> {
    pub open spec fn view(&self) -> BlockV {
        match self {
            BlockKind::Top => BlockV::Top,
            BlockKind::Call(saved) => BlockV::Call(scopes_view(saved@)),
            BlockKind::If => BlockV::If,
            BlockKind::Loop(l) => BlockV::Loop(l@),
        }
    }
}

impl<'a> Frame<'a> {
    pub open spec fn view(&self) -> FrameV {
        match self {
            Frame::Collect { task, exprs, vals } => FrameV::Collect {
                task: task@,
                exprs: refs_view(exprs@),
                vals: values_view(vals@),
            },
            Frame::Arm => FrameV::Arm,
            Frame::Block { kind, stmts, next, span } => FrameV::Block {
                span: *span,
                kind: kind@,
                stmts: stmts_view(stmts@),
                next: *next as int,
            },
            Frame::End => FrameV::End,
        }
    }
}

impl<'a> Ctl<'a> {
    pub open spec fn view(&self) -> CtlV {
        match self {
            Ctl::Eval(e) => CtlV::Eval(e@),
            Ctl::Exec(s) => CtlV::Exec(s@),
            Ctl::Value(v) => CtlV::Value(v@),
            Ctl::Ready => CtlV::Ready,
            Ctl::Next => CtlV::Next,
            Ctl::Wait => CtlV::Wait,
            Ctl::Stopped => CtlV::Stopped,
        }
    }
}

impl Action {
    pub open spec fn view(&self) -> ActionV {
        match self {
            Action::Continue => ActionV::Continue,
            Action::Print(t) => ActionV::Print(t@),
            Action::Fail(d) => ActionV::Fail(d@),
            Action::Done => ActionV::Done,
            Action::FloatLit(t) => ActionV::FloatLit(t@),
            Action::FloatNeg(t) => ActionV::FloatNeg(t@),
            Action::FloatOp(op, a, b) => ActionV::FloatOp(*op, a@, b@),
            Action::Clock => ActionV::Clock,
            Action::Sleep(ms) => ActionV::Sleep(*ms),
        }
    }
}

/// A machine and an action are those that the semantics give.
pub open spec fn took(m: MachineV, r: Action, want: Stepped) -> bool {
    m == want.0 && r@ == want.1
}

/// Runs a program step by step.
pub struct Interpreter<'a> {
    program: &'a Program,
    variants: VariantIndex,
    globals: NameMap<Value>,
    scopes: Vec<NameMap<Value>>,
    span: Span,
    returned: Option<Value>,
    should_break: bool,
    should_continue: bool,
    break_value: Option<Value>,
    stack: Vec<Frame<'a>>,
    ctl: Ctl<'a>,
}

proof fn lemma_frames_push<'a>(s: Seq<Frame<'a>>, f: Frame<'a>)
    ensures
        frames_view(s.push(f)) == frames_view(s).push(f@),
{
    assert(frames_view(s.push(f)) =~= frames_view(s).push(f@));
}

proof fn lemma_find_value(scopes: Seq<Map<Seq<char>, ValueV>>, name: Seq<char>, k: int)
    requires
        0 <= k < scopes.len(),
        scopes[k].contains_key(name),
        forall|j: int| k < j < scopes.len() ==> !(#[trigger] scopes[j]).contains_key(name),
    ensures
        find_value(scopes, name) == Some(scopes[k][name]),
    decreases scopes.len(),
{
    if k < scopes.len() - 1 {
        lemma_find_value(scopes.drop_last(), name, k);
    }
}

proof fn lemma_find_nothing(scopes: Seq<Map<Seq<char>, ValueV>>, name: Seq<char>, v: ValueV)
    requires
        forall|j: int| 0 <= j < scopes.len() ==> !(#[trigger] scopes[j]).contains_key(name),
    ensures
        find_value(scopes, name) is None,
        replace_value(scopes, name, v) is None,
    decreases scopes.len(),
{
    if scopes.len() > 0 {
        lemma_find_nothing(scopes.drop_last(), name, v);
    }
}

proof fn lemma_replace_value(
    scopes: Seq<Map<Seq<char>, ValueV>>,
    name: Seq<char>,
    v: ValueV,
    k: int,
)
    requires
        0 <= k < scopes.len(),
        scopes[k].contains_key(name),
        forall|j: int| k < j < scopes.len() ==> !(#[trigger] scopes[j]).contains_key(name),
    ensures
        replace_value(scopes, name, v) == Some(scopes.update(k, scopes[k].insert(name, v))),
    decreases scopes.len(),
{
    let want = scopes.update(k, scopes[k].insert(name, v));
    if k == scopes.len() - 1 {
        assert(scopes.drop_last().push(scopes.last().insert(name, v)) =~= want);
    } else {
        lemma_replace_value(scopes.drop_last(), name, v, k);
        assert(scopes.drop_last().update(k, scopes[k].insert(name, v)).push(scopes.last())
            =~= want);
    }
}

impl<'a> Interpreter<'a> {
    pub closed spec fn view(&self) -> MachineV {
        MachineV {
            program: stmts_view(self.program.stmts@),
            globals: self.globals@,
            scopes: scopes_view(self.scopes@),
            span: self.span,
            returned: opt_value_view(self.returned),
            should_break: self.should_break,
            should_continue: self.should_continue,
            break_value: opt_value_view(self.break_value),
            stack: frames_view(self.stack@),
            ctl: self.ctl@,
        }
    }

    /// The variants are those of the program.
    pub closed spec fn wf(&self) -> bool {
        self.variants@ == program_variants(stmts_view(self.program.stmts@))
    }

    /// A program before its first step.
    pub fn new(program: &'a Program) -> (r: Self)
        ensures
            r.wf(),
            r@ == crate::semantics::loaded(program@),
    {
        let mut stack: Vec<Frame<'a>> = Vec::new();
        let ghost none = stack@;
        let top = Frame::Block {
            kind: BlockKind::Top,
            stmts: &program.stmts,
            next: 0,
            span: Span::new(1, 1),
        };
        stack.push(top);
        let scopes: Vec<NameMap<Value>> = Vec::new();
        proof {
            assert(scopes_view(scopes@) =~= Seq::empty());
            assert(frames_view(stack@) =~= seq![top@]);
        }
        Interpreter {
            program,
            variants: VariantIndex::build(program),
            globals: NameMap::new(),
            scopes,
            span: Span::new(1, 1),
            returned: None,
            should_break: false,
            should_continue: false,
            break_value: None,
            stack,
            ctl: Ctl::Next,
        }
    }

    /// The program that is run.
    pub(crate) fn program(&self) -> (p: &'a Program)
        ensures
            stmts_view(p.stmts@) == self@.program,
    {
        self.program
    }

    /// What is next to do; the machine is stopped meanwhile.
    pub(crate) fn take_ctl(&mut self) -> (c: Ctl<'a>)
        requires
            old(self).wf(),
        ensures
            final(self).wf(),
            c@ == old(self)@.ctl,
            final(self)@ == old(self)@.with(CtlV::Stopped),
    {
        let mut c = Ctl::Stopped;
        std::mem::swap(&mut self.ctl, &mut c);
        c
    }

    pub(crate) fn set_ctl(&mut self, ctl: Ctl<'a>)
        requires
            old(self).wf(),
        ensures
            final(self).wf(),
            final(self)@ == old(self)@.with(ctl@),
    {
        self.ctl = ctl;
    }

    pub(crate) fn is_waiting(&self) -> (r: bool)
        ensures
            r == self@.ctl is Wait,
    {
        matches!(self.ctl, Ctl::Wait)
    }

    pub(crate) fn get_span(&self) -> (r: Span)
        ensures
            r == self@.span,
    {
        self.span
    }

    pub(crate) fn set_span(&mut self, span: Span)
        requires
            old(self).wf(),
        ensures
            final(self).wf(),
            final(self)@ == (MachineV { span, ..old(self)@ }),
    {
        self.span = span;
    }

    pub(crate) fn push(&mut self, frame: Frame<'a>)
        requires
            old(self).wf(),
        ensures
            final(self).wf(),
            final(self)@ == old(self)@.push(frame@),
    {
        proof {
            lemma_frames_push(self.stack@, frame);
        }
        self.stack.push(frame);
    }

    pub(crate) fn pop(&mut self) -> (r: Option<Frame<'a>>)
        requires
            old(self).wf(),
        ensures
            final(self).wf(),
            match r {
                Some(f) => old(self)@.stack.len() > 0 && f@ == old(self)@.stack.last()
                    && final(self)@ == old(self)@.pop(),
                None => old(self)@.stack.len() == 0 && final(self)@ == old(self)@,
            },
    {
        let ghost before = self.stack@;
        let r = self.stack.pop();
        proof {
            if before.len() > 0 {
                assert(frames_view(self.stack@) =~= frames_view(before).drop_last());
                assert(frames_view(before).last() == before.last()@);
            }
        }
        r
    }

    pub(crate) fn push_scope(&mut self)
        requires
            old(self).wf(),
        ensures
            final(self).wf(),
            final(self)@ == old(self)@.push_scope(),
    {
        let scope: NameMap<Value> = NameMap::new();
        let ghost before = self.scopes@;
        self.scopes.push(scope);
        assert(scopes_view(self.scopes@) =~= scopes_view(before).push(Map::empty()));
    }

    pub(crate) fn pop_scope(&mut self)
        requires
            old(self).wf(),
        ensures
            final(self).wf(),
            final(self)@ == old(self)@.pop_scope(),
    {
        let ghost before = self.scopes@;
        match self.scopes.pop() {
            Some(_) => {
                assert(scopes_view(self.scopes@) =~= scopes_view(before).drop_last());
            },
            None => {},
        }
    }

    /// Introduce a new binding in the innermost scope (`let`, params, patterns,
    /// loop variables). At top level there is no scope, so it lands in the
    /// globals.
    pub(crate) fn declare(&mut self, name: &str, v: Value)
        requires
            old(self).wf(),
        ensures
            final(self).wf(),
            final(self)@ == old(self)@.declare(name@, v@),
    {
        let ghost before = self.scopes@;
        match self.scopes.pop() {
            Some(scope) => {
                let mut scope = scope;
                assert(scope@ == scopes_view(before).last());
                scope.insert(name.to_owned(), v);
                self.scopes.push(scope);
                assert(scopes_view(self.scopes@) =~= scopes_view(before).drop_last().push(scope@));
            },
            None => {
                self.globals.insert(name.to_owned(), v);
            },
        }
    }

    /// The innermost scope that has a name.
    fn scope_of(&self, name: &str) -> (r: Option<usize>)
        ensures
            match r {
                Some(k) => k < self.scopes@.len() && self.scopes@[k as int]@.contains_key(name@)
                    && forall|j: int|
                    k < j < self.scopes@.len() ==> !(#[trigger] self.scopes@[j])@.contains_key(
                        name@,
                    ),
                None => forall|j: int|
                    0 <= j < self.scopes@.len() ==> !(#[trigger] self.scopes@[j])@.contains_key(
                        name@,
                    ),
            },
    {
        let mut k: usize = self.scopes.len();
        while k > 0
            invariant
                k <= self.scopes@.len(),
                forall|j: int|
                    k <= j < self.scopes@.len() ==> !(#[trigger] self.scopes@[j])@.contains_key(
                        name@,
                    ),
            decreases k,
        {
            k -= 1;
            if self.scopes[k].contains(name) {
                return Some(k);
            }
        }
        None
    }

    /// Update an existing binding wherever it lives, so `i = i + 1` inside a
    /// block mutates the outer `i` instead of shadowing it.
    pub(crate) fn assign(&mut self, name: &str, v: Value)
        requires
            old(self).wf(),
        ensures
            final(self).wf(),
            final(self)@ == old(self)@.assign(name@, v@),
    {
        let ghost all = scopes_view(self.scopes@);
        match self.scope_of(name) {
            Some(k) => {
                proof {
                    assert(all[k as int] == self.scopes@[k as int]@);
                    assert forall|j: int| k < j < all.len() implies !(
                    #[trigger] all[j]).contains_key(name@) by {
                        assert(all[j] == self.scopes@[j]@);
                    }
                    lemma_replace_value(all, name@, v@, k as int);
                }
                let ghost before = self.scopes@;
                self.scopes[k].insert(name.to_owned(), v);
                assert(scopes_view(self.scopes@) =~= all.update(
                    k as int,
                    all[k as int].insert(name@, v@),
                ));
            },
            None => {
                proof {
                    assert forall|j: int| 0 <= j < all.len() implies !(
                    #[trigger] all[j]).contains_key(name@) by {
                        assert(all[j] == self.scopes@[j]@);
                    }
                    lemma_find_nothing(all, name@, v@);
                }
                if self.globals.contains(name) {
                    self.globals.insert(name.to_owned(), v);
                } else {
                    self.declare(name, v);
                }
            },
        }
    }

    pub(crate) fn lookup(&self, name: &str) -> (r: Option<Value>)
        ensures
            opt_value_view(r) == self@.lookup(name@),
    {
        let ghost all = scopes_view(self.scopes@);
        match self.scope_of(name) {
            Some(k) => {
                proof {
                    assert(all[k as int] == self.scopes@[k as int]@);
                    assert forall|j: int| k < j < all.len() implies !(
                    #[trigger] all[j]).contains_key(name@) by {
                        assert(all[j] == self.scopes@[j]@);
                    }
                    lemma_find_value(all, name@, k as int);
                }
                match self.scopes[k].get(name) {
                    Some(v) => Some(v.dup()),
                    None => None,
                }
            },
            None => {
                proof {
                    assert forall|j: int| 0 <= j < all.len() implies !(
                    #[trigger] all[j]).contains_key(name@) by {
                        assert(all[j] == self.scopes@[j]@);
                    }
                    lemma_find_nothing(all, name@, ValueV::Unit);
                }
                match self.globals.get(name) {
                    Some(v) => Some(v.dup()),
                    None => None,
                }
            },
        }
    }

    /// What a name means as a variant.
    pub(crate) fn lookup_variant(&self, name: &str) -> (r: Lookup)
        requires
            self.wf(),
        ensures
            r@ == lookup_v(self@.variants(), name@),
    {
        self.variants.lookup(name)
    }

    /// Let a call start with its own scopes; the caller's are handed back.
    pub(crate) fn swap_scopes(&mut self, frame: NameMap<Value>) -> (saved: Vec<NameMap<Value>>)
        requires
            old(self).wf(),
        ensures
            final(self).wf(),
            scopes_view(saved@) == old(self)@.scopes,
            final(self)@ == (MachineV { scopes: seq![frame@], ..old(self)@ }),
    {
        let ghost fv = frame@;
        let mut scopes: Vec<NameMap<Value>> = Vec::new();
        scopes.push(frame);
        assert(scopes_view(scopes@) =~= seq![fv]);
        std::mem::swap(&mut self.scopes, &mut scopes);
        scopes
    }

    pub(crate) fn restore_scopes(&mut self, saved: Vec<NameMap<Value>>)
        requires
            old(self).wf(),
        ensures
            final(self).wf(),
            final(self)@ == (MachineV { scopes: scopes_view(saved@), ..old(self)@ }),
    {
        self.scopes = saved;
    }

    pub(crate) fn set_returned(&mut self, v: Value)
        requires
            old(self).wf(),
        ensures
            final(self).wf(),
            final(self)@ == (MachineV { returned: Some(v@), ..old(self)@ }),
    {
        self.returned = Some(v);
    }

    pub(crate) fn take_returned(&mut self) -> (r: Option<Value>)
        requires
            old(self).wf(),
        ensures
            final(self).wf(),
            opt_value_view(r) == old(self)@.returned,
            final(self)@ == (MachineV { returned: None, ..old(self)@ }),
    {
        self.returned.take()
    }

    pub(crate) fn has_returned(&self) -> (r: bool)
        ensures
            r == self@.returned is Some,
    {
        self.returned.is_some()
    }

    pub(crate) fn breaks(&self) -> (r: bool)
        ensures
            r == self@.should_break,
    {
        self.should_break
    }

    pub(crate) fn continues(&self) -> (r: bool)
        ensures
            r == self@.should_continue,
    {
        self.should_continue
    }

    pub(crate) fn set_break(&mut self)
        requires
            old(self).wf(),
        ensures
            final(self).wf(),
            final(self)@ == (MachineV { should_break: true, ..old(self)@ }),
    {
        self.should_break = true;
    }

    pub(crate) fn set_break_value(&mut self, v: Value)
        requires
            old(self).wf(),
        ensures
            final(self).wf(),
            final(self)@ == (MachineV {
                break_value: Some(v@),
                should_break: true,
                ..old(self)@
            }),
    {
        self.break_value = Some(v);
        self.should_break = true;
    }

    /// Clear a `break`; the value that it carried.
    pub(crate) fn clear_break(&mut self) -> (r: Option<Value>)
        requires
            old(self).wf(),
        ensures
            final(self).wf(),
            opt_value_view(r) == old(self)@.break_value,
            final(self)@ == (MachineV { should_break: false, break_value: None, ..old(self)@ }),
    {
        self.should_break = false;
        self.break_value.take()
    }

    pub(crate) fn set_continue(&mut self, on: bool)
        requires
            old(self).wf(),
        ensures
            final(self).wf(),
            final(self)@ == (MachineV { should_continue: on, ..old(self)@ }),
    {
        self.should_continue = on;
    }

    /// The program fails at the statement being run.
    pub(crate) fn fail(&mut self, message: String) -> (r: Action)
        requires
            old(self).wf(),
        ensures
            final(self).wf(),
            took(final(self)@, r, old(self)@.fail(message@)),
    {
        self.ctl = Ctl::Stopped;
        Action::Fail(Diagnostic::new(message, self.span))
    }

    pub(crate) fn give(&mut self, v: Value) -> (r: Action)
        requires
            old(self).wf(),
        ensures
            final(self).wf(),
            took(final(self)@, r, old(self)@.give(v@)),
    {
        self.ctl = Ctl::Value(v);
        Action::Continue
    }

    pub(crate) fn next(&mut self) -> (r: Action)
        requires
            old(self).wf(),
        ensures
            final(self).wf(),
            took(final(self)@, r, old(self)@.next()),
    {
        self.ctl = Ctl::Next;
        Action::Continue
    }

    pub(crate) fn ask(&mut self, action: Action) -> (r: Action)
        requires
            old(self).wf(),
        ensures
            final(self).wf(),
            took(final(self)@, r, old(self)@.ask(action@)),
    {
        self.ctl = Ctl::Wait;
        action
    }

    pub(crate) fn eval(&mut self, e: &'a Expr) -> (r: Action)
        requires
            old(self).wf(),
        ensures
            final(self).wf(),
            took(final(self)@, r, (old(self)@.with(CtlV::Eval(e@)), ActionV::Continue)),
    {
        self.ctl = Ctl::Eval(e);
        Action::Continue
    }

    /// Evaluate expressions from left to right, then do something with their
    /// values.
    pub(crate) fn begin(&mut self, task: Task<'a>, exprs: Vec<&'a Expr>) -> (r: Action)
        requires
            old(self).wf(),
        ensures
            final(self).wf(),
            took(final(self)@, r, old(self)@.begin(task@, refs_view(exprs@))),
    {
        let vals: Vec<Value> = Vec::new();
        assert(values_view(vals@) =~= Seq::empty());
        assert(refs_view(exprs@).len() == exprs@.len());
        let ctl = if exprs.len() == 0 {
            Ctl::Ready
        } else {
            assert(refs_view(exprs@)[0] == exprs@[0]@);
            Ctl::Eval(exprs[0])
        };
        self.push(Frame::Collect { task, exprs, vals });
        self.ctl = ctl;
        Action::Continue
    }

    pub(crate) fn run_block(&mut self, kind: BlockKind<'a>, stmts: &'a Vec<Stmt>) -> (r: Action)
        requires
            old(self).wf(),
        ensures
            final(self).wf(),
            took(final(self)@, r, old(self)@.run_block(kind@, stmts_view(stmts@))),
    {
        let span = self.span;
        self.push(Frame::Block { kind, stmts, next: 0, span });
        self.next()
    }

    /// Run a function/method/macro body in a fresh frame: globals stay visible,
    /// the caller's locals do not.
    pub(crate) fn call_frame(&mut self, frame: NameMap<Value>, body: &'a Vec<Stmt>) -> (r: Action)
        requires
            old(self).wf(),
        ensures
            final(self).wf(),
            took(final(self)@, r, old(self)@.call_frame(frame@, stmts_view(body@))),
    {
        let saved = self.swap_scopes(frame);
        self.run_block(BlockKind::Call(saved), body)
    }

    pub(crate) fn of_op(&mut self, o: Op) -> (r: Action)
        requires
            old(self).wf(),
        ensures
            final(self).wf(),
            took(final(self)@, r, old(self)@.of_op(o@)),
    {
        match o {
            Op::Done(v) => self.give(v),
            Op::Fail(m) => self.fail(m),
            Op::FloatOp(op, a, b) => self.ask(Action::FloatOp(op, a, b)),
            Op::FloatNeg(a) => self.ask(Action::FloatNeg(a)),
        }
    }

    pub(crate) fn of_result(&mut self, o: Result<Value, String>) -> (r: Action)
        requires
            old(self).wf(),
        ensures
            final(self).wf(),
            o matches Ok(v) ==> took(final(self)@, r, old(self)@.of_result(Ok(v@))),
            o matches Err(m) ==> took(final(self)@, r, old(self)@.of_result(Err(m@))),
    {
        match o {
            Ok(v) => self.give(v),
            Err(m) => self.fail(m),
        }
    }
}

} // verus!
