//! Statements that also print: `let`, assignment, `if` and `while` over integers and
//! truth values, and `print` of such values, do and show the same in both backends.

use crate::agreement::{
    law_plain_types, lemma_leads, lemma_linked_variables, lemma_one_step, worth,
};
use crate::ast::{ExprKindV, ExprV, StmtKindV, StmtV, TypeV};
use crate::diagnostic::{rendered, DiagnosticV, Span};
use crate::ir::{InstV, OpV, Ty, Val};
use crate::ir_semantics::{
    computed, given, law_later_code_does_not_matter, law_run_takes_steps, moved, walked, Point,
};
use crate::builtins::prints;
use crate::native::{
    continues, format_text, lemma_abort_text, lemma_continues, lemma_continues_chain,
    lemma_same_code, open_here, CgV,
};
use crate::native_expr::{gen_expr, law_plain_expression_compiles, lemma_plain_expression_adds};
use crate::native_stmt::{gen_stmt, gen_stmts, lemma_statements_code};
use crate::output::{
    effected, lemma_names, lemma_number_printed, lemma_print_code, lemma_put, lemma_tail_extends,
    lemma_truth_printed, mark_of, marked, performed, place, print_tail, straight, text_at, Ending,
    Place, Screen,
};
use crate::semantics::{signal, step, steps, ActionV, BlockV, CtlV, FrameV, MachineV, TaskV};
use crate::statements::{
    alike, at, effect, in_block, lemma_alike_later, lemma_linked, lemma_one_value, lemma_shaped,
    lemma_starts_earlier, lemma_stmt_agrees, lemma_stmt_goes_on, roomy, same_outside, shaped,
    simple, simple_stmt, zeroed, zeros, Effect,
};
use crate::typing::{
    check_call, check_each, check_expr, check_plain_call, check_stmt, check_stmts, EnvV,
    TypeErrorV,
};
use crate::value::{value_text, ValueV};
use vstd::prelude::*;

verus! {

// ---- what is printed ----

/// A running program after some steps, what it has printed by then, and what its host
/// has to do next. The host shows each line that it is handed.
pub open spec fn told(m: MachineV, n: nat) -> (MachineV, Seq<char>, ActionV)
    decreases n,
{
    if n == 0 {
        (m, Seq::empty(), ActionV::Continue)
    } else {
        match step(m) {
            (m1, ActionV::Continue) => told(m1, (n - 1) as nat),
            (m1, ActionV::Print(line)) => {
                let r = told(m1, (n - 1) as nat);
                (r.0, line + seq!['\n'] + r.1, r.2)
            },
            (m1, action) => (m1, Seq::empty(), action),
        }
    }
}

/// Where native code is, and what it has shown.
pub enum Sight {
    At(usize, int, Screen),
    /// The program has stopped with the diagnostic that is the constant text of that
    /// number, and had shown this.
    Stopped(usize, Seq<char>),
    Stuck,
}

/// One instruction.
pub open spec fn seen(
    texts: Seq<Seq<char>>,
    insts: Seq<InstV>,
    b: usize,
    n: int,
    w: Screen,
) -> Sight {
    match moved(insts, b, n, w.mem) {
        Point::At(b1, n1, mem) => Sight::At(b1, n1, Screen { mem, ..w }),
        Point::Stopped(k, _, _) => Sight::Stopped(k, w.shown),
        Point::Stuck => if 0 <= n < insts.len() && insts[n].block == b {
            match effected(insts[n].op, n, w, texts) {
                Some(w1) => Sight::At(b, n + 1, w1),
                None => Sight::Stuck,
            }
        } else {
            Sight::Stuck
        },
    }
}

/// Where a number of instructions lead.
pub open spec fn watched(texts: Seq<Seq<char>>, insts: Seq<InstV>, p: Sight, k: nat) -> Sight
    decreases k,
{
    if k == 0 {
        p
    } else {
        match p {
            Sight::At(b, n, w) => watched(texts, insts, seen(texts, insts, b, n, w), (k - 1) as nat),
            _ => p,
        }
    }
}

proof fn lemma_watch_over(texts: Seq<Seq<char>>, insts: Seq<InstV>, p: Sight, k: nat)
    requires
        !(p is At),
    ensures
        watched(texts, insts, p, k) == p,
{
}

proof fn lemma_watches_add_up(
    texts: Seq<Seq<char>>,
    insts: Seq<InstV>,
    p: Sight,
    a: nat,
    b: nat,
)
    ensures
        watched(texts, insts, p, a + b) == watched(texts, insts, watched(texts, insts, p, a), b),
    decreases a,
{
    match p {
        Sight::At(c, n, w) => if a > 0 {
            lemma_watches_add_up(texts, insts, seen(texts, insts, c, n, w), (a - 1) as nat, b);
        },
        _ => {
            lemma_watch_over(texts, insts, p, a);
            lemma_watch_over(texts, insts, p, b);
            lemma_watch_over(texts, insts, p, a + b);
        },
    }
}

/// Code that only computes shows nothing.
proof fn lemma_walk_is_watched(
    texts: Seq<Seq<char>>,
    insts: Seq<InstV>,
    b: usize,
    n: int,
    w: Screen,
    k: nat,
)
    ensures
        match walked(insts, Point::At(b, n, w.mem), k) {
            Point::At(b1, n1, mem) => watched(texts, insts, Sight::At(b, n, w), k) == Sight::At(
                b1,
                n1,
                Screen { mem, ..w },
            ),
            Point::Stopped(x, _, _) => watched(texts, insts, Sight::At(b, n, w), k) == Sight::Stopped(
                x,
                w.shown,
            ),
            Point::Stuck => true,
        },
    decreases k,
{
    if k > 0 {
        match moved(insts, b, n, w.mem) {
            Point::At(b1, n1, mem) => lemma_walk_is_watched(
                texts,
                insts,
                b1,
                n1,
                Screen { mem, ..w },
                (k - 1) as nat,
            ),
            Point::Stopped(x, y, z) => {
                lemma_watch_over(texts, insts, Sight::Stopped(x, w.shown), (k - 1) as nat);
                assert(walked(insts, Point::Stopped(x, y, z), (k - 1) as nat) == Point::Stopped(
                    x,
                    y,
                    z,
                ));
            },
            Point::Stuck => {
                assert(walked(insts, Point::Stuck, (k - 1) as nat) == Point::Stuck);
            },
        }
    }
}

/// Straight code runs instruction by instruction, whatever follows it.
proof fn lemma_straight_is_watched(
    texts: Seq<Seq<char>>,
    insts: Seq<InstV>,
    all_texts: Seq<Seq<char>>,
    all: Seq<InstV>,
    b: usize,
    n: int,
    to: int,
    w: Screen,
)
    requires
        0 <= n <= to <= insts.len(),
        insts.is_prefix_of(all),
        texts.is_prefix_of(all_texts),
        straight(insts, b, n, to),
    ensures
        performed(texts, insts, b, n, to, w) matches Ending::Reached(c, w1) ==> watched(
            all_texts,
            all,
            Sight::At(b, n, w),
            (to - n) as nat,
        ) == Sight::At(c, to, w1),
    decreases to - n,
{
    lemma_names();
    if n < to {
        assert(insts[n] == all[n]);
        let op = insts[n].op;
        match computed(op, w.mem) {
            Some(d) => lemma_straight_is_watched(
                texts,
                insts,
                all_texts,
                all,
                b,
                n + 1,
                to,
                Screen { mem: given(w.mem, n, d), ..w },
            ),
            None => match effected(op, n, w, texts) {
                Some(w1) => {
                    lemma_straight_is_watched(texts, insts, all_texts, all, b, n + 1, to, w1);
                    assert forall|v: Val|
                        (#[trigger] text_at(w, texts, v)) is Some implies text_at(w, all_texts, v)
                        == text_at(w, texts, v) by {
                        match place(w, v) {
                            Some(Place::Constant(k)) => {
                                assert(texts[k] == all_texts[k]);
                            },
                            _ => {},
                        }
                    }
                    assert(effected(op, n, w, all_texts) == Some(w1));
                },
                None => {},
            },
        }
        assert((to - n - 1) as nat == (to - (n + 1)) as nat);
    }
}

proof fn lemma_steps_are_told(m: MachineV, n: nat)
    ensures
        steps(m, n) matches (m1, ActionV::Continue) ==> told(m, n) == (
            m1,
            Seq::<char>::empty(),
            ActionV::Continue,
        ),
        steps(m, n).1 matches ActionV::Fail(d) ==> told(m, n).1 == Seq::<char>::empty() && told(
            m,
            n,
        ).2 == ActionV::Fail(d),
    decreases n,
{
    if n > 0 {
        match step(m) {
            (m1, ActionV::Continue) => lemma_steps_are_told(m1, (n - 1) as nat),
            _ => {},
        }
        if m.ctl is Wait {
            assert(step(m) == (m, ActionV::Continue));
        }
    }
}

proof fn lemma_print_is_told(m: MachineV, n: nat) -> (k: nat)
    requires
        steps(m, n).1 is Print,
    ensures
        told(m, k) == (
            steps(m, n).0,
            steps(m, n).1->Print_0 + seq!['\n'],
            ActionV::Continue,
        ),
    decreases n,
{
    match step(m) {
        (m1, ActionV::Continue) => {
            let k = lemma_print_is_told(m1, (n - 1) as nat);
            k + 1
        },
        (m1, ActionV::Print(line)) => {
            assert(told(m1, 0) == (m1, Seq::<char>::empty(), ActionV::Continue));
            assert(line + seq!['\n'] + Seq::<char>::empty() =~= line + seq!['\n']);
            assert(told(m, 1) == (m1, line + seq!['\n'], ActionV::Continue));
            1
        },
        _ => 0,
    }
}

pub proof fn lemma_told_adds_up(m: MachineV, a: nat, b: nat)
    ensures
        told(m, a).2 is Continue ==> told(m, a + b) == ({
            let r = told(told(m, a).0, b);
            (r.0, told(m, a).1 + r.1, r.2)
        }),
    decreases a,
{
    let r = told(told(m, a).0, b);
    if a == 0 {
        assert(Seq::<char>::empty() + r.1 =~= r.1);
    } else {
        match step(m) {
            (m1, ActionV::Continue) => lemma_told_adds_up(m1, (a - 1) as nat, b),
            (m1, ActionV::Print(line)) => {
                lemma_told_adds_up(m1, (a - 1) as nat, b);
                let q = told(m1, (a - 1) as nat);
                assert(line + seq!['\n'] + (q.1 + r.1) =~= (line + seq!['\n'] + q.1) + r.1);
            },
            _ => {},
        }
    }
}

// ---- statements that print ----

/// What a statement prints, where it is a call of `print`.
pub open spec fn printed(st: StmtV) -> Option<ExprV> {
    match st.kind {
        StmtKindV::Expr(e) => if prints(e) {
            match *e.kind {
                ExprKindV::Call(_, args) => if args.len() == 1 {
                    Some(args[0])
                } else {
                    None
                },
                _ => None,
            }
        } else {
            None
        },
        _ => None,
    }
}

/// A statement that prints an expression of integers, truth values, variables and
/// operators, or one that does not print.
pub open spec fn speaking_stmt(st: StmtV, env: EnvV) -> bool {
    match printed(st) {
        Some(x) => simple(x, env),
        None => simple_stmt(st, env),
    }
}

/// Such statements, from the `i`th on.
pub open spec fn speaking_stmts(ss: Seq<StmtV>, i: int, env: EnvV) -> bool
    decreases ss.len() - i,
{
    if i < 0 || i >= ss.len() {
        true
    } else {
        speaking_stmt(ss[i], env) && speaking_stmts(ss, i + 1, check_stmt(ss[i], env).1)
    }
}

/// What a statement does, and what it shows.
pub open spec fn act(st: StmtV, m: MachineV, rounds: nat) -> (Effect, Seq<char>) {
    match printed(st) {
        Some(x) => {
            let m0 = MachineV { span: st.span, ..m };
            match worth(x, m0) {
                Ok(v) => (Effect::Done(m0), value_text(v) + seq!['\n']),
                Err(message) => (Effect::Failed(message, st.span), Seq::empty()),
            }
        },
        None => (effect(st, m, rounds), Seq::empty()),
    }
}

/// What statements do and show, from the `i`th on.
pub open spec fn acts(ss: Seq<StmtV>, i: int, m: MachineV, rounds: nat) -> (Effect, Seq<char>)
    decreases ss.len() - i,
{
    if i < 0 || i >= ss.len() {
        (Effect::Done(m), Seq::empty())
    } else {
        match act(ss[i], m, rounds) {
            (Effect::Done(m1), shown) => {
                let rest = acts(ss, i + 1, m1, rounds);
                (rest.0, shown + rest.1)
            },
            other => other,
        }
    }
}

/// The interpreter does and prints this in a number of steps.
pub open spec fn narrated(
    from: MachineV,
    k: nat,
    stack: Seq<FrameV>,
    e: (Effect, Seq<char>),
) -> bool {
    match e.0 {
        Effect::Done(m) => told(from, k) == (at(m, stack, CtlV::Next), e.1, ActionV::Continue),
        Effect::Failed(message, span) => told(from, k).1 == e.1 && told(from, k).2
            == ActionV::Fail(DiagnosticV { message, span }),
        Effect::Unfinished => true,
    }
}

/// Native code does and shows this in a number of instructions.
pub open spec fn displayed(
    texts: Seq<Seq<char>>,
    insts: Seq<InstV>,
    s: CgV,
    t: CgV,
    w: Screen,
    j: nat,
    after: Screen,
    e: (Effect, Seq<char>),
) -> bool {
    let end = watched(texts, insts, Sight::At(s.m.at, s.m.func.insts.len() as int, w), j);
    match e.0 {
        Effect::Done(m) => {
            &&& end == Sight::At(t.m.at, t.m.func.insts.len() as int, after)
            &&& after.shown == w.shown + e.1
            &&& open_here(t)
            &&& alike(t, m, after.mem)
        },
        Effect::Failed(message, span) => end matches Sight::Stopped(x, shown) && shown == w.shown
            + e.1 && x < texts.len() && texts[x as int] == format_text(
            rendered(DiagnosticV { message, span }, s.path, s.src),
        ),
        Effect::Unfinished => true,
    }
}

/// Checking a call of `print`.
proof fn lemma_print_checks(st: StmtV, x: ExprV, env: EnvV)
    requires
        printed(st) == Some(x),
        check_stmt(st, env).0 is Ok,
    ensures
        check_expr(x, env).0 is Ok,
        check_stmt(st, env).1 == check_expr(x, env).1,
        (*(st.kind->Expr_0).kind)->Call_1 =~= seq![x],
{
    let e = st.kind->Expr_0;
    let args = (*e.kind)->Call_1;
    assert(check_call(e, env) == check_plain_call("print"@, args, 1, TypeV::Unit, env));
    let env1 = check_expr(x, env).1;
    assert(check_each(args, 1, env1) == (Ok::<(), TypeErrorV>(()), env1));
    assert(check_each(args, 0, env) == (match check_expr(x, env) {
        (Err(err), env2) => (Err(err), env2),
        (Ok(_), env2) => check_each(args, 1, env2),
    }));
}

/// The code of a statement that prints.
proof fn lemma_print_goes_on(s: CgV, st: StmtV, x: ExprV, m: MachineV)
    requires
        shaped(s, m),
        printed(st) == Some(x),
        simple(x, s.types),
        check_stmt(st, s.types).0 is Ok,
    ensures
        continues(s, gen_stmt(s, st)),
        same_outside(s, gen_stmt(s, st)),
        shaped(gen_stmt(s, st), m),
        gen_stmt(s, st).types == check_stmt(st, s.types).1,
        gen_stmt(s, st).types == s.types,
        gen_stmt(s, st).scopes == s.scopes,
        gen_stmt(s, st).m.func.slots.len() >= s.m.func.slots.len(),
        check_expr(x, s.types).0 is Ok,
        ({
            let (s3, v) = gen_expr(marked(s, st), x);
            let ty = check_expr(x, s.types).0->Ok_0;
            &&& v is Int
            &&& ty is Int || ty is Bool
            &&& gen_stmt(s, st) == print_tail(s3, v->Int_0, ty, mark_of(s, st), s.transient)
            &&& continues(marked(s, st), s3)
        }),
{
    lemma_print_checks(st, x, s.types);
    let s0 = CgV { span: st.span, ..s };
    let op = OpV::Call(Ty::Ptr, "llvm.stacksave.p0"@, Seq::empty());
    lemma_put(s0, op, "sp"@);
    let s1 = s0.emit(op, "sp"@).0;
    let s2 = marked(s, st);
    lemma_linked(x, s2, m, zeros());
    lemma_plain_expression_adds(x, s2, m, zeros());
    let (s3, v) = gen_expr(s2, x);
    let ty = check_expr(x, s.types).0->Ok_0;
    lemma_print_code(s, st, x, ty);
    let t = gen_stmt(s, st);
    lemma_tail_extends(s3, v->Int_0, ty, mark_of(s, st), s.transient);
    lemma_same_code(s, s0);
    lemma_same_code(s1, s2);
    lemma_continues_chain(s, s0, s1);
    lemma_continues_chain(s, s1, s2);
    lemma_continues_chain(s, s2, s3);
    lemma_continues_chain(s, s3, t);
    lemma_continues(s, t);
}

/// A statement that prints does and shows the same in both backends.
#[verifier::rlimit(60)]
proof fn lemma_print_seen(
    st: StmtV,
    x: ExprV,
    s: CgV,
    m: MachineV,
    w: Screen,
    stack: Seq<FrameV>,
    insts: Seq<InstV>,
    texts: Seq<Seq<char>>,
) -> (r: (nat, nat, Screen))
    requires
        printed(st) == Some(x),
        simple(x, s.types),
        alike(s, m, w.mem),
        open_here(s),
        check_stmt(st, s.types).0 is Ok,
        gen_stmt(s, st).m.func.insts.is_prefix_of(insts),
        gen_stmt(s, st).m.texts.is_prefix_of(texts),
        roomy(gen_stmt(s, st)),
    ensures
        narrated(at(m, stack, CtlV::Exec(st)), r.0, stack, act(st, m, 0)),
        displayed(texts, insts, s, gen_stmt(s, st), w, r.1, r.2, act(st, m, 0)),
{
    let e = st.kind->Expr_0;
    let args = (*e.kind)->Call_1;
    let m0 = MachineV { span: st.span, ..m };
    let zero = MachineV { scopes: zeroed(m.scopes), ..m };
    lemma_shaped(s, m, w.mem);
    lemma_print_goes_on(s, st, x, zero);
    lemma_print_checks(st, x, s.types);
    let t = gen_stmt(s, st);
    let s0 = CgV { span: st.span, ..s };
    let op = OpV::Call(Ty::Ptr, "llvm.stacksave.p0"@, Seq::empty());
    assert(open_here(s0));
    lemma_put(s0, op, "sp"@);
    let s2 = marked(s, st);
    assert(open_here(s2));
    lemma_alike_later(s, s2, m, m0, w.mem, w.mem);
    lemma_linked(x, s2, m0, w.mem);
    lemma_linked_variables(x, s2, m0, w.mem);
    law_plain_types(x, s2, m0, w.mem);
    let (s3, v) = gen_expr(s2, x);
    let ty = check_expr(x, s.types).0->Ok_0;
    let mark = mark_of(s, st);
    lemma_tail_extends(s3, v->Int_0, ty, mark, s.transient);
    let after = law_plain_expression_compiles(x, s2, m0, w.mem);
    // the interpreter
    let from = at(m, stack, CtlV::Exec(st));
    let f1 = FrameV::Collect { task: TaskV::Discard, exprs: seq![e], vals: Seq::empty() };
    let called = at(m0, stack.push(f1), CtlV::Eval(e));
    lemma_one_step(from);
    assert(step(from) == (called, ActionV::Continue));
    let task = TaskV::Builtin("print"@);
    assert(args.take(1) =~= seq![x]);
    let f2 = FrameV::Collect { task, exprs: seq![x], vals: Seq::empty() };
    let begun = at(m0, stack.push(f1).push(f2), CtlV::Eval(x));
    lemma_one_step(called);
    assert(step(called) == (begun, ActionV::Continue));
    lemma_leads(from, 1, called, 1);
    let k = lemma_one_value(m0, stack.push(f1), task, x);
    lemma_leads(from, 2, begun, k);
    // native code
    let n0 = s.m.func.insts.len() as int;
    let n1 = s3.m.func.insts.len() as int;
    let to = t.m.func.insts.len() as int;
    let start = Sight::At(s.m.at, n0, w);
    assert(s2.m.func.insts.len() == n0 + 1);
    lemma_continues(s2, s3);
    assert(s3.m.func.insts[n0] == s2.m.func.insts[n0]);
    assert(t.m.func.insts[n0] == s3.m.func.insts[n0]);
    assert(insts[n0] == t.m.func.insts[n0]);
    assert(moved(insts, s.m.at, n0, w.mem) == Point::Stuck);
    let second = Sight::At(s.m.at, n0 + 1, w);
    assert(seen(texts, insts, s.m.at, n0, w) == second);
    assert(watched(texts, insts, second, 0) == second);
    assert(watched(texts, insts, start, 1) == second);
    assert forall|i: int| 0 <= i < n1 implies s3.m.func.insts[i] == #[trigger] insts[i] by {
        assert(t.m.func.insts[i] == insts[i]);
    }
    law_later_code_does_not_matter(s3.m.func.insts, insts, s.m.at, n0 + 1, n1, w.mem);
    let j = law_run_takes_steps(insts, s.m.at, n0 + 1, n1, w.mem);
    lemma_walk_is_watched(texts, insts, s.m.at, n0 + 1, w, j);
    lemma_watches_add_up(texts, insts, start, 1, j);
    match worth(x, m0) {
        Err(message) => {
            lemma_abort_text(s2, message);
            lemma_steps_are_told(from, 2 + k);
            assert(w.shown + Seq::<char>::empty() =~= w.shown);
            (2 + k, 1 + j, w)
        },
        Ok(value) => {
            let w1 = Screen { mem: after, ..w };
            match value {
                ValueV::Int(i) => lemma_number_printed(s3, v->Int_0, i, mark, s.transient, w1),
                ValueV::Bool(b) => lemma_truth_printed(s3, v->Int_0, b, mark, s.transient, w1),
                _ => {},
            }
            let end = performed(t.m.texts, t.m.func.insts, s3.m.at, n1, to, w1);
            let w2 = end->Reached_1;
            lemma_straight_is_watched(
                t.m.texts,
                t.m.func.insts,
                texts,
                insts,
                s3.m.at,
                n1,
                to,
                w1,
            );
            lemma_watches_add_up(texts, insts, start, 1 + j, (to - n1) as nat);
            assert(w2.shown =~= w.shown + (value_text(value) + seq!['\n']));
            lemma_alike_later(s, t, m, m0, w.mem, w2.mem);
            // the line, and then the end of the statement
            let line = value_text(value);
            let said = at(m0, stack.push(f1), CtlV::Value(ValueV::Unit));
            assert(steps(from, 2 + k) == (said, ActionV::Print(line)));
            let k1 = lemma_print_is_told(from, 2 + k);
            let vals = Seq::empty().push(ValueV::Unit);
            let f3 = FrameV::Collect { task: TaskV::Discard, exprs: seq![e], vals };
            let ready = at(m0, stack.push(f3), CtlV::Ready);
            assert(stack.push(f1).drop_last() =~= stack);
            assert(stack.push(f1).last() == f1);
            lemma_one_step(said);
            assert(step(said) == (ready, ActionV::Continue));
            let done = at(m0, stack, CtlV::Next);
            assert(stack.push(f3).drop_last() =~= stack);
            assert(stack.push(f3).last() == f3);
            lemma_one_step(ready);
            assert(step(ready) == (done, ActionV::Continue));
            lemma_leads(said, 1, ready, 1);
            lemma_steps_are_told(said, 2);
            lemma_told_adds_up(from, k1, 2);
            assert(line + seq!['\n'] + Seq::<char>::empty() =~= line + seq!['\n']);
            (k1 + 2, 1 + j + (to - n1) as nat, w2)
        },
    }
}

/// The code of statements goes on from where the code before it ends.
pub proof fn lemma_speaking_go_on(s: CgV, ss: Seq<StmtV>, i: int, m: MachineV) -> (n: MachineV)
    requires
        shaped(s, m),
        0 <= i,
        speaking_stmts(ss, i, s.types),
        check_stmts(ss, i, s.types).0 is Ok,
    ensures
        continues(s, gen_stmts(s, ss, i)),
        same_outside(s, gen_stmts(s, ss, i)),
        shaped(gen_stmts(s, ss, i), n),
    decreases ss.len() - i,
{
    lemma_statements_code(s, ss, i);
    lemma_same_code(s, s);
    if i < ss.len() {
        let s1 = gen_stmt(s, ss[i]);
        let n1 = match printed(ss[i]) {
            Some(x) => {
                lemma_print_goes_on(s, ss[i], x, m);
                m
            },
            None => lemma_stmt_goes_on(s, ss[i], m),
        };
        let n2 = lemma_speaking_go_on(s1, ss, i + 1, n1);
        if s.left() {
            m
        } else {
            lemma_continues_chain(s, s1, gen_stmts(s1, ss, i + 1));
            n2
        }
    } else {
        m
    }
}

/// One statement, printing or not.
proof fn lemma_speaking_agrees(
    st: StmtV,
    s: CgV,
    m: MachineV,
    w: Screen,
    stack: Seq<FrameV>,
    insts: Seq<InstV>,
    texts: Seq<Seq<char>>,
    rounds: nat,
) -> (r: (nat, nat, Screen))
    requires
        alike(s, m, w.mem),
        open_here(s),
        speaking_stmt(st, s.types),
        check_stmt(st, s.types).0 is Ok,
        gen_stmt(s, st).m.func.insts.is_prefix_of(insts),
        gen_stmt(s, st).m.texts.is_prefix_of(texts),
        roomy(gen_stmt(s, st)),
    ensures
        narrated(at(m, stack, CtlV::Exec(st)), r.0, stack, act(st, m, rounds)),
        displayed(texts, insts, s, gen_stmt(s, st), w, r.1, r.2, act(st, m, rounds)),
{
    match printed(st) {
        Some(x) => {
            assert(act(st, m, rounds) == act(st, m, 0));
            lemma_print_seen(st, x, s, m, w, stack, insts, texts)
        },
        None => {
            let t = gen_stmt(s, st);
            assert forall|i: int| 0 <= i < t.m.func.insts.len() implies t.m.func.insts[i]
                == #[trigger] insts[i] by {}
            let (k, j, mem) = lemma_stmt_agrees(st, s, m, w.mem, stack, insts, rounds);
            lemma_steps_are_told(at(m, stack, CtlV::Exec(st)), k);
            lemma_walk_is_watched(texts, insts, s.m.at, s.m.func.insts.len() as int, w, j);
            assert(w.shown + Seq::<char>::empty() =~= w.shown);
            match effect(st, m, rounds) {
                Effect::Failed(message, span) => {
                    let start = Point::At(s.m.at, s.m.func.insts.len() as int, w.mem);
                    let x = walked(insts, start, j)->Stopped_0;
                    assert(t.m.texts[x as int] == texts[x as int]);
                },
                _ => {},
            }
            (k, j, Screen { mem, ..w })
        },
    }
}

/// Statements, printing or not, from the `i`th on.
#[verifier::rlimit(60)]
pub proof fn lemma_bodies_agree(
    ss: Seq<StmtV>,
    i: int,
    kind: BlockV,
    span: Span,
    s: CgV,
    m: MachineV,
    w: Screen,
    stack: Seq<FrameV>,
    insts: Seq<InstV>,
    texts: Seq<Seq<char>>,
    rounds: nat,
) -> (r: (nat, nat, Screen))
    requires
        alike(s, m, w.mem),
        open_here(s),
        0 <= i <= ss.len(),
        !(kind is Top),
        kind matches BlockV::Loop(l) ==> !l.is_expr,
        speaking_stmts(ss, i, s.types),
        check_stmts(ss, i, s.types).0 is Ok,
        gen_stmts(s, ss, i).m.func.insts.is_prefix_of(insts),
        gen_stmts(s, ss, i).m.texts.is_prefix_of(texts),
        roomy(gen_stmts(s, ss, i)),
    ensures
        narrated(
            at(m, stack.push(in_block(kind, ss, i, span)), CtlV::Next),
            r.0,
            stack.push(in_block(kind, ss, ss.len() as int, span)),
            acts(ss, i, m, rounds),
        ),
        displayed(
            texts,
            insts,
            s,
            gen_stmts(s, ss, i),
            w,
            r.1,
            r.2,
            acts(ss, i, m, rounds),
        ),
    decreases ss.len() - i,
{
    lemma_statements_code(s, ss, i);
    let from = at(m, stack.push(in_block(kind, ss, i, span)), CtlV::Next);
    if i == ss.len() {
        assert(w.shown + Seq::<char>::empty() =~= w.shown);
        (0, 0, w)
    } else {
        let st = ss[i];
        let s1 = gen_stmt(s, st);
        let t = gen_stmts(s, ss, i);
        assert(t == gen_stmts(s1, ss, i + 1));
        let zero = MachineV { scopes: zeroed(m.scopes), ..m };
        lemma_shaped(s, m, w.mem);
        let z1 = match printed(st) {
            Some(x) => {
                lemma_print_goes_on(s, st, x, zero);
                zero
            },
            None => lemma_stmt_goes_on(s, st, zero),
        };
        let _ = lemma_speaking_go_on(s1, ss, i + 1, z1);
        lemma_continues(s1, t);
        assert forall|q: int| 0 <= q < t.m.func.insts.len() implies t.m.func.insts[q]
            == #[trigger] insts[q] by {}
        lemma_starts_earlier(insts, s1, t);
        assert(s1.m.func.insts =~= insts.subrange(0, s1.m.func.insts.len() as int));
        assert(s1.m.texts =~= texts.subrange(0, s1.m.texts.len() as int)) by {
            assert forall|q: int| 0 <= q < s1.m.texts.len() implies s1.m.texts[q] == texts[q] by {
                assert(s1.m.texts[q] == t.m.texts[q]);
                assert(t.m.texts[q] == texts[q]);
            }
        }
        let inner = stack.push(in_block(kind, ss, i + 1, span));
        let mb = MachineV { span, ..m };
        lemma_alike_later(s, s, m, mb, w.mem, w.mem);
        let (k1, j1, w1) = lemma_speaking_agrees(st, s, mb, w, inner, insts, texts, rounds);
        assert(act(st, mb, rounds) == act(st, m, rounds)) by {
            assert(effect(st, mb, rounds) == effect(st, m, rounds));
        }
        let begun = at(mb, inner, CtlV::Exec(st));
        lemma_one_step(from);
        assert(from.stack.last() == in_block(kind, ss, i, span));
        assert(from.stack.drop_last() =~= stack);
        assert(signal(at(mb, stack, CtlV::Stopped), kind) is None);
        assert(step(from) == (begun, ActionV::Continue));
        assert(told(from, 1 + k1) == told(begun, k1));
        let start = Sight::At(s.m.at, s.m.func.insts.len() as int, w);
        let (done, shown) = act(st, m, rounds);
        match done {
            Effect::Done(m1) => {
                let (k2, j2, w2) = lemma_bodies_agree(
                    ss,
                    i + 1,
                    kind,
                    span,
                    s1,
                    m1,
                    w1,
                    stack,
                    insts,
                    texts,
                    rounds,
                );
                lemma_told_adds_up(from, 1 + k1, k2);
                lemma_watches_add_up(texts, insts, start, j1, j2);
                let rest = acts(ss, i + 1, m1, rounds);
                assert(w.shown + (shown + rest.1) =~= (w.shown + shown) + rest.1);
                (1 + k1 + k2, j1 + j2, w2)
            },
            _ => (1 + k1, j1, w1),
        }
    }
}

/// Statements made of `let`, assignments, expressions, `if` and `while` over integers
/// and truth values, and of `print` of such values, do and show the same in both
/// backends. Where the interpreter gets to their end, native code gets to the end of
/// their code, has shown what the interpreter has printed, and its slots hold the words
/// for what the variables stand for. Where the interpreter fails, native code stops the
/// program with the same report, and has shown the same by then. This holds of every
/// run in which no loop takes more than `rounds` rounds, for any `rounds`.
pub proof fn law_bodies_agree(
    ss: Seq<StmtV>,
    kind: BlockV,
    span: Span,
    s: CgV,
    m: MachineV,
    w: Screen,
    stack: Seq<FrameV>,
    rounds: nat,
) -> (r: (nat, nat, Screen))
    requires
        alike(s, m, w.mem),
        open_here(s),
        !(kind is Top),
        kind matches BlockV::Loop(l) ==> !l.is_expr,
        speaking_stmts(ss, 0, s.types),
        check_stmts(ss, 0, s.types).0 is Ok,
        roomy(gen_stmts(s, ss, 0)),
    ensures
        narrated(
            at(m, stack.push(in_block(kind, ss, 0, span)), CtlV::Next),
            r.0,
            stack.push(in_block(kind, ss, ss.len() as int, span)),
            acts(ss, 0, m, rounds),
        ),
        displayed(
            gen_stmts(s, ss, 0).m.texts,
            gen_stmts(s, ss, 0).m.func.insts,
            s,
            gen_stmts(s, ss, 0),
            w,
            r.1,
            r.2,
            acts(ss, 0, m, rounds),
        ),
{
    let t = gen_stmts(s, ss, 0);
    assert(t.m.func.insts =~= t.m.func.insts.subrange(0, t.m.func.insts.len() as int));
    assert(t.m.texts =~= t.m.texts.subrange(0, t.m.texts.len() as int));
    lemma_bodies_agree(
        ss,
        0,
        kind,
        span,
        s,
        m,
        w,
        stack,
        t.m.func.insts,
        t.m.texts,
        rounds,
    )
}

} // verus!
