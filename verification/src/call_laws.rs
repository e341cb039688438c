//! A call runs apart from its caller: whatever its body does, what the caller had
//! under way stays as it was, and comes back when the body returns or runs out.

use crate::ast::{ExprV, PatternV, StmtV};
use crate::run_laws::{fits, law_machine_never_stuck};
use crate::semantics::{
    answered, apply, block_step, eval_step, exec_step, matched, method_step, step, steps, try_arms,
    ActionV, BlockV, CtlV, FrameV, MachineV, Stepped, TaskV,
};
use crate::value::ValueV;
use vstd::prelude::*;

verus! {

/// A call that `outer` made is under way: what `outer` had under way lies below it,
/// and its variables are kept.
pub open spec fn within_call(now: MachineV, outer: MachineV) -> bool {
    &&& now.stack.len() > outer.stack.len()
    &&& outer.stack.is_prefix_of(now.stack)
    &&& now.stack[outer.stack.len() as int] matches FrameV::Block { kind, next, .. }
    &&& kind == BlockV::Call(outer.scopes)
    &&& next > 0 || (next == 0 && now.stack.len() == outer.stack.len() + 1 && now.ctl is Next
        && now.returned is None)
}

/// A call that `outer` made ends with what its body returned, or with nothing where
/// the body ran out. `outer` goes on where it was, with its own variables, and with
/// the globals as the call left them.
pub open spec fn call_ended(now: MachineV, next: MachineV, outer: MachineV) -> bool {
    &&& next.stack == outer.stack
    &&& next.scopes == outer.scopes
    &&& next.globals == now.globals
    &&& next.ctl == CtlV::Value(
        match now.returned {
            Some(v) => v,
            None => ValueV::Unit,
        },
    )
}

/// A step leaves these frames where they are.
spec fn keeps(base: Seq<FrameV>, r: Stepped) -> bool {
    base.is_prefix_of(r.0.stack)
}

proof fn lemma_declare_keeps_stack(m: MachineV, bs: Seq<(Seq<char>, ValueV)>)
    ensures
        m.declare_all(bs).stack == m.stack,
    decreases bs.len(),
{
    if bs.len() > 0 {
        lemma_declare_keeps_stack(m, bs.drop_last());
    }
}

proof fn lemma_try_arms(
    m: MachineV,
    arms: Seq<(Seq<PatternV>, Option<ExprV>, ExprV)>,
    i: int,
    j: int,
    v: ValueV,
)
    ensures
        keeps(m.stack, try_arms(m, arms, i, j, v)),
    decreases
            arms.len() - i,
            if 0 <= i < arms.len() {
                arms[i].0.len() - j
            } else {
                0
            },
{
    if 0 <= i < arms.len() {
        if j < 0 || j >= arms[i].0.len() {
            lemma_try_arms(m, arms, i + 1, 0, v);
        } else {
            match matched(arms[i].0[j], v, m.variants(), Seq::empty()) {
                Err(_) => {},
                Ok(None) => lemma_try_arms(m, arms, i, j + 1, v),
                Ok(Some(bs)) => lemma_declare_keeps_stack(m.push_scope(), bs),
            }
        }
    }
}

proof fn lemma_starts(m: MachineV, e: ExprV, s: StmtV)
    ensures
        keeps(m.stack, eval_step(m, e)),
        keeps(m.stack, exec_step(m, s)),
{
}

proof fn lemma_method(m: MachineV, obj: ValueV, method: Seq<char>, args: Seq<ExprV>)
    ensures
        keeps(m.stack, method_step(m, obj, method, args)),
{
}

proof fn lemma_apply(m: MachineV, task: TaskV, vals: Seq<ValueV>)
    ensures
        keeps(m.stack, apply(m, task, vals)),
{
    match task {
        TaskV::Method(method, args) => lemma_method(m, vals[0], method, args),
        TaskV::MatchOn(arms) => lemma_try_arms(m, arms, 0, 0, vals[0]),
        TaskV::Guard(arms, i, j, v) => lemma_try_arms(m.pop_scope(), arms, i, j, v),
        _ => {},
    }
}

proof fn lemma_block_step(m: MachineV, kind: BlockV, stmts: Seq<StmtV>, next: int)
    ensures
        keeps(m.stack, block_step(m, kind, stmts, next)),
{
}

proof fn lemma_step(m: MachineV)
    requires
        m.stack.len() > 0,
    ensures
        keeps(m.stack.drop_last(), step(m)),
        m.ctl is Exec || m.ctl is Eval ==> keeps(m.stack, step(m)),
{
    let m0 = m.with(CtlV::Stopped);
    match m.ctl {
        CtlV::Eval(e) => lemma_starts(m0, e, arbitrary()),
        CtlV::Exec(s) => lemma_starts(m0, arbitrary(), s),
        CtlV::Ready => match m.stack.last() {
            FrameV::Collect { task, exprs, vals } => lemma_apply(m0.pop(), task, vals),
            _ => {},
        },
        CtlV::Next => match m.stack.last() {
            FrameV::Block { kind, stmts, next, span } => {
                lemma_block_step(MachineV { span, ..m0.pop() }, kind, stmts, next);
            },
            _ => {},
        },
        _ => {},
    }
    assert(m.stack.drop_last().is_prefix_of(m.stack));
}

/// One step of a call under way: the call goes on, or it ends, or the program fails.
/// An answer of the host changes nothing of this.
pub proof fn law_call_step(now: MachineV, outer: MachineV, v: ValueV)
    requires
        fits(now),
        within_call(now, outer),
    ensures
        step(now).1 is Fail || within_call(step(now).0, outer) || (step(now).1 is Continue
            && call_ended(now, step(now).0, outer)),
        within_call(answered(now, v), outer),
{
    let b = outer.stack.len() as int;
    let next = step(now).0;
    lemma_step(now);
    if now.stack.len() > b + 1 {
        assert(now.stack.drop_last().take(b) =~= outer.stack);
        assert(next.stack[b] == now.stack.drop_last()[b]);
        assert(outer.stack.is_prefix_of(next.stack));
    } else {
        assert(now.stack.drop_last() =~= outer.stack);
        assert(now.stack.last() == now.stack[b]);
    }
}

/// A call runs apart from its caller for as long as it takes. It ends `k` steps on,
/// or is still under way.
pub proof fn law_call_runs_apart(
    outer: MachineV,
    frame: Map<Seq<char>, ValueV>,
    body: Seq<StmtV>,
    n: nat,
) -> (k: nat)
    requires
        fits(outer.call_frame(frame, body).0),
        outer.returned is None,
    ensures
        k <= n,
        steps(outer.call_frame(frame, body).0, k).1 is Continue,
        within_call(steps(outer.call_frame(frame, body).0, k).0, outer),
        ({
            let now = steps(outer.call_frame(frame, body).0, k).0;
            ||| k == n
            ||| now.ctl is Wait
            ||| step(now).1 is Fail
            ||| !(step(now).1 is Continue) && within_call(step(now).0, outer)
            ||| step(now).1 is Continue && call_ended(now, step(now).0, outer)
        }),
{
    let start = outer.call_frame(frame, body).0;
    assert(start.stack[outer.stack.len() as int] == start.stack.last());
    assert(outer.stack.is_prefix_of(start.stack));
    lemma_runs_apart(start, outer, n)
}

proof fn lemma_runs_apart(now: MachineV, outer: MachineV, n: nat) -> (k: nat)
    requires
        fits(now),
        within_call(now, outer),
    ensures
        k <= n,
        steps(now, k).1 is Continue,
        within_call(steps(now, k).0, outer),
        ({
            let end = steps(now, k).0;
            ||| k == n
            ||| end.ctl is Wait
            ||| step(end).1 is Fail
            ||| !(step(end).1 is Continue) && within_call(step(end).0, outer)
            ||| step(end).1 is Continue && call_ended(end, step(end).0, outer)
        }),
    decreases n,
{
    if n == 0 || now.ctl is Wait {
        0
    } else {
        law_machine_never_stuck(now);
        law_call_step(now, outer, ValueV::Unit);
        match step(now) {
            (m1, ActionV::Continue) => if within_call(m1, outer) {
                let k = lemma_runs_apart(m1, outer, (n - 1) as nat);
                assert(steps(now, k + 1) == steps(m1, k));
                k + 1
            } else {
                0
            },
            _ => 0,
        }
    }
}

// ---- a call does not see its caller ----

/// The same machine with these frames in the place of the lowest `n`.
pub open spec fn rebased(m: MachineV, n: int, base: Seq<FrameV>) -> MachineV {
    MachineV { stack: base + m.stack.skip(n), ..m }
}

/// A step from above the lowest `n` frames does the same above other frames.
spec fn same_above(r: Stepped, q: Stepped, n: int, base: Seq<FrameV>) -> bool {
    &&& n <= r.0.stack.len()
    &&& q.1 == r.1
    &&& q.0.stack =~= base + r.0.stack.skip(n)
    &&& q.0 == (MachineV { stack: q.0.stack, ..r.0 })
}

proof fn lemma_declare_above(m: MachineV, bs: Seq<(Seq<char>, ValueV)>, base: Seq<FrameV>)
    ensures
        (MachineV { stack: base, ..m }).declare_all(bs) == (MachineV {
            stack: base,
            ..m.declare_all(bs)
        }),
    decreases bs.len(),
{
    if bs.len() > 0 {
        lemma_declare_above(m, bs.drop_last(), base);
    }
}

proof fn lemma_arms_above(
    m: MachineV,
    arms: Seq<(Seq<PatternV>, Option<ExprV>, ExprV)>,
    i: int,
    j: int,
    v: ValueV,
    base: Seq<FrameV>,
)
    ensures
        same_above(
            try_arms(m, arms, i, j, v),
            try_arms(MachineV { stack: base, ..m }, arms, i, j, v),
            m.stack.len() as int,
            base,
        ),
    decreases
            arms.len() - i,
            if 0 <= i < arms.len() {
                arms[i].0.len() - j
            } else {
                0
            },
{
    if 0 <= i < arms.len() {
        if j < 0 || j >= arms[i].0.len() {
            lemma_arms_above(m, arms, i + 1, 0, v, base);
        } else {
            match matched(arms[i].0[j], v, m.variants(), Seq::empty()) {
                Err(_) => {},
                Ok(None) => lemma_arms_above(m, arms, i, j + 1, v, base),
                Ok(Some(bs)) => {
                    lemma_declare_keeps_stack(m.push_scope(), bs);
                    lemma_declare_above(m.push_scope(), bs, base);
                    assert((MachineV { stack: base, ..m }).push_scope() == (MachineV {
                        stack: base,
                        ..m.push_scope()
                    }));
                },
            }
        }
    }
}

#[verifier::rlimit(60)]
proof fn lemma_starts_above(m: MachineV, e: ExprV, s: StmtV, base: Seq<FrameV>)
    ensures
        same_above(
            eval_step(m, e),
            eval_step(MachineV { stack: base, ..m }, e),
            m.stack.len() as int,
            base,
        ),
        same_above(
            exec_step(m, s),
            exec_step(MachineV { stack: base, ..m }, s),
            m.stack.len() as int,
            base,
        ),
{
}

#[verifier::rlimit(60)]
proof fn lemma_method_above(
    m: MachineV,
    obj: ValueV,
    method: Seq<char>,
    args: Seq<ExprV>,
    base: Seq<FrameV>,
)
    ensures
        same_above(
            method_step(m, obj, method, args),
            method_step(MachineV { stack: base, ..m }, obj, method, args),
            m.stack.len() as int,
            base,
        ),
{
}

#[verifier::rlimit(60)]
proof fn lemma_apply_above(m: MachineV, task: TaskV, vals: Seq<ValueV>, base: Seq<FrameV>)
    ensures
        same_above(
            apply(m, task, vals),
            apply(MachineV { stack: base, ..m }, task, vals),
            m.stack.len() as int,
            base,
        ),
{
    match task {
        TaskV::Method(method, args) => lemma_method_above(m, vals[0], method, args, base),
        TaskV::MatchOn(arms) => lemma_arms_above(m, arms, 0, 0, vals[0], base),
        TaskV::Guard(arms, i, j, v) => lemma_arms_above(m.pop_scope(), arms, i, j, v, base),
        _ => {},
    }
}

#[verifier::rlimit(60)]
proof fn lemma_block_above(
    m: MachineV,
    kind: BlockV,
    stmts: Seq<StmtV>,
    next: int,
    base: Seq<FrameV>,
)
    ensures
        same_above(
            block_step(m, kind, stmts, next),
            block_step(MachineV { stack: base, ..m }, kind, stmts, next),
            m.stack.len() as int,
            base,
        ),
{
}

/// A call that `outer` made, as if `other` had made it.
pub open spec fn beside(now: MachineV, outer: MachineV, other: MachineV) -> MachineV {
    let b = outer.stack.len() as int;
    match now.stack[b] {
        FrameV::Block { stmts, next, span, .. } => rebased(
            now,
            b + 1,
            other.stack.push(
                FrameV::Block { kind: BlockV::Call(other.scopes), stmts, next, span },
            ),
        ),
        _ => now,
    }
}

/// A call does not see its caller: in every state of the call, whatever variables and
/// whatever else the caller has, the next step is the same, and it asks the same of the
/// host. So a name in the body stands for a parameter, for what the body declares, or for
/// a global, and for nothing of the caller. Where the call ends, it ends with the same.
#[verifier::rlimit(100)]
pub proof fn law_call_sees_no_caller(now: MachineV, outer: MachineV, other: MachineV)
    requires
        fits(now),
        within_call(now, outer),
    ensures
        step(beside(now, outer, other)).1 == step(now).1,
        within_call(step(now).0, outer) ==> step(beside(now, outer, other)).0 == beside(
            step(now).0,
            outer,
            other,
        ),
        step(now).1 is Continue && !within_call(step(now).0, outer) ==> step(
            beside(now, outer, other),
        ).0 == (MachineV { stack: other.stack, scopes: other.scopes, ..step(now).0 }),
{
    let b = outer.stack.len() as int;
    let there = beside(now, outer, other);
    let m0 = now.with(CtlV::Stopped);
    let t0 = there.with(CtlV::Stopped);
    let r = step(now);
    let q = step(there);
    law_call_step(now, outer, arbitrary());
    lemma_step(now);
    assert(there.stack.last() == now.stack.last() || now.stack.len() == b + 1);
    match now.ctl {
        CtlV::Eval(e) => {
            lemma_starts(m0, e, arbitrary());
            lemma_starts_above(m0, e, arbitrary(), there.stack);
            assert(r.0.stack[b] == now.stack[b]);
            lemma_above(now, r, q, outer, other, now.stack.len() as int);
        },
        CtlV::Exec(s) => {
            lemma_starts(m0, arbitrary(), s);
            lemma_starts_above(m0, arbitrary(), s, there.stack);
            assert(r.0.stack[b] == now.stack[b]);
            lemma_above(now, r, q, outer, other, now.stack.len() as int);
        },
        _ => if now.stack.len() > b + 1 {
            let base = there.stack.drop_last();
            let under = now.stack.drop_last();
            assert(r.0.stack[b] == under[b]);
            assert(there.stack.last() == now.stack.last());
            assert(base =~= other.stack.push(there.stack[other.stack.len() as int]) + under.skip(
                b + 1,
            ));
            match now.stack.last() {
                FrameV::Collect { task, exprs, vals } => {
                    lemma_apply_above(m0.pop(), task, vals, base);
                    assert(t0.pop() == (MachineV { stack: base, ..m0.pop() }));
                },
                FrameV::Block { kind, stmts, next, span } => {
                    let p = MachineV { span, ..m0.pop() };
                    lemma_block_above(p, kind, stmts, next, base);
                    assert(MachineV { span, ..t0.pop() } == (MachineV { stack: base, ..p }));
                },
                _ => {},
            }
            assert(same_above(r, q, under.len() as int, base));
            lemma_above(now, r, q, outer, other, under.len() as int);
        } else {
            assert(now.stack.drop_last() =~= outer.stack);
            assert(there.stack.drop_last() =~= other.stack);
            assert(now.stack.last() == now.stack[b]);
            if within_call(r.0, outer) {
                assert(r.0.stack.skip(b + 1) =~= Seq::empty());
                assert(q.0.stack =~= beside(r.0, outer, other).stack);
            }
        },
    }
}

/// What is above the frames of a call goes with it.
proof fn lemma_above(
    now: MachineV,
    r: Stepped,
    q: Stepped,
    outer: MachineV,
    other: MachineV,
    n: int,
)
    requires
        within_call(now, outer),
        outer.stack.len() < n <= now.stack.len(),
        now.stack.take(n).is_prefix_of(r.0.stack),
        same_above(r, q, n, beside(now, outer, other).stack.take(
            other.stack.len() + n - outer.stack.len(),
        )),
    ensures
        q.1 == r.1,
        q.0 == beside(r.0, outer, other),
{
    let b = outer.stack.len() as int;
    assert(now.stack.take(n)[b] == now.stack[b]);
    assert(r.0.stack[b] == now.stack[b]);
    assert forall|i: int| 0 <= i < n implies r.0.stack[i] == now.stack[i] by {
        assert(now.stack.take(n)[i] == now.stack[i]);
    }
    assert(q.0.stack =~= beside(r.0, outer, other).stack);
}

} // verus!
