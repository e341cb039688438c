//! Loops in both backends: when a `for` over a range has a turn, what it has counted to
//! in it, and where `break` and `continue` lead.

use crate::agreement::lemma_one_step;
use crate::ast::{StmtKindV, StmtV};
use crate::diagnostic::Span;
use crate::ir::{Arith, Cond, InstV, OpV, Ty, Val};
use crate::ir_semantics::{
    given, is_fresh, law_other_blocks_are_passed, law_walks_add_up, operand, stored, walked,
    wrapped, Datum, Memory, Point,
};
use crate::native::{lemma_blocks, CgV, LoopCtx};
use crate::native_ops::{nothing_held, turn_head, turn_step};
use crate::native_stmt::{gen_stmt, lemma_jumps};
use crate::semantics::{
    loop_next, signal, step, steps, ActionV, BlockV, CtlV, FrameV, LoopV, MachineV, WalkV,
};
use crate::statements::{at, in_block, quiet};
use crate::value::ValueV;
use vstd::prelude::*;

verus! {

/// A `for` over a range has a turn in native code where the interpreter has one, and the
/// turn is about the same integer: control goes to the body while what is counted to is
/// less than the bound, and leaves the loop otherwise. `l` is the interpreter's loop
/// before the turn.
pub proof fn law_turn_starts(
    s: CgV,
    k: usize,
    to: Val,
    head: usize,
    body: usize,
    exit: usize,
    insts: Seq<InstV>,
    mem: Memory,
    m: MachineV,
    l: LoopV,
    var: Seq<char>,
    x: i64,
    y: i64,
) -> (after: Memory)
    requires
        turn_head(s, Val::Slot(k), to, head, body, exit).0.m.func.insts.is_prefix_of(insts),
        insts.len() <= usize::MAX,
        !s.m.func.is_left(head),
        is_fresh(insts, head, s.m.func.insts.len() as int),
        mem.slots.contains_key(k as int),
        mem.slots[k as int] == x,
        operand(mem, to) == Some(Datum::Word(y)),
        to matches Val::Reg(r) ==> r < s.m.func.insts.len(),
        l.walk == WalkV::Range(var, x as int, y as int),
        body != exit,
    ensures
        walked(insts, Point::At(head, 0, mem), (s.m.func.insts.len() + 3) as nat) == Point::At(
            if x < y {
                body
            } else {
                exit
            },
            0,
            after,
        ),
        after.slots == mem.slots,
        operand(after, turn_head(s, Val::Slot(k), to, head, body, exit).1) == Some(Datum::Word(x)),
        x < y <==> loop_next(m, l).0.stack.len() > m.stack.len() && loop_next(m, l).0.ctl is Next,
        x < y ==> loop_next(m, l) == m.push_scope().declare(
            var,
            ValueV::Int(x),
        ).run_block(
            BlockV::Loop(LoopV { walk: WalkV::Range(var, x + 1, y as int), ..l }),
            l.body,
        ),
{
    let n = s.m.func.insts.len() as int;
    let s1 = s.position(head);
    let load = OpV::Load(Ty::Word, Val::Slot(k));
    lemma_blocks(s, load, "for_cur"@, head, arbitrary());
    lemma_blocks(s1, load, "for_cur"@, head, arbitrary());
    let (s2, i) = s1.emit(load, "for_cur"@);
    let less = OpV::Compare(Cond::Lt, i, to);
    lemma_blocks(s2, less, "for_cmp"@, head, arbitrary());
    let (s3, more) = s2.emit(less, "for_cmp"@);
    let branch = OpV::Branch(more, body, exit);
    lemma_blocks(s3, branch, ""@, head, arbitrary());
    let t = s3.emit(branch, ""@).0;
    assert(t.m.func.insts =~= insts.subrange(0, n + 3));
    assert(insts[n] == t.m.func.insts[n]);
    assert(insts[n + 1] == t.m.func.insts[n + 1]);
    assert(insts[n + 2] == t.m.func.insts[n + 2]);
    law_other_blocks_are_passed(insts, head, 0, n, mem);
    let mem1 = given(mem, n, Datum::Word(x));
    let mem2 = given(mem1, n + 1, Datum::Truth(x < y));
    assert(operand(mem1, to) == Some(Datum::Word(y)));
    law_walks_add_up(insts, Point::At(head, 0, mem), n as nat, 3);
    reveal_with_fuel(walked, 4);
    mem2
}

/// After a turn a `for` has counted to one more, and starts again at its head.
pub proof fn law_turn_ends(
    s: CgV,
    k: usize,
    head: usize,
    next: usize,
    insts: Seq<InstV>,
    mem: Memory,
    x: i64,
) -> (after: Memory)
    requires
        turn_step(s, Val::Slot(k), head, next).m.func.insts.is_prefix_of(insts),
        insts.len() <= usize::MAX,
        !s.m.func.is_left(next),
        is_fresh(insts, next, s.m.func.insts.len() as int),
        mem.slots.contains_key(k as int),
        mem.slots[k as int] == x,
        x < i64::MAX,
    ensures
        walked(insts, Point::At(next, 0, mem), (s.m.func.insts.len() + 4) as nat) == Point::At(
            head,
            0,
            after,
        ),
        after.slots == mem.slots.insert(k as int, (x + 1) as i64),
{
    let n = s.m.func.insts.len() as int;
    let s1 = s.position(next);
    let load = OpV::Load(Ty::Word, Val::Slot(k));
    lemma_blocks(s, load, "for_at"@, next, arbitrary());
    lemma_blocks(s1, load, "for_at"@, next, arbitrary());
    let (s2, j) = s1.emit(load, "for_at"@);
    let one = OpV::Arith(Arith::Add, j, Val::Word(1));
    lemma_blocks(s2, one, "for_next"@, next, arbitrary());
    let (s3, j1) = s2.emit(one, "for_next"@);
    let put = OpV::Store(Val::Slot(k), j1);
    lemma_blocks(s3, put, ""@, next, arbitrary());
    let s4 = s3.emit(put, ""@).0;
    let jump = OpV::Jump(head);
    lemma_blocks(s4, jump, ""@, next, arbitrary());
    let t = s4.emit(jump, ""@).0;
    assert(t.m.func.insts =~= insts.subrange(0, n + 4));
    assert(insts[n] == t.m.func.insts[n]);
    assert(insts[n + 1] == t.m.func.insts[n + 1]);
    assert(insts[n + 2] == t.m.func.insts[n + 2]);
    assert(insts[n + 3] == t.m.func.insts[n + 3]);
    law_other_blocks_are_passed(insts, next, 0, n, mem);
    let mem1 = given(mem, n, Datum::Word(x));
    let mem2 = given(mem1, n + 1, Datum::Word((x + 1) as i64));
    law_walks_add_up(insts, Point::At(next, 0, mem), n as nat, 4);
    assert(wrapped(x + 1) == x + 1);
    reveal_with_fuel(walked, 5);
    stored(mem2, k as int, (x + 1) as i64)
}

/// The interpreter after a `break` or a `continue` in the body of a loop: the scope of
/// the turn is gone.
pub open spec fn turn_left(m: MachineV, stack: Seq<FrameV>, span: Span) -> MachineV {
    MachineV { span, ..at(m, stack, CtlV::Stopped).pop_scope() }
}

/// A `break` without a value leaves the innermost loop in both backends: the interpreter
/// goes on after the loop, native code at the block that follows it.
pub proof fn law_break_leaves(
    s: CgV,
    st: StmtV,
    ctx: LoopCtx,
    insts: Seq<InstV>,
    mem: Memory,
    m: MachineV,
    stack: Seq<FrameV>,
    l: LoopV,
    ss: Seq<StmtV>,
    next: int,
    span: Span,
)
    requires
        st.kind == StmtKindV::Break(None),
        s.top_loop() == Some(ctx),
        forall|i: int| 0 <= i < s.scopes.len() ==> nothing_held(#[trigger] s.scopes[i]),
        !s.m.func.is_left(s.m.at),
        gen_stmt(s, st).m.func.insts.is_prefix_of(insts),
        quiet(m),
        !l.is_expr,
        next > 0,
    ensures
        walked(insts, Point::At(s.m.at, s.m.func.insts.len() as int, mem), 1) == Point::At(
            ctx.exit,
            0,
            mem,
        ),
        steps(
            at(m, stack.push(in_block(BlockV::Loop(l), ss, next, span)), CtlV::Exec(st)),
            2,
        ) == (
            MachineV { break_value: None, ..turn_left(m, stack, span) }.with(CtlV::Next),
            ActionV::Continue,
        ),
{
    lemma_jump_taken(s, st, ctx, ctx.exit, insts, mem);
    let all = stack.push(in_block(BlockV::Loop(l), ss, next, span));
    assert(all.drop_last() =~= stack);
    lemma_two_steps(m, st, all, stack);
    let inner = MachineV { should_break: true, span, ..at(m, stack, CtlV::Stopped) };
    assert(signal(inner, BlockV::Loop(l)) is Some);
}

/// A `continue` goes on with the next turn of the innermost loop in both backends.
pub proof fn law_continue_goes_on(
    s: CgV,
    st: StmtV,
    ctx: LoopCtx,
    insts: Seq<InstV>,
    mem: Memory,
    m: MachineV,
    stack: Seq<FrameV>,
    l: LoopV,
    ss: Seq<StmtV>,
    next: int,
    span: Span,
)
    requires
        st.kind is Continue,
        s.top_loop() == Some(ctx),
        forall|i: int| 0 <= i < s.scopes.len() ==> nothing_held(#[trigger] s.scopes[i]),
        !s.m.func.is_left(s.m.at),
        gen_stmt(s, st).m.func.insts.is_prefix_of(insts),
        quiet(m),
        next > 0,
    ensures
        walked(insts, Point::At(s.m.at, s.m.func.insts.len() as int, mem), 1) == Point::At(
            ctx.next,
            0,
            mem,
        ),
        steps(
            at(m, stack.push(in_block(BlockV::Loop(l), ss, next, span)), CtlV::Exec(st)),
            2,
        ) == loop_next(turn_left(m, stack, span), l),
{
    lemma_jump_taken(s, st, ctx, ctx.next, insts, mem);
    let all = stack.push(in_block(BlockV::Loop(l), ss, next, span));
    assert(all.drop_last() =~= stack);
    lemma_two_steps(m, st, all, stack);
    let inner = MachineV { should_continue: true, span, ..at(m, stack, CtlV::Stopped) };
    assert(signal(inner, BlockV::Loop(l)) is Some);
    assert(MachineV { should_continue: false, ..inner.pop_scope() } == turn_left(m, stack, span));
}

/// Native code jumps.
proof fn lemma_jump_taken(
    s: CgV,
    st: StmtV,
    ctx: LoopCtx,
    to: usize,
    insts: Seq<InstV>,
    mem: Memory,
)
    requires
        st.kind == StmtKindV::Break(None) && to == ctx.exit || st.kind is Continue && to == ctx.next,
        s.top_loop() == Some(ctx),
        forall|i: int| 0 <= i < s.scopes.len() ==> nothing_held(#[trigger] s.scopes[i]),
        !s.m.func.is_left(s.m.at),
        gen_stmt(s, st).m.func.insts.is_prefix_of(insts),
    ensures
        walked(insts, Point::At(s.m.at, s.m.func.insts.len() as int, mem), 1) == Point::At(
            to,
            0,
            mem,
        ),
{
    let n = s.m.func.insts.len() as int;
    lemma_jumps(s, st, ctx);
    let s0 = CgV { span: st.span, ..s };
    lemma_blocks(s0, OpV::Jump(to), ""@, 0, arbitrary());
    let t = gen_stmt(s, st);
    assert(t.m.func.insts =~= insts.subrange(0, n + 1));
    assert(insts[n] == t.m.func.insts[n]);
    reveal_with_fuel(walked, 2);
}

/// The interpreter notes the jump, and then leaves the block.
proof fn lemma_two_steps(m: MachineV, st: StmtV, all: Seq<FrameV>, stack: Seq<FrameV>)
    requires
        st.kind == StmtKindV::Break(None) || st.kind is Continue,
        all.len() == stack.len() + 1,
        all.drop_last() == stack,
    ensures
        ({
            let noted = MachineV {
                span: st.span,
                should_break: m.should_break || st.kind is Break,
                should_continue: m.should_continue || st.kind is Continue,
                ..at(m, all, CtlV::Next)
            };
            &&& step(at(m, all, CtlV::Exec(st))) == (noted, ActionV::Continue)
            &&& steps(at(m, all, CtlV::Exec(st)), 2) == step(noted)
        }),
{
    reveal_with_fuel(steps, 3);
    let from = at(m, all, CtlV::Exec(st));
    let (noted, action) = step(from);
    assert(steps(from, 2) == steps(noted, 1));
    lemma_one_step(noted);
}

} // verus!
