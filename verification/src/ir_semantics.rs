//! What native code does that works on words, truth values and slots.
//!
//! A stretch of code is run from one instruction up to another. Where it
//! branches, it goes on in a block that has no instruction yet, as code for an
//! expression does.

use crate::ir::{Arith, Cast, Cond, InstV, OpV, Ty, Val};
use crate::value::{law_division, magnitude, quotient, remainder};
use vstd::prelude::*;

verus! {

/// What an instruction gives.
pub enum Datum {
    Word(i64),
    Truth(bool),
}

/// What code can read: what the instructions before have given, by their
/// numbers, the words in the slots of the frame, the parameters, and the words of
/// allocations by their addresses. An address is a word.
pub struct Memory {
    pub regs: Map<int, Datum>,
    pub slots: Map<int, i64>,
    pub params: Seq<i64>,
    pub heap: Map<int, i64>,
}

/// Where a run ends.
pub enum Outcome {
    /// At the end of the stretch, in a block.
    Reached(usize, Memory),
    /// The program stops with the diagnostic that is the constant text of that
    /// number, and with the two numbers that it may speak of.
    Stopped(usize, Option<Datum>, Option<Datum>),
    /// At an instruction that is none of those described here, or whose result
    /// is not defined.
    Stuck,
}

/// The word that a number leaves.
pub open spec fn wrapped(n: int) -> i64 {
    ((n + 0x8000_0000_0000_0000) % 0x1_0000_0000_0000_0000 - 0x8000_0000_0000_0000) as i64
}

/// The value of an operand.
pub open spec fn operand(mem: Memory, v: Val) -> Option<Datum> {
    match v {
        Val::Word(n) => Some(Datum::Word(n)),
        Val::Reg(k) => if mem.regs.contains_key(k as int) {
            Some(mem.regs[k as int])
        } else {
            None
        },
        Val::Param(k) => if k < mem.params.len() {
            Some(Datum::Word(mem.params[k as int]))
        } else {
            None
        },
        _ => None,
    }
}

/// A number that a diagnostic speaks of.
pub open spec fn spoken(mem: Memory, args: Seq<Val>, i: int) -> Option<Datum> {
    if i < args.len() {
        operand(mem, args[i])
    } else {
        None
    }
}

/// The address so many bytes behind another.
pub open spec fn address(p: i64, bytes: int) -> Option<Datum> {
    if i64::MIN <= p + bytes <= i64::MAX {
        Some(Datum::Word((p + bytes) as i64))
    } else {
        None
    }
}

/// Arithmetic on words. A quotient has to be there and to fit.
pub open spec fn arith(k: Arith, x: i64, y: i64) -> Option<i64> {
    match k {
        Arith::Add => Some(wrapped(x + y)),
        Arith::Sub => Some(wrapped(x - y)),
        Arith::Mul => Some(wrapped(x * y)),
        Arith::Div => if y == 0 || (x == i64::MIN && y == -1) {
            None
        } else {
            Some(quotient(x as int, y as int) as i64)
        },
        Arith::Rem => if y == 0 || (x == i64::MIN && y == -1) {
            None
        } else {
            Some(remainder(x as int, y as int) as i64)
        },
        _ => None,
    }
}

/// A comparison of two words.
pub open spec fn compared(c: Cond, x: i64, y: i64) -> bool {
    match c {
        Cond::Eq => x == y,
        Cond::Ne => x != y,
        Cond::Lt => x < y,
        Cond::Le => x <= y,
        Cond::Gt => x > y,
        Cond::Ge => x >= y,
    }
}

/// What an instruction gives, where it is one of those described here.
pub open spec fn computed(op: OpV, mem: Memory) -> Option<Datum> {
    match op {
        OpV::Arith(k, a, b) => match (operand(mem, a), operand(mem, b)) {
            (Some(Datum::Word(x)), Some(Datum::Word(y))) => match arith(k, x, y) {
                Some(r) => Some(Datum::Word(r)),
                None => None,
            },
            (Some(Datum::Truth(x)), Some(Datum::Truth(y))) => match k {
                Arith::And => Some(Datum::Truth(x && y)),
                Arith::Or => Some(Datum::Truth(x || y)),
                _ => None,
            },
            _ => None,
        },
        OpV::Neg(a) => match operand(mem, a) {
            Some(Datum::Word(x)) => Some(Datum::Word(wrapped(-x))),
            _ => None,
        },
        OpV::Compare(c, a, b) => match (operand(mem, a), operand(mem, b)) {
            (Some(Datum::Word(x)), Some(Datum::Word(y))) => Some(Datum::Truth(compared(c, x, y))),
            _ => None,
        },
        OpV::Not(a) => match operand(mem, a) {
            Some(Datum::Truth(x)) => Some(Datum::Truth(!x)),
            _ => None,
        },
        OpV::Cast(Cast::BoolToWord, a) => match operand(mem, a) {
            Some(Datum::Truth(x)) => Some(
                Datum::Word(
                    if x {
                        1
                    } else {
                        0
                    },
                ),
            ),
            _ => None,
        },
        OpV::Select(c, a, b) => match operand(mem, c) {
            Some(Datum::Truth(x)) => if x {
                operand(mem, a)
            } else {
                operand(mem, b)
            },
            _ => None,
        },
        OpV::Load(Ty::Word, Val::Slot(k)) => if mem.slots.contains_key(k as int) {
            Some(Datum::Word(mem.slots[k as int]))
        } else {
            None
        },
        OpV::Load(Ty::Word, a) => match operand(mem, a) {
            Some(Datum::Word(p)) => if mem.heap.contains_key(p as int) {
                Some(Datum::Word(mem.heap[p as int]))
            } else {
                None
            },
            _ => None,
        },
        OpV::Offset(Ty::Byte, a, n) => match (operand(mem, a), operand(mem, n)) {
            (Some(Datum::Word(p)), Some(Datum::Word(k))) => address(p, k as int),
            _ => None,
        },
        OpV::Offset(Ty::Word, a, n) => match (operand(mem, a), operand(mem, n)) {
            (Some(Datum::Word(p)), Some(Datum::Word(k))) => address(p, 8 * k),
            _ => None,
        },
        OpV::Cast(Cast::WordToPtr, a) => match operand(mem, a) {
            Some(Datum::Word(p)) => Some(Datum::Word(p)),
            _ => None,
        },
        OpV::Cast(Cast::PtrToWord, a) => match operand(mem, a) {
            Some(Datum::Word(p)) => Some(Datum::Word(p)),
            _ => None,
        },
        _ => None,
    }
}

/// What is known once an instruction has given something.
pub open spec fn given(mem: Memory, n: int, d: Datum) -> Memory {
    Memory { regs: mem.regs.insert(n, d), ..mem }
}

/// A block has no instruction among the first `n`.
pub open spec fn is_fresh(insts: Seq<InstV>, b: usize, n: int) -> bool {
    forall|i: int| 0 <= i < n && i < insts.len() ==> (#[trigger] insts[i]).block != b
}

/// The instructions of block `b`, and of those it branches to, from the `n`th up
/// to before the one numbered `to`.
pub open spec fn run(insts: Seq<InstV>, b: usize, n: int, to: int, mem: Memory) -> Outcome
    decreases to - n,
{
    if n >= to || n < 0 || n >= insts.len() {
        Outcome::Reached(b, mem)
    } else if insts[n].block != b {
        run(insts, b, n + 1, to, mem)
    } else {
        match insts[n].op {
            OpV::Jump(t) => if is_fresh(insts, t, n + 1) {
                run(insts, t, n + 1, to, mem)
            } else {
                Outcome::Stuck
            },
            OpV::Branch(c, yes, no) => match operand(mem, c) {
                Some(Datum::Truth(x)) => {
                    let t = if x {
                        yes
                    } else {
                        no
                    };
                    if is_fresh(insts, t, n + 1) {
                        run(insts, t, n + 1, to, mem)
                    } else {
                        Outcome::Stuck
                    }
                },
                _ => Outcome::Stuck,
            },
            OpV::Run(name, args) => if name == "zarrin.abort"@ && args.len() > 0 {
                match args[0] {
                    Val::Text(k) => Outcome::Stopped(k, spoken(mem, args, 1), spoken(mem, args, 2)),
                    _ => Outcome::Stuck,
                }
            } else {
                Outcome::Stuck
            },
            op => match computed(op, mem) {
                Some(d) => run(insts, b, n + 1, to, given(mem, n, d)),
                None => Outcome::Stuck,
            },
        }
    }
}

/// A run over two stretches is a run over the first, and from where that ends a
/// run over the second.
pub proof fn law_runs_compose(
    insts: Seq<InstV>,
    b: usize,
    n: int,
    mid: int,
    to: int,
    mem: Memory,
)
    requires
        0 <= n <= mid <= to <= insts.len(),
    ensures
        run(insts, b, n, to, mem) == (match run(insts, b, n, mid, mem) {
            Outcome::Reached(b1, mem1) => run(insts, b1, mid, to, mem1),
            other => other,
        }),
    decreases mid - n,
{
    if n < mid {
        if insts[n].block != b {
            law_runs_compose(insts, b, n + 1, mid, to, mem);
        } else {
            match insts[n].op {
                OpV::Jump(t) => law_runs_compose(insts, t, n + 1, mid, to, mem),
                OpV::Branch(c, yes, no) => {
                    law_runs_compose(insts, yes, n + 1, mid, to, mem);
                    law_runs_compose(insts, no, n + 1, mid, to, mem);
                },
                OpV::Run(_, _) => {},
                op => match computed(op, mem) {
                    Some(d) => law_runs_compose(insts, b, n + 1, mid, to, given(mem, n, d)),
                    None => {},
                },
            }
        }
    }
}

/// What code does does not depend on what stands behind it.
pub proof fn law_later_code_does_not_matter(
    insts: Seq<InstV>,
    longer: Seq<InstV>,
    b: usize,
    n: int,
    to: int,
    mem: Memory,
)
    requires
        0 <= n <= to <= insts.len() <= longer.len(),
        forall|i: int| 0 <= i < insts.len() ==> insts[i] == #[trigger] longer[i],
    ensures
        run(insts, b, n, to, mem) == run(longer, b, n, to, mem),
    decreases to - n,
{
    if n < to {
        assert(insts[n] == longer[n]);
        assert forall|t: usize| is_fresh(insts, t, n + 1) == #[trigger] is_fresh(
            longer,
            t,
            n + 1,
        ) by {
            if is_fresh(insts, t, n + 1) {
                assert forall|i: int| 0 <= i < n + 1 && i < longer.len() implies (
                #[trigger] longer[i]).block != t by {
                    assert(insts[i] == longer[i]);
                }
            }
            if is_fresh(longer, t, n + 1) {
                assert forall|i: int| 0 <= i < n + 1 && i < insts.len() implies (
                #[trigger] insts[i]).block != t by {
                    assert(insts[i] == longer[i]);
                }
            }
        }
        if insts[n].block != b {
            law_later_code_does_not_matter(insts, longer, b, n + 1, to, mem);
        } else {
            match insts[n].op {
                OpV::Jump(t) => law_later_code_does_not_matter(insts, longer, t, n + 1, to, mem),
                OpV::Branch(c, yes, no) => {
                    law_later_code_does_not_matter(insts, longer, yes, n + 1, to, mem);
                    law_later_code_does_not_matter(insts, longer, no, n + 1, to, mem);
                },
                OpV::Run(_, _) => {},
                op => match computed(op, mem) {
                    Some(d) => law_later_code_does_not_matter(
                        insts,
                        longer,
                        b,
                        n + 1,
                        to,
                        given(mem, n, d),
                    ),
                    None => {},
                },
            }
        }
    }
}

// ---- whole functions ----

/// Where a running function is: before the `n`th instruction, on its way to the
/// next one of a block; or it has stopped the program; or it cannot go on.
pub enum Point {
    At(usize, int, Memory),
    Stopped(usize, Option<Datum>, Option<Datum>),
    Stuck,
}

/// One step of a function. An instruction of another block is passed over.
pub open spec fn moved(insts: Seq<InstV>, b: usize, n: int, mem: Memory) -> Point {
    if n < 0 || n >= insts.len() {
        Point::Stuck
    } else if insts[n].block != b {
        Point::At(b, n + 1, mem)
    } else {
        match insts[n].op {
            OpV::Jump(t) => Point::At(t, 0, mem),
            OpV::Branch(c, yes, no) => match operand(mem, c) {
                Some(Datum::Truth(x)) => Point::At(
                    if x {
                        yes
                    } else {
                        no
                    },
                    0,
                    mem,
                ),
                _ => Point::Stuck,
            },
            OpV::Run(name, args) => if name == "zarrin.abort"@ && args.len() > 0 {
                match args[0] {
                    Val::Text(k) => Point::Stopped(k, spoken(mem, args, 1), spoken(mem, args, 2)),
                    _ => Point::Stuck,
                }
            } else {
                Point::Stuck
            },
            OpV::Store(Val::Slot(k), v) => match operand(mem, v) {
                Some(Datum::Word(w)) => Point::At(b, n + 1, stored(mem, k as int, w)),
                _ => Point::Stuck,
            },
            op => match computed(op, mem) {
                Some(d) => Point::At(b, n + 1, given(mem, n, d)),
                None => Point::Stuck,
            },
        }
    }
}

/// What is known once a word is in a slot.
pub open spec fn stored(mem: Memory, k: int, w: i64) -> Memory {
    Memory { slots: mem.slots.insert(k, w), ..mem }
}

/// Where a number of steps lead.
pub open spec fn walked(insts: Seq<InstV>, p: Point, k: nat) -> Point
    decreases k,
{
    if k == 0 {
        p
    } else {
        match p {
            Point::At(b, n, mem) => walked(insts, moved(insts, b, n, mem), (k - 1) as nat),
            _ => p,
        }
    }
}

/// Steps, and then more steps.
pub proof fn law_walks_add_up(insts: Seq<InstV>, p: Point, a: nat, b: nat)
    ensures
        walked(insts, p, a + b) == walked(insts, walked(insts, p, a), b),
    decreases a,
{
    match p {
        Point::At(c, n, mem) => if a > 0 {
            law_walks_add_up(insts, moved(insts, c, n, mem), (a - 1) as nat, b);
        },
        _ => {
            lemma_walk_over(insts, p, a);
            lemma_walk_over(insts, p, b);
            lemma_walk_over(insts, p, a + b);
        },
    }
}

proof fn lemma_walk_over(insts: Seq<InstV>, p: Point, k: nat)
    requires
        !(p is At),
    ensures
        walked(insts, p, k) == p,
{
}

/// What belongs to other blocks is passed over.
pub proof fn law_other_blocks_are_passed(insts: Seq<InstV>, b: usize, n: int, to: int, mem: Memory)
    requires
        0 <= n <= to <= insts.len(),
        forall|i: int| n <= i < to ==> (#[trigger] insts[i]).block != b,
    ensures
        walked(insts, Point::At(b, n, mem), (to - n) as nat) == Point::At(b, to, mem),
    decreases to - n,
{
    if n < to {
        assert(insts[n].block != b);
        law_other_blocks_are_passed(insts, b, n + 1, to, mem);
        assert((to - n - 1) as nat == (to - (n + 1)) as nat);
    }
}

/// A stretch of code that runs does so in a number of steps.
pub proof fn law_run_takes_steps(insts: Seq<InstV>, b: usize, n: int, to: int, mem: Memory) -> (k:
    nat)
    requires
        0 <= n <= to <= insts.len(),
    ensures
        match run(insts, b, n, to, mem) {
            Outcome::Reached(c, after) => walked(insts, Point::At(b, n, mem), k) == Point::At(
                c,
                to,
                after,
            ),
            Outcome::Stopped(x, y, z) => walked(insts, Point::At(b, n, mem), k) == Point::Stopped(
                x,
                y,
                z,
            ),
            Outcome::Stuck => true,
        },
    decreases to - n,
{
    let p = Point::At(b, n, mem);
    if n == to {
        0
    } else {
        match moved(insts, b, n, mem) {
            Point::At(c, at, now) => {
                if at == n + 1 {
                    let k = law_run_takes_steps(insts, c, n + 1, to, now);
                    assert(walked(insts, p, k + 1) == walked(insts, Point::At(c, at, now), k));
                    k + 1
                } else if is_fresh(insts, c, n + 1) {
                    law_other_blocks_are_passed(insts, c, 0, n + 1, mem);
                    let k = law_run_takes_steps(insts, c, n + 1, to, mem);
                    let skip = (n + 1) as nat;
                    law_walks_add_up(insts, Point::At(c, 0, mem), skip, k);
                    assert(walked(insts, p, skip + k + 1) == walked(
                        insts,
                        Point::At(c, 0, mem),
                        skip + k,
                    ));
                    skip + k + 1
                } else {
                    0
                }
            },
            Point::Stopped(_, _, _) => {
                assert(walked(insts, p, 1) == walked(insts, moved(insts, b, n, mem), 0));
                1
            },
            Point::Stuck => 0,
        }
    }
}

// ---- allocations ----

/// Where a function that works on allocations is, and which allocations it has freed.
pub enum Turn {
    At(usize, int, Memory, Seq<i64>),
    Returned(Memory, Seq<i64>),
    Stuck,
}

/// One step of such a function: it may also change a word of an allocation, free one,
/// and return.
pub open spec fn turned(insts: Seq<InstV>, b: usize, n: int, mem: Memory, freed: Seq<i64>) -> Turn {
    match moved(insts, b, n, mem) {
        Point::At(b1, n1, mem1) => Turn::At(b1, n1, mem1, freed),
        Point::Stopped(_, _, _) => Turn::Stuck,
        Point::Stuck => if 0 <= n < insts.len() && insts[n].block == b {
            match insts[n].op {
                OpV::Store(a, v) => match (operand(mem, a), operand(mem, v)) {
                    (Some(Datum::Word(p)), Some(Datum::Word(x))) => if mem.heap.contains_key(
                        p as int,
                    ) {
                        Turn::At(b, n + 1, kept(mem, p as int, x), freed)
                    } else {
                        Turn::Stuck
                    },
                    _ => Turn::Stuck,
                },
                OpV::Run(name, args) => if name == "free"@ && args.len() == 1 {
                    match operand(mem, args[0]) {
                        Some(Datum::Word(p)) => Turn::At(b, n + 1, mem, freed.push(p)),
                        _ => Turn::Stuck,
                    }
                } else {
                    Turn::Stuck
                },
                OpV::Return(None) => Turn::Returned(mem, freed),
                _ => Turn::Stuck,
            }
        } else {
            Turn::Stuck
        },
    }
}

/// What is known once a word of an allocation is changed.
pub open spec fn kept(mem: Memory, p: int, x: i64) -> Memory {
    Memory { heap: mem.heap.insert(p, x), ..mem }
}

/// Where a number of steps lead.
pub open spec fn turns(insts: Seq<InstV>, p: Turn, k: nat) -> Turn
    decreases k,
{
    if k == 0 {
        p
    } else {
        match p {
            Turn::At(b, n, mem, freed) => turns(
                insts,
                turned(insts, b, n, mem, freed),
                (k - 1) as nat,
            ),
            _ => p,
        }
    }
}

/// Steps, and then more steps.
pub proof fn law_turns_add_up(insts: Seq<InstV>, p: Turn, a: nat, b: nat)
    ensures
        turns(insts, p, a + b) == turns(insts, turns(insts, p, a), b),
    decreases a,
{
    match p {
        Turn::At(c, n, mem, freed) => if a > 0 {
            law_turns_add_up(insts, turned(insts, c, n, mem, freed), (a - 1) as nat, b);
        },
        _ => {
            assert(turns(insts, p, a) == p);
            assert(turns(insts, p, b) == p);
            assert(turns(insts, p, a + b) == p);
        },
    }
}

/// On the way to its next instruction a block passes those of others.
pub proof fn law_turns_pass(
    insts: Seq<InstV>,
    b: usize,
    n: int,
    to: int,
    mem: Memory,
    freed: Seq<i64>,
)
    requires
        0 <= n <= to <= insts.len(),
        forall|i: int| n <= i < to ==> (#[trigger] insts[i]).block != b,
    ensures
        turns(insts, Turn::At(b, n, mem, freed), (to - n) as nat) == Turn::At(b, to, mem, freed),
    decreases to - n,
{
    if n < to {
        assert(insts[n].block != b);
        law_turns_pass(insts, b, n + 1, to, mem, freed);
        assert((to - n - 1) as nat == (to - (n + 1)) as nat);
    }
}

// ---- words ----

/// What a number within twice the range of words leaves.
pub proof fn law_wrapped(n: int)
    requires
        -0x1_0000_0000_0000_0000 <= n < 0x1_0000_0000_0000_0000,
    ensures
        i64::MIN <= n <= i64::MAX ==> wrapped(n) == n,
        n > i64::MAX ==> wrapped(n) == n - 0x1_0000_0000_0000_0000,
        n < i64::MIN ==> wrapped(n) == n + 0x1_0000_0000_0000_0000,
{
}

/// A sum overflows if and only if it comes out on the wrong side of its first
/// operand, and so does a difference.
pub proof fn law_sum_overflow(x: i64, y: i64)
    ensures
        ((y < 0) != (wrapped(x + y) < x)) == !(i64::MIN <= x + y <= i64::MAX),
        ((y > 0) != (wrapped(x - y) < x)) == !(i64::MIN <= x - y <= i64::MAX),
        i64::MIN <= x + y <= i64::MAX ==> wrapped(x + y) == x + y,
        i64::MIN <= x - y <= i64::MAX ==> wrapped(x - y) == x - y,
{
    law_wrapped(x + y);
    law_wrapped(x - y);
}

proof fn lemma_wrapped_differs(n: int) -> (k: int)
    ensures
        wrapped(n) == n - k * 0x1_0000_0000_0000_0000,
{
    let m = n + 0x8000_0000_0000_0000;
    let k = m / 0x1_0000_0000_0000_0000;
    assert(m == k * 0x1_0000_0000_0000_0000 + m % 0x1_0000_0000_0000_0000);
    k
}

/// A product of an operand other than 0 and -1 overflows if and only if dividing
/// by that operand does not give the other one back.
pub proof fn law_product_overflow(x: i64, y: i64)
    requires
        x != 0,
        x != -1,
    ensures
        (quotient(wrapped(x * y) as int, x as int) == y) == (i64::MIN <= x * y <= i64::MAX),
        i64::MIN <= x * y <= i64::MAX ==> wrapped(x * y) == x * y,
        i64::MIN <= quotient(wrapped(x * y) as int, x as int) <= i64::MAX,
{
    let p = x * y;
    let r = wrapped(p) as int;
    let xi = x as int;
    let yi = y as int;
    let q = quotient(r, xi);
    let m = remainder(r, xi);
    law_division(r, xi);
    let k = lemma_wrapped_differs(p);
    if i64::MIN <= p <= i64::MAX {
        law_wrapped(p);
        assert(q == yi) by (nonlinear_arith)
            requires
                xi * yi == xi * q + m,
                magnitude(m) < magnitude(xi),
                xi != 0,
                magnitude(m) == (if m < 0 {
                    -m
                } else {
                    m
                }),
                magnitude(xi) == (if xi < 0 {
                    -xi
                } else {
                    xi
                }),
        ;
    } else {
        if q == yi {
            assert(xi * q == p);
            assert(m == -k * 0x1_0000_0000_0000_0000);
            assert(k == 0);
            assert(false);
        }
    }
    assert(i64::MIN <= q <= i64::MAX) by (nonlinear_arith)
        requires
            r == xi * q + m,
            magnitude(m) < magnitude(xi),
            xi != 0,
            xi != -1,
            i64::MIN <= r <= i64::MAX,
            magnitude(m) == (if m < 0 {
                -m
            } else {
                m
            }),
            magnitude(xi) == (if xi < 0 {
                -xi
            } else {
                xi
            }),
    ;
}

} // verus!
