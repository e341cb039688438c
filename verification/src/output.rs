//! What native code prints: the line that `print` writes is the one that the
//! interpreter hands to its host.

use crate::agreement::{
    law_plain_types, lemma_leads, lemma_linked_later, lemma_linked_variables, lemma_one_step,
    linked, plain, worth,
};
use crate::ast::{ExprKindV, ExprV, StmtKindV, StmtV, TypeV};
use crate::diagnostic::rendered;
use crate::ir::{law_push_keeps_order, Arith, Cond, InstV, OpV, Ty, Val};
use crate::ir_semantics::{
    computed, given, is_fresh, law_later_code_does_not_matter, operand, run, spoken, Datum, Memory,
    Outcome,
};
use crate::builtins::prints;
use crate::native::{
    continues, countable, format_text, lemma_abort_text, lemma_blocks, lemma_constants,
    lemma_continues, lemma_continues_chain, lemma_emit_continues, lemma_same_code, open_here,
    settled, CgV,
};
use crate::native_expr::{
    gen_expr, law_plain_expression_compiles, lemma_plain_expression_adds, lemma_print_call,
};
use crate::native_ops::{
    lemma_known_type, lemma_print_value, lemma_spend_nothing, print_value, word_of,
};
use crate::native_rt::{lemma_text_code, number_text, truth_text, HEADER, IMMORTAL};
use crate::native_stmt::{gen_stmt, lemma_discard_code};
use crate::semantics::{step, steps, ActionV, CtlV, FrameV, MachineV, TaskV};
use crate::statements::{at, lemma_one_value};
use crate::text::{int_text, nat_text};
use crate::typing::{check_call, check_each, check_expr, check_plain_call, TypeErrorV};
use crate::value::{value_text, ValueV};
use vstd::prelude::*;

verus! {

/// What a pointer points to: a constant text, or a place in the frame, some bytes
/// behind the start of what an instruction has reserved.
pub enum Place {
    Constant(int),
    Frame(int, int),
}

/// What stands at a place in the frame.
pub enum Cell {
    Word(i64),
    Text(Seq<char>),
}

/// What code can read and write, and what it has printed.
pub struct Screen {
    pub mem: Memory,
    pub places: Map<int, Place>,
    pub cells: Map<(int, int), Cell>,
    pub shown: Seq<char>,
}

/// Where a run ends.
pub enum Ending {
    Reached(usize, Screen),
    /// The program stops with the diagnostic that is the constant text of that
    /// number, and with the two numbers that it may speak of.
    Stopped(usize, Option<Datum>, Option<Datum>),
    Stuck,
}

pub open spec fn place(w: Screen, v: Val) -> Option<Place> {
    match v {
        Val::Text(k) => Some(Place::Constant(k as int)),
        Val::Str(k) => Some(Place::Constant(k as int)),
        Val::Reg(k) => if w.places.contains_key(k as int) {
            Some(w.places[k as int])
        } else {
            None
        },
        _ => None,
    }
}

/// The text that a pointer points to.
pub open spec fn text_at(w: Screen, texts: Seq<Seq<char>>, v: Val) -> Option<Seq<char>> {
    match place(w, v) {
        Some(Place::Constant(k)) => if 0 <= k < texts.len() {
            Some(texts[k])
        } else {
            None
        },
        Some(Place::Frame(i, o)) => if w.cells.contains_key((i, o)) {
            match w.cells[(i, o)] {
                Cell::Text(t) => Some(t),
                _ => None,
            }
        } else {
            None
        },
        None => None,
    }
}

/// Formatting a word into the frame, and printing a line, as the C library does it.
pub open spec fn called(
    name: Seq<char>,
    args: Seq<Val>,
    w: Screen,
    texts: Seq<Seq<char>>,
) -> Option<Screen> {
    if name == "snprintf"@ && args.len() == 4 && text_at(w, texts, args[2]) == Some("%ld"@) {
        match (place(w, args[0]), operand(w.mem, args[1]), operand(w.mem, args[3])) {
            (Some(Place::Frame(i, o)), Some(Datum::Word(room)), Some(Datum::Word(x))) => if int_text(
                x as int,
            ).len() < room {
                Some(
                    Screen {
                        cells: w.cells.insert((i, o), Cell::Text(int_text(x as int))),
                        ..w
                    },
                )
            } else {
                None
            },
            _ => None,
        }
    } else if name == "printf"@ && args.len() == 2 && text_at(w, texts, args[0]) == Some("%s\n"@) {
        match text_at(w, texts, args[1]) {
            Some(t) => Some(Screen { shown: w.shown + t + seq!['\n'], ..w }),
            None => None,
        }
    } else {
        None
    }
}

/// What an instruction gave in an earlier turn is no longer known.
pub open spec fn forgotten(mem: Memory, n: int) -> Memory {
    Memory { regs: mem.regs.remove(n), ..mem }
}

/// What an instruction does to the frame and to what is printed.
pub open spec fn effected(op: OpV, n: int, w: Screen, texts: Seq<Seq<char>>) -> Option<Screen> {
    match op {
        OpV::Call(_, name, _) => if name == "llvm.stacksave.p0"@ {
            Some(w)
        } else {
            None
        },
        OpV::Run(name, _) => if name == "llvm.stackrestore.p0"@ {
            Some(w)
        } else {
            None
        },
        OpV::Reserve(size) => match operand(w.mem, size) {
            Some(Datum::Word(k)) => Some(
                Screen {
                    mem: forgotten(w.mem, n),
                    places: w.places.insert(n, Place::Frame(n, 0)),
                    ..w
                },
            ),
            _ => None,
        },
        OpV::Store(a, v) => match (place(w, a), operand(w.mem, v)) {
            (Some(Place::Frame(i, o)), Some(Datum::Word(x))) => Some(
                Screen { cells: w.cells.insert((i, o), Cell::Word(x)), ..w },
            ),
            _ => None,
        },
        OpV::Offset(Ty::Byte, a, v) => match (place(w, a), operand(w.mem, v)) {
            (Some(Place::Frame(i, o)), Some(Datum::Word(k))) => Some(
                Screen { places: w.places.insert(n, Place::Frame(i, o + k)), ..w },
            ),
            _ => None,
        },
        OpV::Select(c, a, b) => match (operand(w.mem, c), place(w, a), place(w, b)) {
            (Some(Datum::Truth(x)), Some(p), Some(q)) => Some(
                Screen {
                    places: w.places.insert(
                        n,
                        if x {
                            p
                        } else {
                            q
                        },
                    ),
                    ..w
                },
            ),
            _ => None,
        },
        OpV::CallHalf(name, args) => called(name, args, w, texts),
        _ => None,
    }
}

/// The instructions of block `b`, and of those it branches to, from the `n`th up to
/// before the one numbered `to`, with what they print.
pub open spec fn performed(
    texts: Seq<Seq<char>>,
    insts: Seq<InstV>,
    b: usize,
    n: int,
    to: int,
    w: Screen,
) -> Ending
    decreases to - n,
{
    if n >= to || n < 0 || n >= insts.len() {
        Ending::Reached(b, w)
    } else if insts[n].block != b {
        performed(texts, insts, b, n + 1, to, w)
    } else {
        match insts[n].op {
            OpV::Jump(t) => if is_fresh(insts, t, n + 1) {
                performed(texts, insts, t, n + 1, to, w)
            } else {
                Ending::Stuck
            },
            OpV::Branch(c, yes, no) => match operand(w.mem, c) {
                Some(Datum::Truth(x)) => {
                    let t = if x {
                        yes
                    } else {
                        no
                    };
                    if is_fresh(insts, t, n + 1) {
                        performed(texts, insts, t, n + 1, to, w)
                    } else {
                        Ending::Stuck
                    }
                },
                _ => Ending::Stuck,
            },
            op => if op is Run && op->Run_0 == "zarrin.abort"@ {
                match op->Run_1[0] {
                    Val::Text(k) => if op->Run_1.len() > 0 {
                        Ending::Stopped(k, spoken(w.mem, op->Run_1, 1), spoken(w.mem, op->Run_1, 2))
                    } else {
                        Ending::Stuck
                    },
                    _ => Ending::Stuck,
                }
            } else {
                match computed(op, w.mem) {
                    Some(d) => performed(
                        texts,
                        insts,
                        b,
                        n + 1,
                        to,
                        Screen { mem: given(w.mem, n, d), ..w },
                    ),
                    None => match effected(op, n, w, texts) {
                        Some(w1) => performed(texts, insts, b, n + 1, to, w1),
                        None => Ending::Stuck,
                    },
                }
            },
        }
    }
}

/// Code that only computes prints nothing.
proof fn lemma_computes(
    texts: Seq<Seq<char>>,
    insts: Seq<InstV>,
    b: usize,
    n: int,
    mid: int,
    to: int,
    w: Screen,
)
    requires
        0 <= n <= mid <= to <= insts.len(),
    ensures
        match run(insts, b, n, mid, w.mem) {
            Outcome::Reached(b1, mem1) => performed(texts, insts, b, n, to, w) == performed(
                texts,
                insts,
                b1,
                mid,
                to,
                Screen { mem: mem1, ..w },
            ),
            Outcome::Stopped(k, x, y) => performed(texts, insts, b, n, to, w) == Ending::Stopped(
                k,
                x,
                y,
            ),
            Outcome::Stuck => true,
        },
    decreases mid - n,
{
    if n < mid {
        if insts[n].block != b {
            lemma_computes(texts, insts, b, n + 1, mid, to, w);
        } else {
            match insts[n].op {
                OpV::Jump(t) => lemma_computes(texts, insts, t, n + 1, mid, to, w),
                OpV::Branch(c, yes, no) => {
                    lemma_computes(texts, insts, yes, n + 1, mid, to, w);
                    lemma_computes(texts, insts, no, n + 1, mid, to, w);
                },
                OpV::Run(_, _) => {},
                op => match computed(op, w.mem) {
                    Some(d) => lemma_computes(
                        texts,
                        insts,
                        b,
                        n + 1,
                        mid,
                        to,
                        Screen { mem: given(w.mem, n, d), ..w },
                    ),
                    None => {},
                },
            }
        }
    }
}

pub open spec fn tens(d: nat) -> nat
    decreases d,
{
    if d == 0 {
        1
    } else {
        10 * tens((d - 1) as nat)
    }
}

proof fn lemma_digits(n: nat, d: nat)
    requires
        d > 0,
        n < tens(d),
    ensures
        nat_text(n).len() <= d,
    decreases d,
{
    if n >= 10 {
        assert(d > 1) by {
            if d == 1 {
                assert(tens(0) == 1);
            }
        }
        lemma_digits(n / 10, (d - 1) as nat);
    }
}

/// Every integer has room in the frame.
proof fn lemma_fits(x: i64)
    ensures
        int_text(x as int).len() < 32,
{
    assert(tens(20) == 100_000_000_000_000_000_000) by {
        reveal_with_fuel(tens, 21);
    }
    lemma_digits(
        if x < 0 {
            (-x) as nat
        } else {
            x as nat
        },
        20,
    );
}

// ---- the code for a print ----

/// Code that prints a word of a type, and gives the frame back.
pub open spec fn print_tail(s: CgV, v: Val, t: TypeV, mark: Val, outer: bool) -> CgV {
    let (s, p) = if t is Int {
        number_text(s, v)
    } else {
        truth_text(s, v)
    };
    let (s, fmt) = s.text("%s\n"@);
    let s = s.emit(
        OpV::CallHalf("printf"@, Seq::empty().push(fmt).push(p)),
        "call_printf"@,
    ).0;
    let s = CgV { transient: outer, ..s };
    s.emit(OpV::Run("llvm.stackrestore.p0"@, Seq::empty().push(mark)), ""@).0
}

/// What was there stays, and the same names stand for the same.
pub open spec fn extends(s: CgV, t: CgV) -> bool {
    &&& s.m.func.insts.is_prefix_of(t.m.func.insts)
    &&& s.m.texts.is_prefix_of(t.m.texts)
    &&& s.m.func.blocks == t.m.func.blocks
    &&& s.m.func.slots == t.m.func.slots
    &&& s.m.at == t.m.at
    &&& t.scopes == s.scopes
    &&& t.types == s.types
    &&& t.span == s.span
    &&& t.path == s.path
    &&& t.src == s.src
}

/// An instruction that goes on goes to the end of the current block.
pub proof fn lemma_put(s: CgV, op: OpV, name: Seq<char>)
    requires
        !op.leaves(),
    ensures
        extends(s, s.emit(op, name).0),
        continues(s, s.emit(op, name).0),
        s.emit(op, name).0.transient == s.transient,
        s.emit(op, name).0.m.texts == s.m.texts,
        open_here(s) ==> {
            let t = s.emit(op, name).0;
            &&& open_here(t)
            &&& t.m.func.insts == s.m.func.insts.push(InstV { block: s.m.at, name, op })
            &&& s.emit(op, name).1 == Val::Reg(s.m.func.insts.len() as usize)
        },
{
    lemma_blocks(s, op, name, 0, arbitrary());
    lemma_emit_continues(s, op, name);
    if open_here(s) {
        law_push_keeps_order(s.m.func, s.m.at, op, name);
    }
}

proof fn lemma_text_put(s: CgV, text: Seq<char>)
    ensures
        extends(s, s.text(text).0),
        extends(s, s.string_global(text).0),
        continues(s, s.text(text).0),
        continues(s, s.string_global(text).0),
        s.text(text).0.transient == s.transient,
        s.text(text).0.m.texts == s.m.texts.push(text),
        s.text(text).0.m.func == s.m.func,
        s.text(text).1 == Val::Text(s.m.texts.len() as usize),
        s.string_global(text).0.m.texts == s.m.texts.push(text),
        s.string_global(text).0.m.func == s.m.func,
        s.string_global(text).1 == Val::Str(s.m.texts.len() as usize),
{
    lemma_constants(s, text, true);
    lemma_continues(s, s.text(text).0);
    lemma_continues(s, s.string_global(text).0);
}

pub proof fn lemma_tail_extends(s: CgV, v: Val, t: TypeV, mark: Val, outer: bool)
    ensures
        extends(s, print_tail(s, v, t, mark, outer)),
        continues(s, print_tail(s, v, t, mark, outer)),
{
    let (s1, p) = if t is Int {
        let (a, total) = s.emit(
            OpV::Arith(Arith::Add, Val::Word(32), Val::Word(HEADER)),
            "with_header"@,
        );
        lemma_put(
            s,
            OpV::Arith(Arith::Add, Val::Word(32), Val::Word(HEADER)),
            "with_header"@,
        );
        let (b, base) = a.emit(OpV::Reserve(total), "int_buf"@);
        lemma_put(a, OpV::Reserve(total), "int_buf"@);
        lemma_put(b, OpV::Store(base, Val::Word(IMMORTAL)), ""@);
        let c = b.emit(OpV::Store(base, Val::Word(IMMORTAL)), ""@).0;
        let (d, body) = c.emit(OpV::Offset(Ty::Byte, base, Val::Word(HEADER)), "int_buf"@);
        lemma_put(c, OpV::Offset(Ty::Byte, base, Val::Word(HEADER)), "int_buf"@);
        lemma_text_put(d, "%ld"@);
        let (e, fmt) = d.text("%ld"@);
        let args = Seq::empty().push(body).push(Val::Word(32)).push(fmt).push(v);
        lemma_put(e, OpV::CallHalf("snprintf"@, args), ""@);
        let f = e.emit(OpV::CallHalf("snprintf"@, args), ""@).0;
        lemma_continues_chain(s, a, b);
        lemma_continues_chain(s, b, c);
        lemma_continues_chain(s, c, d);
        lemma_continues_chain(s, d, e);
        lemma_continues_chain(s, e, f);
        number_text(s, v)
    } else {
        lemma_text_put(s, "true"@);
        let (a, yes) = s.string_global("true"@);
        lemma_text_put(a, "false"@);
        let (b, no) = a.string_global("false"@);
        let (c, is_true) = b.emit(
            OpV::Compare(Cond::Ne, v, Val::Word(0)),
            "is_true"@,
        );
        lemma_put(b, OpV::Compare(Cond::Ne, v, Val::Word(0)), "is_true"@);
        lemma_put(c, OpV::Select(is_true, yes, no), "bool_txt"@);
        let d = c.emit(OpV::Select(is_true, yes, no), "bool_txt"@).0;
        lemma_continues_chain(s, a, b);
        lemma_continues_chain(s, b, c);
        lemma_continues_chain(s, c, d);
        truth_text(s, v)
    };
    lemma_text_put(s1, "%s\n"@);
    let (s2, fmt) = s1.text("%s\n"@);
    let op = OpV::CallHalf("printf"@, Seq::empty().push(fmt).push(p));
    lemma_put(s2, op, "call_printf"@);
    let shown = s2.emit(op, "call_printf"@).0;
    let s3 = CgV { transient: outer, ..shown };
    let back = OpV::Run("llvm.stackrestore.p0"@, Seq::empty().push(mark));
    lemma_put(s3, back, ""@);
    lemma_same_code(shown, s3);
    lemma_continues_chain(s, s1, s2);
    lemma_continues_chain(s, s2, shown);
    lemma_continues_chain(s, shown, s3);
    lemma_continues_chain(s, s3, s3.emit(back, ""@).0);
}

/// One instruction that goes on.
proof fn lemma_perform_one(
    texts: Seq<Seq<char>>,
    insts: Seq<InstV>,
    b: usize,
    n: int,
    to: int,
    w: Screen,
)
    requires
        0 <= n < to <= insts.len(),
        insts[n].block == b,
        !insts[n].op.leaves(),
        insts[n].op is Run ==> insts[n].op->Run_0 != "zarrin.abort"@,
    ensures
        performed(texts, insts, b, n, to, w) == (match computed(insts[n].op, w.mem) {
            Some(d) => performed(
                texts,
                insts,
                b,
                n + 1,
                to,
                Screen { mem: given(w.mem, n, d), ..w },
            ),
            None => match effected(insts[n].op, n, w, texts) {
                Some(w1) => performed(texts, insts, b, n + 1, to, w1),
                None => Ending::Stuck,
            },
        }),
{
}

/// Instructions of one block that go on.
pub open spec fn straight(insts: Seq<InstV>, b: usize, n: int, to: int) -> bool {
    forall|i: int|
        n <= i < to ==> (#[trigger] insts[i]).block == b && !insts[i].op.leaves() && (
        insts[i].op is Run ==> insts[i].op->Run_0 != "zarrin.abort"@)
}

/// The names of the runtime differ from one another.
pub proof fn lemma_names()
    ensures
        "llvm.stackrestore.p0"@ != "zarrin.abort"@,
        "printf"@ != "snprintf"@,
        "%ld"@ != "%s\n"@,
{
    reveal_strlit("llvm.stackrestore.p0");
    reveal_strlit("zarrin.abort");
    reveal_strlit("printf");
    reveal_strlit("snprintf");
    reveal_strlit("%ld");
    reveal_strlit("%s\n");
    assert("llvm.stackrestore.p0"@.len() == 20);
    assert("zarrin.abort"@.len() == 12);
    assert("printf"@.len() == 6);
    assert("snprintf"@.len() == 8);
    assert("%ld"@[1] == 'l');
    assert("%s\n"@[1] == 's');
}

/// The code prints a number and ends the line.
#[verifier::rlimit(60)]
pub proof fn lemma_number_printed(s: CgV, v: Val, x: i64, mark: Val, outer: bool, w: Screen)
    requires
        open_here(s),
        countable(print_tail(s, v, TypeV::Int, mark, outer)),
        operand(w.mem, v) == Some(Datum::Word(x)),
        settled(v, s.m.func.insts.len() as int),
    ensures
        ({
            let t = print_tail(s, v, TypeV::Int, mark, outer);
            let n = s.m.func.insts.len() as int;
            &&& open_here(t)
            &&& straight(t.m.func.insts, s.m.at, n, t.m.func.insts.len() as int)
            &&& performed(
                t.m.texts,
                t.m.func.insts,
                s.m.at,
                n,
                t.m.func.insts.len() as int,
                w,
            ) matches Ending::Reached(b, w1)
            &&& b == t.m.at
            &&& w1.shown == w.shown + int_text(x as int) + seq!['\n']
            &&& w1.mem.slots == w.mem.slots
        }),
{
    let t = print_tail(s, v, TypeV::Int, mark, outer);
    let n = s.m.func.insts.len() as int;
    let b = s.m.at;
    lemma_tail_extends(s, v, TypeV::Int, mark, outer);
    lemma_names();
    lemma_fits(x);
    let op0 = OpV::Arith(Arith::Add, Val::Word(32), Val::Word(HEADER));
    lemma_put(s, op0, "with_header"@);
    let (s1, total) = s.emit(op0, "with_header"@);
    let op1 = OpV::Reserve(total);
    lemma_put(s1, op1, "int_buf"@);
    let (s2, base) = s1.emit(op1, "int_buf"@);
    let op2 = OpV::Store(base, Val::Word(IMMORTAL));
    lemma_put(s2, op2, ""@);
    let s3 = s2.emit(op2, ""@).0;
    let op3 = OpV::Offset(Ty::Byte, base, Val::Word(HEADER));
    lemma_put(s3, op3, "int_buf"@);
    let (s4, body) = s3.emit(op3, "int_buf"@);
    lemma_text_put(s4, "%ld"@);
    let (s5, fmt) = s4.text("%ld"@);
    let args = Seq::empty().push(body).push(Val::Word(32)).push(fmt).push(v);
    let op4 = OpV::CallHalf("snprintf"@, args);
    assert(open_here(s5));
    lemma_put(s5, op4, ""@);
    let s6 = s5.emit(op4, ""@).0;
    lemma_text_put(s6, "%s\n"@);
    let (s7, line) = s6.text("%s\n"@);
    let args5 = Seq::empty().push(line).push(body);
    let op5 = OpV::CallHalf("printf"@, args5);
    assert(open_here(s7));
    lemma_put(s7, op5, "call_printf"@);
    let s8 = CgV { transient: outer, ..s7.emit(op5, "call_printf"@).0 };
    let op6 = OpV::Run("llvm.stackrestore.p0"@, Seq::empty().push(mark));
    assert(open_here(s8));
    lemma_put(s8, op6, ""@);
    let insts = t.m.func.insts;
    let texts = t.m.texts;
    let to = n + 7;
    assert(insts.len() == to);
    assert(insts[n].op == op0 && insts[n + 1].op == op1 && insts[n + 2].op == op2 && insts[n + 3].op
        == op3 && insts[n + 4].op == op4 && insts[n + 5].op == op5 && insts[n + 6].op == op6);
    assert(forall|i: int| n <= i < to ==> (#[trigger] insts[i]).block == b);
    // the sum
    lemma_perform_one(texts, insts, b, n, to, w);
    let d0 = computed(op0, w.mem)->Some_0;
    assert(computed(op0, w.mem) == Some(d0) && d0 is Word);
    let w0 = Screen { mem: given(w.mem, n, d0), ..w };
    // the place
    lemma_perform_one(texts, insts, b, n + 1, to, w0);
    assert(total == Val::Reg(n as usize));
    let w1 = Screen {
        mem: forgotten(w0.mem, n + 1),
        places: w0.places.insert(n + 1, Place::Frame(n + 1, 0)),
        ..w0
    };
    assert(effected(op1, n + 1, w0, texts) == Some(w1));
    assert(computed(op1, w0.mem) is None);
    // its count
    lemma_perform_one(texts, insts, b, n + 2, to, w1);
    assert(base == Val::Reg((n + 1) as usize));
    let w2 = Screen { cells: w1.cells.insert((n + 1, 0), Cell::Word(IMMORTAL)), ..w1 };
    assert(place(w1, base) == Some(Place::Frame(n + 1, 0)));
    assert(effected(op2, n + 2, w1, texts) == Some(w2));
    assert(computed(op2, w1.mem) is None);
    // its body
    lemma_perform_one(texts, insts, b, n + 3, to, w2);
    let at = (n + 1, 0 + HEADER as int);
    let w3 = Screen { places: w2.places.insert(n + 3, Place::Frame(at.0, at.1)), ..w2 };
    assert(effected(op3, n + 3, w2, texts) == Some(w3));
    assert(computed(op3, w2.mem) is None);
    // the digits
    lemma_perform_one(texts, insts, b, n + 4, to, w3);
    assert(body == Val::Reg((n + 3) as usize));
    let w4 = Screen { cells: w3.cells.insert(at, Cell::Text(int_text(x as int))), ..w3 };
    assert(place(w3, body) == Some(Place::Frame(at.0, at.1)));
    assert(texts[s4.m.texts.len() as int] == "%ld"@);
    assert(text_at(w3, texts, fmt) == Some("%ld"@));
    assert(operand(w3.mem, v) == Some(Datum::Word(x)));
    assert(args[0] == body && args[1] == Val::Word(32) && args[2] == fmt && args[3] == v);
    assert(effected(op4, n + 4, w3, texts) == Some(w4));
    assert(computed(op4, w3.mem) is None);
    // the line
    lemma_perform_one(texts, insts, b, n + 5, to, w4);
    assert(texts[s6.m.texts.len() as int] == "%s\n"@);
    assert(text_at(w4, texts, line) == Some("%s\n"@));
    assert(text_at(w4, texts, body) == Some(int_text(x as int)));
    assert(args5[0] == line && args5[1] == body);
    let w5 = Screen { shown: w4.shown + int_text(x as int) + seq!['\n'], ..w4 };
    assert(effected(op5, n + 5, w4, texts) == Some(w5));
    assert(computed(op5, w4.mem) is None);
    // the frame
    lemma_perform_one(texts, insts, b, n + 6, to, w5);
    assert(effected(op6, n + 6, w5, texts) == Some(w5));
    assert(computed(op6, w5.mem) is None);
    assert(performed(texts, insts, b, to, to, w5) == Ending::Reached(b, w5));
}

/// The code prints a truth value and ends the line.
#[verifier::rlimit(60)]
pub proof fn lemma_truth_printed(s: CgV, v: Val, x: bool, mark: Val, outer: bool, w: Screen)
    requires
        open_here(s),
        countable(print_tail(s, v, TypeV::Bool, mark, outer)),
        operand(w.mem, v) == Some(Datum::Word(word_of(ValueV::Bool(x)))),
        settled(v, s.m.func.insts.len() as int),
    ensures
        ({
            let t = print_tail(s, v, TypeV::Bool, mark, outer);
            let n = s.m.func.insts.len() as int;
            &&& open_here(t)
            &&& straight(t.m.func.insts, s.m.at, n, t.m.func.insts.len() as int)
            &&& performed(
                t.m.texts,
                t.m.func.insts,
                s.m.at,
                n,
                t.m.func.insts.len() as int,
                w,
            ) matches Ending::Reached(b, w1)
            &&& b == t.m.at
            &&& w1.shown == w.shown + value_text(ValueV::Bool(x)) + seq!['\n']
            &&& w1.mem.slots == w.mem.slots
        }),
{
    let t = print_tail(s, v, TypeV::Bool, mark, outer);
    let n = s.m.func.insts.len() as int;
    let b = s.m.at;
    lemma_tail_extends(s, v, TypeV::Bool, mark, outer);
    lemma_names();
    lemma_text_put(s, "true"@);
    let (a, yes) = s.string_global("true"@);
    lemma_text_put(a, "false"@);
    let (s0, no) = a.string_global("false"@);
    assert(open_here(s0));
    let op0 = OpV::Compare(Cond::Ne, v, Val::Word(0));
    lemma_put(s0, op0, "is_true"@);
    let (s1, is_true) = s0.emit(op0, "is_true"@);
    let op1 = OpV::Select(is_true, yes, no);
    lemma_put(s1, op1, "bool_txt"@);
    let (s2, p) = s1.emit(op1, "bool_txt"@);
    lemma_text_put(s2, "%s\n"@);
    let (s3, line) = s2.text("%s\n"@);
    assert(open_here(s3));
    let args = Seq::empty().push(line).push(p);
    let op2 = OpV::CallHalf("printf"@, args);
    lemma_put(s3, op2, "call_printf"@);
    let s4 = CgV { transient: outer, ..s3.emit(op2, "call_printf"@).0 };
    let op3 = OpV::Run("llvm.stackrestore.p0"@, Seq::empty().push(mark));
    assert(open_here(s4));
    lemma_put(s4, op3, ""@);
    let insts = t.m.func.insts;
    let texts = t.m.texts;
    let to = n + 4;
    assert(insts.len() == to);
    assert(insts[n].op == op0 && insts[n + 1].op == op1 && insts[n + 2].op == op2 && insts[n + 3].op
        == op3);
    assert(forall|i: int| n <= i < to ==> (#[trigger] insts[i]).block == b);
    // the test
    lemma_perform_one(texts, insts, b, n, to, w);
    assert(computed(op0, w.mem) == Some(Datum::Truth(x)));
    let w0 = Screen { mem: given(w.mem, n, Datum::Truth(x)), ..w };
    // the text
    lemma_perform_one(texts, insts, b, n + 1, to, w0);
    assert(is_true == Val::Reg(n as usize));
    let k: int = if x {
        s.m.texts.len() as int
    } else {
        s.m.texts.len() as int + 1
    };
    let w1 = Screen { places: w0.places.insert(n + 1, Place::Constant(k)), ..w0 };
    assert(operand(w0.mem, is_true) == Some(Datum::Truth(x)));
    assert(effected(op1, n + 1, w0, texts) == Some(w1));
    assert(computed(op1, w0.mem) is None);
    assert(texts[s.m.texts.len() as int] == "true"@);
    assert(texts[s.m.texts.len() as int + 1] == "false"@);
    // the line
    lemma_perform_one(texts, insts, b, n + 2, to, w1);
    assert(p == Val::Reg((n + 1) as usize));
    assert(texts[s2.m.texts.len() as int] == "%s\n"@);
    assert(text_at(w1, texts, line) == Some("%s\n"@));
    assert(text_at(w1, texts, p) == Some(value_text(ValueV::Bool(x))));
    assert(args[0] == line && args[1] == p);
    let w2 = Screen { shown: w1.shown + value_text(ValueV::Bool(x)) + seq!['\n'], ..w1 };
    assert(effected(op2, n + 2, w1, texts) == Some(w2));
    assert(computed(op2, w1.mem) is None);
    // the frame
    lemma_perform_one(texts, insts, b, n + 3, to, w2);
    assert(effected(op3, n + 3, w2, texts) == Some(w2));
    assert(computed(op3, w2.mem) is None);
    assert(performed(texts, insts, b, to, to, w2) == Ending::Reached(b, w2));
}

/// The code for a statement that prints an integer or a truth value.
pub proof fn lemma_print_code(s: CgV, st: StmtV, x: ExprV, t: TypeV)
    requires
        st.kind matches StmtKindV::Expr(e) && prints(e) && (*e.kind matches ExprKindV::Call(
            _,
            args,
        ) && args == seq![x]),
        check_expr(x, s.types) == (Ok::<TypeV, TypeErrorV>(t), s.types),
        t is Int || t is Bool,
        plain(x),
        gen_expr(marked(s, st), x).1 is Int,
        gen_expr(marked(s, st), x).0.transient,
    ensures
        gen_stmt(s, st) == print_tail(
            gen_expr(marked(s, st), x).0,
            gen_expr(marked(s, st), x).1->Int_0,
            t,
            mark_of(s, st),
            s.transient,
        ),
{
    let e = st.kind->Expr_0;
    let s0 = CgV { span: st.span, ..s };
    let op = OpV::Call(Ty::Ptr, "llvm.stacksave.p0"@, Seq::empty());
    lemma_blocks(s0, op, "sp"@, 0, arbitrary());
    let (s1, mark) = s0.emit(op, "sp"@);
    lemma_constants(s1, ""@, true);
    let s2 = marked(s, st);
    assert(s2 == s1.set_transient(true));
    assert(check_expr(e, s.types) == (Ok::<TypeV, TypeErrorV>(TypeV::Unit), s.types)) by {
        let args = (*e.kind)->Call_1;
        assert(args.len() == 1 && args[0] == x);
        assert(check_call(e, s.types) == check_plain_call(
            "print"@,
            args,
            1,
            TypeV::Unit,
            s.types,
        ));
        assert(check_each(args, 1, s.types) == (Ok::<(), TypeErrorV>(()), s.types));
        assert(check_each(args, 0, s.types) == check_each(args, 1, s.types));
    }
    lemma_discard_code(s, st, TypeV::Unit);
    lemma_print_call(s0, e, x);
    lemma_text_code(s0, Val::Word(0));
    lemma_known_type(s2, x, t);
    let (s3, v) = gen_expr(s2, x);
    let w = v->Int_0;
    lemma_print_value(s3, w, t);
    lemma_text_code(s3, w);
    let s4 = print_value(s3, v, t);
    lemma_spend_nothing(s4, v, t, x);
    lemma_constants(s4, ""@, s.transient);
    lemma_text_code(CgV { transient: s.transient, ..s4 }, mark);
}

/// The state in which the code for what is printed is made: the frame is marked, and
/// values pass.
pub open spec fn marked(s: CgV, st: StmtV) -> CgV {
    let s0 = CgV { span: st.span, ..s };
    let op = OpV::Call(Ty::Ptr, "llvm.stacksave.p0"@, Seq::empty());
    CgV { transient: true, ..s0.emit(op, "sp"@).0 }
}

/// The mark in the frame.
pub open spec fn mark_of(s: CgV, st: StmtV) -> Val {
    let s0 = CgV { span: st.span, ..s };
    let op = OpV::Call(Ty::Ptr, "llvm.stacksave.p0"@, Seq::empty());
    s0.emit(op, "sp"@).1
}

/// `print` of an integer or a truth value writes the same line in both backends: the
/// line that the interpreter hands to its host is what native code shows, and then the
/// line ends. Where the interpreter fails, native code stops with the same report, and
/// shows nothing.
pub proof fn law_print_agrees(
    st: StmtV,
    x: ExprV,
    s: CgV,
    m: MachineV,
    w: Screen,
    stack: Seq<FrameV>,
) -> (k: nat)
    requires
        st.kind matches StmtKindV::Expr(e) && prints(e) && (*e.kind matches ExprKindV::Call(
            _,
            args,
        ) && args == seq![x]),
        plain(x),
        linked(x, s, MachineV { span: st.span, ..m }, w.mem),
        check_expr(x, s.types).0 is Ok,
        open_here(s),
        countable(gen_stmt(s, st)),
    ensures
        ({
            let t = gen_stmt(s, st);
            let end = performed(
                t.m.texts,
                t.m.func.insts,
                s.m.at,
                s.m.func.insts.len() as int,
                t.m.func.insts.len() as int,
                w,
            );
            match steps(at(m, stack, CtlV::Exec(st)), k) {
                (next, ActionV::Print(line)) => {
                    &&& next.scopes == m.scopes
                    &&& next.globals == m.globals
                    &&& open_here(t)
                    &&& end matches Ending::Reached(b, w1)
                    &&& b == t.m.at
                    &&& w1.shown == w.shown + line + seq!['\n']
                    &&& w1.mem.slots == w.mem.slots
                },
                (_, ActionV::Fail(d)) => end matches Ending::Stopped(j, _, _) && j < t.m.texts.len()
                    && t.m.texts[j as int] == format_text(rendered(d, s.path, s.src)),
                _ => false,
            }
        }),
{
    let e = st.kind->Expr_0;
    let args = (*e.kind)->Call_1;
    let m0 = MachineV { span: st.span, ..m };
    // native code
    let s0 = CgV { span: st.span, ..s };
    let op = OpV::Call(Ty::Ptr, "llvm.stacksave.p0"@, Seq::empty());
    assert(open_here(s0));
    lemma_put(s0, op, "sp"@);
    let s2 = marked(s, st);
    assert(open_here(s2));
    lemma_linked_later(x, s, s2, m0, w.mem, w.mem);
    law_plain_types(x, s, m0, w.mem);
    law_plain_types(x, s2, m0, w.mem);
    let ty = check_expr(x, s.types).0->Ok_0;
    let (s3, v) = gen_expr(s2, x);
    lemma_plain_expression_adds(x, s2, m0, w.mem);
    lemma_print_code(s, st, x, ty);
    let mark = mark_of(s, st);
    let t = gen_stmt(s, st);
    lemma_tail_extends(s3, v->Int_0, ty, mark, s.transient);
    assert(countable(s3));
    let after = law_plain_expression_compiles(x, s2, m0, w.mem);
    let n0 = s.m.func.insts.len() as int;
    let n1 = s3.m.func.insts.len() as int;
    let to = t.m.func.insts.len() as int;
    let insts = t.m.func.insts;
    assert(s2.m.func.insts.len() == n0 + 1);
    assert(s3.m.func.insts[n0] == s2.m.func.insts[n0]);
    assert(insts[n0] == s3.m.func.insts[n0]);
    lemma_perform_one(t.m.texts, insts, s.m.at, n0, to, w);
    assert(computed(op, w.mem) is None);
    assert(effected(op, n0, w, t.m.texts) == Some(w));
    assert forall|i: int| 0 <= i < n1 implies s3.m.func.insts[i] == #[trigger] insts[i] by {}
    law_later_code_does_not_matter(s3.m.func.insts, insts, s.m.at, n0 + 1, n1, w.mem);
    lemma_computes(t.m.texts, insts, s.m.at, n0 + 1, n1, to, w);
    // the interpreter
    lemma_linked_variables(x, s, m0, w.mem);
    let from = at(m, stack, CtlV::Exec(st));
    let f1 = FrameV::Collect { task: TaskV::Discard, exprs: seq![e], vals: Seq::empty() };
    let called = at(m0, stack.push(f1), CtlV::Eval(e));
    lemma_one_step(from);
    assert(step(from) == (called, ActionV::Continue));
    let task = TaskV::Builtin("print"@);
    assert(args.take(1) =~= seq![x]);
    let f2 = FrameV::Collect { task, exprs: seq![x], vals: Seq::empty() };
    let begun = at(m0, stack.push(f1).push(f2), CtlV::Eval(x));
    lemma_one_step(called);
    assert(step(called) == (begun, ActionV::Continue));
    lemma_leads(from, 1, called, 1);
    let k = lemma_one_value(m0, stack.push(f1), task, x);
    lemma_leads(from, 2, begun, k);
    match worth(x, m0) {
        Err(message) => lemma_abort_text(s2, message),
        Ok(value) => {
            let w1 = Screen { mem: after, ..w };
            match value {
                ValueV::Int(i) => lemma_number_printed(s3, v->Int_0, i, mark, s.transient, w1),
                ValueV::Bool(b) => lemma_truth_printed(s3, v->Int_0, b, mark, s.transient, w1),
                _ => {},
            }
        },
    }
    2 + k
}

} // verus!
