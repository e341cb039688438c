//! Executables: what a whole module does from the function that it starts with, and
//! that a program does and prints the same when it is interpreted and when it is
//! compiled and run.

use crate::ast::StmtV;
use crate::bodies::{
    acts, lemma_bodies_agree, lemma_speaking_go_on, lemma_told_adds_up, seen, speaking_stmts,
    told, watched, Sight,
};
use crate::codegen_llvm::{
    compiled, lemma_main_alone, main_body, main_start, main_stmts, only_main, word_params,
};
use crate::diagnostic::{rendered, DiagnosticV};
use crate::ir::{FuncV, InstV, ModuleV, OpV, Ty, Val};
use crate::ir_semantics::{given, operand, Datum, Memory};
use crate::native::{
    format_text, lemma_continues, lemma_fresh_state, lemma_function, open_here, CgV,
};
use crate::native_ops::{lemma_close_scope, nothing_held};
use crate::output::Screen;
use crate::semantics::{
    find_fn, loaded, signal, step, ActionV, BlockV, CtlV, FrameV, MachineV,
};
use crate::statements::{
    alike, at, in_block, lemma_shaped, roomy, scope_alike, scopes_alike, zeroed, Effect,
};
use crate::typing::{check_stmts, declared, find_in};
use crate::value::ValueV;
use vstd::prelude::*;

verus! {

// ---- running a module ----

/// A call that is under way: the code of the function, the block and the instruction
/// that come next, and what the call can read and write.
pub struct Active {
    pub insts: Seq<InstV>,
    pub block: usize,
    pub next: int,
    pub screen: Screen,
}

/// Where an executable is.
pub enum Scene {
    /// The calls that are under way, the innermost last.
    Running(Seq<Active>),
    /// The program is over, and has shown this.
    Ended(Seq<char>),
    /// The program has stopped with the diagnostic that is the constant text of that
    /// number, and had shown this.
    Stopped(usize, Seq<char>),
    Stuck,
}

/// The first function of a name, from the `i`th on.
pub open spec fn function_named(done: Seq<FuncV>, name: Seq<char>, i: int) -> Option<FuncV>
    decreases done.len() - i,
{
    if i < 0 || i >= done.len() {
        None
    } else if done[i].name == name {
        Some(done[i])
    } else {
        function_named(done, name, i + 1)
    }
}

/// A call of a function starts at its first instruction.
pub open spec fn entered(f: FuncV, params: Seq<i64>, heap: Map<int, i64>, shown: Seq<char>) -> Active {
    Active {
        insts: f.insts,
        block: 0,
        next: 0,
        screen: Screen {
            mem: Memory { regs: Map::empty(), slots: Map::empty(), params, heap },
            places: Map::empty(),
            cells: Map::empty(),
            shown,
        },
    }
}

/// The words that a call hands over.
pub open spec fn handed(mem: Memory, args: Seq<Val>) -> Option<Seq<i64>>
    decreases args.len(),
{
    if args.len() == 0 {
        Some(Seq::empty())
    } else {
        match (handed(mem, args.drop_last()), operand(mem, args.last())) {
            (Some(ws), Some(Datum::Word(w))) => Some(ws.push(w)),
            _ => None,
        }
    }
}

/// A function of the module is called. Its caller goes on after the call.
pub open spec fn called_from(
    m: ModuleV,
    rest: Seq<Active>,
    c: Active,
    name: Seq<char>,
    args: Seq<Val>,
) -> Scene {
    match (function_named(m.done, name, 0), handed(c.screen.mem, args)) {
        (Some(f), Some(ws)) => Scene::Running(
            rest.push(Active { next: c.next + 1, ..c }).push(
                entered(f, ws, c.screen.mem.heap, c.screen.shown),
            ),
        ),
        _ => Scene::Stuck,
    }
}

/// A call is over. What it gives is what the instruction that made the call gives.
pub open spec fn back_to(rest: Seq<Active>, w: Screen, v: Option<i64>) -> Scene {
    if rest.len() == 0 {
        Scene::Ended(w.shown)
    } else {
        let c = rest.last();
        let mem = match v {
            Some(k) => given(c.screen.mem, c.next - 1, Datum::Word(k)),
            None => c.screen.mem,
        };
        Scene::Running(
            rest.drop_last().push(
                Active {
                    screen: Screen {
                        mem: Memory { heap: w.mem.heap, ..mem },
                        shown: w.shown,
                        ..c.screen
                    },
                    ..c
                },
            ),
        )
    }
}

/// One instruction of the innermost call.
pub open spec fn advanced(m: ModuleV, calls: Seq<Active>) -> Scene {
    if calls.len() == 0 {
        Scene::Stuck
    } else {
        let c = calls.last();
        let rest = calls.drop_last();
        match seen(m.texts, c.insts, c.block, c.next, c.screen) {
            Sight::At(block, next, screen) => Scene::Running(
                rest.push(Active { block, next, screen, ..c }),
            ),
            Sight::Stopped(k, shown) => Scene::Stopped(k, shown),
            Sight::Stuck => if 0 <= c.next < c.insts.len() && c.insts[c.next].block == c.block {
                match c.insts[c.next].op {
                    OpV::Run(name, args) => called_from(m, rest, c, name, args),
                    OpV::Call(Ty::Word, name, args) => called_from(m, rest, c, name, args),
                    OpV::Return(None) => back_to(rest, c.screen, None),
                    OpV::Return(Some(v)) => match operand(c.screen.mem, v) {
                        Some(Datum::Word(k)) => back_to(rest, c.screen, Some(k)),
                        _ => Scene::Stuck,
                    },
                    _ => Scene::Stuck,
                }
            } else {
                Scene::Stuck
            },
        }
    }
}

/// Where a number of instructions lead.
pub open spec fn ran(m: ModuleV, p: Scene, k: nat) -> Scene
    decreases k,
{
    if k == 0 {
        p
    } else {
        match p {
            Scene::Running(calls) => ran(m, advanced(m, calls), (k - 1) as nat),
            _ => p,
        }
    }
}

/// The executable starts with its function `main`.
pub open spec fn started(m: ModuleV) -> Scene {
    match function_named(m.done, "main"@, 0) {
        Some(f) => Scene::Running(
            seq![entered(f, Seq::empty(), Map::empty(), Seq::empty())],
        ),
        None => Scene::Stuck,
    }
}

proof fn lemma_run_over(m: ModuleV, p: Scene, k: nat)
    requires
        !(p is Running),
    ensures
        ran(m, p, k) == p,
{
}

/// Instructions, and then more instructions.
pub proof fn law_runs_add_up(m: ModuleV, p: Scene, a: nat, b: nat)
    ensures
        ran(m, p, a + b) == ran(m, ran(m, p, a), b),
    decreases a,
{
    match p {
        Scene::Running(calls) => if a > 0 {
            law_runs_add_up(m, advanced(m, calls), (a - 1) as nat, b);
        },
        _ => {
            lemma_run_over(m, p, a);
            lemma_run_over(m, p, b);
            lemma_run_over(m, p, a + b);
        },
    }
}

/// What the code of a function does by itself it does in a call.
pub proof fn law_calls_run(m: ModuleV, rest: Seq<Active>, c: Active, k: nat)
    ensures
        match watched(m.texts, c.insts, Sight::At(c.block, c.next, c.screen), k) {
            Sight::At(block, next, screen) => ran(m, Scene::Running(rest.push(c)), k)
                == Scene::Running(rest.push(Active { block, next, screen, ..c })),
            Sight::Stopped(x, shown) => ran(m, Scene::Running(rest.push(c)), k) == Scene::Stopped(
                x,
                shown,
            ),
            Sight::Stuck => true,
        },
    decreases k,
{
    if k > 0 {
        assert(rest.push(c).last() == c);
        assert(rest.push(c).drop_last() =~= rest);
        match seen(m.texts, c.insts, c.block, c.next, c.screen) {
            Sight::At(block, next, screen) => {
                law_calls_run(m, rest, Active { block, next, screen, ..c }, (k - 1) as nat);
            },
            Sight::Stopped(x, shown) => {
                lemma_run_over(m, Scene::Stopped(x, shown), (k - 1) as nat);
                assert(watched(m.texts, c.insts, Sight::Stopped(x, shown), (k - 1) as nat)
                    == Sight::Stopped(x, shown));
            },
            Sight::Stuck => {
                assert(watched(m.texts, c.insts, Sight::Stuck, (k - 1) as nat) == Sight::Stuck);
            },
        }
    }
}

/// A function keeps its code when its open blocks are closed.
proof fn lemma_seal_keeps(f: FuncV, i: usize)
    ensures
        f.insts.is_prefix_of(f.seal(i).insts),
        f.seal(i).name == f.name,
    decreases f.blocks.len() - i,
{
    if i < f.blocks.len() && i < usize::MAX {
        let g = f.push(i, OpV::Unreachable, ""@);
        lemma_seal_keeps(g, (i + 1) as usize);
        assert(f.insts.is_prefix_of(g.insts));
        assert forall|q: int| 0 <= q < f.insts.len() implies f.insts[q] == g.seal(
            (i + 1) as usize,
        ).insts[q] by {
            assert(g.insts[q] == f.insts[q]);
        }
        assert(f.insts =~= f.seal(i).insts.subrange(0, f.insts.len() as int));
    } else {
        assert(f.insts =~= f.insts.subrange(0, f.insts.len() as int));
    }
}

// ---- a program in both backends ----

/// The interpreter at the first statement of `main`.
pub open spec fn main_called(ss: Seq<StmtV>) -> MachineV {
    MachineV { scopes: seq![Map::empty()], ..loaded(ss) }
}

/// What a program that is its `main` does and prints, where no loop takes more than
/// `rounds` rounds.
pub open spec fn main_acts(ss: Seq<StmtV>, rounds: nat) -> (Effect, Seq<char>) {
    acts(main_body(ss), 0, main_called(ss), rounds)
}

/// Before the code of `main`, its variables and those of the interpreter agree.
proof fn lemma_main_starts_alike(ss: Seq<StmtV>, path: Seq<char>, src: Seq<char>, mem: Memory)
    ensures
        alike(main_start(ss, path, src), main_called(ss), mem),
        open_here(main_start(ss, path, src)),
        main_start(ss, path, src).types == declared(ss).push_scope(),
        main_start(ss, path, src).m.func == FuncV::new("zr."@ + "main"@, word_params(0), false),
        main_start(ss, path, src).m.at == 0,
        main_start(ss, path, src).m.done.len() == 0,
        main_start(ss, path, src).path == path,
        main_start(ss, path, src).src == src,
        main_start(ss, path, src).scopes.len() == 1,
{
    let new = CgV::new(ss, path, src);
    lemma_fresh_state(ss, path, src, new);
    lemma_function(new, "zr."@ + "main"@, word_params(0), false);
    let s1 = new.begin("zr."@ + "main"@, word_params(0), false);
    lemma_fresh_state(ss, path, src, s1);
    let s = main_start(ss, path, src);
    let ts = s.types.scopes;
    assert(ts.drop_last() =~= declared(ss).scopes);
    assert(declared(ss).scopes.drop_last() =~= Seq::empty());
    assert(s.scopes.drop_last() =~= Seq::empty());
    assert(main_called(ss).scopes.drop_last() =~= Seq::empty());
    assert forall|name: Seq<char>| (#[trigger] find_in(ts.drop_last(), name)) is None by {
        reveal_with_fuel(find_in, 2);
    }
    assert(scopes_alike(
        s.scopes.drop_last(),
        main_called(ss).scopes.drop_last(),
        ts.drop_last(),
        mem,
    ));
    assert(scope_alike(s.scopes.last(), main_called(ss).scopes.last(), ts.last(), mem));
}

/// The interpreter gets to the first statement of `main`.
proof fn lemma_main_is_called(ss: Seq<StmtV>)
    requires
        only_main(ss),
    ensures
        told(loaded(ss), 2) == (
            at(
                main_called(ss),
                seq![FrameV::End].push(
                    in_block(BlockV::Call(Seq::empty()), main_body(ss), 0, loaded(ss).span),
                ),
                CtlV::Next,
            ),
            Seq::<char>::empty(),
            ActionV::Continue,
        ),
{
    reveal_with_fuel(told, 3);
    let m0 = loaded(ss);
    assert(ss.last() == ss[0]);
    assert(find_fn(ss, "main"@) is Some && find_fn(ss, "main"@)->Some_0.1 == main_body(ss));
    assert(m0.stack.last() == in_block(BlockV::Top, ss, 0, m0.span));
    assert(m0.stack.drop_last() =~= Seq::empty());
    let m1 = step(m0).0;
    assert(m1.stack =~= seq![in_block(BlockV::Top, ss, 1, m0.span)]);
    assert(step(m0).1 is Continue);
    assert(m1.stack.drop_last() =~= Seq::empty());
    let m2 = step(m1).0;
    assert(m2.stack =~= seq![FrameV::End].push(
        in_block(BlockV::Call(Seq::empty()), main_body(ss), 0, m0.span),
    ));
    assert(m2.scopes =~= main_called(ss).scopes);
    assert(m2 == at(main_called(ss), m2.stack, CtlV::Next));
}

/// The interpreter is done after the last statement of `main`.
proof fn lemma_main_ends(m: MachineV, stack: Seq<FrameV>, body: Seq<StmtV>)
    requires
        m.returned is None,
        stack == seq![FrameV::End].push(
            in_block(
                BlockV::Call(Seq::empty()),
                body,
                body.len() as int,
                loaded(Seq::empty()).span,
            ),
        ),
    ensures
        told(at(m, stack, CtlV::Next), 2).1 == Seq::<char>::empty(),
        told(at(m, stack, CtlV::Next), 2).2 is Done,
{
    reveal_with_fuel(told, 3);
    let m0 = at(m, stack, CtlV::Next);
    assert(m0.stack.drop_last() =~= seq![FrameV::End]);
    assert(signal(
        MachineV { span: loaded(Seq::empty()).span, ..m0.with(CtlV::Stopped).pop() },
        BlockV::Call(Seq::empty()),
    ) is None);
    let m1 = step(m0).0;
    assert(step(m0).1 is Continue);
    assert(m1.ctl == CtlV::Value(ValueV::Unit));
    assert(m1.stack == seq![FrameV::End]);
    assert(step(m1).1 is Done);
}

/// A program does and prints the same whether it is interpreted or compiled and run.
/// The program is a `main` whose statements are `let`, assignments, expressions, `if` and
/// `while` over integers and truth values, and `print` of such values. Where the
/// interpreter gets to its end, the executable ends and has shown what the interpreter
/// has printed. Where the interpreter fails, the executable stops with the same report,
/// and has shown the same by then. This holds of every run in which no loop takes more
/// than `rounds` rounds, for any `rounds`.
pub proof fn law_programs_agree(ss: Seq<StmtV>, path: Seq<char>, src: Seq<char>, rounds: nat) -> (r:
    (nat, nat))
    requires
        only_main(ss),
        speaking_stmts(main_body(ss), 0, declared(ss).push_scope()),
        check_stmts(main_body(ss), 0, declared(ss).push_scope()).0 is Ok,
        compiled(ss, path, src) is Ok,
        roomy(main_stmts(ss, path, src)),
    ensures
        ({
            let m = compiled(ss, path, src)->Ok_0;
            let run = told(loaded(ss), r.0);
            let end = ran(m, started(m), r.1);
            match main_acts(ss, rounds) {
                (Effect::Done(_), shown) => {
                    &&& run.1 == shown
                    &&& run.2 is Done
                    &&& end == Scene::Ended(shown)
                },
                (Effect::Failed(message, span), shown) => {
                    &&& run.1 == shown
                    &&& run.2 == ActionV::Fail(DiagnosticV { message, span })
                    &&& end matches Scene::Stopped(x, s) && s == shown && x < m.texts.len()
                        && m.texts[x as int] == format_text(
                        rendered(DiagnosticV { message, span }, path, src),
                    )
                },
                (Effect::Unfinished, _) => true,
            }
        }),
{
    let s = main_start(ss, path, src);
    let t = main_stmts(ss, path, src);
    let body = main_body(ss);
    let m0 = main_called(ss);
    let mem = Memory {
        regs: Map::empty(),
        slots: Map::empty(),
        params: Seq::empty(),
        heap: Map::empty(),
    };
    lemma_main_starts_alike(ss, path, src, mem);
    lemma_shaped(s, m0, mem);
    let _ = lemma_speaking_go_on(s, body, 0, MachineV { scopes: zeroed(m0.scopes), ..m0 });
    lemma_continues(s, t);
    assert(nothing_held(t.scopes.last()));
    lemma_close_scope(t);
    lemma_main_alone(ss, path, src);
    let m = compiled(ss, path, src)->Ok_0;
    let f = t.m.func.push(t.m.at, OpV::Return(None), ""@);
    lemma_seal_keeps(f, 0);
    let code = m.done[0].insts;
    assert forall|q: int| 0 <= q < f.insts.len() implies f.insts[q] == code[q] by {
        assert(f.insts =~= code.subrange(0, f.insts.len() as int));
    }
    assert(t.m.func.insts =~= code.subrange(0, t.m.func.insts.len() as int));
    // The names of the two functions.
    reveal_strlit("main");
    reveal_strlit("zr.");
    let full = "zr."@ + "main"@;
    assert(full.len() == 7 && "main"@.len() == 4);
    assert(m.done[0].name == full);
    assert(function_named(m.done, full, 0) == Some(m.done[0]));
    assert(function_named(m.done, "main"@, 1) == Some(m.done[1]));
    assert(function_named(m.done, "main"@, 0) == Some(m.done[1]));
    // The call of `main`.
    let c0 = entered(m.done[1], Seq::empty(), Map::empty(), Seq::empty());
    let c1 = Active { next: 1, ..c0 };
    let c2 = entered(m.done[0], Seq::empty(), Map::empty(), Seq::empty());
    assert(c2.screen.mem == mem);
    let none = Seq::<Active>::empty();
    assert(started(m) == Scene::Running(seq![c0]));
    assert(seq![c0].drop_last() =~= none);
    lemma_no_runtime_name(full);
    assert(seen(m.texts, c0.insts, 0, 0, c0.screen) is Stuck);
    assert(advanced(m, seq![c0]) == Scene::Running(none.push(c1).push(c2)));
    assert(ran(m, started(m), 1) == Scene::Running(none.push(c1).push(c2))) by {
        reveal_with_fuel(ran, 2);
    }
    // The statements.
    let span = loaded(ss).span;
    let kind = BlockV::Call(Seq::empty());
    let stack = seq![FrameV::End];
    lemma_main_is_called(ss);
    let (k, j, w) = lemma_bodies_agree(
        body,
        0,
        kind,
        span,
        s,
        m0,
        c2.screen,
        stack,
        code,
        m.texts,
        rounds,
    );
    lemma_told_adds_up(loaded(ss), 2, k);
    law_calls_run(m, none.push(c1), c2, j);
    law_runs_add_up(m, started(m), 1, j);
    let (e, shown) = main_acts(ss, rounds);
    assert(Seq::<char>::empty() + shown =~= shown);
    match e {
        Effect::Done(m1) => {
            lemma_main_ends(m1, stack.push(in_block(kind, body, body.len() as int, span)), body);
            lemma_told_adds_up(loaded(ss), 2 + k, 2);
            assert(shown + Seq::<char>::empty() =~= shown);
            let c3 = Active {
                block: t.m.at,
                next: t.m.func.insts.len() as int,
                screen: w,
                ..c2
            };
            let p3 = Scene::Running(none.push(c1).push(c3));
            assert(code[t.m.func.insts.len() as int] == f.insts[t.m.func.insts.len() as int]);
            assert(seen(m.texts, code, c3.block, c3.next, w) is Stuck);
            assert(none.push(c1).push(c3).drop_last() =~= none.push(c1));
            assert(none.push(c1).drop_last() =~= none);
            let c4 = Active {
                screen: Screen {
                    mem: Memory { heap: w.mem.heap, ..c1.screen.mem },
                    shown: w.shown,
                    ..c1.screen
                },
                ..c1
            };
            assert(advanced(m, none.push(c1).push(c3)) == Scene::Running(none.push(c4)));
            assert(none.push(c4).drop_last() =~= none);
            assert(seen(m.texts, c4.insts, 0, 1, c4.screen) is Stuck);
            assert(advanced(m, none.push(c4)) == Scene::Ended(shown));
            assert(ran(m, p3, 2) == Scene::Ended(shown)) by {
                reveal_with_fuel(ran, 3);
            }
            law_runs_add_up(m, started(m), 1 + j, 2);
            (2 + k + 2, 1 + j + 2)
        },
        _ => (2 + k, 1 + j),
    }
}

/// The function for `main` is none of those that the machine provides.
proof fn lemma_no_runtime_name(full: Seq<char>)
    requires
        full == "zr."@ + "main"@,
    ensures
        full != "zarrin.abort"@,
        full != "llvm.stackrestore.p0"@,
{
    reveal_strlit("main");
    reveal_strlit("zr.");
    reveal_strlit("zarrin.abort");
    reveal_strlit("llvm.stackrestore.p0");
    assert(full.len() == 7);
}

} // verus!
