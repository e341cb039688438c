//! What holds of every program that runs: the machine is never stuck, names
//! follow the block structure, and a match that covers its type finds an arm.

use crate::ast::{ExprKindV, ExprV, PatternV, StmtKindV, StmtV, TypeV};
use crate::semantics::{
    answered, apply, begin_call, block_end, block_step, call_step, eval_step, exec_step, find_fn,
    find_value, for_start, loaded, loop_end, loop_next, matched, matched_from, method_step,
    name_step, needs, replace_value, signal, step, steps, try_arms, ActionV, BlockV, CtlV, FrameV,
    LoopV, MachineV, Stepped, TaskV, WalkV,
};
use crate::typing::{
    covers_variant, has_catch_all, irrefutable, irrefutable_each, is_truth, missing_truths,
    missing_variants, truth_covered, uncovered, variant_covered,
};
use crate::value::ValueV;
use crate::variants::{lookup_v, of_enum, sorted_by_tag, LookupV, VariantV};
use vstd::prelude::*;

verus! {

// ---- names ----

/// A scope that opens and closes leaves everything as it was: what a block
/// declares ends with it.
pub proof fn law_block_scope_ends(m: MachineV, name: Seq<char>, v: ValueV)
    ensures
        m.push_scope().pop_scope() == m,
        m.push_scope().declare(name, v).pop_scope() == m,
{
    let m1 = m.push_scope();
    assert(m1.scopes.drop_last() =~= m.scopes);
    assert(m1.declare(name, v).scopes.drop_last() =~= m.scopes);
}

/// A declaration is what its name stands for from then on, also where an outer
/// scope has the name. Other names keep what they stood for.
pub proof fn law_declaration_shadows(m: MachineV, name: Seq<char>, v: ValueV, other: Seq<char>)
    ensures
        m.declare(name, v).lookup(name) == Some(v),
        other != name ==> m.declare(name, v).lookup(other) == m.lookup(other),
{
    let d = m.declare(name, v);
    if m.scopes.len() > 0 {
        assert(d.scopes.drop_last() =~= m.scopes.drop_last());
        assert(d.scopes.last() == m.scopes.last().insert(name, v));
    } else {
        assert(find_value(d.scopes, name) is None);
    }
}

proof fn lemma_replace(scopes: Seq<Map<Seq<char>, ValueV>>, name: Seq<char>, v: ValueV)
    ensures
        match replace_value(scopes, name, v) {
            Some(now) => {
                &&& find_value(scopes, name) is Some
                &&& now.len() == scopes.len()
                &&& find_value(now, name) == Some(v)
                &&& forall|other: Seq<char>|
                    other != name ==> #[trigger] find_value(now, other) == find_value(scopes, other)
            },
            None => find_value(scopes, name) is None,
        },
    decreases scopes.len(),
{
    if scopes.len() > 0 {
        if scopes.last().contains_key(name) {
            let now = scopes.drop_last().push(scopes.last().insert(name, v));
            assert(now.drop_last() =~= scopes.drop_last());
        } else {
            lemma_replace(scopes.drop_last(), name, v);
            match replace_value(scopes.drop_last(), name, v) {
                Some(rest) => {
                    let now = rest.push(scopes.last());
                    assert(now.drop_last() =~= rest);
                    assert forall|other: Seq<char>| other != name implies #[trigger] find_value(
                        now,
                        other,
                    ) == find_value(scopes, other) by {
                        assert(find_value(rest, other) == find_value(scopes.drop_last(), other));
                    }
                },
                None => {},
            }
        }
    }
}

/// After an assignment the name stands for the new value, wherever its binding
/// lives, and no other name is touched. No scope opens or closes.
pub proof fn law_assignment_updates(m: MachineV, name: Seq<char>, v: ValueV, other: Seq<char>)
    ensures
        m.assign(name, v).lookup(name) == Some(v),
        other != name ==> m.assign(name, v).lookup(other) == m.lookup(other),
        m.assign(name, v).scopes.len() == m.scopes.len(),
{
    lemma_replace(m.scopes, name, v);
    if replace_value(m.scopes, name, v) is None && !m.globals.contains_key(name) {
        law_declaration_shadows(m, name, v, other);
    }
}

/// An assignment inside a block to a name from outside is still there when the
/// block ends.
pub proof fn law_assignment_outlives_its_block(m: MachineV, name: Seq<char>, v: ValueV)
    requires
        m.lookup(name) is Some,
    ensures
        m.push_scope().assign(name, v).pop_scope() == m.assign(name, v),
{
    let m1 = m.push_scope();
    assert(m1.scopes.drop_last() =~= m.scopes);
    lemma_replace(m.scopes, name, v);
    match replace_value(m.scopes, name, v) {
        Some(now) => {
            assert(now.push(Map::empty()).drop_last() =~= now);
            assert(m1.assign(name, v).scopes == now.push(Map::empty()));
        },
        None => {},
    }
}

/// A callee sees its parameters and the globals, and none of its caller's
/// locals.
pub proof fn law_callee_sees_no_locals(
    m: MachineV,
    frame: Map<Seq<char>, ValueV>,
    body: Seq<StmtV>,
    name: Seq<char>,
)
    ensures
        m.call_frame(frame, body).0.lookup(name) == (if frame.contains_key(name) {
            Some(frame[name])
        } else if m.globals.contains_key(name) {
            Some(m.globals[name])
        } else {
            None
        }),
{
    let called = m.call_frame(frame, body).0;
    assert(called.scopes =~= seq![frame]);
    assert(called.scopes.last() == frame);
    assert(called.scopes.drop_last().len() == 0);
    assert(find_value(called.scopes.drop_last(), name) is None);
}

/// The end of a call brings the caller's locals back, whether the body returned
/// or ran out.
pub proof fn law_call_restores_the_caller(m: MachineV, saved: Seq<Map<Seq<char>, ValueV>>)
    ensures
        block_end(m, BlockV::Call(saved)).0.scopes == saved,
        signal(m, BlockV::Call(saved)) matches Some(after) ==> after.0.scopes == saved
            && after.0.returned is None,
{
}

// ---- matches ----

proof fn lemma_irrefutable_match(
    ps: Seq<PatternV>,
    vs: Seq<ValueV>,
    all: Seq<VariantV>,
    i: int,
    acc: Seq<(Seq<char>, ValueV)>,
)
    requires
        irrefutable_each(ps),
        0 <= i,
    ensures
        matched_from(ps, vs, all, i, acc) matches Ok(Some(_)),
    decreases ps.len() - i,
{
    if i < ps.len() {
        assert(irrefutable(ps[i]));
        match matched(ps[i], vs[i], all, acc) {
            Ok(Some(acc1)) => lemma_irrefutable_match(ps, vs, all, i + 1, acc1),
            _ => {},
        }
    }
}

proof fn lemma_nothing_missing(
    vs: Seq<VariantV>,
    arms: Seq<(Seq<PatternV>, Option<ExprV>, ExprV)>,
    all: Seq<VariantV>,
    k: int,
)
    requires
        missing_variants(vs, arms, all).len() == 0,
        0 <= k < vs.len(),
    ensures
        variant_covered(arms, vs[k], all),
    decreases vs.len(),
{
    if k < vs.len() - 1 {
        lemma_nothing_missing(vs.drop_last(), arms, all, k);
    }
}

/// Some of the variants has these names.
pub open spec fn is_one_of(vs: Seq<VariantV>, enum_name: Seq<char>, variant: Seq<char>) -> bool {
    exists|k: int|
        0 <= k < vs.len() && (#[trigger] vs[k]).enum_name == enum_name && vs[k].name == variant
}

/// A value belongs to a type that a match can cover: a truth value, or a
/// variant of an enum.
pub open spec fn belongs(v: ValueV, t: TypeV, all: Seq<VariantV>) -> bool {
    match (v, t) {
        (ValueV::Bool(_), TypeV::Bool) => true,
        (ValueV::EnumVariant { enum_name, variant, .. }, TypeV::Named(n, _)) => is_one_of(
            sorted_by_tag(of_enum(all, n)),
            enum_name,
            variant,
        ),
        _ => false,
    }
}

/// A pattern that names the variant of a value binds as many values as it
/// carries.
pub open spec fn pattern_fits(p: PatternV, v: ValueV, all: Seq<VariantV>) -> bool {
    match (p, v) {
        (
            PatternV::EnumVariant { name, inner },
            ValueV::EnumVariant { enum_name, variant, args },
        ) => lookup_v(all, name) matches LookupV::Unique(w) ==> (w.enum_name == enum_name && w.name
            == variant ==> inner.len() == args.len()),
        _ => true,
    }
}

/// The patterns of a match fit a value, and none of them is ambiguous.
pub open spec fn arms_fit(
    arms: Seq<(Seq<PatternV>, Option<ExprV>, ExprV)>,
    v: ValueV,
    all: Seq<VariantV>,
) -> bool {
    forall|i: int, j: int|
        #![trigger arms[i].0[j]]
        0 <= i < arms.len() && 0 <= j < arms[i].0.len() ==> pattern_fits(arms[i].0[j], v, all)
            && matched(arms[i].0[j], v, all, Seq::empty()) is Ok
}

/// A match that covers the type of its scrutinee has an unguarded arm with a
/// pattern that the value matches.
pub proof fn law_covered_match_has_an_arm(
    t: TypeV,
    arms: Seq<(Seq<PatternV>, Option<ExprV>, ExprV)>,
    all: Seq<VariantV>,
    v: ValueV,
) -> (at: (int, int))
    requires
        uncovered(t, arms, all) is None,
        belongs(v, t, all),
        arms_fit(arms, v, all),
    ensures
        0 <= at.0 < arms.len(),
        0 <= at.1 < arms[at.0].0.len(),
        arms[at.0].1 is None,
        matched(arms[at.0].0[at.1], v, all, Seq::empty()) matches Ok(Some(_)),
{
    if has_catch_all(arms) {
        let (i, j) = choose|i: int, j: int|
            0 <= i < arms.len() && 0 <= j < arms[i].0.len() && arms[i].1 is None && irrefutable(
                #[trigger] arms[i].0[j],
            );
        (i, j)
    } else {
        match (v, t) {
            (ValueV::Bool(b), TypeV::Bool) => {
                assert(truth_covered(arms, b)) by {
                    if !truth_covered(arms, true) {
                        assert(missing_truths(arms)[0] == "true"@);
                    }
                    if !truth_covered(arms, false) {
                        assert(missing_truths(arms).last() == "false"@);
                    }
                }
                let (i, j) = choose|i: int, j: int|
                    0 <= i < arms.len() && 0 <= j < arms[i].0.len() && arms[i].1 is None
                        && is_truth(#[trigger] arms[i].0[j], b);
                (i, j)
            },
            (ValueV::EnumVariant { enum_name, variant, args }, TypeV::Named(n, _)) => {
                let vs = sorted_by_tag(of_enum(all, n));
                let k = choose|k: int|
                    0 <= k < vs.len() && (#[trigger] vs[k]).enum_name == enum_name && vs[k].name
                        == variant;
                lemma_nothing_missing(vs, arms, all, k);
                let (i, j) = choose|i: int, j: int|
                    0 <= i < arms.len() && 0 <= j < arms[i].0.len() && arms[i].1 is None
                        && covers_variant(#[trigger] arms[i].0[j], vs[k], all);
                match arms[i].0[j] {
                    PatternV::EnumVariant { name, inner } => {
                        assert(pattern_fits(arms[i].0[j], v, all));
                        lemma_irrefutable_match(inner, args, all, 0, Seq::empty());
                    },
                    _ => {},
                }
                (i, j)
            },
            _ => (0, 0),
        }
    }
}

proof fn lemma_try_arms_reaches(
    m: MachineV,
    arms: Seq<(Seq<PatternV>, Option<ExprV>, ExprV)>,
    i: int,
    j: int,
    v: ValueV,
    at: (int, int),
)
    requires
        arms_fit(arms, v, m.variants()),
        0 <= i,
        0 <= j,
        i < at.0 || (i == at.0 && j <= at.1),
        0 <= at.0 < arms.len(),
        0 <= at.1 < arms[at.0].0.len(),
        matched(arms[at.0].0[at.1], v, m.variants(), Seq::empty()) matches Ok(Some(_)),
    ensures
        try_arms(m, arms, i, j, v).1 is Continue,
    decreases
            arms.len() - i,
            if 0 <= i < arms.len() {
                arms[i].0.len() - j
            } else {
                0
            },
{
    if j >= arms[i].0.len() {
        lemma_try_arms_reaches(m, arms, i + 1, 0, v, at);
    } else {
        assert(matched(arms[i].0[j], v, m.variants(), Seq::empty()) is Ok);
        match matched(arms[i].0[j], v, m.variants(), Seq::empty()) {
            Ok(None) => lemma_try_arms_reaches(m, arms, i, j + 1, v, at),
            _ => {},
        }
    }
}

/// A match that covers the type of its scrutinee never runs out of arms,
/// whatever its guards turn down.
pub proof fn law_covered_match_never_fails(
    m: MachineV,
    t: TypeV,
    arms: Seq<(Seq<PatternV>, Option<ExprV>, ExprV)>,
    v: ValueV,
) -> (at: (int, int))
    requires
        uncovered(t, arms, m.variants()) is None,
        belongs(v, t, m.variants()),
        arms_fit(arms, v, m.variants()),
    ensures
        0 <= at.0 < arms.len(),
        arms[at.0].1 is None,
        try_arms(m, arms, 0, 0, v).1 is Continue,
        forall|now: MachineV, i: int, j: int|
            now.program == m.program && 0 <= i < at.0 && 0 <= j ==> (#[trigger] try_arms(
                now,
                arms,
                i,
                j,
                v,
            )).1 is Continue,
{
    let at = law_covered_match_has_an_arm(t, arms, m.variants(), v);
    lemma_try_arms_reaches(m, arms, 0, 0, v, at);
    assert forall|now: MachineV, i: int, j: int|
        now.program == m.program && 0 <= i < at.0 && 0 <= j implies (#[trigger] try_arms(
        now,
        arms,
        i,
        j,
        v,
    )).1 is Continue by {
        lemma_try_arms_reaches(now, arms, i, j, v, at);
    }
    at
}

// ---- the machine ----

/// A frame that goes on when it gets a value.
pub open spec fn takes_value(f: FrameV) -> bool {
    match f {
        FrameV::Collect { exprs, vals, .. } => vals.len() < exprs.len(),
        FrameV::Arm => true,
        FrameV::Block { .. } => false,
        FrameV::End => true,
    }
}

/// Whether a task ends in a value; else a statement is done after it.
pub open spec fn gives_value(task: TaskV) -> bool {
    match task {
        TaskV::WhileTest(l) => l.is_expr,
        TaskV::ForStart(is_expr, _, _) => is_expr,
        TaskV::Let(_) => false,
        TaskV::Assign(_) => false,
        TaskV::Discard => false,
        TaskV::Return => false,
        TaskV::Break => false,
        TaskV::IfStmt(_, _) => false,
        _ => true,
    }
}

/// Whether a block ends in a value; else a statement is done after it.
pub open spec fn block_gives(kind: BlockV) -> bool {
    match kind {
        BlockV::Call(_) => true,
        BlockV::Loop(l) => l.is_expr,
        _ => false,
    }
}

/// What waits at the top of a stack can take what comes: a value, or the end of
/// a statement.
pub open spec fn awaits(stack: Seq<FrameV>, value: bool) -> bool {
    stack.len() > 0 && if value {
        takes_value(stack.last())
    } else {
        stack.last() is Block
    }
}

/// Each frame of a stack leaves what the one beneath waits for, and has as many
/// expressions as its task needs.
pub open spec fn chained(stack: Seq<FrameV>) -> bool
    decreases stack.len(),
{
    if stack.len() == 0 {
        false
    } else {
        let rest = stack.drop_last();
        match stack.last() {
            FrameV::End => rest.len() == 0,
            FrameV::Arm => chained(rest) && awaits(rest, true),
            FrameV::Block { kind, .. } => if kind is Top {
                rest.len() == 0
            } else {
                chained(rest) && awaits(rest, block_gives(kind))
            },
            FrameV::Collect { task, exprs, vals } => {
                &&& exprs.len() >= needs(task)
                &&& vals.len() <= exprs.len()
                &&& chained(rest)
                &&& awaits(rest, gives_value(task))
            },
        }
    }
}

/// What the machine is about to do suits what waits for it.
pub open spec fn fits(m: MachineV) -> bool {
    match m.ctl {
        CtlV::Eval(_) | CtlV::Value(_) | CtlV::Wait => chained(m.stack) && awaits(m.stack, true),
        CtlV::Exec(_) | CtlV::Next => chained(m.stack) && awaits(m.stack, false),
        CtlV::Ready => {
            &&& chained(m.stack)
            &&& m.stack.last() matches FrameV::Collect { exprs, vals, .. }
            &&& exprs.len() == vals.len()
        },
        CtlV::Stopped => true,
    }
}

/// The program has come to its end: `main` has returned, or there is none and
/// the last statement is done.
pub open spec fn at_end(m: MachineV) -> bool {
    ||| m.stack.len() == 1 && m.stack[0] is End && m.ctl is Value
    ||| {
        &&& m.stack.len() == 1
        &&& m.ctl is Next
        &&& find_fn(m.program, "main"@) is None
        &&& m.stack[0] matches FrameV::Block { kind: BlockV::Top, stmts, next, .. }
        &&& !(0 <= next < stmts.len())
    }
}

/// A step went well: it failed at a statement, or the machine can go on.
spec fn went_on(r: Stepped) -> bool {
    match r.1 {
        ActionV::Fail(d) => r.0.ctl is Stopped && d.span == r.0.span,
        ActionV::Done => false,
        _ => fits(r.0),
    }
}

proof fn lemma_push(stack: Seq<FrameV>, f: FrameV)
    ensures
        stack.push(f).drop_last() == stack,
        stack.push(f).last() == f,
{
    assert(stack.push(f).drop_last() =~= stack);
}

proof fn lemma_begin(m: MachineV, task: TaskV, exprs: Seq<ExprV>)
    requires
        chained(m.stack),
        awaits(m.stack, gives_value(task)),
        exprs.len() >= needs(task),
    ensures
        went_on(m.begin(task, exprs)),
{
    let f = FrameV::Collect { task, exprs, vals: Seq::empty() };
    lemma_push(m.stack, f);
    assert(chained(m.stack.push(f)));
}

proof fn lemma_run_block(m: MachineV, kind: BlockV, stmts: Seq<StmtV>)
    requires
        chained(m.stack),
        !(kind is Top),
        awaits(m.stack, block_gives(kind)),
    ensures
        went_on(m.run_block(kind, stmts)),
{
    let f = FrameV::Block { kind, stmts, next: 0, span: m.span };
    lemma_push(m.stack, f);
    assert(chained(m.stack.push(f)));
}

proof fn lemma_declare_keeps_stack(m: MachineV, bs: Seq<(Seq<char>, ValueV)>)
    ensures
        m.declare_all(bs).stack == m.stack,
    decreases bs.len(),
{
    if bs.len() > 0 {
        lemma_declare_keeps_stack(m, bs.drop_last());
    }
}

proof fn lemma_try_arms(
    m: MachineV,
    arms: Seq<(Seq<PatternV>, Option<ExprV>, ExprV)>,
    i: int,
    j: int,
    v: ValueV,
)
    requires
        chained(m.stack),
        awaits(m.stack, true),
    ensures
        went_on(try_arms(m, arms, i, j, v)),
    decreases
            arms.len() - i,
            if 0 <= i < arms.len() {
                arms[i].0.len() - j
            } else {
                0
            },
{
    if 0 <= i < arms.len() {
        if j < 0 || j >= arms[i].0.len() {
            lemma_try_arms(m, arms, i + 1, 0, v);
        } else {
            match matched(arms[i].0[j], v, m.variants(), Seq::empty()) {
                Err(_) => {},
                Ok(None) => lemma_try_arms(m, arms, i, j + 1, v),
                Ok(Some(bs)) => {
                    let m1 = m.push_scope().declare_all(bs);
                    lemma_declare_keeps_stack(m.push_scope(), bs);
                    match arms[i].1 {
                        Some(g) => lemma_begin(m1, TaskV::Guard(arms, i, j + 1, v), seq![g]),
                        None => {
                            lemma_push(m1.stack, FrameV::Arm);
                            assert(chained(m1.stack.push(FrameV::Arm)));
                        },
                    }
                },
            }
        }
    }
}

proof fn lemma_loop_next(m: MachineV, l: LoopV)
    requires
        chained(m.stack),
        awaits(m.stack, l.is_expr),
    ensures
        went_on(loop_next(m, l)),
        went_on(loop_end(m, l)),
{
    match l.walk {
        WalkV::Cond(c) => lemma_begin(m, TaskV::WhileTest(l), seq![c]),
        WalkV::Range(var, i, end) => {
            let next = LoopV { walk: WalkV::Range(var, i + 1, end), ..l };
            lemma_run_block(
                m.push_scope().declare(var, ValueV::Int(i as i64)),
                BlockV::Loop(next),
                l.body,
            );
        },
        WalkV::Items(var, vs, k) => {
            let next = LoopV { walk: WalkV::Items(var, vs, k + 1), ..l };
            lemma_run_block(m.push_scope().declare(var, vs[k]), BlockV::Loop(next), l.body);
        },
    }
}

proof fn lemma_for_start(m: MachineV, is_expr: bool, var: Seq<char>, body: Seq<StmtV>, v: ValueV)
    requires
        chained(m.stack),
        awaits(m.stack, is_expr),
    ensures
        went_on(for_start(m, is_expr, var, body, v)),
{
    let range = |a: int, b: int|
        LoopV { is_expr, walk: WalkV::Range(var, a, b), body, result: ValueV::Unit };
    match v {
        ValueV::Range(a, b) => lemma_loop_next(m, range(a as int, b as int)),
        ValueV::Int(n) => lemma_loop_next(m, range(0, n as int)),
        ValueV::Array(vs) => lemma_loop_next(
            m,
            LoopV { is_expr, walk: WalkV::Items(var, vs, 0), body, result: ValueV::Unit },
        ),
        _ => {},
    }
}

proof fn lemma_invoke(
    m: MachineV,
    task: TaskV,
    name: Seq<char>,
    n: nat,
    args: Seq<ExprV>,
)
    requires
        chained(m.stack),
        awaits(m.stack, true),
        gives_value(task),
        needs(task) <= n,
    ensures
        went_on(begin_call(m, task, name, n, args)),
{
    if args.len() >= n {
        lemma_begin(m, task, args.take(n as int));
    }
}

proof fn lemma_call_step(m: MachineV, name: Seq<char>, args: Seq<ExprV>)
    requires
        chained(m.stack),
        awaits(m.stack, true),
    ensures
        went_on(call_step(m, name, args)),
        went_on(name_step(m, name)),
{
    match crate::builtins::builtin_signature(name) {
        Some((arity, _)) => lemma_invoke(m, TaskV::Builtin(name), name, arity, args),
        None => match lookup_v(m.variants(), name) {
            LookupV::Unique(v) => lemma_begin(m, TaskV::Variant(v.enum_name, v.name), args),
            LookupV::Ambiguous(_) => {},
            LookupV::Unknown => {
                match crate::semantics::find_macro(m.program, name) {
                    Some((params, body)) => lemma_invoke(
                        m,
                        TaskV::Invoke(params, body, None),
                        name,
                        params.len(),
                        args,
                    ),
                    None => {
                        lemma_invoke(m, TaskV::Sleep, name, 1, args);
                        match find_fn(m.program, name) {
                            Some((params, body)) => lemma_invoke(
                                m,
                                TaskV::Invoke(params, body, None),
                                name,
                                params.len(),
                                args,
                            ),
                            None => {},
                        }
                    },
                }
            },
        },
    }
}

proof fn lemma_eval(m: MachineV, e: ExprV)
    requires
        chained(m.stack),
        awaits(m.stack, true),
    ensures
        went_on(eval_step(m, e)),
{
    match *e.kind {
        ExprKindV::Ident(name) => lemma_call_step(m, name, Seq::empty()),
        ExprKindV::Binary(l, op, r) => lemma_begin(m, TaskV::Bin(op), seq![*l, *r]),
        ExprKindV::Unary(op, x) => lemma_begin(m, TaskV::Un(op), seq![*x]),
        ExprKindV::Range(a, b) => lemma_begin(m, TaskV::Range, seq![*a, *b]),
        ExprKindV::ArrayLit(es) => lemma_begin(m, TaskV::Array, es),
        ExprKindV::Index(a, i) => lemma_begin(m, TaskV::Index, seq![*a, *i]),
        ExprKindV::Call(callee, args) => match crate::grammar::name_of(*callee) {
            Some(name) => lemma_call_step(m, name, args),
            None => {},
        },
        ExprKindV::FieldAccess(obj, field) => lemma_begin(m, TaskV::Field(field), seq![*obj]),
        ExprKindV::MethodCall(obj, method, args) => lemma_begin(
            m,
            TaskV::Method(method, args),
            seq![*obj],
        ),
        ExprKindV::StructLit { name, fields } => lemma_begin(
            m,
            TaskV::Struct(name, crate::semantics::field_names(fields)),
            crate::semantics::field_exprs(fields),
        ),
        ExprKindV::Match { scrutinee, arms } => lemma_begin(
            m,
            TaskV::MatchOn(arms),
            seq![*scrutinee],
        ),
        ExprKindV::If { cond, then_body, else_body } => lemma_begin(
            m,
            TaskV::IfExpr(*then_body, crate::semantics::unboxed(else_body)),
            seq![*cond],
        ),
        ExprKindV::While { cond, body } => lemma_loop_next(
            m,
            LoopV { is_expr: true, walk: WalkV::Cond(*cond), body, result: ValueV::Unit },
        ),
        ExprKindV::For { var, iter, body } => lemma_begin(
            m,
            TaskV::ForStart(true, var, body),
            seq![*iter],
        ),
        _ => {},
    }
}

proof fn lemma_exec(before: MachineV, s: StmtV)
    requires
        chained(before.stack),
        awaits(before.stack, false),
    ensures
        went_on(exec_step(before, s)),
{
    let m = MachineV { span: s.span, ..before };
    match s.kind {
        StmtKindV::Let { name, value, .. } => lemma_begin(m, TaskV::Let(name), seq![value]),
        StmtKindV::Assign { name, value } => lemma_begin(m, TaskV::Assign(name), seq![value]),
        StmtKindV::Expr(e) => lemma_begin(m, TaskV::Discard, seq![e]),
        StmtKindV::Return(Some(x)) => lemma_begin(m, TaskV::Return, seq![x]),
        StmtKindV::Break(Some(x)) => lemma_begin(m, TaskV::Break, seq![x]),
        StmtKindV::While { cond, body } => lemma_loop_next(
            m,
            LoopV { is_expr: false, walk: WalkV::Cond(cond), body, result: ValueV::Unit },
        ),
        StmtKindV::For { var, iter, body } => lemma_begin(
            m,
            TaskV::ForStart(false, var, body),
            seq![iter],
        ),
        StmtKindV::If { cond, then_body, else_body } => lemma_begin(
            m,
            TaskV::IfStmt(then_body, else_body),
            seq![cond],
        ),
        _ => {},
    }
}

proof fn lemma_method(m: MachineV, obj: ValueV, method: Seq<char>, args: Seq<ExprV>)
    requires
        chained(m.stack),
        awaits(m.stack, true),
    ensures
        went_on(method_step(m, obj, method, args)),
{
    if crate::semantics::builtin_call(obj, method) is None {
        match crate::semantics::method_owner(obj) {
            None => {},
            Some(owner) => match crate::semantics::find_method(m.program, owner, method, 0) {
                None => {},
                Some((params, body)) => {
                    let takes_self = params.len() > 0 && params[0] == "self"@;
                    let rest = if takes_self {
                        params.skip(1)
                    } else {
                        params
                    };
                    let receiver = if takes_self {
                        Some(obj)
                    } else {
                        None
                    };
                    if args.len() >= rest.len() {
                        lemma_begin(m, TaskV::Invoke(rest, body, receiver), args);
                    }
                },
            },
        }
    }
}

proof fn lemma_call_frame(m: MachineV, frame: Map<Seq<char>, ValueV>, body: Seq<StmtV>)
    requires
        chained(m.stack),
        awaits(m.stack, true),
    ensures
        went_on(m.call_frame(frame, body)),
{
    lemma_run_block(MachineV { scopes: seq![frame], ..m }, BlockV::Call(m.scopes), body);
}

proof fn lemma_apply(m: MachineV, task: TaskV, vals: Seq<ValueV>)
    requires
        chained(m.stack),
        awaits(m.stack, gives_value(task)),
    ensures
        went_on(apply(m, task, vals)),
{
    match task {
        TaskV::Method(method, args) => lemma_method(m, vals[0], method, args),
        TaskV::Invoke(params, body, receiver) => lemma_call_frame(
            m,
            crate::semantics::bound(
                crate::semantics::receiver_frame(receiver),
                params,
                vals,
                params.len() as int,
            ),
            body,
        ),
        TaskV::MatchOn(arms) => lemma_try_arms(m, arms, 0, 0, vals[0]),
        TaskV::Guard(arms, i, j, v) => {
            lemma_try_arms(m.pop_scope(), arms, i, j, v);
            lemma_push(m.stack, FrameV::Arm);
            assert(chained(m.stack.push(FrameV::Arm)));
        },
        TaskV::WhileTest(l) => {
            lemma_run_block(m.push_scope(), BlockV::Loop(l), l.body);
            lemma_loop_next(m, l);
        },
        TaskV::ForStart(is_expr, var, body) => lemma_for_start(m, is_expr, var, body, vals[0]),
        TaskV::IfStmt(then_body, else_body) => {
            lemma_run_block(m.push_scope(), BlockV::If, then_body);
            match else_body {
                Some(b) => lemma_run_block(m.push_scope(), BlockV::If, b),
                None => {},
            }
        },
        _ => {},
    }
}

proof fn lemma_block_step(m: MachineV, kind: BlockV, stmts: Seq<StmtV>, next: int)
    requires
        chained(m.stack.push(FrameV::Block { kind, stmts, next, span: m.span })),
    ensures
        ({
            let r = block_step(m, kind, stmts, next);
            went_on(r) || {
                &&& r.1 is Done
                &&& r.0.ctl is Stopped
                &&& kind is Top
                &&& m.stack.len() == 0
                &&& !(0 <= next < stmts.len())
                &&& find_fn(m.program, "main"@) is None
            }
        }),
{
    lemma_push(m.stack, FrameV::Block { kind, stmts, next, span: m.span });
    if next > 0 && signal(m, kind) is Some {
        match kind {
            BlockV::Loop(l) => {
                lemma_loop_next(MachineV { should_continue: false, ..m.pop_scope() }, l);
            },
            _ => {},
        }
    } else if 0 <= next < stmts.len() {
        let f = FrameV::Block { kind, stmts, next: next + 1, span: m.span };
        lemma_push(m.stack, f);
        assert(chained(m.stack.push(f)));
    } else {
        match kind {
            BlockV::Top => {
                lemma_push(m.stack, FrameV::End);
                assert(chained(m.stack.push(FrameV::End)));
                match find_fn(m.program, "main"@) {
                    Some((_, body)) => lemma_call_frame(m.push(FrameV::End), Map::empty(), body),
                    None => {},
                }
            },
            BlockV::Loop(l) => lemma_loop_next(m.pop_scope(), l),
            _ => {},
        }
    }
}

/// The machine is never stuck. A step of a running program leads to a state in
/// which it can go on, or fails, or ends, and it ends only where the program
/// does. A failure is reported against the statement that was being run.
pub proof fn law_machine_never_stuck(m: MachineV)
    requires
        fits(m),
    ensures
        match step(m) {
            (next, ActionV::Fail(d)) => next.ctl is Stopped && d.span == next.span,
            (next, ActionV::Done) => next.ctl is Stopped && (m.ctl is Stopped || at_end(m)),
            (next, _) => fits(next),
        },
{
    let m0 = m.with(CtlV::Stopped);
    match m.ctl {
        CtlV::Eval(e) => lemma_eval(m0, e),
        CtlV::Exec(s) => lemma_exec(m0, s),
        CtlV::Value(v) => match m.stack.last() {
            FrameV::Collect { task, exprs, vals } => {
                let f = FrameV::Collect { task, exprs, vals: vals.push(v) };
                lemma_push(m0.pop().stack, f);
                assert(chained(m0.pop().stack.push(f)));
            },
            _ => {},
        },
        CtlV::Ready => match m.stack.last() {
            FrameV::Collect { task, exprs, vals } => lemma_apply(m0.pop(), task, vals),
            _ => {},
        },
        CtlV::Next => match m.stack.last() {
            FrameV::Block { kind, stmts, next, span } => {
                let back = MachineV { span, ..m0.pop() };
                assert(m.stack =~= back.stack.push(m.stack.last()));
                lemma_block_step(back, kind, stmts, next);
            },
            _ => {},
        },
        _ => {},
    }
}

/// A program can take its first step, and an answer of the host lets it go on.
pub proof fn law_machine_starts(program: Seq<StmtV>, m: MachineV, v: ValueV)
    requires
        fits(m),
    ensures
        fits(loaded(program)),
        fits(answered(m, v)),
        m.ctl is Wait ==> answered(m, v).ctl == CtlV::Value(v),
{
    assert(loaded(program).stack.drop_last().len() == 0);
}

/// However long a program has run, it can go on, or it has failed, or it has
/// ended. A stopped program stays stopped.
pub proof fn law_machine_runs_on(m: MachineV, n: nat)
    requires
        fits(m),
    ensures
        match steps(m, n) {
            (next, ActionV::Fail(d)) => next.ctl is Stopped && d.span == next.span,
            (next, ActionV::Done) => next.ctl is Stopped,
            (next, _) => fits(next),
        },
        m.ctl is Stopped && n > 0 ==> steps(m, n) == (m, ActionV::Done),
    decreases n,
{
    if n > 0 && !(m.ctl is Wait) {
        law_machine_never_stuck(m);
        match step(m) {
            (m1, ActionV::Continue) => law_machine_runs_on(m1, (n - 1) as nat),
            _ => {},
        }
    }
}

/// To run for some steps and then for some more is to run for all of them, as
/// long as the host has nothing to do in between.
pub proof fn law_steps_add_up(m: MachineV, a: nat, b: nat)
    ensures
        steps(m, a).1 is Continue ==> steps(m, a + b) == steps(steps(m, a).0, b),
        !(steps(m, a).1 is Continue) ==> steps(m, a + b) == steps(m, a),
    decreases a,
{
    if a > 0 && !(m.ctl is Wait) {
        match step(m) {
            (m1, ActionV::Continue) => law_steps_add_up(m1, (a - 1) as nat, b),
            _ => {},
        }
    }
}

} // verus!
