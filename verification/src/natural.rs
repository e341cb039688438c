//! What running a program comes to, construct by construct: which parts are evaluated, in
//! which order, what value comes out, and what has been printed by then.

use crate::ast::{BinOp, ExprKindV, ExprV, PatternV, StmtKindV, StmtV, TypeV, UnaryOp};
use crate::bodies::{lemma_told_adds_up, told};
use crate::builtins::builtin_signature;
use crate::diagnostic::{DiagnosticV, Span};
use crate::grammar::name_of;
use crate::lookup_laws::{
    distinct, has_field, holds as impl_holds_method, is_slot, law_method_is_found, law_slot,
    law_struct_value,
};
use crate::primitives::{builtin_result, element_at, BuiltinV};
use crate::semantics::{
    ambiguous_text, apply, arity_text, arranged, bound, builtin_call, eval_step, exec_step,
    field_exprs, field_names, find_fn, find_macro, find_method, find_struct, given, has_extern,
    loop_next, matched, matched_from, method_owner, needs, receiver_frame, signal, slot, step,
    try_arms, unboxed, ActionV, BlockV, CtlV, FrameV, LoopV, MachineV, TaskV, WalkV,
};
use crate::statements::{at, in_block, quiet};
use crate::value::{binop_result, chooses, holds, unop_result, OpV, ValueV};
use crate::variants::{lookup_v, LookupV, VariantV};
use vstd::prelude::*;

verus! {

// ---- evaluation ----

/// On top of some frames, an expression comes to a value in a number of steps, leaves the
/// frames as they are, and has printed something.
pub open spec fn evals_on(
    stack: Seq<FrameV>,
    m: MachineV,
    e: ExprV,
    v: ValueV,
    after: MachineV,
    shown: Seq<char>,
) -> bool {
    exists|k: nat| #[trigger]
        told(at(m, stack, CtlV::Eval(e)), k) == (
            at(after, stack, CtlV::Value(v)),
            shown,
            ActionV::Continue,
        )
}

/// An expression comes to a value, wherever it stands.
pub open spec fn evals(
    m: MachineV,
    e: ExprV,
    v: ValueV,
    after: MachineV,
    shown: Seq<char>,
) -> bool {
    forall|stack: Seq<FrameV>| #[trigger] evals_on(stack, m, e, v, after, shown)
}

/// An expression makes the program fail.
pub open spec fn fails_on(
    stack: Seq<FrameV>,
    m: MachineV,
    e: ExprV,
    message: Seq<char>,
    span: Span,
    shown: Seq<char>,
) -> bool {
    exists|k: nat| (#[trigger] told(at(m, stack, CtlV::Eval(e)), k)).1 == shown && told(
        at(m, stack, CtlV::Eval(e)),
        k,
    ).2 == ActionV::Fail(DiagnosticV { message, span })
}

pub open spec fn fails(
    m: MachineV,
    e: ExprV,
    message: Seq<char>,
    span: Span,
    shown: Seq<char>,
) -> bool {
    forall|stack: Seq<FrameV>| #[trigger] fails_on(stack, m, e, message, span, shown)
}

/// Expressions come to values one after the other: each starts where the one before it
/// has left the program.
pub open spec fn evals_each(
    ms: Seq<MachineV>,
    es: Seq<ExprV>,
    vals: Seq<ValueV>,
    outs: Seq<Seq<char>>,
) -> bool {
    &&& ms.len() == es.len() + 1
    &&& vals.len() == es.len()
    &&& outs.len() == es.len()
    &&& forall|i: int|
        #![trigger es[i]]
        0 <= i < es.len() ==> evals(ms[i], es[i], vals[i], ms[i + 1], outs[i])
}

/// Texts from the `i`th on, put together.
pub open spec fn together(outs: Seq<Seq<char>>, i: int) -> Seq<char>
    decreases outs.len() - i,
{
    if i < 0 || i >= outs.len() {
        Seq::empty()
    } else {
        outs[i] + together(outs, i + 1)
    }
}

proof fn lemma_chain(from: MachineV, k: nat, mid: MachineV, a: Seq<char>, j: nat)
    requires
        told(from, k) == (mid, a, ActionV::Continue),
    ensures
        told(from, k + j).0 == told(mid, j).0,
        told(from, k + j).1 == a + told(mid, j).1,
        told(from, k + j).2 == told(mid, j).2,
{
    lemma_told_adds_up(from, k, j);
}

proof fn lemma_one(from: MachineV)
    ensures
        step(from).1 is Continue ==> told(from, 1) == (
            step(from).0,
            Seq::<char>::empty(),
            ActionV::Continue,
        ),
        step(from).1 matches ActionV::Print(line) ==> told(from, 1) == (
            step(from).0,
            line + seq!['\n'],
            ActionV::Continue,
        ),
        step(from).1 matches ActionV::Fail(d) ==> told(from, 1).1 == Seq::<char>::empty() && told(
            from,
            1,
        ).2 == ActionV::Fail(d),
{
    reveal_with_fuel(told, 2);
    match step(from).1 {
        ActionV::Print(line) => {
            assert(line + seq!['\n'] + Seq::<char>::empty() =~= line + seq!['\n']);
        },
        _ => {},
    }
}

proof fn lemma_on(
    stack: Seq<FrameV>,
    m: MachineV,
    e: ExprV,
    v: ValueV,
    after: MachineV,
    shown: Seq<char>,
) -> (k: nat)
    requires
        evals(m, e, v, after, shown),
    ensures
        told(at(m, stack, CtlV::Eval(e)), k) == (
            at(after, stack, CtlV::Value(v)),
            shown,
            ActionV::Continue,
        ),
{
    assert(evals_on(stack, m, e, v, after, shown));
    choose|k: nat| #[trigger]
        told(at(m, stack, CtlV::Eval(e)), k) == (
            at(after, stack, CtlV::Value(v)),
            shown,
            ActionV::Continue,
        )
}

/// What is worked on next, once `i` of some expressions have values.
spec fn next_of(es: Seq<ExprV>, i: int) -> CtlV {
    if i < es.len() {
        CtlV::Eval(es[i])
    } else {
        CtlV::Ready
    }
}

/// The values of expressions are collected from left to right.
proof fn lemma_collect(
    stack: Seq<FrameV>,
    task: TaskV,
    ms: Seq<MachineV>,
    es: Seq<ExprV>,
    vals: Seq<ValueV>,
    outs: Seq<Seq<char>>,
    i: int,
) -> (k: nat)
    requires
        evals_each(ms, es, vals, outs),
        0 <= i <= es.len(),
    ensures
        told(
            at(
                ms[i],
                stack.push(FrameV::Collect { task, exprs: es, vals: vals.take(i) }),
                next_of(es, i),
            ),
            k,
        ) == (
            at(ms.last(), stack.push(FrameV::Collect { task, exprs: es, vals }), CtlV::Ready),
            together(outs, i),
            ActionV::Continue,
        ),
    decreases es.len() - i,
{
    let frame = FrameV::Collect { task, exprs: es, vals: vals.take(i) };
    let from = at(ms[i], stack.push(frame), next_of(es, i));
    if i == es.len() {
        assert(vals.take(i) =~= vals);
        assert(told(from, 0) == (from, Seq::<char>::empty(), ActionV::Continue));
        0
    } else {
        assert(es[i] == es[i]);
        let k1 = lemma_on(stack.push(frame), ms[i], es[i], vals[i], ms[i + 1], outs[i]);
        let mid = at(ms[i + 1], stack.push(frame), CtlV::Value(vals[i]));
        let now = FrameV::Collect { task, exprs: es, vals: vals.take(i + 1) };
        let next = at(ms[i + 1], stack.push(now), next_of(es, i + 1));
        assert(vals.take(i).push(vals[i]) =~= vals.take(i + 1));
        assert(stack.push(frame).last() == frame);
        assert(stack.push(frame).drop_last() =~= stack);
        assert(step(mid) == (next, ActionV::Continue));
        lemma_one(mid);
        lemma_chain(from, k1, mid, outs[i], 1);
        assert(outs[i] + Seq::<char>::empty() =~= outs[i]);
        let k2 = lemma_collect(stack, task, ms, es, vals, outs, i + 1);
        lemma_chain(from, k1 + 1, next, outs[i], k2);
        k1 + 1 + k2
    }
}

/// Once the values are known, the task is done with them.
proof fn lemma_task(
    stack: Seq<FrameV>,
    from: MachineV,
    task: TaskV,
    ms: Seq<MachineV>,
    es: Seq<ExprV>,
    vals: Seq<ValueV>,
    outs: Seq<Seq<char>>,
) -> (k: nat)
    requires
        evals_each(ms, es, vals, outs),
        step(from) == at(ms[0], stack, CtlV::Stopped).begin(task, es),
        needs(task) <= vals.len(),
    ensures
        ({
            let r = apply(at(ms.last(), stack, CtlV::Stopped), task, vals);
            &&& r.1 is Continue ==> told(from, k) == (r.0, together(outs, 0), ActionV::Continue)
            &&& r.1 matches ActionV::Print(line) ==> told(from, k) == (
                r.0,
                together(outs, 0) + (line + seq!['\n']),
                ActionV::Continue,
            )
            &&& r.1 matches ActionV::Fail(d) ==> told(from, k).1 == together(outs, 0) && told(
                from,
                k,
            ).2 == ActionV::Fail(d)
        }),
{
    let frame = FrameV::Collect { task, exprs: es, vals: Seq::empty() };
    let begun = at(ms[0], stack.push(frame), next_of(es, 0));
    assert(vals.take(0) =~= Seq::empty());
    assert(step(from) == (begun, ActionV::Continue));
    lemma_one(from);
    let k1 = lemma_collect(stack, task, ms, es, vals, outs, 0);
    let full = FrameV::Collect { task, exprs: es, vals };
    let ready = at(ms.last(), stack.push(full), CtlV::Ready);
    lemma_chain(from, 1, begun, Seq::empty(), k1);
    assert(Seq::<char>::empty() + together(outs, 0) =~= together(outs, 0));
    assert(stack.push(full).last() == full);
    assert(stack.push(full).drop_last() =~= stack);
    assert(ready.with(CtlV::Stopped).pop() == at(ms.last(), stack, CtlV::Stopped));
    assert(step(ready) == apply(at(ms.last(), stack, CtlV::Stopped), task, vals));
    lemma_one(ready);
    lemma_chain(from, 1 + k1, ready, together(outs, 0), 1);
    assert(together(outs, 0) + Seq::<char>::empty() =~= together(outs, 0));
    1 + k1 + 1
}

/// The same of an expression that gives a value in the end.
proof fn lemma_evals(
    e: ExprV,
    task: TaskV,
    ms: Seq<MachineV>,
    es: Seq<ExprV>,
    vals: Seq<ValueV>,
    outs: Seq<Seq<char>>,
    v: ValueV,
)
    requires
        evals_each(ms, es, vals, outs),
        forall|x: MachineV| #[trigger] eval_step(x, e) == x.begin(task, es),
        needs(task) <= vals.len(),
        forall|x: MachineV| #[trigger] apply(x, task, vals) == x.give(v),
    ensures
        evals(ms[0], e, v, ms.last(), together(outs, 0)),
{
    assert forall|stack: Seq<FrameV>| #[trigger]
        evals_on(stack, ms[0], e, v, ms.last(), together(outs, 0)) by {
        let from = at(ms[0], stack, CtlV::Eval(e));
        let x = at(ms[0], stack, CtlV::Stopped);
        assert(from.with(CtlV::Stopped) == x);
        assert(eval_step(x, e) == x.begin(task, es));
        let k = lemma_task(stack, from, task, ms, es, vals, outs);
        let y = at(ms.last(), stack, CtlV::Stopped);
        assert(apply(y, task, vals) == y.give(v));
        assert(told(from, k) == (
            at(ms.last(), stack, CtlV::Value(v)),
            together(outs, 0),
            ActionV::Continue,
        ));
    }
}

/// The same of one that fails.
proof fn lemma_fails(
    e: ExprV,
    task: TaskV,
    ms: Seq<MachineV>,
    es: Seq<ExprV>,
    vals: Seq<ValueV>,
    outs: Seq<Seq<char>>,
    message: Seq<char>,
)
    requires
        evals_each(ms, es, vals, outs),
        forall|x: MachineV| #[trigger] eval_step(x, e) == x.begin(task, es),
        needs(task) <= vals.len(),
        forall|x: MachineV| #[trigger] apply(x, task, vals) == x.fail(message),
    ensures
        fails(ms[0], e, message, ms.last().span, together(outs, 0)),
{
    assert forall|stack: Seq<FrameV>| #[trigger]
        fails_on(stack, ms[0], e, message, ms.last().span, together(outs, 0)) by {
        let from = at(ms[0], stack, CtlV::Eval(e));
        let x = at(ms[0], stack, CtlV::Stopped);
        assert(from.with(CtlV::Stopped) == x);
        assert(eval_step(x, e) == x.begin(task, es));
        let k = lemma_task(stack, from, task, ms, es, vals, outs);
        let y = at(ms.last(), stack, CtlV::Stopped);
        assert(apply(y, task, vals) == y.fail(message));
        assert(told(from, k).1 == together(outs, 0));
    }
}

/// An expression whose value is known at once.
proof fn lemma_at_once(m: MachineV, e: ExprV, v: ValueV)
    requires
        forall|stack: Seq<FrameV>| #[trigger]
            eval_step(at(m, stack, CtlV::Stopped), e) == at(m, stack, CtlV::Stopped).give(v),
    ensures
        evals(m, e, v, m, Seq::empty()),
{
    assert forall|stack: Seq<FrameV>| #[trigger]
        evals_on(stack, m, e, v, m, Seq::<char>::empty()) by {
        let from = at(m, stack, CtlV::Eval(e));
        let x = at(m, stack, CtlV::Stopped);
        assert(from.with(CtlV::Stopped) == x);
        assert(eval_step(x, e) == x.give(v));
        lemma_one(from);
        assert(told(from, 1) == (
            at(m, stack, CtlV::Value(v)),
            Seq::<char>::empty(),
            ActionV::Continue,
        ));
    }
}

proof fn lemma_pair(
    m: MachineV,
    m1: MachineV,
    m2: MachineV,
    a: ExprV,
    b: ExprV,
    x: ValueV,
    y: ValueV,
    out1: Seq<char>,
    out2: Seq<char>,
)
    requires
        evals(m, a, x, m1, out1),
        evals(m1, b, y, m2, out2),
    ensures
        evals_each(seq![m, m1, m2], seq![a, b], seq![x, y], seq![out1, out2]),
        together(seq![out1, out2], 0) == out1 + out2,
        seq![m, m1, m2].last() == m2,
        seq![m, m1, m2][0] == m,
{
    reveal_with_fuel(together, 3);
    assert(out1 + (out2 + Seq::<char>::empty()) =~= out1 + out2);
    let ms = seq![m, m1, m2];
    let es = seq![a, b];
    assert forall|i: int|
        #![trigger es[i]]
        0 <= i < es.len() implies evals(
        ms[i],
        es[i],
        seq![x, y][i],
        ms[i + 1],
        seq![out1, out2][i],
    ) by {
        assert(i == 0 || i == 1);
    }
}

proof fn lemma_single(m: MachineV, m1: MachineV, a: ExprV, x: ValueV, out: Seq<char>)
    requires
        evals(m, a, x, m1, out),
    ensures
        evals_each(seq![m, m1], seq![a], seq![x], seq![out]),
        together(seq![out], 0) == out,
        seq![m, m1].last() == m1,
        seq![m, m1][0] == m,
{
    reveal_with_fuel(together, 2);
    assert(out + Seq::<char>::empty() =~= out);
}

// ---- literals, names, operators ----

/// A literal is its value.
pub proof fn law_literal_evaluates(m: MachineV, e: ExprV)
    ensures
        *e.kind matches ExprKindV::Int(n) ==> evals(m, e, ValueV::Int(n), m, Seq::empty()),
        *e.kind matches ExprKindV::Bool(b) ==> evals(m, e, ValueV::Bool(b), m, Seq::empty()),
        *e.kind matches ExprKindV::Str(s) ==> evals(m, e, ValueV::Str(s), m, Seq::empty()),
{
    match *e.kind {
        ExprKindV::Int(n) => lemma_at_once(m, e, ValueV::Int(n)),
        ExprKindV::Bool(b) => lemma_at_once(m, e, ValueV::Bool(b)),
        ExprKindV::Str(s) => lemma_at_once(m, e, ValueV::Str(s)),
        _ => {},
    }
}

/// A name is the variant of that name, or what the variable stands for.
pub proof fn law_name_evaluates(m: MachineV, e: ExprV, name: Seq<char>)
    requires
        *e.kind == ExprKindV::Ident(name),
    ensures
        lookup_v(m.variants(), name) matches LookupV::Unique(v) ==> evals(
            m,
            e,
            ValueV::EnumVariant { enum_name: v.enum_name, variant: v.name, args: Seq::empty() },
            m,
            Seq::empty(),
        ),
        lookup_v(m.variants(), name) is Unknown ==> (m.lookup(name) matches Some(v) ==> evals(
            m,
            e,
            v,
            m,
            Seq::empty(),
        )),
{
    assert forall|stack: Seq<FrameV>|
        at(m, stack, CtlV::Stopped).lookup(name) == m.lookup(name) && #[trigger] at(
            m,
            stack,
            CtlV::Stopped,
        ).variants() == m.variants() by {}
    match lookup_v(m.variants(), name) {
        LookupV::Unique(v) => {
            let val = ValueV::EnumVariant {
                enum_name: v.enum_name,
                variant: v.name,
                args: Seq::empty(),
            };
            assert forall|stack: Seq<FrameV>| #[trigger]
                eval_step(at(m, stack, CtlV::Stopped), e) == at(m, stack, CtlV::Stopped).give(
                    val,
                ) by {
                assert(at(m, stack, CtlV::Stopped).variants() == m.variants());
            }
            lemma_at_once(m, e, val);
        },
        LookupV::Unknown => match m.lookup(name) {
            Some(v) => {
                assert forall|stack: Seq<FrameV>| #[trigger]
                    eval_step(at(m, stack, CtlV::Stopped), e) == at(m, stack, CtlV::Stopped).give(
                        v,
                    ) by {
                    assert(at(m, stack, CtlV::Stopped).variants() == m.variants());
                }
                lemma_at_once(m, e, v);
            },
            None => {},
        },
        _ => {},
    }
}

/// The operands of a binary operator are evaluated from left to right, both of them, and
/// the operation is done on their values.
pub proof fn law_binary_evaluates(
    e: ExprV,
    l: ExprV,
    op: BinOp,
    r: ExprV,
    m: MachineV,
    m1: MachineV,
    m2: MachineV,
    x: ValueV,
    y: ValueV,
    out1: Seq<char>,
    out2: Seq<char>,
)
    requires
        *e.kind == ExprKindV::Binary(Box::new(l), op, Box::new(r)),
        evals(m, l, x, m1, out1),
        evals(m1, r, y, m2, out2),
    ensures
        binop_result(x, op, y) matches OpV::Done(v) ==> evals(m, e, v, m2, out1 + out2),
        binop_result(x, op, y) matches OpV::Fail(message) ==> fails(
            m,
            e,
            message,
            m2.span,
            out1 + out2,
        ),
{
    lemma_pair(m, m1, m2, l, r, x, y, out1, out2);
    let ms = seq![m, m1, m2];
    let es = seq![l, r];
    let vals = seq![x, y];
    let outs = seq![out1, out2];
    match binop_result(x, op, y) {
        OpV::Done(v) => lemma_evals(e, TaskV::Bin(op), ms, es, vals, outs, v),
        OpV::Fail(message) => lemma_fails(e, TaskV::Bin(op), ms, es, vals, outs, message),
        _ => {},
    }
}

pub proof fn law_unary_evaluates(
    e: ExprV,
    op: UnaryOp,
    a: ExprV,
    m: MachineV,
    m1: MachineV,
    x: ValueV,
    out: Seq<char>,
)
    requires
        *e.kind == ExprKindV::Unary(op, Box::new(a)),
        evals(m, a, x, m1, out),
    ensures
        unop_result(op, x) matches OpV::Done(v) ==> evals(m, e, v, m1, out),
        unop_result(op, x) matches OpV::Fail(message) ==> fails(m, e, message, m1.span, out),
{
    lemma_single(m, m1, a, x, out);
    match unop_result(op, x) {
        OpV::Done(v) => lemma_evals(
            e,
            TaskV::Un(op),
            seq![m, m1],
            seq![a],
            seq![x],
            seq![out],
            v,
        ),
        OpV::Fail(message) => lemma_fails(
            e,
            TaskV::Un(op),
            seq![m, m1],
            seq![a],
            seq![x],
            seq![out],
            message,
        ),
        _ => {},
    }
}

// ---- arrays, ranges, structs, variants ----

/// An array literal is the array of its elements, evaluated from left to right.
pub proof fn law_array_evaluates(
    e: ExprV,
    es: Seq<ExprV>,
    ms: Seq<MachineV>,
    vals: Seq<ValueV>,
    outs: Seq<Seq<char>>,
)
    requires
        *e.kind == ExprKindV::ArrayLit(es),
        evals_each(ms, es, vals, outs),
    ensures
        evals(ms[0], e, ValueV::Array(vals), ms.last(), together(outs, 0)),
{
    lemma_evals(e, TaskV::Array, ms, es, vals, outs, ValueV::Array(vals));
}

/// An index expression is the element at the index where there is one, and fails
/// elsewhere; a range of two integers is that range.
pub proof fn law_index_evaluates(
    e: ExprV,
    a: ExprV,
    b: ExprV,
    m: MachineV,
    m1: MachineV,
    m2: MachineV,
    x: ValueV,
    y: ValueV,
    out1: Seq<char>,
    out2: Seq<char>,
)
    requires
        evals(m, a, x, m1, out1),
        evals(m1, b, y, m2, out2),
    ensures
        *e.kind == ExprKindV::Index(Box::new(a), Box::new(b)) && x is Array && y is Int ==> {
            let vs = x->Array_0;
            let i = y->Int_0;
            &&& 0 <= i < vs.len() ==> evals(m, e, vs[i as int], m2, out1 + out2)
            &&& !(0 <= i < vs.len()) ==> exists|message: Seq<char>| #[trigger]
                fails(m, e, message, m2.span, out1 + out2)
        },
        *e.kind == ExprKindV::Range(Box::new(a), Box::new(b)) && x is Int && y is Int ==> evals(
            m,
            e,
            ValueV::Range(x->Int_0, y->Int_0),
            m2,
            out1 + out2,
        ),
{
    lemma_pair(m, m1, m2, a, b, x, y, out1, out2);
    let ms = seq![m, m1, m2];
    let es = seq![a, b];
    let vals = seq![x, y];
    let outs = seq![out1, out2];
    if *e.kind == ExprKindV::Index(Box::new(a), Box::new(b)) && x is Array && y is Int {
        let vs = x->Array_0;
        let i = y->Int_0;
        match element_at(vs, i as int) {
            Ok(v) => lemma_evals(e, TaskV::Index, ms, es, vals, outs, v),
            Err(message) => lemma_fails(e, TaskV::Index, ms, es, vals, outs, message),
        }
    }
    if *e.kind == ExprKindV::Range(Box::new(a), Box::new(b)) && x is Int && y is Int {
        let v = ValueV::Range(x->Int_0, y->Int_0);
        lemma_evals(e, TaskV::Range, ms, es, vals, outs, v);
    }
}

/// A field access reads the field of that name, where the value has it.
pub proof fn law_field_evaluates(
    e: ExprV,
    obj: ExprV,
    field: Seq<char>,
    m: MachineV,
    m1: MachineV,
    name: Seq<char>,
    fields: Seq<(Seq<char>, ValueV)>,
    k: int,
    out: Seq<char>,
)
    requires
        *e.kind == ExprKindV::FieldAccess(Box::new(obj), field),
        evals(m, obj, ValueV::Struct { name, fields }, m1, out),
        is_slot(fields, field, k),
    ensures
        evals(m, e, fields[k].1, m1, out),
{
    let x = ValueV::Struct { name, fields };
    lemma_single(m, m1, obj, x, out);
    law_slot(fields, field, 0);
    lemma_evals(
        e,
        TaskV::Field(field),
        seq![m, m1],
        seq![obj],
        seq![x],
        seq![out],
        fields[k].1,
    );
}

/// A call of a variant is the variant with the values of the arguments in order.
pub proof fn law_variant_evaluates(
    e: ExprV,
    callee: ExprV,
    name: Seq<char>,
    args: Seq<ExprV>,
    v: VariantV,
    ms: Seq<MachineV>,
    vals: Seq<ValueV>,
    outs: Seq<Seq<char>>,
)
    requires
        *e.kind == ExprKindV::Call(Box::new(callee), args),
        *callee.kind == ExprKindV::Ident(name),
        builtin_signature(name) is None,
        lookup_v(ms[0].variants(), name) == LookupV::Unique(v),
        evals_each(ms, args, vals, outs),
    ensures
        evals(
            ms[0],
            e,
            ValueV::EnumVariant { enum_name: v.enum_name, variant: v.name, args: vals },
            ms.last(),
            together(outs, 0),
        ),
{
    let val = ValueV::EnumVariant { enum_name: v.enum_name, variant: v.name, args: vals };
    let task = TaskV::Variant(v.enum_name, v.name);
    let shown = together(outs, 0);
    assert forall|stack: Seq<FrameV>| #[trigger]
        evals_on(stack, ms[0], e, val, ms.last(), shown) by {
        let from = at(ms[0], stack, CtlV::Eval(e));
        let x = at(ms[0], stack, CtlV::Stopped);
        assert(from.with(CtlV::Stopped) == x);
        assert(x.variants() == ms[0].variants());
        assert(name_of(callee) == Some(name));
        let k = lemma_task(stack, from, task, ms, args, vals, outs);
        assert(told(from, k) == (
            at(ms.last(), stack, CtlV::Value(val)),
            shown,
            ActionV::Continue,
        ));
    }
}

/// A call of a builtin does with the values of its arguments what the builtin does;
/// `print` shows a line.
pub proof fn law_builtin_evaluates(
    e: ExprV,
    callee: ExprV,
    name: Seq<char>,
    args: Seq<ExprV>,
    ms: Seq<MachineV>,
    vals: Seq<ValueV>,
    outs: Seq<Seq<char>>,
)
    requires
        *e.kind == ExprKindV::Call(Box::new(callee), args),
        *callee.kind == ExprKindV::Ident(name),
        builtin_signature(name) is Some,
        args.len() == builtin_signature(name)->Some_0.0,
        evals_each(ms, args, vals, outs),
    ensures
        match builtin_result(name, vals) {
            BuiltinV::Done(v) => evals(ms[0], e, v, ms.last(), together(outs, 0)),
            BuiltinV::Fail(message) => fails(
                ms[0],
                e,
                message,
                ms.last().span,
                together(outs, 0),
            ),
            BuiltinV::Print(line) => evals(
                ms[0],
                e,
                ValueV::Unit,
                ms.last(),
                together(outs, 0) + (line + seq!['\n']),
            ),
        },
{
    assert(name_of(callee) == Some(name));
    assert(args.take(args.len() as int) =~= args);
    let task = TaskV::Builtin(name);
    match builtin_result(name, vals) {
        BuiltinV::Done(v) => lemma_evals(e, task, ms, args, vals, outs, v),
        BuiltinV::Fail(message) => lemma_fails(e, task, ms, args, vals, outs, message),
        BuiltinV::Print(line) => {
            let shown = together(outs, 0) + (line + seq!['\n']);
            assert forall|stack: Seq<FrameV>| #[trigger]
                evals_on(stack, ms[0], e, ValueV::Unit, ms.last(), shown) by {
                let from = at(ms[0], stack, CtlV::Eval(e));
                let x = at(ms[0], stack, CtlV::Stopped);
                assert(from.with(CtlV::Stopped) == x);
                let k = lemma_task(stack, from, task, ms, args, vals, outs);
                assert(told(from, k) == (
                    at(ms.last(), stack, CtlV::Value(ValueV::Unit)),
                    shown,
                    ActionV::Continue,
                ));
            }
        },
    }
}

// ---- choices ----

/// Whether a value chooses the first branch of an `if`: what is true, not zero, not the
/// empty text and not nothing.
pub open spec fn is_taken(v: ValueV) -> bool {
    !(v == ValueV::Bool(false) || v == ValueV::Int(0) || v == ValueV::Str(Seq::empty())
        || v is Unit)
}

/// Whether a guard or the condition of a loop holds: what is true or not zero; other
/// values hold.
pub open spec fn is_met(v: ValueV) -> bool {
    !(v == ValueV::Bool(false) || v == ValueV::Int(0))
}

proof fn lemma_conditions(v: ValueV)
    ensures
        chooses(v) == is_taken(v),
        holds(v) == is_met(v),
{
    match v {
        ValueV::Str(s) => {
            if s.len() == 0 {
                assert(s =~= Seq::<char>::empty());
            }
        },
        _ => {},
    }
}

/// An `if` expression evaluates its condition, and then one branch: the first where the
/// condition is taken, else the second. Without a second one it is nothing.
pub proof fn law_if_evaluates(
    e: ExprV,
    cond: ExprV,
    then_body: ExprV,
    else_body: Option<Box<ExprV>>,
    m: MachineV,
    m1: MachineV,
    m2: MachineV,
    c: ValueV,
    v: ValueV,
    out1: Seq<char>,
    out2: Seq<char>,
)
    requires
        *e.kind == (ExprKindV::If {
            cond: Box::new(cond),
            then_body: Box::new(then_body),
            else_body,
        }),
        evals(m, cond, c, m1, out1),
    ensures
        is_taken(c) && evals(m1, then_body, v, m2, out2) ==> evals(m, e, v, m2, out1 + out2),
        !is_taken(c) ==> match else_body {
            Some(x) => evals(m1, *x, v, m2, out2) ==> evals(m, e, v, m2, out1 + out2),
            None => evals(m, e, ValueV::Unit, m1, out1),
        },
{
    lemma_conditions(c);
    lemma_single(m, m1, cond, c, out1);
    let task = TaskV::IfExpr(then_body, unboxed(else_body));
    let next = if is_taken(c) {
        Some(then_body)
    } else {
        unboxed(else_body)
    };
    match next {
        Some(x) => if evals(m1, x, v, m2, out2) {
            assert forall|stack: Seq<FrameV>| #[trigger]
                evals_on(stack, m, e, v, m2, out1 + out2) by {
                let from = at(m, stack, CtlV::Eval(e));
                assert(from.with(CtlV::Stopped) == at(m, stack, CtlV::Stopped));
                let k = lemma_task(
                    stack,
                    from,
                    task,
                    seq![m, m1],
                    seq![cond],
                    seq![c],
                    seq![out1],
                );
                let mid = at(m1, stack, CtlV::Eval(x));
                assert(told(from, k) == (mid, out1, ActionV::Continue));
                let j = lemma_on(stack, m1, x, v, m2, out2);
                lemma_chain(from, k, mid, out1, j);
                assert(told(from, k + j) == (
                    at(m2, stack, CtlV::Value(v)),
                    out1 + out2,
                    ActionV::Continue,
                ));
            }
        },
        None => {
            lemma_evals(
                e,
                task,
                seq![m, m1],
                seq![cond],
                seq![c],
                seq![out1],
                ValueV::Unit,
            );
        },
    }
}

// ---- statements ----

/// On top of some frames, a statement is done in a number of steps.
pub open spec fn execs_on(
    stack: Seq<FrameV>,
    m: MachineV,
    st: StmtV,
    after: MachineV,
    shown: Seq<char>,
) -> bool {
    exists|k: nat| #[trigger]
        told(at(m, stack, CtlV::Exec(st)), k) == (
            at(after, stack, CtlV::Next),
            shown,
            ActionV::Continue,
        )
}

/// A statement is done, wherever it stands.
pub open spec fn execs(m: MachineV, st: StmtV, after: MachineV, shown: Seq<char>) -> bool {
    forall|stack: Seq<FrameV>| #[trigger] execs_on(stack, m, st, after, shown)
}

/// The machine at a statement.
pub open spec fn placed(m: MachineV, st: StmtV) -> MachineV {
    MachineV { span: st.span, ..m }
}

proof fn lemma_execs(
    st: StmtV,
    task: TaskV,
    e: ExprV,
    v: ValueV,
    m: MachineV,
    m1: MachineV,
    after: MachineV,
    shown: Seq<char>,
)
    requires
        evals(placed(m, st), e, v, m1, shown),
        needs(task) <= 1,
        forall|x: MachineV| #[trigger] exec_step(x, st) == placed(x, st).begin(task, seq![e]),
        forall|stack: Seq<FrameV>| #[trigger]
            apply(at(m1, stack, CtlV::Stopped), task, seq![v]) == at(
                after,
                stack,
                CtlV::Stopped,
            ).next(),
    ensures
        execs(m, st, after, shown),
{
    let m0 = placed(m, st);
    lemma_single(m0, m1, e, v, shown);
    assert forall|stack: Seq<FrameV>| #[trigger] execs_on(stack, m, st, after, shown) by {
        let from = at(m, stack, CtlV::Exec(st));
        let x = at(m, stack, CtlV::Stopped);
        assert(from.with(CtlV::Stopped) == x);
        assert(exec_step(x, st) == placed(x, st).begin(task, seq![e]));
        assert(placed(x, st) == at(m0, stack, CtlV::Stopped));
        let k = lemma_task(stack, from, task, seq![m0, m1], seq![e], seq![v], seq![shown]);
        assert(told(from, k) == (at(after, stack, CtlV::Next), shown, ActionV::Continue));
    }
}

/// A `let` evaluates its value and declares the name; an assignment evaluates its value
/// and changes the variable; an expression statement evaluates the expression; a `return`
/// evaluates what is returned.
pub proof fn law_simple_statements(
    st: StmtV,
    e: ExprV,
    v: ValueV,
    m: MachineV,
    m1: MachineV,
    shown: Seq<char>,
)
    requires
        evals(placed(m, st), e, v, m1, shown),
    ensures
        st.kind matches StmtKindV::Let { name, value, .. } ==> (value == e ==> execs(
            m,
            st,
            m1.declare(name, v),
            shown,
        )),
        st.kind matches StmtKindV::Assign { name, value } ==> (value == e ==> execs(
            m,
            st,
            m1.assign(name, v),
            shown,
        )),
        st.kind == StmtKindV::Expr(e) ==> execs(m, st, m1, shown),
        st.kind == StmtKindV::Return(Some(e)) ==> execs(
            m,
            st,
            MachineV { returned: Some(v), ..m1 },
            shown,
        ),
        st.kind == StmtKindV::Break(Some(e)) ==> execs(
            m,
            st,
            MachineV { should_break: true, break_value: Some(v), ..m1 },
            shown,
        ),
{
    match st.kind {
        StmtKindV::Let { name, value, .. } => if value == e {
            lemma_execs(st, TaskV::Let(name), e, v, m, m1, m1.declare(name, v), shown);
        },
        StmtKindV::Assign { name, value } => if value == e {
            lemma_execs(st, TaskV::Assign(name), e, v, m, m1, m1.assign(name, v), shown);
        },
        StmtKindV::Expr(x) => if x == e {
            lemma_execs(st, TaskV::Discard, e, v, m, m1, m1, shown);
        },
        StmtKindV::Return(Some(x)) => if x == e {
            lemma_execs(
                st,
                TaskV::Return,
                e,
                v,
                m,
                m1,
                MachineV { returned: Some(v), ..m1 },
                shown,
            );
        },
        StmtKindV::Break(Some(x)) => if x == e {
            lemma_execs(
                st,
                TaskV::Break,
                e,
                v,
                m,
                m1,
                MachineV { should_break: true, break_value: Some(v), ..m1 },
                shown,
            );
        },
        _ => {},
    }
}

/// Statements of a block are done one after the other, each where the one before it has
/// left the program; `span` is the place that the block is part of. None of them returns,
/// breaks or continues, but for the last, which may.
pub open spec fn execs_each(
    ms: Seq<MachineV>,
    ss: Seq<StmtV>,
    outs: Seq<Seq<char>>,
    n: int,
    span: Span,
) -> bool {
    &&& 0 <= n <= ss.len()
    &&& ms.len() == n + 1
    &&& outs.len() == n
    &&& forall|i: int|
        #![trigger ss[i]]
        0 <= i < n ==> execs(MachineV { span, ..ms[i] }, ss[i], ms[i + 1], outs[i])
    &&& forall|i: int| 0 <= i < n ==> quiet(#[trigger] ms[i])
}

/// In a block, the first `n` statements are done.
proof fn lemma_block(
    stack: Seq<FrameV>,
    kind: BlockV,
    span: Span,
    ms: Seq<MachineV>,
    ss: Seq<StmtV>,
    outs: Seq<Seq<char>>,
    n: int,
    i: int,
) -> (k: nat)
    requires
        execs_each(ms, ss, outs, n, span),
        0 <= i <= n,
        !(kind is Top),
    ensures
        told(at(ms[i], stack.push(in_block(kind, ss, i, span)), CtlV::Next), k) == (
            at(ms[n], stack.push(in_block(kind, ss, n, span)), CtlV::Next),
            together(outs, i),
            ActionV::Continue,
        ),
    decreases n - i,
{
    let from = at(ms[i], stack.push(in_block(kind, ss, i, span)), CtlV::Next);
    if i == n {
        assert(told(from, 0) == (from, Seq::<char>::empty(), ActionV::Continue));
        0
    } else {
        let frame = in_block(kind, ss, i, span);
        let later = stack.push(in_block(kind, ss, i + 1, span));
        let here = MachineV { span, ..ms[i] };
        let begun = at(here, later, CtlV::Exec(ss[i]));
        assert(stack.push(frame).last() == frame);
        assert(stack.push(frame).drop_last() =~= stack);
        assert(quiet(ms[i]));
        assert(signal(at(here, stack, CtlV::Stopped), kind) is None) by {
            match kind {
                BlockV::Loop(l) => {},
                _ => {},
            }
        }
        assert(MachineV { span, ..from.with(CtlV::Stopped).pop() } == at(
            here,
            stack,
            CtlV::Stopped,
        ));
        assert(step(from) == (begun, ActionV::Continue));
        lemma_one(from);
        assert(ss[i] == ss[i]);
        assert(execs_on(later, here, ss[i], ms[i + 1], outs[i]));
        let k1 = choose|k: nat| #[trigger]
            told(begun, k) == (at(ms[i + 1], later, CtlV::Next), outs[i], ActionV::Continue);
        lemma_chain(from, 1, begun, Seq::empty(), k1);
        assert(Seq::<char>::empty() + outs[i] =~= outs[i]);
        let mid = at(ms[i + 1], later, CtlV::Next);
        let k2 = lemma_block(stack, kind, span, ms, ss, outs, n, i + 1);
        lemma_chain(from, 1 + k1, mid, outs[i], k2);
        1 + k1 + k2
    }
}

/// A block is left after `n` statements: they are all, or the last of them returns,
/// breaks or continues.
pub open spec fn left_after(ms: Seq<MachineV>, ss: Seq<StmtV>, n: int) -> bool {
    n == ss.len() && quiet(ms[n]) || n > 0 && !quiet(ms[n])
}

/// An `if` statement evaluates its condition, and then runs one body in a scope of its
/// own: the first where the condition is taken, else the second, if there is one.
pub proof fn law_if_statement(
    st: StmtV,
    cond: ExprV,
    then_body: Seq<StmtV>,
    else_body: Option<Seq<StmtV>>,
    m: MachineV,
    m1: MachineV,
    c: ValueV,
    out: Seq<char>,
    ms: Seq<MachineV>,
    outs: Seq<Seq<char>>,
    n: int,
)
    requires
        st.kind == (StmtKindV::If { cond, then_body, else_body }),
        evals(placed(m, st), cond, c, m1, out),
    ensures
        ({
            let body = if is_taken(c) {
                Some(then_body)
            } else {
                else_body
            };
            match body {
                Some(b) => execs_each(ms, b, outs, n, m1.span) && left_after(ms, b, n) && ms[0]
                    == m1.push_scope() ==> execs(
                    m,
                    st,
                    MachineV { span: m1.span, ..ms[n] }.pop_scope(),
                    out + together(outs, 0),
                ),
                None => execs(m, st, m1, out),
            }
        }),
{
    lemma_conditions(c);
    let m0 = placed(m, st);
    lemma_single(m0, m1, cond, c, out);
    let task = TaskV::IfStmt(then_body, else_body);
    let body = if is_taken(c) {
        Some(then_body)
    } else {
        else_body
    };
    match body {
        Some(b) => if execs_each(ms, b, outs, n, m1.span) && left_after(ms, b, n) && ms[0]
            == m1.push_scope() {
            let after = MachineV { span: m1.span, ..ms[n] }.pop_scope();
            let shown = out + together(outs, 0);
            assert forall|stack: Seq<FrameV>| #[trigger] execs_on(stack, m, st, after, shown) by {
                let from = at(m, stack, CtlV::Exec(st));
                assert(from.with(CtlV::Stopped) == at(m, stack, CtlV::Stopped));
                let k = lemma_task(
                    stack,
                    from,
                    task,
                    seq![m0, m1],
                    seq![cond],
                    seq![c],
                    seq![out],
                );
                let mid = at(ms[0], stack.push(in_block(BlockV::If, b, 0, m1.span)), CtlV::Next);
                assert(told(from, k) == (mid, out, ActionV::Continue));
                let j = lemma_block(stack, BlockV::If, m1.span, ms, b, outs, n, 0);
                lemma_chain(from, k, mid, out, j);
                let frame = in_block(BlockV::If, b, n, m1.span);
                let last = at(ms[n], stack.push(frame), CtlV::Next);
                assert(stack.push(frame).last() == frame);
                assert(stack.push(frame).drop_last() =~= stack);
                assert(step(last) == (at(after, stack, CtlV::Next), ActionV::Continue));
                lemma_one(last);
                lemma_chain(from, k + j, last, shown, 1);
                assert(shown + Seq::<char>::empty() =~= shown);
                assert(told(from, k + j + 1) == (
                    at(after, stack, CtlV::Next),
                    shown,
                    ActionV::Continue,
                ));
            }
        },
        None => lemma_execs(st, task, cond, c, m, m1, m1, out),
    }
}

// ---- loops ----

/// On top of some frames, a loop is done in a number of steps.
pub open spec fn loops_on(
    stack: Seq<FrameV>,
    m: MachineV,
    l: LoopV,
    after: MachineV,
    shown: Seq<char>,
) -> bool {
    exists|k: nat| #[trigger]
        told(loop_next(at(m, stack, CtlV::Stopped), l).0, k) == (
            at(after, stack, CtlV::Next),
            shown,
            ActionV::Continue,
        ) && loop_next(at(m, stack, CtlV::Stopped), l).1 is Continue
}

/// A loop statement that has got so far is done, wherever it stands.
pub open spec fn loops(m: MachineV, l: LoopV, after: MachineV, shown: Seq<char>) -> bool {
    !l.is_expr && forall|stack: Seq<FrameV>| #[trigger] loops_on(stack, m, l, after, shown)
}

/// A `for` walks a range, the integers below a number, or the elements of an array.
pub open spec fn walk_of(var: Seq<char>, v: ValueV) -> Option<WalkV> {
    match v {
        ValueV::Range(a, b) => Some(WalkV::Range(var, a as int, b as int)),
        ValueV::Int(n) => Some(WalkV::Range(var, 0, n as int)),
        ValueV::Array(vs) => Some(WalkV::Items(var, vs, 0)),
        _ => None,
    }
}

/// A `for` statement evaluates what it walks, once, and then walks it.
pub proof fn law_for_statement(
    st: StmtV,
    var: Seq<char>,
    iter: ExprV,
    body: Seq<StmtV>,
    m: MachineV,
    m1: MachineV,
    v: ValueV,
    out1: Seq<char>,
    walk: WalkV,
    result: ValueV,
    after: MachineV,
    out2: Seq<char>,
)
    requires
        st.kind == (StmtKindV::For { var, iter, body }),
        evals(placed(m, st), iter, v, m1, out1),
        walk_of(var, v) == Some(walk),
        loops(m1, LoopV { is_expr: false, walk, body, result: ValueV::Unit }, after, out2),
    ensures
        execs(m, st, after, out1 + out2),
{
    let m0 = placed(m, st);
    let l = LoopV { is_expr: false, walk, body, result: ValueV::Unit };
    lemma_single(m0, m1, iter, v, out1);
    let task = TaskV::ForStart(false, var, body);
    assert forall|stack: Seq<FrameV>| #[trigger] execs_on(stack, m, st, after, out1 + out2) by {
        let from = at(m, stack, CtlV::Exec(st));
        assert(from.with(CtlV::Stopped) == at(m, stack, CtlV::Stopped));
        let k = lemma_task(stack, from, task, seq![m0, m1], seq![iter], seq![v], seq![out1]);
        assert(loops_on(stack, m1, l, after, out2));
        let begun = loop_next(at(m1, stack, CtlV::Stopped), l).0;
        let j = choose|j: nat| #[trigger]
            told(begun, j) == (at(after, stack, CtlV::Next), out2, ActionV::Continue);
        assert(told(from, k) == (begun, out1, ActionV::Continue));
        lemma_chain(from, k, begun, out1, j);
        assert(told(from, k + j) == (
            at(after, stack, CtlV::Next),
            out1 + out2,
            ActionV::Continue,
        ));
    }
}

/// A `while` statement is a loop over its condition.
pub proof fn law_while_statement(
    st: StmtV,
    cond: ExprV,
    body: Seq<StmtV>,
    m: MachineV,
    after: MachineV,
    shown: Seq<char>,
)
    requires
        st.kind == (StmtKindV::While { cond, body }),
        loops(
            placed(m, st),
            LoopV { is_expr: false, walk: WalkV::Cond(cond), body, result: ValueV::Unit },
            after,
            shown,
        ),
    ensures
        execs(m, st, after, shown),
{
    let m0 = placed(m, st);
    let l = LoopV { is_expr: false, walk: WalkV::Cond(cond), body, result: ValueV::Unit };
    assert forall|stack: Seq<FrameV>| #[trigger] execs_on(stack, m, st, after, shown) by {
        let from = at(m, stack, CtlV::Exec(st));
        assert(from.with(CtlV::Stopped) == at(m, stack, CtlV::Stopped));
        assert(loops_on(stack, m0, l, after, shown));
        let begun = loop_next(at(m0, stack, CtlV::Stopped), l).0;
        let j = choose|j: nat| #[trigger]
            told(begun, j) == (at(after, stack, CtlV::Next), shown, ActionV::Continue);
        assert(step(from) == (begun, ActionV::Continue));
        lemma_one(from);
        lemma_chain(from, 1, begun, Seq::empty(), j);
        assert(Seq::<char>::empty() + shown =~= shown);
        assert(told(from, 1 + j) == (at(after, stack, CtlV::Next), shown, ActionV::Continue));
    }
}

/// A loop over a range or over elements ends where nothing is left to walk.
pub proof fn law_walk_ends(m: MachineV, l: LoopV)
    requires
        !l.is_expr,
        match l.walk {
            WalkV::Range(_, i, end) => i >= end,
            WalkV::Items(_, vs, k) => k >= vs.len(),
            WalkV::Cond(_) => false,
        },
    ensures
        loops(m, l, m, Seq::empty()),
{
    assert forall|stack: Seq<FrameV>| #[trigger]
        loops_on(stack, m, l, m, Seq::<char>::empty()) by {
        let now = loop_next(at(m, stack, CtlV::Stopped), l).0;
        assert(told(now, 0) == (
            at(m, stack, CtlV::Next),
            Seq::<char>::empty(),
            ActionV::Continue,
        ));
    }
}

/// What the variable of a loop stands for in its next turn, and the loop after that turn.
pub open spec fn turn_of(l: LoopV) -> Option<(Seq<char>, ValueV, LoopV)> {
    match l.walk {
        WalkV::Range(var, i, end) => if i < end {
            Some((var, ValueV::Int(i as i64), LoopV { walk: WalkV::Range(var, i + 1, end), ..l }))
        } else {
            None
        },
        WalkV::Items(var, vs, k) => if k < vs.len() {
            Some((var, vs[k], LoopV { walk: WalkV::Items(var, vs, k + 1), ..l }))
        } else {
            None
        },
        WalkV::Cond(_) => None,
    }
}

/// The end of a turn: the scope of the turn goes. `break` ends the loop, and so does
/// `return`; otherwise the next turn comes.
pub open spec fn turn_done(end: MachineV, span: Span) -> MachineV {
    MachineV { should_continue: false, span, ..end }.pop_scope()
}

pub open spec fn turn_broken(end: MachineV, span: Span) -> MachineV {
    MachineV { should_break: false, break_value: None, span, ..end }.pop_scope()
}

pub open spec fn turn_returned(end: MachineV, span: Span) -> MachineV {
    MachineV { span, ..end }.pop_scope()
}

/// How a turn leads on: to the next turn, or out of the loop.
pub open spec fn turn_leads(
    end: MachineV,
    span: Span,
    next: LoopV,
    after: MachineV,
    rest: Seq<char>,
) -> bool {
    if end.returned is Some {
        after == turn_returned(end, span) && rest == Seq::<char>::empty()
    } else if end.should_continue || !end.should_break {
        loops(turn_done(end, span), next, after, rest)
    } else {
        after == turn_broken(end, span) && rest == Seq::<char>::empty()
    }
}

proof fn lemma_turn_ends(
    stack: Seq<FrameV>,
    next: LoopV,
    ss: Seq<StmtV>,
    ms: Seq<MachineV>,
    n: int,
    span: Span,
    after: MachineV,
    rest: Seq<char>,
) -> (k: nat)
    requires
        !next.is_expr,
        0 <= n <= ss.len(),
        ms.len() == n + 1,
        left_after(ms, ss, n),
        turn_leads(ms[n], span, next, after, rest),
    ensures
        told(at(ms[n], stack.push(in_block(BlockV::Loop(next), ss, n, span)), CtlV::Next), k) == (
            at(after, stack, CtlV::Next),
            rest,
            ActionV::Continue,
        ),
{
    let frame = in_block(BlockV::Loop(next), ss, n, span);
    let last = at(ms[n], stack.push(frame), CtlV::Next);
    assert(stack.push(frame).last() == frame);
    assert(stack.push(frame).drop_last() =~= stack);
    let end = ms[n];
    let inner = at(MachineV { span, ..end }, stack, CtlV::Stopped);
    assert(MachineV { span, ..last.with(CtlV::Stopped).pop() } == inner);
    lemma_one(last);
    if end.returned is Some {
        assert(step(last) == (at(after, stack, CtlV::Next), ActionV::Continue));
        1
    } else if end.should_continue || !end.should_break {
        let done = turn_done(end, span);
        assert(loops_on(stack, done, next, after, rest));
        let begun = loop_next(at(done, stack, CtlV::Stopped), next).0;
        assert(step(last) == loop_next(at(done, stack, CtlV::Stopped), next)) by {
            assert(MachineV { should_continue: false, ..inner.pop_scope() } == at(
                done,
                stack,
                CtlV::Stopped,
            ));
            if quiet(end) {
                assert(inner.pop_scope() == at(done, stack, CtlV::Stopped));
            }
        }
        let j = choose|j: nat| #[trigger]
            told(begun, j) == (at(after, stack, CtlV::Next), rest, ActionV::Continue);
        lemma_chain(last, 1, begun, Seq::empty(), j);
        assert(Seq::<char>::empty() + rest =~= rest);
        1 + j
    } else {
        assert(step(last) == (at(after, stack, CtlV::Next), ActionV::Continue));
        1
    }
}

/// A turn of a loop over a range or over elements: the variable is declared in a scope of
/// the turn, the body runs, and the loop goes on as the body says.
pub proof fn law_walk_turns(
    m: MachineV,
    l: LoopV,
    ms: Seq<MachineV>,
    outs: Seq<Seq<char>>,
    n: int,
    after: MachineV,
    rest: Seq<char>,
)
    requires
        !l.is_expr,
        turn_of(l) is Some,
        execs_each(ms, l.body, outs, n, m.span),
        left_after(ms, l.body, n),
        ms[0] == m.push_scope().declare(turn_of(l)->Some_0.0, turn_of(l)->Some_0.1),
        turn_leads(ms[n], m.span, turn_of(l)->Some_0.2, after, rest),
    ensures
        loops(m, l, after, together(outs, 0) + rest),
{
    let (var, v, next) = turn_of(l)->Some_0;
    let shown = together(outs, 0) + rest;
    assert forall|stack: Seq<FrameV>| #[trigger] loops_on(stack, m, l, after, shown) by {
        let begun = loop_next(at(m, stack, CtlV::Stopped), l).0;
        let kind = BlockV::Loop(next);
        let start = at(ms[0], stack.push(in_block(kind, l.body, 0, m.span)), CtlV::Next);
        assert(begun == start);
        let k = lemma_block(stack, kind, m.span, ms, l.body, outs, n, 0);
        let j = lemma_turn_ends(stack, next, l.body, ms, n, m.span, after, rest);
        let last = at(ms[n], stack.push(in_block(kind, l.body, n, m.span)), CtlV::Next);
        lemma_chain(begun, k, last, together(outs, 0), j);
        assert(told(begun, k + j) == (at(after, stack, CtlV::Next), shown, ActionV::Continue));
    }
}

/// A loop over a condition evaluates it before every turn. Where it is not met, the loop
/// ends. Where it is, the body runs in a scope of its own, and the loop goes on as the
/// body says.
pub proof fn law_condition_turns(
    m: MachineV,
    l: LoopV,
    cond: ExprV,
    c: ValueV,
    m1: MachineV,
    out: Seq<char>,
    ms: Seq<MachineV>,
    outs: Seq<Seq<char>>,
    n: int,
    after: MachineV,
    rest: Seq<char>,
)
    requires
        !l.is_expr,
        l.walk == WalkV::Cond(cond),
        evals(m, cond, c, m1, out),
    ensures
        !is_met(c) ==> loops(m, l, m1, out),
        is_met(c) && execs_each(ms, l.body, outs, n, m1.span) && left_after(ms, l.body, n) && ms[0]
            == m1.push_scope() && turn_leads(ms[n], m1.span, l, after, rest) ==> loops(
            m,
            l,
            after,
            out + together(outs, 0) + rest,
        ),
{
    lemma_conditions(c);
    lemma_single(m, m1, cond, c, out);
    let task = TaskV::WhileTest(l);
    if !is_met(c) {
        assert forall|stack: Seq<FrameV>| #[trigger] loops_on(stack, m, l, m1, out) by {
            let begun = loop_next(at(m, stack, CtlV::Stopped), l).0;
            let k = lemma_begun(stack, begun, task, seq![m, m1], seq![cond], seq![c], seq![out]);
            assert(told(begun, k) == (at(m1, stack, CtlV::Next), out, ActionV::Continue));
        }
    } else if execs_each(ms, l.body, outs, n, m1.span) && left_after(ms, l.body, n) && ms[0]
        == m1.push_scope() && turn_leads(ms[n], m1.span, l, after, rest) {
        let shown = out + together(outs, 0) + rest;
        assert forall|stack: Seq<FrameV>| #[trigger] loops_on(stack, m, l, after, shown) by {
            let begun = loop_next(at(m, stack, CtlV::Stopped), l).0;
            let k = lemma_begun(stack, begun, task, seq![m, m1], seq![cond], seq![c], seq![out]);
            let kind = BlockV::Loop(l);
            let start = at(ms[0], stack.push(in_block(kind, l.body, 0, m1.span)), CtlV::Next);
            assert(told(begun, k) == (start, out, ActionV::Continue));
            let i = lemma_block(stack, kind, m1.span, ms, l.body, outs, n, 0);
            let j = lemma_turn_ends(stack, l, l.body, ms, n, m1.span, after, rest);
            let last = at(ms[n], stack.push(in_block(kind, l.body, n, m1.span)), CtlV::Next);
            lemma_chain(start, i, last, together(outs, 0), j);
            lemma_chain(begun, k, start, out, i + j);
            assert(out + (together(outs, 0) + rest) =~= shown);
            assert(told(begun, k + (i + j)) == (
                at(after, stack, CtlV::Next),
                shown,
                ActionV::Continue,
            ));
        }
    }
}

/// As `lemma_task`, from where the first expression is evaluated.
proof fn lemma_begun(
    stack: Seq<FrameV>,
    begun: MachineV,
    task: TaskV,
    ms: Seq<MachineV>,
    es: Seq<ExprV>,
    vals: Seq<ValueV>,
    outs: Seq<Seq<char>>,
) -> (k: nat)
    requires
        evals_each(ms, es, vals, outs),
        begun == at(ms[0], stack, CtlV::Stopped).begin(task, es).0,
        needs(task) <= vals.len(),
    ensures
        ({
            let r = apply(at(ms.last(), stack, CtlV::Stopped), task, vals);
            r.1 is Continue ==> told(begun, k) == (r.0, together(outs, 0), ActionV::Continue)
        }),
{
    let frame = FrameV::Collect { task, exprs: es, vals: Seq::empty() };
    assert(begun == at(ms[0], stack.push(frame), next_of(es, 0)));
    assert(vals.take(0) =~= Seq::empty());
    let k1 = lemma_collect(stack, task, ms, es, vals, outs, 0);
    let full = FrameV::Collect { task, exprs: es, vals };
    let ready = at(ms.last(), stack.push(full), CtlV::Ready);
    assert(stack.push(full).last() == full);
    assert(stack.push(full).drop_last() =~= stack);
    assert(ready.with(CtlV::Stopped).pop() == at(ms.last(), stack, CtlV::Stopped));
    assert(step(ready) == apply(at(ms.last(), stack, CtlV::Stopped), task, vals));
    lemma_one(ready);
    lemma_chain(begun, k1, ready, together(outs, 0), 1);
    assert(together(outs, 0) + Seq::<char>::empty() =~= together(outs, 0));
    k1 + 1
}

// ---- calls ----

/// The frame of a call: each parameter stands for the value of its argument, `self` for
/// the receiver, and nothing else is there.
pub open spec fn is_frame(
    frame: Map<Seq<char>, ValueV>,
    receiver: Option<ValueV>,
    params: Seq<Seq<char>>,
    vals: Seq<ValueV>,
) -> bool {
    &&& forall|i: int|
        0 <= i < params.len() ==> frame.contains_key(#[trigger] params[i]) && frame[params[i]]
            == vals[i]
    &&& receiver matches Some(obj) ==> (!params.contains("self"@) ==> frame.contains_key("self"@)
        && frame["self"@] == obj)
    &&& forall|name: Seq<char>| #[trigger]
        frame.contains_key(name) ==> params.contains(name) || receiver is Some && name == "self"@
}

/// The parameters of a call are bound to the values of its arguments, in order.
pub proof fn law_parameters_are_bound(
    receiver: Option<ValueV>,
    params: Seq<Seq<char>>,
    vals: Seq<ValueV>,
)
    requires
        params.len() == vals.len(),
        params.no_duplicates(),
    ensures
        is_frame(
            bound(receiver_frame(receiver), params, vals, params.len() as int),
            receiver,
            params,
            vals,
        ),
{
    lemma_bound(receiver, params, vals, params.len() as int);
    assert(params.take(params.len() as int) =~= params);
}

proof fn lemma_bound(
    receiver: Option<ValueV>,
    params: Seq<Seq<char>>,
    vals: Seq<ValueV>,
    n: int,
)
    requires
        0 <= n <= params.len(),
        params.len() == vals.len(),
        params.no_duplicates(),
    ensures
        is_frame(
            bound(receiver_frame(receiver), params, vals, n),
            receiver,
            params.take(n),
            vals.take(n),
        ),
    decreases n,
{
    let frame = bound(receiver_frame(receiver), params, vals, n);
    let some = params.take(n);
    if n > 0 {
        lemma_bound(receiver, params, vals, n - 1);
        let before = params.take(n - 1);
        let old_frame = bound(receiver_frame(receiver), params, vals, n - 1);
        assert forall|i: int| 0 <= i < some.len() implies frame.contains_key(#[trigger] some[i])
            && frame[some[i]] == vals.take(n)[i] by {
            assert(some[i] == params[i]);
            if i < n - 1 {
                assert(before[i] == params[i]);
                assert(params[i] != params[n - 1]);
                assert(vals.take(n - 1)[i] == vals[i]);
            }
        }
        assert forall|name: Seq<char>| #[trigger] frame.contains_key(name) implies some.contains(
            name,
        ) || receiver is Some && name == "self"@ by {
            if name == params[n - 1] {
                assert(some[n - 1] == name);
            } else {
                assert(old_frame.contains_key(name));
                if before.contains(name) {
                    let i = choose|i: int| 0 <= i < before.len() && before[i] == name;
                    assert(some[i] == name);
                }
            }
        }
        if receiver is Some && !some.contains("self"@) {
            assert(some[n - 1] == params[n - 1]);
            assert(!before.contains("self"@)) by {
                if before.contains("self"@) {
                    let i = choose|i: int| 0 <= i < before.len() && before[i] == "self"@;
                    assert(some[i] == "self"@);
                }
            }
        }
    }
}

/// The body of a call is left after `n` statements: they are all, or the last of them
/// returns.
pub open spec fn body_left(ms: Seq<MachineV>, ss: Seq<StmtV>, n: int) -> bool {
    n == ss.len() && quiet(ms[n]) || n > 0 && ms[n].returned is Some
}

/// What a call gives: what its body has returned, or nothing.
pub open spec fn call_value(end: MachineV) -> ValueV {
    match end.returned {
        Some(v) => v,
        None => ValueV::Unit,
    }
}

/// The caller after a call: its own variables are back, the globals are as the call has
/// left them.
pub open spec fn back(caller: MachineV, end: MachineV) -> MachineV {
    MachineV { returned: None, scopes: caller.scopes, span: caller.span, ..end }
}

proof fn lemma_call(
    stack: Seq<FrameV>,
    from: MachineV,
    es: Seq<ExprV>,
    ms: Seq<MachineV>,
    vals: Seq<ValueV>,
    outs: Seq<Seq<char>>,
    params: Seq<Seq<char>>,
    body: Seq<StmtV>,
    receiver: Option<ValueV>,
    cs: Seq<MachineV>,
    louts: Seq<Seq<char>>,
    n: int,
) -> (k: nat)
    requires
        evals_each(ms, es, vals, outs),
        params.len() <= vals.len(),
        step(from) == at(ms[0], stack, CtlV::Stopped).begin(
            TaskV::Invoke(params, body, receiver),
            es,
        ),
        execs_each(cs, body, louts, n, ms.last().span),
        body_left(cs, body, n),
        cs[0] == (MachineV {
            scopes: seq![bound(receiver_frame(receiver), params, vals, params.len() as int)],
            ..ms.last()
        }),
    ensures
        told(from, k) == (
            at(back(ms.last(), cs[n]), stack, CtlV::Value(call_value(cs[n]))),
            together(outs, 0) + together(louts, 0),
            ActionV::Continue,
        ),
{
    let task = TaskV::Invoke(params, body, receiver);
    let caller = ms.last();
    let k1 = lemma_task(stack, from, task, ms, es, vals, outs);
    let kind = BlockV::Call(caller.scopes);
    let start = at(cs[0], stack.push(in_block(kind, body, 0, caller.span)), CtlV::Next);
    assert(told(from, k1) == (start, together(outs, 0), ActionV::Continue));
    let k2 = lemma_block(stack, kind, caller.span, cs, body, louts, n, 0);
    let frame = in_block(kind, body, n, caller.span);
    let last = at(cs[n], stack.push(frame), CtlV::Next);
    assert(stack.push(frame).last() == frame);
    assert(stack.push(frame).drop_last() =~= stack);
    let end = at(back(caller, cs[n]), stack, CtlV::Value(call_value(cs[n])));
    assert(step(last) == (end, ActionV::Continue)) by {
        assert(MachineV { span: caller.span, ..last.with(CtlV::Stopped).pop() } == at(
            MachineV { span: caller.span, ..cs[n] },
            stack,
            CtlV::Stopped,
        ));
    }
    lemma_one(last);
    lemma_chain(start, k2, last, together(louts, 0), 1);
    assert(together(louts, 0) + Seq::<char>::empty() =~= together(louts, 0));
    lemma_chain(from, k1, start, together(outs, 0), k2 + 1);
    k1 + (k2 + 1)
}

/// A call of a declared function: the arguments are evaluated from left to right, the
/// body runs with the parameters bound to their values and sees nothing else of the
/// caller, and what it returns is the value of the call.
pub proof fn law_call_evaluates(
    e: ExprV,
    callee: ExprV,
    name: Seq<char>,
    args: Seq<ExprV>,
    params: Seq<Seq<char>>,
    body: Seq<StmtV>,
    ms: Seq<MachineV>,
    vals: Seq<ValueV>,
    outs: Seq<Seq<char>>,
    cs: Seq<MachineV>,
    louts: Seq<Seq<char>>,
    n: int,
)
    requires
        *e.kind == ExprKindV::Call(Box::new(callee), args),
        *callee.kind == ExprKindV::Ident(name),
        builtin_signature(name) is None,
        ms.len() > 0,
        lookup_v(ms[0].variants(), name) is Unknown,
        find_macro(ms[0].program, name) is None && !has_extern(ms[0].program, name) && find_fn(
            ms[0].program,
            name,
        ) == Some((params, body)) || find_macro(ms[0].program, name) == Some((params, body)),
        evals_each(ms, args, vals, outs),
        params.len() == args.len(),
        execs_each(cs, body, louts, n, ms.last().span),
        body_left(cs, body, n),
        cs[0] == (MachineV { scopes: cs[0].scopes, ..ms.last() }),
        cs[0].scopes.len() == 1,
        is_frame(cs[0].scopes[0], None, params, vals),
        params.no_duplicates(),
    ensures
        evals(
            ms[0],
            e,
            call_value(cs[n]),
            back(ms.last(), cs[n]),
            together(outs, 0) + together(louts, 0),
        ),
{
    law_parameters_are_bound(None, params, vals);
    let frame = bound(receiver_frame(None), params, vals, params.len() as int);
    lemma_one_frame(cs[0].scopes[0], frame, None, params, vals);
    assert(cs[0].scopes =~= seq![frame]);
    let after = back(ms.last(), cs[n]);
    let shown = together(outs, 0) + together(louts, 0);
    assert(name_of(callee) == Some(name));
    assert(args.take(params.len() as int) =~= args);
    assert forall|stack: Seq<FrameV>| #[trigger]
        evals_on(stack, ms[0], e, call_value(cs[n]), after, shown) by {
        let from = at(ms[0], stack, CtlV::Eval(e));
        let x = at(ms[0], stack, CtlV::Stopped);
        assert(from.with(CtlV::Stopped) == x);
        assert(x.variants() == ms[0].variants());
        assert(step(from) == x.begin(TaskV::Invoke(params, body, None), args));
        let k = lemma_call(
            stack,
            from,
            args,
            ms,
            vals,
            outs,
            params,
            body,
            None,
            cs,
            louts,
            n,
        );
        assert(told(from, k) == (
            at(after, stack, CtlV::Value(call_value(cs[n]))),
            shown,
            ActionV::Continue,
        ));
    }
}

/// There is one frame that binds the parameters.
proof fn lemma_one_frame(
    a: Map<Seq<char>, ValueV>,
    b: Map<Seq<char>, ValueV>,
    receiver: Option<ValueV>,
    params: Seq<Seq<char>>,
    vals: Seq<ValueV>,
)
    requires
        is_frame(a, receiver, params, vals),
        is_frame(b, receiver, params, vals),
        receiver is None || !params.contains("self"@),
    ensures
        a == b,
{
    assert forall|name: Seq<char>| #[trigger] a.contains_key(name) implies b.contains_key(name)
        && a[name] == b[name] by {
        if params.contains(name) {
            let i = choose|i: int| 0 <= i < params.len() && params[i] == name;
            assert(a[params[i]] == vals[i] && b[params[i]] == vals[i]);
        }
    }
    assert forall|name: Seq<char>| #[trigger] b.contains_key(name) implies a.contains_key(
        name,
    ) by {
        if params.contains(name) {
            let i = choose|i: int| 0 <= i < params.len() && params[i] == name;
            assert(a.contains_key(params[i]));
        }
    }
    assert(a =~= b);
}

// ---- methods ----

/// A call of a method that the receiver's type declares: the receiver is evaluated first,
/// then the arguments, and the body runs with `self` standing for the receiver.
pub proof fn law_method_evaluates(
    e: ExprV,
    obj: ExprV,
    method: Seq<char>,
    args: Seq<ExprV>,
    m: MachineV,
    out: Seq<char>,
    v: ValueV,
    owner: Seq<char>,
    params: Seq<Seq<char>>,
    body: Seq<StmtV>,
    ms: Seq<MachineV>,
    vals: Seq<ValueV>,
    outs: Seq<Seq<char>>,
    cs: Seq<MachineV>,
    louts: Seq<Seq<char>>,
    n: int,
)
    requires
        *e.kind == ExprKindV::MethodCall(Box::new(obj), method, args),
        ms.len() > 0,
        evals(m, obj, v, ms[0], out),
        builtin_call(v, method) is None,
        method_owner(v) == Some(owner),
        find_method(ms[0].program, owner, method, 0) == Some((seq!["self"@] + params, body)),
        evals_each(ms, args, vals, outs),
        params.len() == args.len(),
        !params.contains("self"@),
        params.no_duplicates(),
        execs_each(cs, body, louts, n, ms.last().span),
        body_left(cs, body, n),
        cs[0] == (MachineV { scopes: cs[0].scopes, ..ms.last() }),
        cs[0].scopes.len() == 1,
        is_frame(cs[0].scopes[0], Some(v), params, vals),
    ensures
        evals(
            m,
            e,
            call_value(cs[n]),
            back(ms.last(), cs[n]),
            out + (together(outs, 0) + together(louts, 0)),
        ),
{
    law_parameters_are_bound(Some(v), params, vals);
    let frame = bound(receiver_frame(Some(v)), params, vals, params.len() as int);
    lemma_one_frame(cs[0].scopes[0], frame, Some(v), params, vals);
    assert(cs[0].scopes =~= seq![frame]);
    let after = back(ms.last(), cs[n]);
    let inner = together(outs, 0) + together(louts, 0);
    let all = seq!["self"@] + params;
    assert(all[0] == "self"@);
    assert(all.skip(1) =~= params);
    let task = TaskV::Method(method, args);
    lemma_single(m, ms[0], obj, v, out);
    assert forall|stack: Seq<FrameV>| #[trigger]
        evals_on(stack, m, e, call_value(cs[n]), after, out + inner) by {
        let from = at(m, stack, CtlV::Eval(e));
        assert(from.with(CtlV::Stopped) == at(m, stack, CtlV::Stopped));
        let gathered = FrameV::Collect { task, exprs: seq![obj], vals: seq![v] };
        let ready = at(ms[0], stack.push(gathered), CtlV::Ready);
        let begun = at(
            m,
            stack.push(FrameV::Collect { task, exprs: seq![obj], vals: Seq::empty() }),
            next_of(seq![obj], 0),
        );
        assert(step(from) == (begun, ActionV::Continue));
        lemma_one(from);
        assert(seq![v].take(0) =~= Seq::empty());
        let k0 = lemma_collect(
            stack,
            task,
            seq![m, ms[0]],
            seq![obj],
            seq![v],
            seq![out],
            0,
        );
        lemma_chain(from, 1, begun, Seq::empty(), k0);
        assert(Seq::<char>::empty() + out =~= out);
        assert(stack.push(gathered).last() == gathered);
        assert(stack.push(gathered).drop_last() =~= stack);
        let x = at(ms[0], stack, CtlV::Stopped);
        assert(ready.with(CtlV::Stopped).pop() == x);
        assert(step(ready) == x.begin(TaskV::Invoke(params, body, Some(v)), args));
        let k1 = lemma_call(
            stack,
            ready,
            args,
            ms,
            vals,
            outs,
            params,
            body,
            Some(v),
            cs,
            louts,
            n,
        );
        lemma_chain(from, 1 + k0, ready, out, k1);
        assert(told(from, 1 + k0 + k1) == (
            at(after, stack, CtlV::Value(call_value(cs[n]))),
            out + inner,
            ActionV::Continue,
        ));
    }
}

// ---- structs ----

/// A struct literal evaluates its expressions in the order of the literal. Where it gives
/// every field of a declared struct once, the value has the fields in the order of the
/// declaration, each with the value that was given under its name.
pub proof fn law_struct_evaluates(
    e: ExprV,
    name: Seq<char>,
    fields: Seq<(Seq<char>, ExprV)>,
    def: Seq<(Seq<char>, TypeV)>,
    ms: Seq<MachineV>,
    vals: Seq<ValueV>,
    outs: Seq<Seq<char>>,
    d: int,
    k: int,
) -> (made: Seq<(Seq<char>, ValueV)>)
    requires
        *e.kind == (ExprKindV::StructLit { name, fields }),
        ms.len() > 0,
        find_struct(ms.last().program, name) == Some(def),
        evals_each(ms, field_exprs(fields), vals, outs),
        distinct(field_names(fields)),
        forall|i: int| 0 <= i < def.len() ==> field_names(fields).contains((#[trigger] def[i]).0),
        forall|j: int|
            0 <= j < fields.len() ==> has_field(def, #[trigger] field_names(fields)[j]),
        0 <= d < def.len(),
        0 <= k < fields.len(),
        def[d].0 == fields[k].0,
    ensures
        evals(ms[0], e, ValueV::Struct { name, fields: made }, ms.last(), together(outs, 0)),
        made.len() == def.len(),
        made[d] == (fields[k].0, vals[k]),
        slot(made, fields[k].0, 0) == Some(vals[k]),
{
    let names = field_names(fields);
    let made = arranged(Some(def), given(names, vals, names.len() as int));
    let v = ValueV::Struct { name, fields: made };
    let task = TaskV::Struct(name, names);
    let es = field_exprs(fields);
    assert(names[k] == fields[k].0);
    assert forall|j: int| 0 <= j < names.len() implies has_field(def, #[trigger] names[j]) by {}
    law_struct_value(def, names, vals, d, k);
    let shown = together(outs, 0);
    assert forall|stack: Seq<FrameV>| #[trigger]
        evals_on(stack, ms[0], e, v, ms.last(), shown) by {
        let from = at(ms[0], stack, CtlV::Eval(e));
        assert(from.with(CtlV::Stopped) == at(ms[0], stack, CtlV::Stopped));
        let j = lemma_task(stack, from, task, ms, es, vals, outs);
        assert(told(from, j) == (at(ms.last(), stack, CtlV::Value(v)), shown, ActionV::Continue));
    }
    made
}

// ---- match ----

/// A pattern takes a value, and binds these names: `_` takes any value, a name takes any
/// value and binds it, a literal takes the value it is, and a variant takes a value of
/// that variant whose payload its own patterns take one by one.
pub open spec fn takes(
    p: PatternV,
    v: ValueV,
    all: Seq<VariantV>,
    bs: Seq<(Seq<char>, ValueV)>,
) -> bool {
    matched(p, v, all, Seq::empty()) == Ok::<Option<Seq<(Seq<char>, ValueV)>>, Seq<char>>(Some(bs))
}

/// A pattern turns a value down.
pub open spec fn turns_down(p: PatternV, v: ValueV, all: Seq<VariantV>) -> bool {
    matched(p, v, all, Seq::empty()) == Ok::<Option<Seq<(Seq<char>, ValueV)>>, Seq<char>>(None)
}

/// `_`, a name, and a literal.
pub proof fn law_simple_patterns(p: PatternV, v: ValueV, all: Seq<VariantV>)
    ensures
        p is Wildcard ==> takes(p, v, all, Seq::empty()),
        p matches PatternV::Variable(name) ==> takes(p, v, all, seq![(name, v)]),
        p matches PatternV::Literal(e) ==> {
            let same = match *e.kind {
                ExprKindV::Int(n) => v == ValueV::Int(n),
                ExprKindV::Bool(b) => v == ValueV::Bool(b),
                ExprKindV::Str(s) => v == ValueV::Str(s),
                _ => false,
            };
            &&& same ==> takes(p, v, all, Seq::empty())
            &&& !same ==> turns_down(p, v, all)
        },
{
    assert(Seq::<(Seq<char>, ValueV)>::empty().push((Seq::empty(), v)).len() == 1);
    match p {
        PatternV::Variable(name) => {
            assert(Seq::<(Seq<char>, ValueV)>::empty().push((name, v)) =~= seq![(name, v)]);
        },
        _ => {},
    }
}

/// What was bound before stays in front.
proof fn lemma_matched_after(
    p: PatternV,
    v: ValueV,
    all: Seq<VariantV>,
    acc: Seq<(Seq<char>, ValueV)>,
)
    ensures
        match matched(p, v, all, Seq::empty()) {
            Ok(Some(bs)) => matched(p, v, all, acc) == Ok::<
                Option<Seq<(Seq<char>, ValueV)>>,
                Seq<char>,
            >(Some(acc + bs)),
            r => matched(p, v, all, acc) == r,
        },
    decreases p, 0int,
{
    let none = Seq::<(Seq<char>, ValueV)>::empty();
    match p {
        PatternV::Literal(e) => {
            assert(acc + none =~= acc);
        },
        PatternV::Variable(name) => {
            assert(acc + none.push((name, v)) =~= acc.push((name, v)));
        },
        PatternV::Wildcard => {
            assert(acc + none =~= acc);
        },
        PatternV::EnumVariant { name, inner } => match (lookup_v(all, name), v) {
            (LookupV::Unique(w), ValueV::EnumVariant { enum_name, variant, args }) => {
                if args.len() == inner.len() {
                    lemma_matched_from_after(inner, args, all, 0, acc);
                    lemma_matched_from_after(inner, args, all, 0, none);
                }
            },
            _ => {},
        },
    }
}

proof fn lemma_matched_from_after(
    ps: Seq<PatternV>,
    vs: Seq<ValueV>,
    all: Seq<VariantV>,
    i: int,
    acc: Seq<(Seq<char>, ValueV)>,
)
    requires
        0 <= i,
        ps.len() == vs.len(),
    ensures
        match matched_from(ps, vs, all, i, Seq::empty()) {
            Ok(Some(bs)) => matched_from(ps, vs, all, i, acc) == Ok::<
                Option<Seq<(Seq<char>, ValueV)>>,
                Seq<char>,
            >(Some(acc + bs)),
            r => matched_from(ps, vs, all, i, acc) == r,
        },
    decreases ps, ps.len() - i,
{
    let none = Seq::<(Seq<char>, ValueV)>::empty();
    if i < ps.len() {
        lemma_matched_after(ps[i], vs[i], all, acc);
        match matched(ps[i], vs[i], all, none) {
            Ok(Some(bs)) => {
                lemma_matched_from_after(ps, vs, all, i + 1, acc + bs);
                lemma_matched_from_after(ps, vs, all, i + 1, bs);
                match matched_from(ps, vs, all, i + 1, none) {
                    Ok(Some(cs)) => {
                        assert(acc + bs + cs =~= acc + (bs + cs));
                    },
                    _ => {},
                }
            },
            _ => {},
        }
    } else {
        assert(acc + none =~= acc);
    }
}

/// Named values from the `i`th list on, put together.
pub open spec fn bindings(bss: Seq<Seq<(Seq<char>, ValueV)>>, i: int) -> Seq<(Seq<char>, ValueV)>
    decreases bss.len() - i,
{
    if i < 0 || i >= bss.len() {
        Seq::empty()
    } else {
        bss[i] + bindings(bss, i + 1)
    }
}

proof fn lemma_payload(
    ps: Seq<PatternV>,
    vs: Seq<ValueV>,
    all: Seq<VariantV>,
    i: int,
    bss: Seq<Seq<(Seq<char>, ValueV)>>,
)
    requires
        0 <= i <= ps.len(),
        ps.len() == vs.len(),
        ps.len() == bss.len(),
        forall|k: int|
            #![trigger ps[k]]
            0 <= k < ps.len() ==> takes(ps[k], vs[k], all, bss[k]),
    ensures
        matched_from(ps, vs, all, i, Seq::empty()) == Ok::<
            Option<Seq<(Seq<char>, ValueV)>>,
            Seq<char>,
        >(Some(bindings(bss, i))),
    decreases ps.len() - i,
{
    if i < ps.len() {
        assert(ps[i] == ps[i]);
        lemma_payload(ps, vs, all, i + 1, bss);
        lemma_matched_from_after(ps, vs, all, i + 1, bss[i]);
    }
}

proof fn lemma_payload_down(
    ps: Seq<PatternV>,
    vs: Seq<ValueV>,
    all: Seq<VariantV>,
    i: int,
    at_: int,
    acc: Seq<(Seq<char>, ValueV)>,
)
    requires
        0 <= i <= at_ < ps.len(),
        ps.len() == vs.len(),
        forall|k: int|
            0 <= k < at_ ==> matched(#[trigger] ps[k], vs[k], all, Seq::empty()) matches Ok(Some(_)),
        turns_down(ps[at_], vs[at_], all),
    ensures
        matched_from(ps, vs, all, i, acc) == Ok::<
            Option<Seq<(Seq<char>, ValueV)>>,
            Seq<char>,
        >(None),
    decreases at_ - i,
{
    lemma_matched_after(ps[i], vs[i], all, acc);
    if i < at_ {
        match matched(ps[i], vs[i], all, Seq::empty()) {
            Ok(Some(bs)) => lemma_payload_down(ps, vs, all, i + 1, at_, acc + bs),
            _ => {},
        }
    }
}

/// A pattern of a variant takes a value of that variant whose payload its patterns take,
/// and binds what they bind, in order. It turns down a value of another variant, one with
/// another number of values, and one with a value that the pattern for it turns down.
pub proof fn law_variant_pattern(
    p: PatternV,
    name: Seq<char>,
    inner: Seq<PatternV>,
    w: VariantV,
    enum_name: Seq<char>,
    variant: Seq<char>,
    args: Seq<ValueV>,
    all: Seq<VariantV>,
    bss: Seq<Seq<(Seq<char>, ValueV)>>,
    down: int,
)
    requires
        p == (PatternV::EnumVariant { name, inner }),
        lookup_v(all, name) == LookupV::Unique(w),
    ensures
        ({
            let v = ValueV::EnumVariant { enum_name, variant, args };
            let same = enum_name == w.enum_name && variant == w.name && args.len() == inner.len();
            &&& !same ==> turns_down(p, v, all)
            &&& same && bss.len() == inner.len() && (forall|k: int|
                #![trigger inner[k]]
                0 <= k < inner.len() ==> takes(inner[k], args[k], all, bss[k])) ==> takes(
                p,
                v,
                all,
                bindings(bss, 0),
            )
            &&& same && 0 <= down < inner.len() && turns_down(inner[down], args[down], all)
                && (forall|k: int|
                0 <= k < down ==> matched(#[trigger] inner[k], args[k], all, Seq::empty()) matches Ok(
                    Some(_),
                )) ==> turns_down(p, v, all)
        }),
        forall|v: ValueV| !(v is EnumVariant) ==> #[trigger] turns_down(p, v, all),
{
    let same = enum_name == w.enum_name && variant == w.name && args.len() == inner.len();
    if same {
        if bss.len() == inner.len() && (forall|k: int|
            #![trigger inner[k]]
            0 <= k < inner.len() ==> takes(inner[k], args[k], all, bss[k])) {
            lemma_payload(inner, args, all, 0, bss);
        }
        if 0 <= down < inner.len() && turns_down(inner[down], args[down], all) && (forall|k: int|
            0 <= k < down ==> matched(#[trigger] inner[k], args[k], all, Seq::empty()) matches Ok(
                Some(_),
            )) {
            lemma_payload_down(inner, args, all, 0, down, Seq::empty());
        }
    }
}

/// On top of some frames, trying the arms of a `match` from one alternative on comes to a
/// value.
pub open spec fn tries_on(
    stack: Seq<FrameV>,
    m: MachineV,
    arms: Seq<(Seq<PatternV>, Option<ExprV>, ExprV)>,
    i: int,
    j: int,
    v: ValueV,
    r: ValueV,
    after: MachineV,
    shown: Seq<char>,
) -> bool {
    try_arms(at(m, stack, CtlV::Stopped), arms, i, j, v).1 is Continue && exists|k: nat| #[trigger]
        told(try_arms(at(m, stack, CtlV::Stopped), arms, i, j, v).0, k) == (
            at(after, stack, CtlV::Value(r)),
            shown,
            ActionV::Continue,
        )
}

pub open spec fn tries(
    m: MachineV,
    arms: Seq<(Seq<PatternV>, Option<ExprV>, ExprV)>,
    i: int,
    j: int,
    v: ValueV,
    r: ValueV,
    after: MachineV,
    shown: Seq<char>,
) -> bool {
    forall|stack: Seq<FrameV>| #[trigger] tries_on(stack, m, arms, i, j, v, r, after, shown)
}

/// A `match` evaluates its scrutinee once and tries the arms from the first alternative
/// of the first arm on.
pub proof fn law_match_evaluates(
    e: ExprV,
    scrutinee: ExprV,
    arms: Seq<(Seq<PatternV>, Option<ExprV>, ExprV)>,
    m: MachineV,
    m1: MachineV,
    v: ValueV,
    out1: Seq<char>,
    r: ValueV,
    after: MachineV,
    out2: Seq<char>,
)
    requires
        *e.kind == (ExprKindV::Match { scrutinee: Box::new(scrutinee), arms }),
        evals(m, scrutinee, v, m1, out1),
        tries(m1, arms, 0, 0, v, r, after, out2),
    ensures
        evals(m, e, r, after, out1 + out2),
{
    lemma_single(m, m1, scrutinee, v, out1);
    let task = TaskV::MatchOn(arms);
    assert forall|stack: Seq<FrameV>| #[trigger] evals_on(stack, m, e, r, after, out1 + out2) by {
        let from = at(m, stack, CtlV::Eval(e));
        assert(from.with(CtlV::Stopped) == at(m, stack, CtlV::Stopped));
        assert(tries_on(stack, m1, arms, 0, 0, v, r, after, out2));
        let k = lemma_task(
            stack,
            from,
            task,
            seq![m, m1],
            seq![scrutinee],
            seq![v],
            seq![out1],
        );
        let begun = try_arms(at(m1, stack, CtlV::Stopped), arms, 0, 0, v).0;
        let j = choose|j: nat| #[trigger]
            told(begun, j) == (at(after, stack, CtlV::Value(r)), out2, ActionV::Continue);
        assert(told(from, k) == (begun, out1, ActionV::Continue));
        lemma_chain(from, k, begun, out1, j);
        assert(told(from, k + j) == (
            at(after, stack, CtlV::Value(r)),
            out1 + out2,
            ActionV::Continue,
        ));
    }
}

/// An alternative that turns the value down is passed over, and so is the end of an arm's
/// alternatives.
pub proof fn law_arm_is_passed(
    m: MachineV,
    arms: Seq<(Seq<PatternV>, Option<ExprV>, ExprV)>,
    i: int,
    j: int,
    v: ValueV,
    r: ValueV,
    after: MachineV,
    shown: Seq<char>,
)
    requires
        0 <= i < arms.len(),
        0 <= j <= arms[i].0.len(),
    ensures
        j < arms[i].0.len() && turns_down(arms[i].0[j], v, m.variants()) && tries(
            m,
            arms,
            i,
            j + 1,
            v,
            r,
            after,
            shown,
        ) ==> tries(m, arms, i, j, v, r, after, shown),
        j == arms[i].0.len() && tries(m, arms, i + 1, 0, v, r, after, shown) ==> tries(
            m,
            arms,
            i,
            j,
            v,
            r,
            after,
            shown,
        ),
{
    if j < arms[i].0.len() && turns_down(arms[i].0[j], v, m.variants()) && tries(
        m,
        arms,
        i,
        j + 1,
        v,
        r,
        after,
        shown,
    ) {
        assert forall|stack: Seq<FrameV>| #[trigger]
            tries_on(stack, m, arms, i, j, v, r, after, shown) by {
            let x = at(m, stack, CtlV::Stopped);
            assert(x.variants() == m.variants());
            assert(tries_on(stack, m, arms, i, j + 1, v, r, after, shown));
            assert(try_arms(x, arms, i, j, v) == try_arms(x, arms, i, j + 1, v));
        }
    }
    if j == arms[i].0.len() && tries(m, arms, i + 1, 0, v, r, after, shown) {
        assert forall|stack: Seq<FrameV>| #[trigger]
            tries_on(stack, m, arms, i, j, v, r, after, shown) by {
            let x = at(m, stack, CtlV::Stopped);
            assert(tries_on(stack, m, arms, i + 1, 0, v, r, after, shown));
            assert(try_arms(x, arms, i, j, v) == try_arms(x, arms, i + 1, 0, v));
        }
    }
}

/// The body of an arm is evaluated in a scope with what the pattern binds; the scope goes
/// with the arm.
proof fn lemma_arm_body(
    stack: Seq<FrameV>,
    from: MachineV,
    m1: MachineV,
    body: ExprV,
    r: ValueV,
    m2: MachineV,
    shown: Seq<char>,
) -> (k: nat)
    requires
        evals(m1, body, r, m2, shown),
        from == at(m1, stack.push(FrameV::Arm), CtlV::Eval(body)),
    ensures
        told(from, k) == (
            at(m2.pop_scope(), stack, CtlV::Value(r)),
            shown,
            ActionV::Continue,
        ),
{
    let high = stack.push(FrameV::Arm);
    let k1 = lemma_on(high, m1, body, r, m2, shown);
    let mid = at(m2, high, CtlV::Value(r));
    assert(high.last() == FrameV::Arm);
    assert(high.drop_last() =~= stack);
    assert(step(mid) == (at(m2.pop_scope(), stack, CtlV::Value(r)), ActionV::Continue));
    lemma_one(mid);
    lemma_chain(from, k1, mid, shown, 1);
    assert(shown + Seq::<char>::empty() =~= shown);
    k1 + 1
}

/// An alternative that takes the value, in an arm without a guard: the body of the arm is
/// the value of the match.
pub proof fn law_arm_is_taken(
    m: MachineV,
    arms: Seq<(Seq<PatternV>, Option<ExprV>, ExprV)>,
    i: int,
    j: int,
    v: ValueV,
    bs: Seq<(Seq<char>, ValueV)>,
    r: ValueV,
    m2: MachineV,
    shown: Seq<char>,
)
    requires
        0 <= i < arms.len(),
        0 <= j < arms[i].0.len(),
        takes(arms[i].0[j], v, m.variants(), bs),
        arms[i].1 is None,
        evals(m.push_scope().declare_all(bs), arms[i].2, r, m2, shown),
    ensures
        tries(m, arms, i, j, v, r, m2.pop_scope(), shown),
{
    let after = m2.pop_scope();
    let m1 = m.push_scope().declare_all(bs);
    assert forall|stack: Seq<FrameV>| #[trigger]
        tries_on(stack, m, arms, i, j, v, r, after, shown) by {
        let x = at(m, stack, CtlV::Stopped);
        assert(x.variants() == m.variants());
        lemma_declared_on(m.push_scope(), stack, CtlV::Stopped, bs);
        assert(x.push_scope() == at(m.push_scope(), stack, CtlV::Stopped));
        let begun = at(m1, stack.push(FrameV::Arm), CtlV::Eval(arms[i].2));
        assert(try_arms(x, arms, i, j, v) == (begun, ActionV::Continue));
        let k = lemma_arm_body(stack, begun, m1, arms[i].2, r, m2, shown);
        assert(told(try_arms(x, arms, i, j, v).0, k) == (
            at(after, stack, CtlV::Value(r)),
            shown,
            ActionV::Continue,
        ));
    }
}

proof fn lemma_declared_on(
    m: MachineV,
    stack: Seq<FrameV>,
    ctl: CtlV,
    bs: Seq<(Seq<char>, ValueV)>,
)
    ensures
        at(m, stack, ctl).declare_all(bs) == at(m.declare_all(bs), stack, ctl),
    decreases bs.len(),
{
    if bs.len() > 0 {
        lemma_declared_on(m, stack, ctl, bs.drop_last());
    }
}

/// The same with a guard, which sees what the pattern binds: where it is met, the body
/// follows; where it is not, the next alternative is tried.
pub proof fn law_guard_decides(
    m: MachineV,
    arms: Seq<(Seq<PatternV>, Option<ExprV>, ExprV)>,
    i: int,
    j: int,
    v: ValueV,
    bs: Seq<(Seq<char>, ValueV)>,
    g: ValueV,
    mg: MachineV,
    out1: Seq<char>,
    r: ValueV,
    m2: MachineV,
    out2: Seq<char>,
)
    requires
        0 <= i < arms.len(),
        0 <= j < arms[i].0.len(),
        takes(arms[i].0[j], v, m.variants(), bs),
        arms[i].1 is Some,
        evals(m.push_scope().declare_all(bs), arms[i].1->Some_0, g, mg, out1),
    ensures
        is_met(g) && evals(mg, arms[i].2, r, m2, out2) ==> tries(
            m,
            arms,
            i,
            j,
            v,
            r,
            m2.pop_scope(),
            out1 + out2,
        ),
        !is_met(g) && tries(mg.pop_scope(), arms, i, j + 1, v, r, m2, out2) ==> tries(
            m,
            arms,
            i,
            j,
            v,
            r,
            m2,
            out1 + out2,
        ),
{
    lemma_conditions(g);
    let m1 = m.push_scope().declare_all(bs);
    let guard = arms[i].1->Some_0;
    let task = TaskV::Guard(arms, i, j + 1, v);
    lemma_single(m1, mg, guard, g, out1);
    let shown = out1 + out2;
    if is_met(g) && evals(mg, arms[i].2, r, m2, out2) {
        let after = m2.pop_scope();
        assert forall|stack: Seq<FrameV>| #[trigger]
            tries_on(stack, m, arms, i, j, v, r, after, shown) by {
            let x = at(m, stack, CtlV::Stopped);
            assert(x.variants() == m.variants());
            lemma_declared_on(m.push_scope(), stack, CtlV::Stopped, bs);
            assert(x.push_scope() == at(m.push_scope(), stack, CtlV::Stopped));
            let begun = at(m1, stack, CtlV::Stopped).begin(task, seq![guard]).0;
            assert(try_arms(x, arms, i, j, v) == (begun, ActionV::Continue));
            let k = lemma_begun(stack, begun, task, seq![m1, mg], seq![guard], seq![g], seq![out1]);
            let mid = at(mg, stack.push(FrameV::Arm), CtlV::Eval(arms[i].2));
            assert(told(begun, k) == (mid, out1, ActionV::Continue));
            let j2 = lemma_arm_body(stack, mid, mg, arms[i].2, r, m2, out2);
            lemma_chain(begun, k, mid, out1, j2);
            assert(told(begun, k + j2) == (
                at(after, stack, CtlV::Value(r)),
                shown,
                ActionV::Continue,
            ));
        }
    }
    if !is_met(g) && tries(mg.pop_scope(), arms, i, j + 1, v, r, m2, out2) {
        assert forall|stack: Seq<FrameV>| #[trigger]
            tries_on(stack, m, arms, i, j, v, r, m2, shown) by {
            let x = at(m, stack, CtlV::Stopped);
            assert(x.variants() == m.variants());
            lemma_declared_on(m.push_scope(), stack, CtlV::Stopped, bs);
            assert(x.push_scope() == at(m.push_scope(), stack, CtlV::Stopped));
            let begun = at(m1, stack, CtlV::Stopped).begin(task, seq![guard]).0;
            assert(try_arms(x, arms, i, j, v) == (begun, ActionV::Continue));
            let k = lemma_begun(stack, begun, task, seq![m1, mg], seq![guard], seq![g], seq![out1]);
            assert(tries_on(stack, mg.pop_scope(), arms, i, j + 1, v, r, m2, out2));
            let mid = try_arms(at(mg.pop_scope(), stack, CtlV::Stopped), arms, i, j + 1, v).0;
            assert(told(begun, k) == (mid, out1, ActionV::Continue));
            let j2 = choose|j2: nat| #[trigger]
                told(mid, j2) == (at(m2, stack, CtlV::Value(r)), out2, ActionV::Continue);
            lemma_chain(begun, k, mid, out1, j2);
            assert(told(begun, k + j2) == (
                at(m2, stack, CtlV::Value(r)),
                shown,
                ActionV::Continue,
            ));
        }
    }
}

// ---- loops that have a value ----

/// On top of some frames, a loop expression comes to a value.
pub open spec fn loop_gives_on(
    stack: Seq<FrameV>,
    m: MachineV,
    l: LoopV,
    v: ValueV,
    after: MachineV,
    shown: Seq<char>,
) -> bool {
    exists|k: nat| #[trigger]
        told(loop_next(at(m, stack, CtlV::Stopped), l).0, k) == (
            at(after, stack, CtlV::Value(v)),
            shown,
            ActionV::Continue,
        ) && loop_next(at(m, stack, CtlV::Stopped), l).1 is Continue
}

pub open spec fn loop_gives(
    m: MachineV,
    l: LoopV,
    v: ValueV,
    after: MachineV,
    shown: Seq<char>,
) -> bool {
    l.is_expr && forall|stack: Seq<FrameV>| #[trigger] loop_gives_on(stack, m, l, v, after, shown)
}

/// A loop expression over a range or over elements that has walked all is nothing.
pub proof fn law_loop_value_at_the_end(m: MachineV, l: LoopV)
    requires
        l.is_expr,
        l.result is Unit,
        match l.walk {
            WalkV::Range(_, i, end) => i >= end,
            WalkV::Items(_, vs, k) => k >= vs.len(),
            WalkV::Cond(_) => false,
        },
    ensures
        loop_gives(m, l, ValueV::Unit, m, Seq::empty()),
{
    assert forall|stack: Seq<FrameV>| #[trigger]
        loop_gives_on(stack, m, l, ValueV::Unit, m, Seq::<char>::empty()) by {
        let now = loop_next(at(m, stack, CtlV::Stopped), l).0;
        assert(told(now, 0) == (
            at(m, stack, CtlV::Value(ValueV::Unit)),
            Seq::<char>::empty(),
            ActionV::Continue,
        ));
    }
}

/// How a turn of a loop expression leads on: a `break` with a value ends the loop with
/// that value, otherwise the next turn comes.
pub open spec fn value_leads(
    end: MachineV,
    span: Span,
    next: LoopV,
    v: ValueV,
    after: MachineV,
    rest: Seq<char>,
) -> bool {
    if end.should_break {
        end.break_value == Some(v) && after == turn_broken(end, span) && rest == Seq::<char>::empty()
    } else {
        end.returned is None && loop_gives(turn_done(end, span), next, v, after, rest)
    }
}

/// A turn of a loop expression over a range or over elements.
pub proof fn law_loop_value_turns(
    m: MachineV,
    l: LoopV,
    ms: Seq<MachineV>,
    outs: Seq<Seq<char>>,
    n: int,
    v: ValueV,
    after: MachineV,
    rest: Seq<char>,
)
    requires
        l.is_expr,
        turn_of(l) is Some,
        execs_each(ms, l.body, outs, n, m.span),
        left_after(ms, l.body, n),
        ms[0] == m.push_scope().declare(turn_of(l)->Some_0.0, turn_of(l)->Some_0.1),
        value_leads(ms[n], m.span, turn_of(l)->Some_0.2, v, after, rest),
    ensures
        loop_gives(m, l, v, after, together(outs, 0) + rest),
{
    let (var, x, next) = turn_of(l)->Some_0;
    let shown = together(outs, 0) + rest;
    let end = ms[n];
    assert forall|stack: Seq<FrameV>| #[trigger] loop_gives_on(stack, m, l, v, after, shown) by {
        let begun = loop_next(at(m, stack, CtlV::Stopped), l).0;
        let kind = BlockV::Loop(next);
        let start = at(ms[0], stack.push(in_block(kind, l.body, 0, m.span)), CtlV::Next);
        assert(begun == start);
        let k = lemma_block(stack, kind, m.span, ms, l.body, outs, n, 0);
        let frame = in_block(kind, l.body, n, m.span);
        let last = at(end, stack.push(frame), CtlV::Next);
        assert(stack.push(frame).last() == frame);
        assert(stack.push(frame).drop_last() =~= stack);
        let inner = at(MachineV { span: m.span, ..end }, stack, CtlV::Stopped);
        assert(MachineV { span: m.span, ..last.with(CtlV::Stopped).pop() } == inner);
        lemma_one(last);
        if end.should_break {
            assert(step(last) == (at(after, stack, CtlV::Value(v)), ActionV::Continue));
            lemma_chain(begun, k, last, together(outs, 0), 1);
            assert(told(begun, k + 1) == (
                at(after, stack, CtlV::Value(v)),
                shown,
                ActionV::Continue,
            ));
        } else {
            let done = turn_done(end, m.span);
            assert(loop_gives_on(stack, done, next, v, after, rest));
            let again = loop_next(at(done, stack, CtlV::Stopped), next).0;
            assert(step(last) == loop_next(at(done, stack, CtlV::Stopped), next)) by {
                assert(MachineV { should_continue: false, ..inner.pop_scope() } == at(
                    done,
                    stack,
                    CtlV::Stopped,
                ));
                if quiet(end) {
                    assert(inner.pop_scope() == at(done, stack, CtlV::Stopped));
                }
            }
            let j = choose|j: nat| #[trigger]
                told(again, j) == (at(after, stack, CtlV::Value(v)), rest, ActionV::Continue);
            lemma_chain(last, 1, again, Seq::empty(), j);
            assert(Seq::<char>::empty() + rest =~= rest);
            lemma_chain(begun, k, last, together(outs, 0), 1 + j);
            assert(told(begun, k + (1 + j)) == (
                at(after, stack, CtlV::Value(v)),
                shown,
                ActionV::Continue,
            ));
        }
    }
}

/// A `for` expression evaluates what it walks, once, and then walks it.
pub proof fn law_for_expression(
    e: ExprV,
    var: Seq<char>,
    iter: ExprV,
    body: Seq<StmtV>,
    m: MachineV,
    m1: MachineV,
    x: ValueV,
    out1: Seq<char>,
    walk: WalkV,
    v: ValueV,
    after: MachineV,
    out2: Seq<char>,
)
    requires
        *e.kind == (ExprKindV::For { var, iter: Box::new(iter), body }),
        evals(m, iter, x, m1, out1),
        walk_of(var, x) == Some(walk),
        loop_gives(
            m1,
            LoopV { is_expr: true, walk, body, result: ValueV::Unit },
            v,
            after,
            out2,
        ),
    ensures
        evals(m, e, v, after, out1 + out2),
{
    let l = LoopV { is_expr: true, walk, body, result: ValueV::Unit };
    lemma_single(m, m1, iter, x, out1);
    let task = TaskV::ForStart(true, var, body);
    assert forall|stack: Seq<FrameV>| #[trigger] evals_on(stack, m, e, v, after, out1 + out2) by {
        let from = at(m, stack, CtlV::Eval(e));
        assert(from.with(CtlV::Stopped) == at(m, stack, CtlV::Stopped));
        let k = lemma_task(stack, from, task, seq![m, m1], seq![iter], seq![x], seq![out1]);
        assert(loop_gives_on(stack, m1, l, v, after, out2));
        let begun = loop_next(at(m1, stack, CtlV::Stopped), l).0;
        let j = choose|j: nat| #[trigger]
            told(begun, j) == (at(after, stack, CtlV::Value(v)), out2, ActionV::Continue);
        assert(told(from, k) == (begun, out1, ActionV::Continue));
        lemma_chain(from, k, begun, out1, j);
        assert(told(from, k + j) == (
            at(after, stack, CtlV::Value(v)),
            out1 + out2,
            ActionV::Continue,
        ));
    }
}

// ---- what fails, what is asked of the host, and whole programs ----

proof fn lemma_fails_at_once(m: MachineV, e: ExprV, message: Seq<char>)
    requires
        forall|stack: Seq<FrameV>| #[trigger]
            eval_step(at(m, stack, CtlV::Stopped), e) == at(m, stack, CtlV::Stopped).fail(message),
    ensures
        fails(m, e, message, m.span, Seq::empty()),
{
    assert forall|stack: Seq<FrameV>| #[trigger]
        fails_on(stack, m, e, message, m.span, Seq::<char>::empty()) by {
        let from = at(m, stack, CtlV::Eval(e));
        let x = at(m, stack, CtlV::Stopped);
        assert(from.with(CtlV::Stopped) == x);
        assert(eval_step(x, e) == x.fail(message));
        lemma_one(from);
        assert(told(from, 1).1 == Seq::<char>::empty());
    }
}

/// A name that stands for nothing makes the program fail, and so does one that two enums
/// share.
pub proof fn law_undefined_name_fails(m: MachineV, e: ExprV, name: Seq<char>)
    requires
        *e.kind == ExprKindV::Ident(name),
    ensures
        lookup_v(m.variants(), name) is Unknown && m.lookup(name) is None ==> fails(
            m,
            e,
            "undefined variable: "@ + name,
            m.span,
            Seq::empty(),
        ),
        lookup_v(m.variants(), name) is Ambiguous ==> exists|message: Seq<char>| #[trigger]
            fails(m, e, message, m.span, Seq::empty()),
{
    match lookup_v(m.variants(), name) {
        LookupV::Unknown => if m.lookup(name) is None {
            let message = "undefined variable: "@ + name;
            assert forall|stack: Seq<FrameV>| #[trigger]
                eval_step(at(m, stack, CtlV::Stopped), e) == at(m, stack, CtlV::Stopped).fail(
                    message,
                ) by {
                assert(at(m, stack, CtlV::Stopped).variants() == m.variants());
                assert(at(m, stack, CtlV::Stopped).lookup(name) == m.lookup(name));
            }
            lemma_fails_at_once(m, e, message);
        },
        LookupV::Ambiguous(candidates) => {
            let message = ambiguous_text(name, candidates);
            assert forall|stack: Seq<FrameV>| #[trigger]
                eval_step(at(m, stack, CtlV::Stopped), e) == at(m, stack, CtlV::Stopped).fail(
                    message,
                ) by {
                assert(at(m, stack, CtlV::Stopped).variants() == m.variants());
            }
            lemma_fails_at_once(m, e, message);
        },
        _ => {},
    }
}

/// A call of a function that is not declared makes the program fail, and so does one with
/// fewer arguments than the function has parameters. A foreign clock asks the host for
/// the time.
pub proof fn law_calls_that_fail(
    m: MachineV,
    e: ExprV,
    callee: ExprV,
    name: Seq<char>,
    args: Seq<ExprV>,
)
    requires
        *e.kind == ExprKindV::Call(Box::new(callee), args),
        *callee.kind == ExprKindV::Ident(name),
        builtin_signature(name) is None,
        lookup_v(m.variants(), name) is Unknown,
        find_macro(m.program, name) is None,
    ensures
        !has_extern(m.program, name) && find_fn(m.program, name) is None ==> fails(
            m,
            e,
            "undefined function: "@ + name,
            m.span,
            Seq::empty(),
        ),
        !has_extern(m.program, name) ==> (find_fn(m.program, name) matches Some((params, body)) ==> (
        args.len() < params.len() ==> exists|message: Seq<char>| #[trigger]
            fails(m, e, message, m.span, Seq::empty()))),
        has_extern(m.program, name) && name == "clock"@ ==> forall|stack: Seq<FrameV>|
            (#[trigger] step(at(m, stack, CtlV::Eval(e)))).1 is Clock,
{
    assert(name_of(callee) == Some(name));
    if !has_extern(m.program, name) {
        match find_fn(m.program, name) {
            None => {
                let message = "undefined function: "@ + name;
                assert forall|stack: Seq<FrameV>| #[trigger]
                    eval_step(at(m, stack, CtlV::Stopped), e) == at(m, stack, CtlV::Stopped).fail(
                        message,
                    ) by {
                    assert(at(m, stack, CtlV::Stopped).variants() == m.variants());
                }
                lemma_fails_at_once(m, e, message);
            },
            Some((params, body)) => if args.len() < params.len() {
                let message = arity_text(name, params.len(), args.len());
                assert forall|stack: Seq<FrameV>| #[trigger]
                    eval_step(at(m, stack, CtlV::Stopped), e) == at(m, stack, CtlV::Stopped).fail(
                        message,
                    ) by {
                    assert(at(m, stack, CtlV::Stopped).variants() == m.variants());
                }
                lemma_fails_at_once(m, e, message);
            },
        }
    } else if name == "clock"@ {
        assert forall|stack: Seq<FrameV>| (#[trigger] step(at(m, stack, CtlV::Eval(e)))).1
            is Clock by {
            assert(at(m, stack, CtlV::Eval(e)).with(CtlV::Stopped).variants() == m.variants());
        }
    }
}

/// A program runs its statements at top level from the first to the last. Declarations
/// are passed over. Then it runs `main`, if there is one, and without one it is done.
pub proof fn law_top_level(m: MachineV, ss: Seq<StmtV>, k: int, span: Span)
    requires
        0 <= k <= ss.len(),
        m.returned is None,
    ensures
        ({
            let from = at(m, seq![in_block(BlockV::Top, ss, k, span)], CtlV::Next);
            let here = MachineV { span, ..m };
            let later = seq![in_block(BlockV::Top, ss, k + 1, span)];
            if k < ss.len() {
                let st = ss[k];
                let declares = st.kind is Fn || st.kind is Struct || st.kind is Enum
                    || st.kind is Trait || st.kind is Macro || st.kind is ExternFn
                    || st.kind is Impl;
                &&& declares ==> step(from) == (at(here, later, CtlV::Next), ActionV::Continue)
                &&& !declares ==> step(from) == (at(here, later, CtlV::Exec(st)), ActionV::Continue)
            } else {
                match find_fn(m.program, "main"@) {
                    Some((params, body)) => step(from) == (
                        at(
                            MachineV { scopes: seq![Map::empty()], ..here },
                            seq![FrameV::End, in_block(BlockV::Call(m.scopes), body, 0, span)],
                            CtlV::Next,
                        ),
                        ActionV::Continue,
                    ),
                    None => step(from).1 is Done,
                }
            }
        }),
{
    let frame = in_block(BlockV::Top, ss, k, span);
    let stack = seq![frame];
    let from = at(m, stack, CtlV::Next);
    assert(stack.last() == frame);
    assert(stack.drop_last() =~= Seq::empty());
    let here = MachineV { span, ..m };
    let next = step(from).0;
    if k < ss.len() {
        assert(next.stack =~= seq![in_block(BlockV::Top, ss, k + 1, span)]);
    } else {
        match find_fn(m.program, "main"@) {
            Some((params, body)) => {
                assert(next.stack =~= seq![
                    FrameV::End,
                    in_block(BlockV::Call(m.scopes), body, 0, span),
                ]);
                assert(next.scopes =~= seq![Map::empty()]);
            },
            None => {},
        }
    }
}

/// A call of a builtin method gives what the method gives of the receiver, or fails with
/// its message: `unwrap` of what carries a value gives that value.
pub proof fn law_builtin_method_evaluates(
    e: ExprV,
    obj: ExprV,
    method: Seq<char>,
    args: Seq<ExprV>,
    m: MachineV,
    m1: MachineV,
    v: ValueV,
    out: Seq<char>,
)
    requires
        *e.kind == ExprKindV::MethodCall(Box::new(obj), method, args),
        evals(m, obj, v, m1, out),
    ensures
        builtin_call(v, method) matches Some(Ok(r)) ==> evals(m, e, r, m1, out),
        builtin_call(v, method) matches Some(Err(message)) ==> fails(m, e, message, m1.span, out),
{
    lemma_single(m, m1, obj, v, out);
    let task = TaskV::Method(method, args);
    match builtin_call(v, method) {
        Some(Ok(r)) => lemma_evals(e, task, seq![m, m1], seq![obj], seq![v], seq![out], r),
        Some(Err(message)) => lemma_fails(
            e,
            task,
            seq![m, m1],
            seq![obj],
            seq![v],
            seq![out],
            message,
        ),
        None => {},
    }
}

/// A method that the type of the receiver does not declare makes the program fail.
pub proof fn law_undeclared_method_fails(
    e: ExprV,
    obj: ExprV,
    method: Seq<char>,
    args: Seq<ExprV>,
    m: MachineV,
    m1: MachineV,
    v: ValueV,
    out: Seq<char>,
    owner: Seq<char>,
)
    requires
        *e.kind == ExprKindV::MethodCall(Box::new(obj), method, args),
        evals(m, obj, v, m1, out),
        builtin_call(v, method) is None,
        method_owner(v) == Some(owner),
        forall|k: int, j: int| !#[trigger] impl_holds_method(m1.program, owner, method, k, j),
    ensures
        fails(
            m,
            e,
            "method `"@ + method + "` not found for `"@ + owner + "`"@,
            m1.span,
            out,
        ),
{
    law_method_is_found(m1.program, owner, method);
    lemma_single(m, m1, obj, v, out);
    let task = TaskV::Method(method, args);
    let message = "method `"@ + method + "` not found for `"@ + owner + "`"@;
    assert forall|stack: Seq<FrameV>| #[trigger]
        fails_on(stack, m, e, message, m1.span, out) by {
        let from = at(m, stack, CtlV::Eval(e));
        assert(from.with(CtlV::Stopped) == at(m, stack, CtlV::Stopped));
        let k = lemma_task(stack, from, task, seq![m, m1], seq![obj], seq![v], seq![out]);
        let y = at(m1, stack, CtlV::Stopped);
        assert(apply(y, task, seq![v]) == y.fail(message));
        assert(told(from, k).1 == out);
    }
}

} // verus!
