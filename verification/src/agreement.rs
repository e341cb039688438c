//! The interpreter and native code agree: on expressions made of integers, truth
//! values, variables that hold them, and operators.

use crate::ast::{ExprKindV, ExprV};
use crate::diagnostic::{rendered, DiagnosticV};
use crate::ir_semantics::{Memory, Outcome};
use crate::native::{code_between, countable, format_text, lemma_abort_text, open_here, CgV};
use crate::native_expr::{gen_expr, law_plain_expression_compiles};
use crate::native_ops::{gives, plain_type, word_of};
use crate::run_laws::law_steps_add_up;
use crate::semantics::{step, steps, ActionV, CtlV, FrameV, MachineV, TaskV};
use crate::typing::{check_expr, compat};
use crate::value::{binop_result, unop_result, OpV, ValueV};
use crate::variants::lookup_v;
use vstd::prelude::*;

verus! {

/// An expression made of integers, truth values, names and operators.
pub open spec fn plain(e: ExprV) -> bool
    decreases e,
{
    match *e.kind {
        ExprKindV::Int(_) => true,
        ExprKindV::Bool(_) => true,
        ExprKindV::Ident(_) => true,
        ExprKindV::Binary(l, _, r) => plain(*l) && plain(*r),
        ExprKindV::Unary(_, x) => plain(*x),
        _ => false,
    }
}

/// The value of a plain expression, or the message that it fails with.
pub open spec fn worth(e: ExprV, m: MachineV) -> Result<ValueV, Seq<char>>
    decreases e,
{
    match *e.kind {
        ExprKindV::Int(n) => Ok(ValueV::Int(n)),
        ExprKindV::Bool(b) => Ok(ValueV::Bool(b)),
        ExprKindV::Ident(name) => match m.lookup(name) {
            Some(v) => Ok(v),
            None => Err("undefined variable: "@ + name),
        },
        ExprKindV::Binary(l, op, r) => match worth(*l, m) {
            Err(x) => Err(x),
            Ok(a) => match worth(*r, m) {
                Err(x) => Err(x),
                Ok(b) => of_outcome(binop_result(a, op, b)),
            },
        },
        ExprKindV::Unary(op, x) => match worth(*x, m) {
            Err(x) => Err(x),
            Ok(a) => of_outcome(unop_result(op, a)),
        },
        _ => Err(Seq::empty()),
    }
}

/// An outcome that does not need the host.
pub open spec fn of_outcome(o: OpV) -> Result<ValueV, Seq<char>> {
    match o {
        OpV::Done(v) => Ok(v),
        OpV::Fail(x) => Err(x),
        _ => Err(Seq::empty()),
    }
}

/// A name stands for the same integer or truth value in a running program and in
/// native code: it is a variable there and a local here, and the slot of the
/// local holds the word for what the variable stands for.
pub open spec fn name_linked(name: Seq<char>, s: CgV, m: MachineV, mem: Memory) -> bool {
    &&& lookup_v(m.variants(), name) is Unknown
    &&& lookup_v(s.types.variants, name) is Unknown
    &&& m.lookup(name) matches Some(v) && (v is Int || v is Bool) && s.types.lookup(name) == Some(
        plain_type(v),
    ) && (s.local(name) matches Some(l) && l.ty == plain_type(v) && (l.slot matches crate::ir::Val::Slot(
        k,
    ) && mem.slots.contains_key(k as int) && mem.slots[k as int] == word_of(v)))
}

/// All names of an expression stand for the same in a running program and in
/// native code.
pub open spec fn linked(e: ExprV, s: CgV, m: MachineV, mem: Memory) -> bool
    decreases e,
{
    match *e.kind {
        ExprKindV::Ident(name) => name_linked(name, s, m, mem),
        ExprKindV::Binary(l, _, r) => linked(*l, s, m, mem) && linked(*r, s, m, mem),
        ExprKindV::Unary(_, x) => linked(*x, s, m, mem),
        _ => true,
    }
}

/// Adding code does not change what names stand for.
pub proof fn lemma_linked_later(
    e: ExprV,
    s: CgV,
    t: CgV,
    m: MachineV,
    mem: Memory,
    after: Memory,
)
    requires
        linked(e, s, m, mem),
        t.scopes == s.scopes,
        t.types == s.types,
        after.slots == mem.slots,
    ensures
        linked(e, t, m, after),
    decreases e,
{
    match *e.kind {
        ExprKindV::Binary(l, _, r) => {
            lemma_linked_later(*l, s, t, m, mem, after);
            lemma_linked_later(*r, s, t, m, mem, after);
        },
        ExprKindV::Unary(_, x) => lemma_linked_later(*x, s, t, m, mem, after),
        _ => {},
    }
}

/// A plain expression that checks is an integer or a truth value, as its value
/// is, and checking it records nothing.
pub proof fn law_plain_types(e: ExprV, s: CgV, m: MachineV, mem: Memory)
    requires
        plain(e),
        linked(e, s, m, mem),
        check_expr(e, s.types).0 is Ok,
    ensures
        check_expr(e, s.types).1 == s.types,
        check_expr(e, s.types).0->Ok_0 is Int || check_expr(e, s.types).0->Ok_0 is Bool,
        worth(e, m) matches Ok(v) ==> (v is Int || v is Bool) && check_expr(e, s.types).0->Ok_0
            == plain_type(v),
    decreases e,
{
    match *e.kind {
        ExprKindV::Binary(l, op, r) => {
            assert(check_expr(e, s.types) == crate::typing::check_binary(e, s.types));
            assert(check_expr(*l, s.types).0 is Ok);
            law_plain_types(*l, s, m, mem);
            assert(check_expr(*r, s.types).0 is Ok);
            law_plain_types(*r, s, m, mem);
            let lt = check_expr(*l, s.types).0->Ok_0;
            let rt = check_expr(*r, s.types).0->Ok_0;
            assert(compat(lt, rt));
            assert(lt == rt);
            match (worth(*l, m), worth(*r, m)) {
                (Ok(a), Ok(b)) => {
                    assert(plain_type(a) == plain_type(b));
                },
                _ => {},
            }
        },
        ExprKindV::Unary(op, x) => {
            assert(check_expr(e, s.types) == crate::typing::check_unary(e, s.types));
            assert(check_expr(*x, s.types).0 is Ok);
            law_plain_types(*x, s, m, mem);
        },
        _ => {},
    }
}

// ---- the interpreter ----

/// Every name of an expression is a variable.
pub open spec fn variables_known(e: ExprV, m: MachineV) -> bool
    decreases e,
{
    match *e.kind {
        ExprKindV::Ident(name) => lookup_v(m.variants(), name) is Unknown && (m.lookup(
            name,
        ) matches Some(v) && (v is Int || v is Bool)),
        ExprKindV::Binary(l, _, r) => variables_known(*l, m) && variables_known(*r, m),
        ExprKindV::Unary(_, x) => variables_known(*x, m),
        _ => true,
    }
}

pub proof fn lemma_variables_stay(e: ExprV, m: MachineV, n: MachineV)
    requires
        variables_known(e, m),
        n.program == m.program,
        n.scopes == m.scopes,
        n.globals == m.globals,
    ensures
        variables_known(e, n),
        worth(e, n) == worth(e, m),
    decreases e,
{
    match *e.kind {
        ExprKindV::Binary(l, _, r) => {
            lemma_variables_stay(*l, m, n);
            lemma_variables_stay(*r, m, n);
        },
        ExprKindV::Unary(_, x) => lemma_variables_stay(*x, m, n),
        _ => {},
    }
}

proof fn lemma_worth_is_plain(e: ExprV, m: MachineV)
    requires
        plain(e),
        variables_known(e, m),
    ensures
        worth(e, m) matches Ok(v) ==> v is Int || v is Bool,
    decreases e,
{
    match *e.kind {
        ExprKindV::Binary(l, _, r) => {
            lemma_worth_is_plain(*l, m);
            lemma_worth_is_plain(*r, m);
        },
        ExprKindV::Unary(_, x) => lemma_worth_is_plain(*x, m),
        _ => {},
    }
}

/// A number of steps leads from one state to another, without the host.
pub open spec fn leads(m: MachineV, k: nat, n: MachineV) -> bool {
    steps(m, k) == (n, ActionV::Continue)
}

pub proof fn lemma_leads(m: MachineV, a: nat, n: MachineV, b: nat)
    requires
        leads(m, a, n),
    ensures
        steps(m, a + b) == steps(n, b),
{
    law_steps_add_up(m, a, b);
}

pub proof fn lemma_one_step(m: MachineV)
    requires
        !(m.ctl is Wait),
    ensures
        steps(m, 1) == step(m),
{
    reveal_with_fuel(steps, 2);
    match step(m) {
        (m1, ActionV::Continue) => {
            assert(steps(m1, 0) == (m1, ActionV::Continue));
        },
        _ => {},
    }
}

/// The interpreter gets to the value of a plain expression in some number of
/// steps, with everything else as it was; or it fails with the message, at the
/// statement being run.
pub proof fn law_plain_expression_evaluates(e: ExprV, m: MachineV) -> (k: nat)
    requires
        plain(e),
        variables_known(e, m),
    ensures
        match worth(e, m) {
            Ok(v) => leads(m.with(CtlV::Eval(e)), k, m.with(CtlV::Value(v))),
            Err(x) => steps(m.with(CtlV::Eval(e)), k).1 == ActionV::Fail(
                DiagnosticV { message: x, span: m.span },
            ),
        },
    decreases e,
{
    let start = m.with(CtlV::Eval(e));
    lemma_one_step(start);
    match *e.kind {
        ExprKindV::Binary(l, op, r) => {
            let exprs = seq![*l, *r];
            let f0 = FrameV::Collect { task: TaskV::Bin(op), exprs, vals: Seq::empty() };
            let n0 = m.push(f0);
            assert(leads(start, 1, n0.with(CtlV::Eval(*l))));
            lemma_variables_stay(*l, m, n0);
            let k0 = law_plain_expression_evaluates(*l, n0);
            lemma_leads(start, 1, n0.with(CtlV::Eval(*l)), k0);
            match worth(*l, m) {
                Err(_) => 1 + k0,
                Ok(a) => {
                    let got = n0.with(CtlV::Value(a));
                    lemma_one_step(got);
                    let f1 = FrameV::Collect { task: TaskV::Bin(op), exprs, vals: Seq::empty().push(a) };
                    let n1 = m.push(f1);
                    assert(n0.stack.drop_last() =~= m.stack);
                    assert(n0.stack.last() == f0);
                    assert(step(got) == (n1.with(CtlV::Eval(*r)), ActionV::Continue));
                    lemma_leads(start, 1 + k0, got, 1);
                    assert(leads(start, 2 + k0, n1.with(CtlV::Eval(*r))));
                    lemma_variables_stay(*r, m, n1);
                    let k1 = law_plain_expression_evaluates(*r, n1);
                    lemma_leads(start, 2 + k0, n1.with(CtlV::Eval(*r)), k1);
                    match worth(*r, m) {
                        Err(_) => 2 + k0 + k1,
                        Ok(b) => {
                            let have = n1.with(CtlV::Value(b));
                            lemma_one_step(have);
                            let both = Seq::empty().push(a).push(b);
                            let f2 = FrameV::Collect { task: TaskV::Bin(op), exprs, vals: both };
                            let n2 = m.push(f2);
                            assert(n1.stack.drop_last() =~= m.stack);
                            assert(n1.stack.last() == f1);
                            assert(step(have) == (n2.with(CtlV::Ready), ActionV::Continue));
                            lemma_leads(start, 2 + k0 + k1, have, 1);
                            assert(leads(start, 3 + k0 + k1, n2.with(CtlV::Ready)));
                            lemma_one_step(n2.with(CtlV::Ready));
                            assert(n2.stack.drop_last() =~= m.stack);
                            assert(n2.stack.last() == f2);
                            lemma_worth_is_plain(*l, m);
                            lemma_worth_is_plain(*r, m);
                            lemma_leads(start, 3 + k0 + k1, n2.with(CtlV::Ready), 1);
                            assert(step(n2.with(CtlV::Ready)) == m.with(CtlV::Stopped).of_op(
                                binop_result(a, op, b),
                            ));
                            4 + k0 + k1
                        },
                    }
                },
            }
        },
        ExprKindV::Unary(op, x) => {
            let exprs = seq![*x];
            let f0 = FrameV::Collect { task: TaskV::Un(op), exprs, vals: Seq::empty() };
            let n0 = m.push(f0);
            assert(leads(start, 1, n0.with(CtlV::Eval(*x))));
            lemma_variables_stay(*x, m, n0);
            let k0 = law_plain_expression_evaluates(*x, n0);
            lemma_leads(start, 1, n0.with(CtlV::Eval(*x)), k0);
            match worth(*x, m) {
                Err(_) => 1 + k0,
                Ok(a) => {
                    let got = n0.with(CtlV::Value(a));
                    lemma_one_step(got);
                    let f1 = FrameV::Collect { task: TaskV::Un(op), exprs, vals: Seq::empty().push(a) };
                    let n1 = m.push(f1);
                    assert(n0.stack.drop_last() =~= m.stack);
                    assert(n0.stack.last() == f0);
                    assert(step(got) == (n1.with(CtlV::Ready), ActionV::Continue));
                    lemma_leads(start, 1 + k0, got, 1);
                    assert(leads(start, 2 + k0, n1.with(CtlV::Ready)));
                    lemma_one_step(n1.with(CtlV::Ready));
                    assert(n1.stack.drop_last() =~= m.stack);
                    assert(n1.stack.last() == f1);
                    lemma_worth_is_plain(*x, m);
                    lemma_leads(start, 2 + k0, n1.with(CtlV::Ready), 1);
                    assert(step(n1.with(CtlV::Ready)) == m.with(CtlV::Stopped).of_op(
                        unop_result(op, a),
                    ));
                    3 + k0
                },
            }
        },
        _ => 1,
    }
}

// ---- both ----

pub proof fn lemma_linked_variables(e: ExprV, s: CgV, m: MachineV, mem: Memory)
    requires
        linked(e, s, m, mem),
    ensures
        variables_known(e, m),
    decreases e,
{
    match *e.kind {
        ExprKindV::Binary(l, _, r) => {
            lemma_linked_variables(*l, s, m, mem);
            lemma_linked_variables(*r, s, m, mem);
        },
        ExprKindV::Unary(_, x) => lemma_linked_variables(*x, s, m, mem),
        _ => {},
    }
}

/// An expression made of integers, truth values, variables and operators means
/// the same to both backends. Where the interpreter gets to a value, the native
/// code runs through and leaves the word for that value. Where the interpreter
/// fails, the native code stops the program, with the same report.
pub proof fn law_backends_agree(e: ExprV, s: CgV, m: MachineV, mem: Memory) -> (r: (nat, Memory))
    requires
        plain(e),
        linked(e, s, m, mem),
        check_expr(e, s.types).0 is Ok,
        open_here(s),
        countable(gen_expr(s, e).0),
        s.span == m.span,
    ensures
        ({
            let (t, v) = gen_expr(s, e);
            match steps(m.with(CtlV::Eval(e)), r.0) {
                (next, ActionV::Continue) => next.ctl matches CtlV::Value(x) && next == m.with(
                    CtlV::Value(x),
                ) && gives(s, t, v, mem, r.1, x),
                (_, ActionV::Fail(d)) => code_between(s, t, mem) matches Outcome::Stopped(k, _, _) && k
                    < t.m.texts.len() && t.m.texts[k as int] == format_text(
                    rendered(d, s.path, s.src),
                ),
                _ => false,
            }
        }),
{
    lemma_linked_variables(e, s, m, mem);
    let k = law_plain_expression_evaluates(e, m);
    let after = law_plain_expression_compiles(e, s, m, mem);
    match worth(e, m) {
        Err(x) => lemma_abort_text(s, x),
        Ok(_) => {},
    }
    (k, after)
}

} // verus!
