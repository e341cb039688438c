//! The interpreter and native code agree on statements: on variables that hold
//! integers and truth values, on `if` and on `while`.

use crate::agreement::{
    law_plain_expression_evaluates, law_plain_types, leads, lemma_leads, lemma_linked_variables,
    lemma_one_step, lemma_variables_stay, linked, plain, variables_known, worth,
};
use crate::ast::{ExprKindV, ExprV, StmtKindV, StmtV, TypeV};
use crate::diagnostic::{rendered, DiagnosticV, Span};
use crate::ir::{InstV, OpV, Ty, Val};
use crate::ir_semantics::{
    given, law_later_code_does_not_matter, law_other_blocks_are_passed, law_run_takes_steps,
    law_walks_add_up, moved, operand, stored, walked, Datum, Memory, Point,
};
use crate::native::{
    adds, continues, countable, format_text, lemma_abort_text, lemma_blocks, lemma_continues,
    lemma_continues_chain, lemma_emit, lemma_emit_continues, lemma_local_parts,
    lemma_no_code_continues, lemma_same_code, local_in, local_of, open_here, settled, CgV, LocalV,
};
use crate::native_expr::{
    gen_expr, law_plain_expression_compiles, lemma_plain_expression_adds, loop_ctx,
};
use crate::native_ops::{
    lemma_close_scope, local_made, local_set, nothing_held, plain_type, word_of,
};
use crate::native_rt::lemma_to_i1;
use crate::native_stmt::{
    gen_block, gen_stmt, gen_stmts, if_code, lemma_assign_code, lemma_block_code,
    lemma_discard_code, lemma_if_code, lemma_let_code, lemma_statements_code, lemma_while_code,
    while_code,
};
use crate::semantics::{
    apply, find_value, needs, replace_value, signal, step, steps, ActionV, BlockV, CtlV, FrameV,
    LoopV, MachineV, TaskV, WalkV,
};
use crate::typing::{
    check_block, check_expr, check_stmt, check_stmts, compat, find_in, EnvV, TypeErrorV,
};
use crate::value::{chooses, holds, ValueV};
use crate::variants::{lookup_v, VariantV};
use vstd::prelude::*;

verus! {

// ---- variables ----

/// A local holds what a variable stands for.
pub open spec fn held(
    x: LocalV,
    v: Map<Seq<char>, ValueV>,
    t: Map<Seq<char>, TypeV>,
    name: Seq<char>,
    mem: Memory,
) -> bool {
    &&& v.contains_key(name)
    &&& t.contains_key(name)
    &&& v[name] is Int || v[name] is Bool
    &&& t[name] == plain_type(v[name])
    &&& x.ty == t[name]
    &&& x.slot matches Val::Slot(k) && mem.slots.contains_key(k as int) && mem.slots[k as int]
        == word_of(v[name])
}

/// A scope has the same names in native code, in a running program and to the
/// checker, and they stand for the same.
pub open spec fn scope_alike(
    l: Seq<LocalV>,
    v: Map<Seq<char>, ValueV>,
    t: Map<Seq<char>, TypeV>,
    mem: Memory,
) -> bool {
    forall|name: Seq<char>|
        match #[trigger] local_in(l, name) {
            Some(x) => held(x, v, t, name, mem),
            None => !v.contains_key(name) && !t.contains_key(name),
        }
}

/// The same of the scopes of a function. Outside them, no name has a type.
pub open spec fn scopes_alike(
    ls: Seq<Seq<LocalV>>,
    vs: Seq<Map<Seq<char>, ValueV>>,
    ts: Seq<Map<Seq<char>, TypeV>>,
    mem: Memory,
) -> bool
    decreases ls.len(),
{
    if ls.len() == 0 {
        vs.len() == 0 && forall|name: Seq<char>| (#[trigger] find_in(ts, name)) is None
    } else {
        &&& vs.len() > 0
        &&& ts.len() > 0
        &&& scope_alike(ls.last(), vs.last(), ts.last(), mem)
        &&& scopes_alike(ls.drop_last(), vs.drop_last(), ts.drop_last(), mem)
    }
}

/// Each local has a slot of its own among the first `n`.
pub open spec fn apart(ls: Seq<Seq<LocalV>>, n: nat) -> bool {
    &&& forall|i: int, a: int|
        0 <= i < ls.len() && 0 <= a < ls[i].len() ==> ((#[trigger] ls[i][a]).slot matches Val::Slot(k)
            && k < n)
    &&& forall|i: int| 0 <= i < ls.len() ==> nothing_held(#[trigger] ls[i])
    &&& forall|i: int, a: int, j: int, b: int|
        #![trigger ls[i][a], ls[j][b]]
        0 <= i < ls.len() && 0 <= a < ls[i].len() && 0 <= j < ls.len() && 0 <= b < ls[j].len()
            && ls[i][a].slot == ls[j][b].slot ==> i == j && a == b
}

/// No `return`, `break` or `continue` is under way.
pub open spec fn quiet(m: MachineV) -> bool {
    m.returned is None && !m.should_break && !m.should_continue
}

/// A running program and native code that is being made for it agree on the
/// variables.
pub open spec fn alike(s: CgV, m: MachineV, mem: Memory) -> bool {
    &&& s.types.variants == m.variants()
    &&& s.scopes.len() > 0
    &&& scopes_alike(s.scopes, m.scopes, s.types.scopes, mem)
    &&& apart(s.scopes, s.m.func.slots.len())
    &&& quiet(m)
}

proof fn lemma_local_in(l: Seq<LocalV>, name: Seq<char>) -> (a: int)
    requires
        local_in(l, name) is Some,
    ensures
        0 <= a < l.len(),
        l[a] == local_in(l, name)->Some_0,
        l[a].name == name,
    decreases l.len(),
{
    if l.last().name == name {
        l.len() - 1
    } else {
        lemma_local_in(l.drop_last(), name)
    }
}

proof fn lemma_local_of(ls: Seq<Seq<LocalV>>, name: Seq<char>) -> (r: (int, int))
    requires
        local_of(ls, name) is Some,
    ensures
        0 <= r.0 < ls.len(),
        0 <= r.1 < ls[r.0].len(),
        ls[r.0][r.1] == local_of(ls, name)->Some_0,
        ls[r.0][r.1].name == name,
    decreases ls.len(),
{
    match local_in(ls.last(), name) {
        Some(_) => (ls.len() - 1, lemma_local_in(ls.last(), name)),
        None => lemma_local_of(ls.drop_last(), name),
    }
}

/// A name that has a type is a variable and a local.
proof fn lemma_found(
    ls: Seq<Seq<LocalV>>,
    vs: Seq<Map<Seq<char>, ValueV>>,
    ts: Seq<Map<Seq<char>, TypeV>>,
    mem: Memory,
    name: Seq<char>,
)
    requires
        scopes_alike(ls, vs, ts, mem),
        find_in(ts, name) is Some,
    ensures
        ({
            &&& find_value(vs, name) matches Some(v) && (v is Int || v is Bool) && find_in(ts, name)
                == Some(plain_type(v)) && (local_of(ls, name) matches Some(x) && x.ty == plain_type(v)
                && (x.slot matches Val::Slot(k) && mem.slots.contains_key(k as int)
                && mem.slots[k as int] == word_of(v)))
        }),
    decreases ls.len(),
{
    if ls.len() > 0 {
        match local_in(ls.last(), name) {
            Some(x) => {
                assert(held(x, vs.last(), ts.last(), name, mem));
            },
            None => {
                lemma_found(ls.drop_last(), vs.drop_last(), ts.drop_last(), mem, name);
            },
        }
    }
}

/// Only what is in the slots of the locals matters.
proof fn lemma_elsewhere(
    ls: Seq<Seq<LocalV>>,
    vs: Seq<Map<Seq<char>, ValueV>>,
    ts: Seq<Map<Seq<char>, TypeV>>,
    mem: Memory,
    after: Memory,
)
    requires
        scopes_alike(ls, vs, ts, mem),
        forall|i: int, a: int|
            0 <= i < ls.len() && 0 <= a < ls[i].len() ==> ((#[trigger] ls[i][a]).slot matches Val::Slot(
                k,
            ) ==> (mem.slots.contains_key(k as int) ==> after.slots.contains_key(k as int)
                && after.slots[k as int] == mem.slots[k as int])),
    ensures
        scopes_alike(ls, vs, ts, after),
    decreases ls.len(),
{
    if ls.len() > 0 {
        let l = ls.last();
        assert forall|name: Seq<char>|
            match #[trigger] local_in(l, name) {
                Some(x) => held(x, vs.last(), ts.last(), name, after),
                None => !vs.last().contains_key(name) && !ts.last().contains_key(name),
            } by {
            match local_in(l, name) {
                Some(x) => {
                    let a = lemma_local_in(l, name);
                    assert(ls[ls.len() - 1][a] == x);
                    assert(held(x, vs.last(), ts.last(), name, mem));
                },
                None => {},
            }
        }
        assert forall|i: int, a: int|
            0 <= i < ls.drop_last().len() && 0 <= a < ls.drop_last()[i].len() implies ((
        #[trigger] ls.drop_last()[i][a]).slot matches Val::Slot(k) ==> (mem.slots.contains_key(
            k as int,
        ) ==> after.slots.contains_key(k as int) && after.slots[k as int]
            == mem.slots[k as int])) by {
            assert(ls.drop_last()[i][a] == ls[i][a]);
        }
        lemma_elsewhere(ls.drop_last(), vs.drop_last(), ts.drop_last(), mem, after);
    }
}

proof fn lemma_apart_inside(ls: Seq<Seq<LocalV>>, n: nat)
    requires
        apart(ls, n),
        ls.len() > 0,
    ensures
        apart(ls.drop_last(), n),
{
    let l = ls.drop_last();
    assert forall|i: int, a: int| 0 <= i < l.len() && 0 <= a < l[i].len() implies ((
    #[trigger] l[i][a]).slot matches Val::Slot(k) && k < n) by {
        assert(l[i][a] == ls[i][a]);
    }
    assert forall|i: int| 0 <= i < l.len() implies nothing_held(#[trigger] l[i]) by {
        assert(l[i] == ls[i]);
    }
    assert forall|i: int, a: int, j: int, b: int|
        #![trigger l[i][a], l[j][b]]
        0 <= i < l.len() && 0 <= a < l[i].len() && 0 <= j < l.len() && 0 <= b < l[j].len()
            && l[i][a].slot == l[j][b].slot implies i == j && a == b by {
        assert(l[i][a] == ls[i][a]);
        assert(l[j][b] == ls[j][b]);
    }
}

/// A word in the slot of a local is a new value of the variable.
#[verifier::rlimit(40)]
proof fn lemma_assigned(
    ls: Seq<Seq<LocalV>>,
    vs: Seq<Map<Seq<char>, ValueV>>,
    ts: Seq<Map<Seq<char>, TypeV>>,
    mem: Memory,
    n: nat,
    name: Seq<char>,
    x: LocalV,
    k: usize,
    v: ValueV,
)
    requires
        scopes_alike(ls, vs, ts, mem),
        apart(ls, n),
        local_of(ls, name) == Some(x),
        x.slot == Val::Slot(k),
        v is Int || v is Bool,
        x.ty == plain_type(v),
    ensures
        replace_value(vs, name, v) matches Some(vs1) && scopes_alike(
            ls,
            vs1,
            ts,
            stored(mem, k as int, word_of(v)),
        ),
    decreases ls.len(),
{
    let after = stored(mem, k as int, word_of(v));
    let l = ls.last();
    let last = ls.len() - 1;
    let below = ls.drop_last();
    lemma_apart_inside(ls, n);
    let place = lemma_local_of(ls, name);
    match local_in(l, name) {
        Some(y) => {
            assert(held(y, vs.last(), ts.last(), name, mem));
            let at = lemma_local_in(l, name);
            assert(ls[last][at] == x);
            let vs1 = vs.drop_last().push(vs.last().insert(name, v));
            assert(replace_value(vs, name, v) == Some(vs1));
            assert(vs1.drop_last() =~= vs.drop_last());
            assert forall|other: Seq<char>|
                match #[trigger] local_in(l, other) {
                    Some(z) => held(z, vs1.last(), ts.last(), other, after),
                    None => !vs1.last().contains_key(other) && !ts.last().contains_key(other),
                } by {
                match local_in(l, other) {
                    Some(z) => {
                        assert(held(z, vs.last(), ts.last(), other, mem));
                        let a = lemma_local_in(l, other);
                        assert(ls[last][a] == z);
                        if other != name {
                            assert(z.slot != x.slot);
                        }
                    },
                    None => {},
                }
            }
            assert forall|i: int, a: int|
                0 <= i < below.len() && 0 <= a < below[i].len() implies ((
            #[trigger] below[i][a]).slot matches Val::Slot(q) ==> (mem.slots.contains_key(
                q as int,
            ) ==> after.slots.contains_key(q as int) && after.slots[q as int]
                == mem.slots[q as int])) by {
                assert(below[i][a] == ls[i][a]);
                assert(ls[i][a].slot != ls[last][at].slot);
            }
            lemma_elsewhere(below, vs.drop_last(), ts.drop_last(), mem, after);
        },
        None => {
            lemma_assigned(below, vs.drop_last(), ts.drop_last(), mem, n, name, x, k, v);
            let vs1 = replace_value(vs.drop_last(), name, v)->Some_0.push(vs.last());
            assert(!vs.last().contains_key(name));
            assert(replace_value(vs, name, v) == Some(vs1));
            assert(vs1.drop_last() =~= replace_value(vs.drop_last(), name, v)->Some_0);
            let low = lemma_local_of(below, name);
            assert(below[low.0][low.1] == ls[low.0][low.1]);
            assert forall|other: Seq<char>|
                match #[trigger] local_in(l, other) {
                    Some(z) => held(z, vs1.last(), ts.last(), other, after),
                    None => !vs1.last().contains_key(other) && !ts.last().contains_key(other),
                } by {
                match local_in(l, other) {
                    Some(z) => {
                        assert(held(z, vs.last(), ts.last(), other, mem));
                        let a = lemma_local_in(l, other);
                        assert(ls[last][a] == z);
                        assert(ls[last][a].slot != ls[low.0][low.1].slot);
                    },
                    None => {},
                }
            }
        },
    }
}

/// A new local is a new variable.
#[verifier::rlimit(40)]
proof fn lemma_declared(s: CgV, m: MachineV, mem: Memory, name: Seq<char>, v: ValueV, w: Val)
    requires
        alike(s, m, mem),
        v is Int || v is Bool,
        s.m.func.slots.len() < usize::MAX,
    ensures
        alike(
            local_made(s, name, plain_type(v), w),
            m.declare(name, v),
            stored(mem, s.m.func.slots.len() as int, word_of(v)),
        ),
{
    let t = local_made(s, name, plain_type(v), w);
    let n = s.m.func.slots.len();
    let x = LocalV { name, slot: Val::Slot(n as usize), ty: plain_type(v) };
    let after = stored(mem, n as int, word_of(v));
    let ls = s.scopes;
    let last = ls.len() - 1;
    let l1 = ls.last().push(x);
    let ls1 = t.scopes;
    assert(ls1 =~= ls.update(last, l1));
    assert(ls1.last() == l1);
    assert(ls1.drop_last() =~= ls.drop_last());
    let m1 = m.declare(name, v);
    let vs1 = m1.scopes;
    assert(vs1.last() == m.scopes.last().insert(name, v));
    assert(vs1.drop_last() =~= m.scopes.drop_last());
    let ts1 = t.types.scopes;
    assert(ts1.last() == s.types.scopes.last().insert(name, plain_type(v)));
    assert(ts1.drop_last() =~= s.types.scopes.drop_last());
    assert(t.m.func.slots.len() == n + 1);
    assert forall|other: Seq<char>|
        match #[trigger] local_in(l1, other) {
            Some(z) => held(z, vs1.last(), ts1.last(), other, after),
            None => !vs1.last().contains_key(other) && !ts1.last().contains_key(other),
        } by {
        assert(l1.drop_last() =~= ls.last());
        assert(l1.last() == x);
        if other != name {
            assert(local_in(l1, other) == local_in(ls.last(), other));
            match local_in(ls.last(), other) {
                Some(z) => {
                    assert(held(z, m.scopes.last(), s.types.scopes.last(), other, mem));
                    let a = lemma_local_in(ls.last(), other);
                    assert(ls[last][a] == z);
                },
                None => {},
            }
        }
    }
    let below = ls.drop_last();
    assert forall|i: int, a: int| 0 <= i < below.len() && 0 <= a < below[i].len() implies ((
    #[trigger] below[i][a]).slot matches Val::Slot(q) ==> (mem.slots.contains_key(q as int)
        ==> after.slots.contains_key(q as int) && after.slots[q as int] == mem.slots[q as int])) by {
        assert(below[i][a] == ls[i][a]);
    }
    lemma_elsewhere(below, m.scopes.drop_last(), s.types.scopes.drop_last(), mem, after);
    assert forall|i: int, a: int| 0 <= i < ls1.len() && 0 <= a < ls1[i].len() implies ((
    #[trigger] ls1[i][a]).slot matches Val::Slot(k) && k < n + 1) by {
        if i == last && a == l1.len() - 1 {
        } else {
            assert(ls1[i][a] == ls[i][a]);
        }
    }
    assert forall|i: int| 0 <= i < ls1.len() implies nothing_held(#[trigger] ls1[i]) by {
        assert(nothing_held(ls[i]));
    }
    assert forall|i: int, a: int, j: int, b: int|
        #![trigger ls1[i][a], ls1[j][b]]
        0 <= i < ls1.len() && 0 <= a < ls1[i].len() && 0 <= j < ls1.len() && 0 <= b
            < ls1[j].len() && ls1[i][a].slot == ls1[j][b].slot implies i == j && a == b by {
        let newest_a = i == last && a == l1.len() - 1;
        let newest_b = j == last && b == l1.len() - 1;
        if !newest_a {
            assert(ls1[i][a] == ls[i][a]);
        }
        if !newest_b {
            assert(ls1[j][b] == ls[j][b]);
        }
    }
}

// ---- statements ----

/// No name of an expression is a variant.
pub open spec fn speaks(e: ExprV, variants: Seq<VariantV>) -> bool
    decreases e,
{
    match *e.kind {
        ExprKindV::Ident(name) => lookup_v(variants, name) is Unknown,
        ExprKindV::Binary(l, _, r) => speaks(*l, variants) && speaks(*r, variants),
        ExprKindV::Unary(_, x) => speaks(*x, variants),
        _ => true,
    }
}

/// An expression made of integers, truth values, variables and operators.
pub open spec fn simple(e: ExprV, env: EnvV) -> bool {
    plain(e) && speaks(e, env.variants)
}

/// A statement made of such expressions: a `let`, an assignment to a variable, an
/// expression, an `if` or a `while`.
pub open spec fn simple_stmt(st: StmtV, env: EnvV) -> bool
    decreases st, 0int,
{
    match st.kind {
        StmtKindV::Let { value, .. } => simple(value, env),
        StmtKindV::Assign { name, value } => simple(value, env) && env.lookup(name) is Some,
        StmtKindV::Expr(e) => simple(e, env),
        StmtKindV::If { cond, then_body, else_body } => {
            &&& simple(cond, env)
            &&& simple_stmts(then_body, 0, env.push_scope())
            &&& else_body matches Some(eb) ==> simple_stmts(eb, 0, env.push_scope())
        },
        StmtKindV::While { cond, body } => simple(cond, env) && simple_stmts(
            body,
            0,
            env.push_scope(),
        ),
        _ => false,
    }
}

/// Such statements, from the `i`th on.
pub open spec fn simple_stmts(ss: Seq<StmtV>, i: int, env: EnvV) -> bool
    decreases ss, ss.len() - i,
{
    if i < 0 || i >= ss.len() {
        true
    } else {
        simple_stmt(ss[i], env) && simple_stmts(ss, i + 1, check_stmt(ss[i], env).1)
    }
}

/// Names that have types stand for the same to both backends.
pub proof fn lemma_linked(e: ExprV, s: CgV, m: MachineV, mem: Memory)
    requires
        simple(e, s.types),
        s.types.variants == m.variants(),
        scopes_alike(s.scopes, m.scopes, s.types.scopes, mem),
        check_expr(e, s.types).0 is Ok,
    ensures
        linked(e, s, m, mem),
        check_expr(e, s.types).1 == s.types,
        check_expr(e, s.types).0->Ok_0 is Int || check_expr(e, s.types).0->Ok_0 is Bool,
    decreases e,
{
    match *e.kind {
        ExprKindV::Ident(name) => {
            lemma_found(s.scopes, m.scopes, s.types.scopes, mem, name);
        },
        ExprKindV::Binary(l, _, r) => {
            assert(check_expr(e, s.types) == crate::typing::check_binary(e, s.types));
            lemma_linked(*l, s, m, mem);
            lemma_linked(*r, s, m, mem);
        },
        ExprKindV::Unary(_, x) => {
            assert(check_expr(e, s.types) == crate::typing::check_unary(e, s.types));
            lemma_linked(*x, s, m, mem);
        },
        _ => {},
    }
    law_plain_types(e, s, m, mem);
}

// ---- the code for statements ----

/// A memory in which every slot holds zero.
pub open spec fn zeros() -> Memory {
    Memory {
        regs: Map::empty(),
        slots: Map::new(|k: int| true, |k: int| 0i64),
        params: Seq::empty(),
        heap: Map::empty(),
    }
}

pub open spec fn zero_of(v: ValueV) -> ValueV {
    if v is Bool {
        ValueV::Bool(false)
    } else {
        ValueV::Int(0)
    }
}

pub open spec fn zeroed(vs: Seq<Map<Seq<char>, ValueV>>) -> Seq<Map<Seq<char>, ValueV>> {
    vs.map_values(|v: Map<Seq<char>, ValueV>| v.map_values(|x: ValueV| zero_of(x)))
}

proof fn lemma_zeroed(
    ls: Seq<Seq<LocalV>>,
    vs: Seq<Map<Seq<char>, ValueV>>,
    ts: Seq<Map<Seq<char>, TypeV>>,
    mem: Memory,
)
    requires
        scopes_alike(ls, vs, ts, mem),
    ensures
        scopes_alike(ls, zeroed(vs), ts, zeros()),
    decreases ls.len(),
{
    if ls.len() > 0 {
        lemma_zeroed(ls.drop_last(), vs.drop_last(), ts.drop_last(), mem);
        assert(zeroed(vs).drop_last() =~= zeroed(vs.drop_last()));
        assert(zeroed(vs).last() == vs.last().map_values(|x: ValueV| zero_of(x)));
        let l = ls.last();
        assert forall|name: Seq<char>|
            match #[trigger] local_in(l, name) {
                Some(x) => held(x, zeroed(vs).last(), ts.last(), name, zeros()),
                None => !zeroed(vs).last().contains_key(name) && !ts.last().contains_key(name),
            } by {
            match local_in(l, name) {
                Some(x) => {
                    assert(held(x, vs.last(), ts.last(), name, mem));
                },
                None => {},
            }
        }
    }
}

/// The scopes of the code that is made are those that the checker sees, with
/// integers and truth values in them.
pub open spec fn shaped(s: CgV, m: MachineV) -> bool {
    &&& s.types.variants == m.variants()
    &&& s.scopes.len() > 0
    &&& scopes_alike(s.scopes, m.scopes, s.types.scopes, zeros())
    &&& forall|i: int| 0 <= i < s.scopes.len() ==> nothing_held(#[trigger] s.scopes[i])
}

pub proof fn lemma_shaped(s: CgV, m: MachineV, mem: Memory)
    requires
        alike(s, m, mem),
    ensures
        shaped(s, MachineV { scopes: zeroed(m.scopes), ..m }),
{
    lemma_zeroed(s.scopes, m.scopes, s.types.scopes, mem);
}

/// Nothing but the innermost scope is different.
pub open spec fn only_inner(env: EnvV, after: EnvV) -> bool {
    &&& after == (EnvV { scopes: after.scopes, ..env })
    &&& after.scopes.len() == env.scopes.len()
    &&& after.scopes.drop_last() == env.scopes.drop_last()
}

/// Besides the code, nothing but the innermost scope is different.
pub open spec fn same_outside(s: CgV, t: CgV) -> bool {
    &&& only_inner(s.types, t.types)
    &&& t.scopes.len() == s.scopes.len()
    &&& t.scopes.drop_last() == s.scopes.drop_last()
    &&& t.path == s.path
    &&& t.src == s.src
}

/// The code of an expression.
proof fn lemma_expr_goes_on(s: CgV, span: Span, e: ExprV, m: MachineV)
    requires
        shaped(s, m),
        simple(e, s.types),
        check_expr(e, s.types).0 is Ok,
    ensures
        ({
            let s0 = CgV { span, ..s };
            let (s1, v) = gen_expr(s0, e);
            &&& adds(s0, s1)
            &&& continues(s, s1)
            &&& v is Int
            &&& shaped(s1, m)
            &&& same_outside(s, s1)
            &&& check_expr(e, s.types).1 == s.types
            &&& check_expr(e, s.types).0->Ok_0 is Int || check_expr(e, s.types).0->Ok_0 is Bool
        }),
{
    let s0 = CgV { span, ..s };
    lemma_linked(e, s0, m, zeros());
    lemma_plain_expression_adds(e, s0, m, zeros());
    lemma_same_code(s, s0);
    lemma_continues_chain(s, s0, gen_expr(s0, e).0);
}

/// The code of a statement goes on from where the code before it ends. It opens
/// and closes scopes as the checker does.
#[verifier::rlimit(60)]
pub proof fn lemma_stmt_goes_on(s: CgV, st: StmtV, m: MachineV) -> (n: MachineV)
    requires
        shaped(s, m),
        simple_stmt(st, s.types),
        check_stmt(st, s.types).0 is Ok,
    ensures
        continues(s, gen_stmt(s, st)),
        same_outside(s, gen_stmt(s, st)),
        shaped(gen_stmt(s, st), n),
        gen_stmt(s, st).types == check_stmt(st, s.types).1,
    decreases st, 1int,
{
    match st.kind {
        StmtKindV::Let { name, value, .. } => {
            lemma_expr_goes_on(s, st.span, value, m);
            let ty = check_expr(value, s.types).0->Ok_0;
            lemma_let_code(s, st, ty);
            let (s1, v) = gen_expr(CgV { span: st.span, ..s }, value);
            lemma_made_goes_on(s, s1, name, ty, v->Int_0, m)
        },
        StmtKindV::Assign { name, value } => {
            lemma_expr_goes_on(s, st.span, value, m);
            lemma_found(s.scopes, m.scopes, s.types.scopes, zeros(), name);
            let x = s.local(name)->Some_0;
            lemma_assign_code(s, st, x);
            let (s1, v) = gen_expr(CgV { span: st.span, ..s }, value);
            lemma_set_goes_on(s1, x.slot, v->Int_0);
            lemma_continues_chain(s, s1, local_set(s1, x.slot, v->Int_0));
            m
        },
        StmtKindV::Expr(e) => {
            lemma_expr_goes_on(s, st.span, e, m);
            lemma_discard_code(s, st, check_expr(e, s.types).0->Ok_0);
            m
        },
        StmtKindV::If { .. } => {
            lemma_if_goes_on(s, st, m);
            m
        },
        StmtKindV::While { .. } => {
            lemma_while_goes_on(s, st, m);
            m
        },
        _ => m,
    }
}

proof fn lemma_made_goes_on(
    s: CgV,
    s1: CgV,
    name: Seq<char>,
    ty: TypeV,
    w: Val,
    m: MachineV,
) -> (n: MachineV)
    requires
        continues(s, s1),
        same_outside(s, s1),
        shaped(s1, m),
        s1.types == s.types,
        s1.scopes == s.scopes,
        ty is Int || ty is Bool,
    ensures
        continues(s, local_made(s1, name, ty, w)),
        same_outside(s, local_made(s1, name, ty, w)),
        shaped(local_made(s1, name, ty, w), n),
        local_made(s1, name, ty, w).types == s.types.define(name, ty),
{
    let t = local_made(s1, name, ty, w);
    let (module, slot) = s1.m.slot(crate::ir::Room::Word, name);
    let s2 = CgV { m: module, ..s1 };
    let s3 = s2.emit(OpV::Store(slot, w), ""@).0;
    lemma_local_parts(s2, OpV::Store(slot, w), ""@, slot, ty);
    lemma_same_code(s1, s2);
    lemma_emit_continues(s2, OpV::Store(slot, w), ""@);
    lemma_same_code(s3, t);
    lemma_continues_chain(s, s1, s2);
    lemma_continues_chain(s, s2, s3);
    lemma_continues_chain(s, s3, t);
    let v = if ty is Bool {
        ValueV::Bool(false)
    } else {
        ValueV::Int(0)
    };
    let n = m.declare(name, v);
    let ls = s1.scopes;
    let last = ls.len() - 1;
    let x = LocalV { name, slot, ty };
    let l1 = ls.last().push(x);
    assert(t.scopes =~= ls.update(last, l1));
    assert(t.scopes.last() == l1);
    assert(t.scopes.drop_last() =~= ls.drop_last());
    assert(n.scopes.last() == m.scopes.last().insert(name, v));
    assert(n.scopes.drop_last() =~= m.scopes.drop_last());
    assert(t.types.scopes.last() == s.types.scopes.last().insert(name, ty));
    assert(t.types.scopes.drop_last() =~= s.types.scopes.drop_last());
    assert forall|other: Seq<char>|
        match #[trigger] local_in(l1, other) {
            Some(z) => held(z, n.scopes.last(), t.types.scopes.last(), other, zeros()),
            None => !n.scopes.last().contains_key(other) && !t.types.scopes.last().contains_key(
                other,
            ),
        } by {
        assert(l1.drop_last() =~= ls.last());
        assert(l1.last() == x);
        if other != name {
            assert(local_in(l1, other) == local_in(ls.last(), other));
        }
    }
    assert forall|i: int| 0 <= i < t.scopes.len() implies nothing_held(#[trigger] t.scopes[i]) by {
        assert(nothing_held(ls[i]));
    }
    n
}

proof fn lemma_set_goes_on(s: CgV, slot: Val, w: Val)
    ensures
        continues(s, local_set(s, slot, w)),
{
    let load = OpV::Load(Ty::Word, slot);
    let s1 = s.emit(load, "local"@).0;
    lemma_local_parts(s, load, "local"@, slot, TypeV::Int);
    lemma_local_parts(s1, OpV::Store(slot, w), ""@, slot, TypeV::Int);
    lemma_emit_continues(s, load, "local"@);
    lemma_emit_continues(s1, OpV::Store(slot, w), ""@);
    lemma_continues_chain(s, s1, local_set(s, slot, w));
}

/// Statements, from the `i`th on.
proof fn lemma_stmts_go_on(s: CgV, ss: Seq<StmtV>, i: int, m: MachineV) -> (n: MachineV)
    requires
        shaped(s, m),
        0 <= i,
        simple_stmts(ss, i, s.types),
        check_stmts(ss, i, s.types).0 is Ok,
    ensures
        continues(s, gen_stmts(s, ss, i)),
        same_outside(s, gen_stmts(s, ss, i)),
        shaped(gen_stmts(s, ss, i), n),
        only_inner(s.types, check_stmts(ss, i, s.types).1),
    decreases ss, ss.len() - i,
{
    lemma_statements_code(s, ss, i);
    lemma_same_code(s, s);
    if i < ss.len() {
        let s1 = gen_stmt(s, ss[i]);
        let n1 = lemma_stmt_goes_on(s, ss[i], m);
        let n2 = lemma_stmts_go_on(s1, ss, i + 1, n1);
        if s.left() {
            m
        } else {
            lemma_continues_chain(s, s1, gen_stmts(s1, ss, i + 1));
            n2
        }
    } else {
        m
    }
}

/// Statements in a scope of their own.
proof fn lemma_block_goes_on(s: CgV, ss: Seq<StmtV>, m: MachineV)
    requires
        shaped(s, m),
        simple_stmts(ss, 0, s.types.push_scope()),
        check_stmts(ss, 0, s.types.push_scope()).0 is Ok,
    ensures
        continues(s, gen_block(s, ss)),
        ({
            let t = gen_block(s, ss);
            &&& t.scopes == s.scopes
            &&& t.types == s.types
            &&& t.path == s.path
            &&& t.src == s.src
        }),
        check_block(ss, s.types).1 == s.types,
    decreases ss, ss.len() + 1,
{
    let s1 = CgV { scopes: s.scopes.push(Seq::empty()), types: s.types.push_scope(), ..s };
    lemma_block_code(s, ss);
    lemma_same_code(s, s1);
    lemma_scope_opened(s, m, zeros());
    assert forall|i: int| 0 <= i < s1.scopes.len() implies nothing_held(#[trigger] s1.scopes[i]) by {
        if i < s.scopes.len() {
            assert(nothing_held(s.scopes[i]));
        }
    }
    let n = lemma_stmts_go_on(s1, ss, 0, m.push_scope());
    let t1 = gen_stmts(s1, ss, 0);
    assert(nothing_held(t1.scopes[t1.scopes.len() - 1]));
    lemma_close_scope(t1);
    let t = gen_block(s, ss);
    lemma_same_code(t1, t);
    lemma_continues_chain(s, s1, t1);
    lemma_continues_chain(s, t1, t);
    assert(s1.scopes.drop_last() =~= s.scopes);
    assert(s1.types.scopes.drop_last() =~= s.types.scopes);
    assert(t.types.scopes == s.types.scopes);
}

/// A new scope has no names.
proof fn lemma_scope_opened(s: CgV, m: MachineV, mem: Memory)
    requires
        scopes_alike(s.scopes, m.scopes, s.types.scopes, mem),
    ensures
        scopes_alike(
            s.scopes.push(Seq::empty()),
            m.push_scope().scopes,
            s.types.push_scope().scopes,
            mem,
        ),
{
    let ls = s.scopes.push(Seq::empty());
    assert(ls.drop_last() =~= s.scopes);
    assert(m.push_scope().scopes.drop_last() =~= m.scopes);
    assert(s.types.push_scope().scopes.drop_last() =~= s.types.scopes);
    assert(scope_alike(
        Seq::empty(),
        Map::<Seq<char>, ValueV>::empty(),
        Map::<Seq<char>, TypeV>::empty(),
        mem,
    ));
}

/// Three new blocks, and an instruction that leads to the first or the second.
proof fn lemma_three_blocks(s: CgV, a: Seq<char>, b: Seq<char>, c: Seq<char>)
    ensures
        ({
            let (s1, x) = s.block(a);
            let (s2, y) = s1.block(b);
            let (s3, z) = s2.block(c);
            &&& continues(s, s3)
            &&& s3 == (CgV { m: s3.m, ..s })
            &&& s3.m.at == s.m.at
            &&& s3.m.func.insts == s.m.func.insts
            &&& s3.m.func.slots == s.m.func.slots
            &&& s3.m.func.blocks == s.m.func.blocks.push((a, false)).push((b, false)).push(
                (c, false),
            )
            &&& countable(s3) ==> x == s.m.func.blocks.len() && y == x + 1 && z == x + 2
            &&& open_here(s) && countable(s3) ==> open_here(s3)
        }),
{
    let dummy = OpV::Unreachable;
    let l = crate::native::LoopCtx { exit: 0, next: 0, depth: 0, result: None };
    let (s1, x) = s.block(a);
    let (s2, y) = s1.block(b);
    let (s3, z) = s2.block(c);
    lemma_blocks(s, dummy, a, 0, l);
    lemma_blocks(s1, dummy, b, 0, l);
    lemma_blocks(s2, dummy, c, 0, l);
    lemma_same_code(s, s);
    lemma_same_code(s1, s1);
    lemma_same_code(s2, s2);
    lemma_no_code_continues(s, s, a, 0);
    lemma_no_code_continues(s1, s1, b, 0);
    lemma_no_code_continues(s2, s2, c, 0);
    lemma_continues_chain(s, s1, s2);
    lemma_continues_chain(s, s2, s3);
    lemma_continues(s, s3);
}

#[verifier::rlimit(60)]
proof fn lemma_if_goes_on(s: CgV, st: StmtV, m: MachineV)
    requires
        st.kind is If,
        shaped(s, m),
        simple_stmt(st, s.types),
        check_stmt(st, s.types).0 is Ok,
    ensures
        if_parts(s, st),
        shaped(gen_stmt(s, st), m),
        gen_stmt(s, st).types == check_stmt(st, s.types).1,
        gen_stmt(s, st) == if_code(s, st).all,
    decreases st, 0int,
{
    let c = if_code(s, st);
    let cond = st.kind->If_cond;
    lemma_expr_goes_on(s, st.span, cond, m);
    lemma_if_code(s, st, check_expr(cond, s.types).0->Ok_0);
    let (s1, cv) = gen_expr(CgV { span: st.span, ..s }, cond);
    lemma_to_i1(s1, cv->Int_0, zeros());
    lemma_continues_chain(s, s1, c.tested);
    lemma_three_blocks(c.tested, "then"@, "else"@, "ifcont"@);
    let l = crate::native::LoopCtx { exit: 0, next: 0, depth: 0, result: None };
    let branch = OpV::Branch(c.cond, c.yes, c.no);
    let b1 = c.split.emit(branch, ""@).0;
    lemma_emit_continues(c.split, branch, ""@);
    lemma_blocks(c.split, branch, ""@, 0, l);
    lemma_blocks(b1, branch, ""@, c.yes, l);
    lemma_continues(c.split, b1);
    lemma_continues_chain(c.tested, c.split, b1);
    lemma_no_code_continues(c.tested, b1, ""@, c.yes);
    lemma_block_goes_on(c.first, st.kind->If_then_body, m);
    lemma_continues_chain(c.tested, c.first, c.first_done);
    let jump = OpV::Jump(c.merge);
    let b2 = c.first_done.emit(jump, ""@).0;
    lemma_emit_continues(c.first_done, jump, ""@);
    lemma_blocks(c.first_done, jump, ""@, 0, l);
    lemma_blocks(b2, jump, ""@, c.no, l);
    lemma_continues_chain(c.tested, c.first_done, b2);
    lemma_continues_chain(c.first, c.first_done, b2);
    lemma_continues(c.tested, b2);
    lemma_continues(c.first, c.first_done);
    lemma_continues(c.first_done, b2);
    lemma_no_code_continues(c.tested, b2, ""@, c.no);
    match st.kind->If_else_body {
        Some(eb) => {
            lemma_block_goes_on(c.second, eb, m);
        },
        None => {
            lemma_same_code(c.second, c.second);
        },
    }
    lemma_continues_chain(c.tested, c.second, c.second_done);
    let b3 = c.second_done.emit(jump, ""@).0;
    lemma_emit_continues(c.second_done, jump, ""@);
    lemma_blocks(c.second_done, jump, ""@, 0, l);
    lemma_blocks(b3, jump, ""@, c.merge, l);
    lemma_continues_chain(c.tested, c.second_done, b3);
    lemma_continues_chain(c.second, c.second_done, b3);
    lemma_continues(c.tested, b3);
    lemma_continues(c.second, c.second_done);
    lemma_continues(c.second_done, b3);
    lemma_no_code_continues(c.tested, b3, ""@, c.merge);
    lemma_continues_chain(s, c.tested, c.all);
}

/// How the parts of the code for an `if` follow each other.
pub open spec fn if_parts(s: CgV, st: StmtV) -> bool {
    let c = if_code(s, st);
    &&& continues(s, c.tested)
    &&& continues(c.tested, c.split)
    &&& continues(c.tested, c.first)
    &&& continues(c.first, c.first_done)
    &&& continues(c.first, c.first_out)
    &&& continues(c.tested, c.second)
    &&& continues(c.second, c.second_done)
    &&& continues(c.second, c.second_out)
    &&& continues(c.tested, c.all)
    &&& continues(s, c.all)
    &&& same_outside(s, c.tested)
    &&& c.tested.scopes == s.scopes && c.tested.types == s.types
    &&& c.first.scopes == s.scopes && c.first.types == s.types
    &&& c.first_done.scopes == s.scopes && c.first_done.types == s.types
    &&& c.second.scopes == s.scopes && c.second.types == s.types
    &&& c.second_done.scopes == s.scopes && c.second_done.types == s.types
    &&& c.first.path == s.path && c.first.src == s.src
    &&& c.second.path == s.path && c.second.src == s.src
    &&& same_outside(s, c.all)
    &&& c.all.scopes == s.scopes && c.all.types == s.types
}

#[verifier::rlimit(60)]
proof fn lemma_while_goes_on(s: CgV, st: StmtV, m: MachineV)
    requires
        st.kind is While,
        shaped(s, m),
        simple_stmt(st, s.types),
        check_stmt(st, s.types).0 is Ok,
    ensures
        while_parts(s, st),
        shaped(gen_stmt(s, st), m),
        gen_stmt(s, st).types == check_stmt(st, s.types).1,
        gen_stmt(s, st) == while_code(s, st).all,
    decreases st, 0int,
{
    let c = while_code(s, st);
    let s0 = CgV { span: st.span, ..s };
    lemma_same_code(s, s0);
    lemma_three_blocks(s0, "while"@, "while_body"@, "while_end"@);
    let l = crate::native::LoopCtx { exit: 0, next: 0, depth: 0, result: None };
    let jump = OpV::Jump(c.head);
    let b1 = c.made.emit(jump, ""@).0;
    lemma_emit_continues(c.made, jump, ""@);
    lemma_blocks(c.made, jump, ""@, 0, l);
    lemma_blocks(b1, jump, ""@, c.head, l);
    lemma_continues_chain(s0, c.made, b1);
    lemma_continues(c.made, b1);
    lemma_no_code_continues(s0, b1, ""@, c.head);
    let cond = st.kind->While_cond;
    lemma_expr_goes_on(c.asked, st.span, cond, m);
    assert(c.asked == (CgV { span: st.span, ..c.asked }));
    lemma_while_code(s, st, check_expr(cond, s.types).0->Ok_0);
    let (s3, cv) = gen_expr(c.asked, cond);
    lemma_to_i1(s3, cv->Int_0, zeros());
    lemma_continues_chain(c.asked, s3, c.tested);
    lemma_continues_chain(s0, c.asked, c.tested);
    let branch = OpV::Branch(c.cond, c.body, c.end);
    let s4 = c.tested.emit(branch, ""@).0;
    lemma_emit_continues(c.tested, branch, ""@);
    let ctx = loop_ctx(s4, c.end, c.head, None);
    lemma_blocks(c.tested, branch, ""@, 0, l);
    lemma_blocks(s4, branch, ""@, c.body, ctx);
    let s5 = s4.push_loop(ctx);
    lemma_same_code(s4, s5);
    lemma_blocks(s5, branch, ""@, c.body, ctx);
    lemma_continues_chain(s0, c.tested, s4);
    lemma_continues_chain(c.asked, c.tested, s4);
    lemma_continues_chain(s0, s4, s5);
    lemma_continues(s0, s5);
    lemma_continues(c.asked, c.tested);
    lemma_continues(c.tested, s4);
    lemma_no_code_continues(s0, s5, ""@, c.body);
    lemma_block_goes_on(c.turn, st.kind->While_body, m);
    lemma_continues_chain(s0, c.turn, c.turn_done);
    let b2 = c.turn_done.emit(jump, ""@).0;
    lemma_emit_continues(c.turn_done, jump, ""@);
    lemma_blocks(c.turn_done, jump, ""@, 0, l);
    lemma_blocks(b2, jump, ""@, 0, l);
    let b3 = b2.pop_loop();
    lemma_same_code(b2, b3);
    lemma_blocks(b3, jump, ""@, c.end, l);
    lemma_continues_chain(s0, c.turn_done, b2);
    lemma_continues_chain(c.turn, c.turn_done, b2);
    lemma_continues_chain(s0, b2, b3);
    lemma_continues(s0, b3);
    lemma_continues(c.turn, c.turn_done);
    lemma_continues(c.turn_done, b2);
    lemma_no_code_continues(s0, b3, ""@, c.end);
    lemma_continues_chain(s, s0, c.all);
}

/// How the parts of the code for a `while` follow each other.
pub open spec fn while_parts(s: CgV, st: StmtV) -> bool {
    let c = while_code(s, st);
    let s0 = CgV { span: st.span, ..s };
    &&& continues(s, s0)
    &&& continues(s0, c.made)
    &&& continues(s0, c.asked)
    &&& continues(c.asked, c.tested)
    &&& continues(c.asked, c.branched)
    &&& continues(s0, c.turn)
    &&& continues(c.turn, c.turn_done)
    &&& continues(c.turn, c.turn_out)
    &&& continues(s0, c.all)
    &&& continues(s, c.all)
    &&& c.asked.scopes == s.scopes && c.asked.types == s.types
    &&& c.tested.scopes == s.scopes && c.tested.types == s.types
    &&& c.turn.scopes == s.scopes && c.turn.types == s.types
    &&& c.turn_done.scopes == s.scopes && c.turn_done.types == s.types
    &&& c.asked.path == s.path && c.asked.src == s.src && c.asked.span == st.span
    &&& c.turn.path == s.path && c.turn.src == s.src
    &&& same_outside(s, c.all)
    &&& c.all.scopes == s.scopes && c.all.types == s.types
}

// ---- what statements do ----

/// What statements do to a running program.
pub enum Effect {
    /// They are done.
    Done(MachineV),
    /// They fail with a message, which is reported at a statement.
    Failed(Seq<char>, Span),
    /// A loop takes more rounds than are looked at.
    Unfinished,
}

/// What a statement does, where no loop takes more than so many rounds.
pub open spec fn effect(st: StmtV, before: MachineV, rounds: nat) -> Effect
    decreases rounds, st, 0int,
{
    let m = MachineV { span: st.span, ..before };
    match st.kind {
        StmtKindV::Let { name, value, .. } => match worth(value, m) {
            Ok(v) => Effect::Done(m.declare(name, v)),
            Err(x) => Effect::Failed(x, m.span),
        },
        StmtKindV::Assign { name, value } => match worth(value, m) {
            Ok(v) => Effect::Done(m.assign(name, v)),
            Err(x) => Effect::Failed(x, m.span),
        },
        StmtKindV::Expr(e) => match worth(e, m) {
            Ok(_) => Effect::Done(m),
            Err(x) => Effect::Failed(x, m.span),
        },
        StmtKindV::If { cond, then_body, else_body } => match worth(cond, m) {
            Ok(v) => if chooses(v) {
                closed(effects(then_body, 0, m.push_scope(), rounds), m.span)
            } else {
                match else_body {
                    Some(eb) => closed(effects(eb, 0, m.push_scope(), rounds), m.span),
                    None => Effect::Done(m),
                }
            },
            Err(x) => Effect::Failed(x, m.span),
        },
        StmtKindV::While { cond, body } => looped(cond, body, m, rounds),
        _ => Effect::Unfinished,
    }
}

/// A scope ends. What comes next is part of the statement that it stands in.
pub open spec fn closed(e: Effect, span: Span) -> Effect {
    match e {
        Effect::Done(m) => Effect::Done(MachineV { span, ..m.pop_scope() }),
        _ => e,
    }
}

/// What statements do, from the `i`th on.
pub open spec fn effects(ss: Seq<StmtV>, i: int, m: MachineV, rounds: nat) -> Effect
    decreases rounds, ss, ss.len() - i,
{
    if i < 0 || i >= ss.len() {
        Effect::Done(m)
    } else {
        match effect(ss[i], m, rounds) {
            Effect::Done(m1) => effects(ss, i + 1, m1, rounds),
            other => other,
        }
    }
}

/// What a loop does.
pub open spec fn looped(
    cond: ExprV,
    body: Seq<StmtV>,
    m: MachineV,
    rounds: nat,
) -> Effect
    decreases rounds, body, body.len() + 1,
{
    match worth(cond, m) {
        Err(x) => Effect::Failed(x, m.span),
        Ok(v) => if !holds(v) {
            Effect::Done(m)
        } else if rounds == 0 {
            Effect::Unfinished
        } else {
            match closed(effects(body, 0, m.push_scope(), (rounds - 1) as nat), m.span) {
                Effect::Done(m1) => looped(cond, body, m1, (rounds - 1) as nat),
                other => other,
            }
        },
    }
}

/// A machine with a stack, about to do something.
pub open spec fn at(m: MachineV, stack: Seq<FrameV>, ctl: CtlV) -> MachineV {
    MachineV { stack, ctl, ..m }
}

/// The interpreter does what statements do in a number of steps.
pub open spec fn interpreted(
    from: MachineV,
    k: nat,
    stack: Seq<FrameV>,
    e: Effect,
) -> bool {
    match e {
        Effect::Done(m) => steps(from, k) == (at(m, stack, CtlV::Next), ActionV::Continue),
        Effect::Failed(message, span) => steps(from, k).1 == ActionV::Fail(
            DiagnosticV { message, span },
        ),
        Effect::Unfinished => true,
    }
}

/// Where native code is after what statements do.
pub open spec fn ended(s: CgV, t: CgV, end: Point, after: Memory, e: Effect) -> bool {
    match e {
        Effect::Done(m) => {
            &&& end == Point::At(t.m.at, t.m.func.insts.len() as int, after)
            &&& open_here(t)
            &&& alike(t, m, after)
        },
        Effect::Failed(message, span) => end matches Point::Stopped(x, _, _) && x < t.m.texts.len()
            && t.m.texts[x as int] == format_text(
            rendered(DiagnosticV { message, span }, s.path, s.src),
        ),
        Effect::Unfinished => true,
    }
}

/// Native code does what statements do in a number of steps.
pub open spec fn executed(
    insts: Seq<InstV>,
    s: CgV,
    t: CgV,
    mem: Memory,
    k: nat,
    after: Memory,
    e: Effect,
) -> bool {
    ended(
        s,
        t,
        walked(insts, Point::At(s.m.at, s.m.func.insts.len() as int, mem), k),
        after,
        e,
    )
}

/// The code that is made so far, and perhaps more.
pub open spec fn starts_with(insts: Seq<InstV>, t: CgV) -> bool {
    &&& t.m.func.insts.len() <= insts.len()
    &&& forall|i: int|
        0 <= i < t.m.func.insts.len() ==> t.m.func.insts[i] == #[trigger] insts[i]
}

/// The places of instructions, blocks, texts and slots are numbers of the
/// machine.
pub open spec fn roomy(t: CgV) -> bool {
    countable(t) && t.m.func.slots.len() <= usize::MAX
}

pub proof fn lemma_starts_earlier(insts: Seq<InstV>, s: CgV, t: CgV)
    requires
        starts_with(insts, t),
        continues(s, t),
    ensures
        starts_with(insts, s),
        roomy(t) ==> roomy(s),
        s.m.func.ordered() && countable(t) ==> t.m.func.ordered(),
{
    lemma_continues(s, t);
    assert forall|i: int| 0 <= i < s.m.func.insts.len() implies s.m.func.insts[i]
        == #[trigger] insts[i] by {
        assert(t.m.func.insts[i] == insts[i]);
    }
}

pub proof fn lemma_alike_later(s: CgV, t: CgV, m: MachineV, n: MachineV, mem: Memory, after: Memory)
    requires
        alike(s, m, mem),
        t.scopes == s.scopes,
        t.types == s.types,
        t.m.func.slots.len() >= s.m.func.slots.len(),
        after.slots == mem.slots,
        n.scopes == m.scopes,
        n.program == m.program,
        quiet(n),
    ensures
        alike(t, n, after),
{
    lemma_elsewhere(s.scopes, m.scopes, s.types.scopes, mem, after);
}

// ---- expressions in statements ----

/// One value, and then what is to be done with it.
pub proof fn lemma_one_value(m: MachineV, stack: Seq<FrameV>, task: TaskV, e: ExprV) -> (k: nat)
    requires
        plain(e),
        variables_known(e, m),
        needs(task) == 1,
    ensures
        ({
            let f = FrameV::Collect { task, exprs: seq![e], vals: Seq::empty() };
            let from = at(m, stack.push(f), CtlV::Eval(e));
            match worth(e, m) {
                Ok(v) => steps(from, k) == apply(
                    at(m, stack, CtlV::Stopped),
                    task,
                    Seq::empty().push(v),
                ),
                Err(x) => steps(from, k).1 == ActionV::Fail(
                    DiagnosticV { message: x, span: m.span },
                ),
            }
        }),
{
    let f = FrameV::Collect { task, exprs: seq![e], vals: Seq::empty() };
    let n = at(m, stack.push(f), CtlV::Stopped);
    lemma_variables_stay(e, m, n);
    let k = law_plain_expression_evaluates(e, n);
    let from = n.with(CtlV::Eval(e));
    assert(from == at(m, stack.push(f), CtlV::Eval(e)));
    match worth(e, m) {
        Err(_) => k,
        Ok(v) => {
            let got = n.with(CtlV::Value(v));
            lemma_one_step(got);
            let f1 = FrameV::Collect { task, exprs: seq![e], vals: Seq::empty().push(v) };
            let ready = at(m, stack.push(f1), CtlV::Ready);
            assert(stack.push(f).drop_last() =~= stack);
            assert(stack.push(f).last() == f);
            assert(step(got) == (ready, ActionV::Continue));
            lemma_leads(from, k, got, 1);
            assert(leads(from, k + 1, ready));
            lemma_one_step(ready);
            assert(stack.push(f1).drop_last() =~= stack);
            assert(stack.push(f1).last() == f1);
            lemma_leads(from, k + 1, ready, 1);
            k + 2
        },
    }
}

/// The code for an expression runs, or stops the program.
proof fn lemma_expr_runs(
    s: CgV,
    span: Span,
    e: ExprV,
    m: MachineV,
    mem: Memory,
    insts: Seq<InstV>,
) -> (r: (nat, Memory))
    requires
        alike(s, m, mem),
        open_here(s),
        simple(e, s.types),
        check_expr(e, s.types).0 is Ok,
        starts_with(insts, gen_expr(CgV { span, ..s }, e).0),
        countable(gen_expr(CgV { span, ..s }, e).0),
    ensures
        variables_known(e, m),
        ({
            let s0 = CgV { span, ..s };
            let (s1, w) = gen_expr(s0, e);
            let end = walked(insts, Point::At(s.m.at, s.m.func.insts.len() as int, mem), r.0);
            match worth(e, m) {
                Ok(v) => {
                    &&& end == Point::At(s1.m.at, s1.m.func.insts.len() as int, r.1)
                    &&& open_here(s1)
                    &&& r.1.slots == mem.slots
                    &&& w is Int && operand(r.1, w->Int_0) == Some(Datum::Word(word_of(v)))
                    &&& settled(w->Int_0, s1.m.func.insts.len() as int)
                    &&& v is Int || v is Bool
                    &&& check_expr(e, s.types).0 == Ok::<TypeV, TypeErrorV>(plain_type(v))
                },
                Err(x) => end matches Point::Stopped(k, _, _) && k < s1.m.texts.len()
                    && s1.m.texts[k as int] == format_text(
                    rendered(DiagnosticV { message: x, span }, s.path, s.src),
                ),
            }
        }),
{
    let s0 = CgV { span, ..s };
    lemma_linked(e, s0, m, mem);
    lemma_linked_variables(e, s0, m, mem);
    law_plain_types(e, s0, m, mem);
    let after = law_plain_expression_compiles(e, s0, m, mem);
    let (s1, w) = gen_expr(s0, e);
    let n = s.m.func.insts.len() as int;
    let to = s1.m.func.insts.len() as int;
    law_later_code_does_not_matter(s1.m.func.insts, insts, s.m.at, n, to, mem);
    let k = law_run_takes_steps(insts, s.m.at, n, to, mem);
    match worth(e, m) {
        Err(x) => lemma_abort_text(s0, x),
        Ok(_) => {},
    }
    (k, after)
}

// ---- statements run ----

/// An instruction that is next is taken in a step.
proof fn lemma_one_move(
    insts: Seq<InstV>,
    start: Point,
    k: nat,
    b: usize,
    n: int,
    mem: Memory,
)
    requires
        walked(insts, start, k) == Point::At(b, n, mem),
    ensures
        walked(insts, start, k + 1) == moved(insts, b, n, mem),
{
    law_walks_add_up(insts, start, k, 1);
    let p = Point::At(b, n, mem);
    assert(walked(insts, p, 1) == walked(insts, moved(insts, b, n, mem), 0));
}

#[verifier::rlimit(60)]
proof fn lemma_let_agrees(
    st: StmtV,
    s: CgV,
    m: MachineV,
    mem: Memory,
    stack: Seq<FrameV>,
    insts: Seq<InstV>,
) -> (r: (nat, nat, Memory))
    requires
        st.kind is Let,
        alike(s, m, mem),
        open_here(s),
        simple_stmt(st, s.types),
        check_stmt(st, s.types).0 is Ok,
        starts_with(insts, gen_stmt(s, st)),
        roomy(gen_stmt(s, st)),
    ensures
        interpreted(at(m, stack, CtlV::Exec(st)), r.0, stack, effect(st, m, 0)),
        executed(insts, s, gen_stmt(s, st), mem, r.1, r.2, effect(st, m, 0)),
{
    let name = st.kind->Let_name;
    let e = st.kind->Let_value;
    let m0 = MachineV { span: st.span, ..m };
    let zero = MachineV { scopes: zeroed(m.scopes), ..m };
    lemma_shaped(s, m, mem);
    lemma_expr_goes_on(s, st.span, e, zero);
    let ty = check_expr(e, s.types).0->Ok_0;
    lemma_let_code(s, st, ty);
    let (s1, w) = gen_expr(CgV { span: st.span, ..s }, e);
    let t = gen_stmt(s, st);
    lemma_same_code(s1, s1);
    lemma_made_goes_on(s1, s1, name, ty, w->Int_0, zero);
    lemma_starts_earlier(insts, s1, t);
    lemma_alike_later(s, s, m, m0, mem, mem);
    let (j, after) = lemma_expr_runs(s, st.span, e, m0, mem, insts);
    // the interpreter
    let from = at(m, stack, CtlV::Exec(st));
    let f = FrameV::Collect { task: TaskV::Let(name), exprs: seq![e], vals: Seq::empty() };
    let begun = at(m0, stack.push(f), CtlV::Eval(e));
    lemma_one_step(from);
    assert(step(from) == (begun, ActionV::Continue));
    let k = lemma_one_value(m0, stack, TaskV::Let(name), e);
    lemma_leads(from, 1, begun, k);
    // native code
    let start = Point::At(s.m.at, s.m.func.insts.len() as int, mem);
    lemma_continues(s1, t);
    match worth(e, m0) {
        Err(_) => (1 + k, j, after),
        Ok(v) => {
            let n = s1.m.func.insts.len() as int;
            let slot = s1.m.func.slots.len();
            assert(t.m.func.insts[n] == (InstV {
                block: s1.m.at,
                name: ""@,
                op: OpV::Store(Val::Slot(slot as usize), w->Int_0),
            }));
            assert(insts[n] == t.m.func.insts[n]);
            lemma_one_move(insts, start, j, s1.m.at, n, after);
            lemma_alike_later(s, s1, m, m0, mem, after);
            lemma_declared(s1, m0, after, name, v, w->Int_0);
            lemma_made_is_open(s1, name, ty, w->Int_0);
            (1 + k, j + 1, stored(after, slot as int, word_of(v)))
        },
    }
}

proof fn lemma_made_is_open(s: CgV, name: Seq<char>, ty: TypeV, w: Val)
    requires
        open_here(s),
    ensures
        open_here(local_made(s, name, ty, w)),
        local_made(s, name, ty, w).m.func.insts.len() == s.m.func.insts.len() + 1,
{
    let (module, slot) = s.m.slot(crate::ir::Room::Word, name);
    let s2 = CgV { m: module, ..s };
    lemma_same_code(s, s2);
    lemma_local_parts(s2, OpV::Store(slot, w), ""@, slot, ty);
    lemma_emit(s2, OpV::Store(slot, w), ""@, zeros());
    lemma_same_code(s2.emit(OpV::Store(slot, w), ""@).0, local_made(s, name, ty, w));
}

#[verifier::rlimit(60)]
proof fn lemma_assign_agrees(
    st: StmtV,
    s: CgV,
    m: MachineV,
    mem: Memory,
    stack: Seq<FrameV>,
    insts: Seq<InstV>,
) -> (r: (nat, nat, Memory))
    requires
        st.kind is Assign,
        alike(s, m, mem),
        open_here(s),
        simple_stmt(st, s.types),
        check_stmt(st, s.types).0 is Ok,
        starts_with(insts, gen_stmt(s, st)),
        roomy(gen_stmt(s, st)),
    ensures
        interpreted(at(m, stack, CtlV::Exec(st)), r.0, stack, effect(st, m, 0)),
        executed(insts, s, gen_stmt(s, st), mem, r.1, r.2, effect(st, m, 0)),
{
    let name = st.kind->Assign_name;
    let e = st.kind->Assign_value;
    let m0 = MachineV { span: st.span, ..m };
    let zero = MachineV { scopes: zeroed(m.scopes), ..m };
    lemma_shaped(s, m, mem);
    lemma_expr_goes_on(s, st.span, e, zero);
    lemma_found(s.scopes, m.scopes, s.types.scopes, mem, name);
    let x = s.local(name)->Some_0;
    let slot = x.slot->Slot_0;
    lemma_assign_code(s, st, x);
    let (s1, w) = gen_expr(CgV { span: st.span, ..s }, e);
    let t = gen_stmt(s, st);
    lemma_set_goes_on(s1, x.slot, w->Int_0);
    lemma_starts_earlier(insts, s1, t);
    lemma_alike_later(s, s, m, m0, mem, mem);
    let (j, after) = lemma_expr_runs(s, st.span, e, m0, mem, insts);
    // the interpreter
    let from = at(m, stack, CtlV::Exec(st));
    let f = FrameV::Collect { task: TaskV::Assign(name), exprs: seq![e], vals: Seq::empty() };
    let begun = at(m0, stack.push(f), CtlV::Eval(e));
    lemma_one_step(from);
    assert(step(from) == (begun, ActionV::Continue));
    let k = lemma_one_value(m0, stack, TaskV::Assign(name), e);
    lemma_leads(from, 1, begun, k);
    // native code
    let start = Point::At(s.m.at, s.m.func.insts.len() as int, mem);
    lemma_continues(s1, t);
    match worth(e, m0) {
        Err(_) => (1 + k, j, after),
        Ok(v) => {
            let n = s1.m.func.insts.len() as int;
            let load = OpV::Load(Ty::Word, x.slot);
            assert(find_in(s.types.scopes, name) == Some(x.ty));
            assert(compat(x.ty, plain_type(v)));
            assert(x.ty == plain_type(v));
            let old_word = find_value(m.scopes, name)->Some_0;
            let read = given(after, n, Datum::Word(word_of(old_word)));
            lemma_local_parts(s1, load, "local"@, x.slot, TypeV::Int);
            let s2 = s1.emit(load, "local"@).0;
            lemma_emit(s1, load, "local"@, after);
            lemma_local_parts(s2, OpV::Store(x.slot, w->Int_0), ""@, x.slot, TypeV::Int);
            lemma_emit(s2, OpV::Store(x.slot, w->Int_0), ""@, read);
            assert(t == s2.emit(OpV::Store(x.slot, w->Int_0), ""@).0);
            assert(t.m.func.insts[n] == (InstV { block: s1.m.at, name: "local"@, op: load }));
            assert(t.m.func.insts[n + 1] == (InstV {
                block: s1.m.at,
                name: ""@,
                op: OpV::Store(x.slot, w->Int_0),
            }));
            assert(insts[n] == t.m.func.insts[n]);
            assert(insts[n + 1] == t.m.func.insts[n + 1]);
            lemma_one_move(insts, start, j, s1.m.at, n, after);
            assert(operand(read, w->Int_0) == Some(Datum::Word(word_of(v))));
            lemma_one_move(insts, start, j + 1, s1.m.at, n + 1, read);
            lemma_alike_later(s, s1, m, m0, mem, read);
            lemma_assigned(
                s.scopes,
                m.scopes,
                s.types.scopes,
                read,
                s1.m.func.slots.len(),
                name,
                x,
                slot,
                v,
            );
            (1 + k, j + 2, stored(read, slot as int, word_of(v)))
        },
    }
}

proof fn lemma_discard_agrees(
    st: StmtV,
    s: CgV,
    m: MachineV,
    mem: Memory,
    stack: Seq<FrameV>,
    insts: Seq<InstV>,
) -> (r: (nat, nat, Memory))
    requires
        st.kind is Expr,
        alike(s, m, mem),
        open_here(s),
        simple_stmt(st, s.types),
        check_stmt(st, s.types).0 is Ok,
        starts_with(insts, gen_stmt(s, st)),
        roomy(gen_stmt(s, st)),
    ensures
        interpreted(at(m, stack, CtlV::Exec(st)), r.0, stack, effect(st, m, 0)),
        executed(insts, s, gen_stmt(s, st), mem, r.1, r.2, effect(st, m, 0)),
{
    let e = st.kind->Expr_0;
    let m0 = MachineV { span: st.span, ..m };
    let zero = MachineV { scopes: zeroed(m.scopes), ..m };
    lemma_shaped(s, m, mem);
    lemma_expr_goes_on(s, st.span, e, zero);
    lemma_discard_code(s, st, check_expr(e, s.types).0->Ok_0);
    lemma_alike_later(s, s, m, m0, mem, mem);
    let (j, after) = lemma_expr_runs(s, st.span, e, m0, mem, insts);
    let from = at(m, stack, CtlV::Exec(st));
    let f = FrameV::Collect { task: TaskV::Discard, exprs: seq![e], vals: Seq::empty() };
    let begun = at(m0, stack.push(f), CtlV::Eval(e));
    lemma_one_step(from);
    assert(step(from) == (begun, ActionV::Continue));
    let k = lemma_one_value(m0, stack, TaskV::Discard, e);
    lemma_leads(from, 1, begun, k);
    match worth(e, m0) {
        Err(_) => {},
        Ok(_) => {
            lemma_continues(s, gen_stmt(s, st));
            lemma_alike_later(s, gen_stmt(s, st), m, m0, mem, after);
        },
    }
    (1 + k, j, after)
}

/// A block of statements with its frame.
pub open spec fn in_block(kind: BlockV, ss: Seq<StmtV>, next: int, span: Span) -> FrameV {
    FrameV::Block { kind, stmts: ss, next, span }
}

/// A statement does the same to both backends.
pub proof fn lemma_stmt_agrees(
    st: StmtV,
    s: CgV,
    m: MachineV,
    mem: Memory,
    stack: Seq<FrameV>,
    insts: Seq<InstV>,
    rounds: nat,
) -> (r: (nat, nat, Memory))
    requires
        alike(s, m, mem),
        open_here(s),
        simple_stmt(st, s.types),
        check_stmt(st, s.types).0 is Ok,
        starts_with(insts, gen_stmt(s, st)),
        roomy(gen_stmt(s, st)),
    ensures
        interpreted(at(m, stack, CtlV::Exec(st)), r.0, stack, effect(st, m, rounds)),
        executed(insts, s, gen_stmt(s, st), mem, r.1, r.2, effect(st, m, rounds)),
    decreases rounds, st, 1int,
{
    match st.kind {
        StmtKindV::Let { .. } => {
            assert(effect(st, m, rounds) == effect(st, m, 0));
            lemma_let_agrees(st, s, m, mem, stack, insts)
        },
        StmtKindV::Assign { .. } => {
            assert(effect(st, m, rounds) == effect(st, m, 0));
            lemma_assign_agrees(st, s, m, mem, stack, insts)
        },
        StmtKindV::Expr(_) => {
            assert(effect(st, m, rounds) == effect(st, m, 0));
            lemma_discard_agrees(st, s, m, mem, stack, insts)
        },
        StmtKindV::If { .. } => lemma_if_agrees(st, s, m, mem, stack, insts, rounds),
        StmtKindV::While { .. } => lemma_while_agrees(st, s, m, mem, stack, insts, rounds),
        _ => (0, 0, mem),
    }
}

/// Statements, from the `i`th on.
#[verifier::rlimit(60)]
proof fn lemma_stmts_agree(
    ss: Seq<StmtV>,
    i: int,
    kind: BlockV,
    span: Span,
    s: CgV,
    m: MachineV,
    mem: Memory,
    stack: Seq<FrameV>,
    insts: Seq<InstV>,
    rounds: nat,
) -> (r: (nat, nat, Memory))
    requires
        alike(s, m, mem),
        open_here(s),
        0 <= i <= ss.len(),
        !(kind is Top),
        kind matches BlockV::Loop(l) ==> !l.is_expr,
        simple_stmts(ss, i, s.types),
        check_stmts(ss, i, s.types).0 is Ok,
        starts_with(insts, gen_stmts(s, ss, i)),
        roomy(gen_stmts(s, ss, i)),
    ensures
        interpreted(
            at(m, stack.push(in_block(kind, ss, i, span)), CtlV::Next),
            r.0,
            stack.push(in_block(kind, ss, ss.len() as int, span)),
            effects(ss, i, m, rounds),
        ),
        executed(insts, s, gen_stmts(s, ss, i), mem, r.1, r.2, effects(ss, i, m, rounds)),
    decreases rounds, ss, ss.len() - i,
{
    lemma_statements_code(s, ss, i);
    let from = at(m, stack.push(in_block(kind, ss, i, span)), CtlV::Next);
    if i == ss.len() {
        assert(steps(from, 0) == (from, ActionV::Continue));
        (0, 0, mem)
    } else {
        let st = ss[i];
        let s1 = gen_stmt(s, st);
        let t = gen_stmts(s, ss, i);
        assert(t == gen_stmts(s1, ss, i + 1));
        let zero = MachineV { scopes: zeroed(m.scopes), ..m };
        lemma_shaped(s, m, mem);
        let z1 = lemma_stmt_goes_on(s, st, zero);
        lemma_stmts_go_on(s1, ss, i + 1, z1);
        lemma_starts_earlier(insts, s1, t);
        let inner = stack.push(in_block(kind, ss, i + 1, span));
        let mb = MachineV { span, ..m };
        lemma_alike_later(s, s, m, mb, mem, mem);
        let (k1, j1, mem1) = lemma_stmt_agrees(st, s, mb, mem, inner, insts, rounds);
        assert(effect(st, mb, rounds) == effect(st, m, rounds));
        let begun = at(mb, inner, CtlV::Exec(st));
        lemma_one_step(from);
        assert(from.stack.last() == in_block(kind, ss, i, span));
        assert(from.stack.drop_last() =~= stack);
        assert(signal(at(mb, stack, CtlV::Stopped), kind) is None);
        assert(step(from) == (begun, ActionV::Continue));
        lemma_leads(from, 1, begun, k1);
        let start = Point::At(s.m.at, s.m.func.insts.len() as int, mem);
        match effect(st, m, rounds) {
            Effect::Done(m1) => {
                let (k2, j2, mem2) = lemma_stmts_agree(
                    ss,
                    i + 1,
                    kind,
                    span,
                    s1,
                    m1,
                    mem1,
                    stack,
                    insts,
                    rounds,
                );
                let mid = at(m1, inner, CtlV::Next);
                assert(leads(from, 1 + k1, mid));
                lemma_leads(from, 1 + k1, mid, k2);
                law_walks_add_up(insts, start, j1, j2);
                (1 + k1 + k2, j1 + j2, mem2)
            },
            _ => {
                lemma_continues(s1, t);
                (1 + k1, j1, mem1)
            },
        }
    }
}

/// Statements in a scope of their own.
proof fn lemma_block_agrees(
    ss: Seq<StmtV>,
    kind: BlockV,
    span: Span,
    s: CgV,
    m: MachineV,
    mem: Memory,
    stack: Seq<FrameV>,
    insts: Seq<InstV>,
    rounds: nat,
) -> (r: (nat, nat, Memory))
    requires
        alike(s, m, mem),
        open_here(s),
        !(kind is Top),
        kind matches BlockV::Loop(l) ==> !l.is_expr,
        simple_stmts(ss, 0, s.types.push_scope()),
        check_stmts(ss, 0, s.types.push_scope()).0 is Ok,
        starts_with(insts, gen_block(s, ss)),
        roomy(gen_block(s, ss)),
    ensures
        interpreted(
            at(m.push_scope(), stack.push(in_block(kind, ss, 0, span)), CtlV::Next),
            r.0,
            stack.push(in_block(kind, ss, ss.len() as int, span)),
            effects(ss, 0, m.push_scope(), rounds),
        ),
        executed(
            insts,
            s,
            gen_block(s, ss),
            mem,
            r.1,
            r.2,
            closed(effects(ss, 0, m.push_scope(), rounds), span),
        ),
    decreases rounds, ss, ss.len() + 1,
{
    let s1 = CgV { scopes: s.scopes.push(Seq::empty()), types: s.types.push_scope(), ..s };
    let zero = MachineV { scopes: zeroed(m.scopes), ..m };
    lemma_shaped(s, m, mem);
    lemma_block_code(s, ss);
    lemma_block_goes_on(s, ss, zero);
    lemma_same_code(s, s1);
    lemma_scope_opened(s, m, mem);
    let ls = s1.scopes;
    assert forall|i: int| 0 <= i < ls.len() implies nothing_held(#[trigger] ls[i]) by {
        if i < s.scopes.len() {
            assert(nothing_held(s.scopes[i]));
        }
    }
    assert forall|i: int, a: int| 0 <= i < ls.len() && 0 <= a < ls[i].len() implies ((
    #[trigger] ls[i][a]).slot matches Val::Slot(k) && k < s.m.func.slots.len()) by {
        assert(ls[i][a] == s.scopes[i][a]);
    }
    assert(apart(ls, s.m.func.slots.len())) by {
        assert forall|i: int, a: int, j: int, b: int|
            #![trigger ls[i][a], ls[j][b]]
            0 <= i < ls.len() && 0 <= a < ls[i].len() && 0 <= j < ls.len() && 0 <= b
                < ls[j].len() && ls[i][a].slot == ls[j][b].slot implies i == j && a == b by {
            assert(ls[i][a] == s.scopes[i][a]);
            assert(ls[j][b] == s.scopes[j][b]);
        }
    }
    let t1 = gen_stmts(s1, ss, 0);
    let t = gen_block(s, ss);
    lemma_shaped(s1, m.push_scope(), mem);
    let opened = MachineV { scopes: zeroed(m.push_scope().scopes), ..m.push_scope() };
    lemma_stmts_go_on(s1, ss, 0, opened);
    assert(nothing_held(t1.scopes[t1.scopes.len() - 1]));
    lemma_close_scope(t1);
    let (k, j, after) = lemma_stmts_agree(
        ss,
        0,
        kind,
        span,
        s1,
        m.push_scope(),
        mem,
        stack,
        insts,
        rounds,
    );
    match effects(ss, 0, m.push_scope(), rounds) {
        Effect::Done(m1) => {
            lemma_same_code(t1, t);
            lemma_apart_inside(t1.scopes, t1.m.func.slots.len());
            assert(t.types.scopes == t1.types.scopes.drop_last());
            assert(m1.pop_scope().scopes == m1.scopes.drop_last());
            assert((MachineV { span, ..m1.pop_scope() }).scopes == m1.scopes.drop_last());
        },
        _ => {},
    }
    (k, j, after)
}

/// After a jump into a new block, what stands before its code is passed over.
proof fn lemma_jumped(
    insts: Seq<InstV>,
    start: Point,
    k: nat,
    b: usize,
    to: int,
    mem: Memory,
)
    requires
        walked(insts, start, k) == Point::At(b, 0, mem),
        0 <= to <= insts.len(),
        forall|i: int| 0 <= i < to ==> (#[trigger] insts[i]).block != b,
    ensures
        walked(insts, start, k + to as nat) == Point::At(b, to, mem),
{
    law_other_blocks_are_passed(insts, b, 0, to, mem);
    law_walks_add_up(insts, start, k, to as nat);
}

/// Where the code of the parts of an `if` stands.
#[verifier::rlimit(80)]
proof fn lemma_if_places(s: CgV, st: StmtV, insts: Seq<InstV>)
    requires
        if_parts(s, st),
        open_here(if_code(s, st).tested),
        starts_with(insts, if_code(s, st).all),
        roomy(if_code(s, st).all),
    ensures
        ({
            let c = if_code(s, st);
            let n = c.tested.m.func.insts.len() as int;
            &&& n < insts.len()
            &&& insts[n].block == c.tested.m.at
            &&& insts[n].op == OpV::Branch(c.cond, c.yes, c.no)
            &&& c.first.m.at == c.yes && c.second.m.at == c.no && c.all.m.at == c.merge
            &&& open_here(c.first) && open_here(c.second) && open_here(c.all)
            &&& starts_with(insts, c.first_done) && starts_with(insts, c.second_done)
            &&& starts_with(insts, c.first) && starts_with(insts, c.second)
            &&& roomy(c.first_done) && roomy(c.second_done)
            &&& c.first_done.m.texts.len() <= c.all.m.texts.len()
            &&& c.second_done.m.texts.len() <= c.all.m.texts.len()
            &&& c.tested.m.texts.len() <= c.all.m.texts.len()
            &&& forall|i: int|
                0 <= i < c.first_done.m.texts.len() ==> c.first_done.m.texts[i]
                    == #[trigger] c.all.m.texts[i]
            &&& forall|i: int|
                0 <= i < c.second_done.m.texts.len() ==> c.second_done.m.texts[i]
                    == #[trigger] c.all.m.texts[i]
            &&& forall|i: int|
                0 <= i < c.tested.m.texts.len() ==> c.tested.m.texts[i]
                    == #[trigger] c.all.m.texts[i]
            &&& c.first.m.func.slots.len() >= c.tested.m.func.slots.len()
            &&& c.second.m.func.slots.len() >= c.tested.m.func.slots.len()
            &&& c.all.m.func.slots.len() >= c.first_done.m.func.slots.len()
            &&& c.all.m.func.slots.len() >= c.second_done.m.func.slots.len()
            &&& forall|i: int|
                0 <= i < c.first.m.func.insts.len() ==> (#[trigger] insts[i]).block != c.yes
            &&& forall|i: int|
                0 <= i < c.second.m.func.insts.len() ==> (#[trigger] insts[i]).block != c.no
            &&& forall|i: int|
                0 <= i < c.all.m.func.insts.len() ==> (#[trigger] insts[i]).block != c.merge
            &&& open_here(c.first_done) ==> {
                let f = c.first_done.m.func.insts.len() as int;
                &&& f < insts.len()
                &&& insts[f].block == c.first_done.m.at
                &&& insts[f].op == OpV::Jump(c.merge)
            }
            &&& open_here(c.second_done) ==> {
                let g = c.second_done.m.func.insts.len() as int;
                &&& g < insts.len()
                &&& insts[g].block == c.second_done.m.at
                &&& insts[g].op == OpV::Jump(c.merge)
            }
        }),
{
    let c = if_code(s, st);
    let l = crate::native::LoopCtx { exit: 0, next: 0, depth: 0, result: None };
    let branch = OpV::Branch(c.cond, c.yes, c.no);
    let jump = OpV::Jump(c.merge);
    let b1 = c.split.emit(branch, ""@).0;
    lemma_three_blocks(c.tested, "then"@, "else"@, "ifcont"@);
    lemma_blocks(c.split, branch, ""@, 0, l);
    lemma_blocks(b1, branch, ""@, c.yes, l);
    lemma_blocks(c.first_done, jump, ""@, 0, l);
    lemma_blocks(c.first_out, jump, ""@, c.no, l);
    lemma_blocks(c.second_done, jump, ""@, 0, l);
    lemma_blocks(c.second_out, jump, ""@, c.merge, l);
    lemma_emit_continues(c.first_done, jump, ""@);
    lemma_emit_continues(c.second_done, jump, ""@);
    lemma_continues(c.tested, c.split);
    lemma_continues(c.tested, c.first);
    lemma_continues(c.first, c.first_done);
    lemma_continues(c.first, c.first_out);
    lemma_continues(c.first_done, c.first_out);
    lemma_continues(c.tested, c.second);
    lemma_continues(c.second, c.second_done);
    lemma_continues(c.second, c.second_out);
    lemma_continues(c.second_done, c.second_out);
    lemma_continues(c.tested, c.all);
    let n = c.tested.m.func.insts.len() as int;
    let first = c.first.m.func;
    let out = c.first_out.m.func;
    let second = c.second.m.func;
    let all = c.all.m.func;
    assert(first.insts == c.tested.m.func.insts.push(
        InstV { block: c.tested.m.at, name: ""@, op: branch },
    ));
    assert(second.insts == out.insts);
    assert(all.insts == c.second_out.m.func.insts);
    assert(first.blocks.len() == c.tested.m.func.blocks.len() + 3);
    assert forall|i: int| 0 <= i < first.insts.len() implies (#[trigger] insts[i]).block
        < c.yes && insts[i] == first.insts[i] by {
        assert(all.insts[i] == insts[i]);
        assert(second.insts[i] == all.insts[i]);
        assert(first.insts[i] == out.insts[i]);
        if i < n {
            assert(first.insts[i] == c.tested.m.func.insts[i]);
        }
    }
    assert forall|i: int| first.insts.len() <= i < second.insts.len() implies (
    #[trigger] insts[i]).block == c.yes || insts[i].block > c.merge by {
        assert(all.insts[i] == insts[i]);
        assert(second.insts[i] == all.insts[i]);
        assert(out.insts[i].block == c.yes || out.insts[i].block >= first.blocks.len());
    }
    assert forall|i: int| second.insts.len() <= i < all.insts.len() implies (
    #[trigger] insts[i]).block == c.no || insts[i].block > c.merge by {
        assert(all.insts[i] == insts[i]);
        assert(c.second_out.m.func.insts[i] == all.insts[i]);
    }
    assert(first.blocks[c.yes as int] == ("then"@, false));
    assert(first.blocks[c.no as int] == ("else"@, false));
    assert(first.blocks[c.merge as int] == ("ifcont"@, false));
    assert(out.blocks[c.no as int] == first.blocks[c.no as int]);
    assert(out.blocks[c.merge as int] == first.blocks[c.merge as int]);
    assert(c.second_out.m.func.blocks[c.merge as int] == second.blocks[c.merge as int]);
    assert forall|i: int| 0 <= i < c.first_done.m.func.insts.len() implies c.first_done.m.func.insts[i]
        == #[trigger] insts[i] by {
        assert(all.insts[i] == insts[i]);
        assert(second.insts[i] == all.insts[i]);
        assert(c.first_done.m.func.insts[i] == out.insts[i]);
    }
    assert forall|i: int| 0 <= i < second.insts.len() implies second.insts[i]
        == #[trigger] insts[i] by {
        assert(all.insts[i] == insts[i]);
        assert(second.insts[i] == all.insts[i]);
    }
    assert forall|i: int| 0 <= i < c.second_done.m.func.insts.len() implies c.second_done.m.func.insts[i]
        == #[trigger] insts[i] by {
        assert(all.insts[i] == insts[i]);
        assert(c.second_done.m.func.insts[i] == c.second_out.m.func.insts[i]);
    }
    assert forall|i: int| 0 <= i < c.first_done.m.texts.len() implies c.first_done.m.texts[i]
        == #[trigger] c.all.m.texts[i] by {
        assert(c.first_done.m.texts[i] == c.first_out.m.texts[i]);
        assert(c.second.m.texts[i] == c.second_out.m.texts[i]);
    }
    assert forall|i: int| 0 <= i < c.second_done.m.texts.len() implies c.second_done.m.texts[i]
        == #[trigger] c.all.m.texts[i] by {
        assert(c.second_done.m.texts[i] == c.second_out.m.texts[i]);
    }
    if open_here(c.first_done) {
        let f = c.first_done.m.func.insts.len() as int;
        assert(out.insts[f].op == jump);
        assert(second.insts[f] == insts[f]);
    }
    if open_here(c.second_done) {
        let g = c.second_done.m.func.insts.len() as int;
        assert(all.insts[g].op == jump);
        assert(all.insts[g] == insts[g]);
    }
}

/// One of the branches of an `if`, from where its code starts.
#[verifier::rlimit(60)]
proof fn lemma_branch_agrees(
    body: Seq<StmtV>,
    part: CgV,
    done: CgV,
    all: CgV,
    m: MachineV,
    mem: Memory,
    stack: Seq<FrameV>,
    insts: Seq<InstV>,
    rounds: nat,
    start: Point,
    j: nat,
) -> (r: (nat, nat, Memory))
    requires
        alike(part, m, mem),
        open_here(part),
        simple_stmts(body, 0, part.types.push_scope()),
        check_stmts(body, 0, part.types.push_scope()).0 is Ok,
        done == gen_block(part, body),
        starts_with(insts, done),
        roomy(done),
        walked(insts, start, j) == Point::At(part.m.at, part.m.func.insts.len() as int, mem),
        starts_with(insts, all),
        open_here(all),
        open_here(done) ==> {
            let f = done.m.func.insts.len() as int;
            &&& f < insts.len()
            &&& insts[f].block == done.m.at
            &&& insts[f].op == OpV::Jump(all.m.at)
        },
        forall|i: int|
            0 <= i < all.m.func.insts.len() ==> (#[trigger] insts[i]).block != all.m.at,
        all.scopes == part.scopes,
        all.types == part.types,
        done.scopes == part.scopes,
        done.types == part.types,
        all.m.func.slots.len() >= done.m.func.slots.len(),
        done.m.texts.len() <= all.m.texts.len(),
        forall|i: int|
            0 <= i < done.m.texts.len() ==> done.m.texts[i] == #[trigger] all.m.texts[i],
    ensures
        ({
            let e = closed(effects(body, 0, m.push_scope(), rounds), m.span);
            &&& interpreted(
                at(m.push_scope(), stack.push(in_block(BlockV::If, body, 0, m.span)), CtlV::Next),
                r.0,
                stack,
                e,
            )
            &&& ended(part, all, walked(insts, start, r.1), r.2, e)
        }),
    decreases rounds, body, body.len() + 2,
{
    let (k1, j1, after) = lemma_block_agrees(
        body,
        BlockV::If,
        m.span,
        part,
        m,
        mem,
        stack,
        insts,
        rounds,
    );
    law_walks_add_up(insts, start, j, j1);
    let from = at(m.push_scope(), stack.push(in_block(BlockV::If, body, 0, m.span)), CtlV::Next);
    match effects(body, 0, m.push_scope(), rounds) {
        Effect::Done(m1) => {
            let last = in_block(BlockV::If, body, body.len() as int, m.span);
            let over = at(m1, stack.push(last), CtlV::Next);
            assert(leads(from, k1, over));
            lemma_one_step(over);
            assert(over.stack.last() == last);
            assert(over.stack.drop_last() =~= stack);
            assert(quiet(m1));
            let back = MachineV { span: m.span, ..m1 };
            let gone = MachineV { span: m.span, ..m1.pop_scope() };
            assert(signal(at(back, stack, CtlV::Stopped), BlockV::If) is None);
            assert(step(over) == (at(gone, stack, CtlV::Next), ActionV::Continue));
            lemma_leads(from, k1, over, 1);
            let f = done.m.func.insts.len() as int;
            let to = all.m.func.insts.len() as int;
            lemma_one_move(insts, start, j + j1, done.m.at, f, after);
            lemma_jumped(insts, start, j + j1 + 1, all.m.at, to, after);
            lemma_alike_later(done, all, gone, gone, after, after);
            (k1 + 1, j + j1 + 1 + to as nat, after)
        },
        _ => (k1, j + j1, after),
    }
}

#[verifier::rlimit(80)]
proof fn lemma_if_agrees(
    st: StmtV,
    s: CgV,
    m: MachineV,
    mem: Memory,
    stack: Seq<FrameV>,
    insts: Seq<InstV>,
    rounds: nat,
) -> (r: (nat, nat, Memory))
    requires
        st.kind is If,
        alike(s, m, mem),
        open_here(s),
        simple_stmt(st, s.types),
        check_stmt(st, s.types).0 is Ok,
        starts_with(insts, gen_stmt(s, st)),
        roomy(gen_stmt(s, st)),
    ensures
        interpreted(at(m, stack, CtlV::Exec(st)), r.0, stack, effect(st, m, rounds)),
        executed(insts, s, gen_stmt(s, st), mem, r.1, r.2, effect(st, m, rounds)),
    decreases rounds, st, 0int,
{
    let cond = st.kind->If_cond;
    let then_body = st.kind->If_then_body;
    let else_body = st.kind->If_else_body;
    let m0 = MachineV { span: st.span, ..m };
    let zero = MachineV { scopes: zeroed(m.scopes), ..m };
    let c = if_code(s, st);
    let (s1, w) = gen_expr(CgV { span: st.span, ..s }, cond);
    lemma_shaped(s, m, mem);
    lemma_if_goes_on(s, st, zero);
    lemma_expr_goes_on(s, st.span, cond, zero);
    lemma_to_i1(s1, w->Int_0, zeros());
    lemma_starts_earlier(insts, c.tested, c.all);
    lemma_starts_earlier(insts, s1, c.tested);
    lemma_continues_chain(s1, c.tested, c.all);
    lemma_continues(s1, c.all);
    lemma_alike_later(s, s, m, m0, mem, mem);
    let (j, after) = lemma_expr_runs(s, st.span, cond, m0, mem, insts);
    let from = at(m, stack, CtlV::Exec(st));
    let task = TaskV::IfStmt(then_body, else_body);
    let f = FrameV::Collect { task, exprs: seq![cond], vals: Seq::empty() };
    let begun = at(m0, stack.push(f), CtlV::Eval(cond));
    lemma_one_step(from);
    assert(step(from) == (begun, ActionV::Continue));
    let k = lemma_one_value(m0, stack, task, cond);
    lemma_leads(from, 1, begun, k);
    let start = Point::At(s.m.at, s.m.func.insts.len() as int, mem);
    match worth(cond, m0) {
        Err(_) => (1 + k, j, after),
        Ok(v) => {
            let n1 = s1.m.func.insts.len() as int;
            let n = c.tested.m.func.insts.len() as int;
            let asked = given(after, n1, Datum::Truth(word_of(v) != 0));
            lemma_to_i1(s1, w->Int_0, after);
            law_later_code_does_not_matter(c.tested.m.func.insts, insts, s1.m.at, n1, n, after);
            let j1 = law_run_takes_steps(insts, s1.m.at, n1, n, after);
            law_walks_add_up(insts, start, j, j1);
            assert(operand(asked, c.cond) == Some(Datum::Truth(chooses(v))));
            lemma_if_places(s, st, insts);
            lemma_one_move(insts, start, j + j1, c.tested.m.at, n, asked);
            lemma_continues(s, c.tested);
            let j2 = j + j1 + 1;
            if chooses(v) {
                let to = c.first.m.func.insts.len() as int;
                lemma_jumped(insts, start, j2, c.yes, to, asked);
                lemma_alike_later(s, c.first, m, m0, mem, asked);
                let (k2, j3, last) = lemma_branch_agrees(
                    then_body,
                    c.first,
                    c.first_done,
                    c.all,
                    m0,
                    asked,
                    stack,
                    insts,
                    rounds,
                    start,
                    j2 + to as nat,
                );
                let inside = at(
                    m0.push_scope(),
                    stack.push(in_block(BlockV::If, then_body, 0, st.span)),
                    CtlV::Next,
                );
                assert(leads(from, 1 + k, inside));
                lemma_leads(from, 1 + k, inside, k2);
                (1 + k + k2, j3, last)
            } else {
                let to = c.second.m.func.insts.len() as int;
                lemma_jumped(insts, start, j2, c.no, to, asked);
                lemma_alike_later(s, c.second, m, m0, mem, asked);
                lemma_block_goes_on(c.first, then_body, zero);
                match else_body {
                    Some(eb) => {
                        let (k2, j3, last) = lemma_branch_agrees(
                            eb,
                            c.second,
                            c.second_done,
                            c.all,
                            m0,
                            asked,
                            stack,
                            insts,
                            rounds,
                            start,
                            j2 + to as nat,
                        );
                        let inside = at(
                            m0.push_scope(),
                            stack.push(in_block(BlockV::If, eb, 0, st.span)),
                            CtlV::Next,
                        );
                        assert(leads(from, 1 + k, inside));
                        lemma_leads(from, 1 + k, inside, k2);
                        (1 + k + k2, j3, last)
                    },
                    None => {
                        let end = c.all.m.func.insts.len() as int;
                        lemma_one_move(insts, start, j2 + to as nat, c.no, to, asked);
                        lemma_jumped(insts, start, j2 + to as nat + 1, c.merge, end, asked);
                        lemma_alike_later(s, c.all, m, m0, mem, asked);
                        (1 + k, j2 + to as nat + 1 + end as nat, asked)
                    },
                }
            }
        },
    }
}

/// Where the code of the parts of a `while` stands.
#[verifier::rlimit(80)]
proof fn lemma_while_places(s: CgV, st: StmtV, insts: Seq<InstV>)
    requires
        while_parts(s, st),
        open_here(s),
        starts_with(insts, while_code(s, st).all),
        roomy(while_code(s, st).all),
    ensures
        ({
            let c = while_code(s, st);
            let n = s.m.func.insts.len() as int;
            &&& n < insts.len()
            &&& insts[n].block == s.m.at
            &&& insts[n].op == OpV::Jump(c.head)
            &&& c.asked.m.at == c.head && c.turn.m.at == c.body && c.all.m.at == c.end
            &&& open_here(c.asked) && open_here(c.turn) && open_here(c.all)
            &&& starts_with(insts, c.asked) && starts_with(insts, c.tested)
            &&& starts_with(insts, c.turn) && starts_with(insts, c.turn_done)
            &&& roomy(c.tested) && roomy(c.turn_done)
            &&& c.tested.m.texts.len() <= c.all.m.texts.len()
            &&& c.turn_done.m.texts.len() <= c.all.m.texts.len()
            &&& forall|i: int|
                0 <= i < c.tested.m.texts.len() ==> c.tested.m.texts[i]
                    == #[trigger] c.all.m.texts[i]
            &&& forall|i: int|
                0 <= i < c.turn_done.m.texts.len() ==> c.turn_done.m.texts[i]
                    == #[trigger] c.all.m.texts[i]
            &&& c.asked.m.func.slots.len() >= s.m.func.slots.len()
            &&& c.turn.m.func.slots.len() >= c.asked.m.func.slots.len()
            &&& c.all.m.func.slots.len() >= c.asked.m.func.slots.len()
            &&& forall|i: int|
                0 <= i < c.asked.m.func.insts.len() ==> (#[trigger] insts[i]).block != c.head
            &&& forall|i: int|
                0 <= i < c.turn.m.func.insts.len() ==> (#[trigger] insts[i]).block != c.body
            &&& forall|i: int|
                0 <= i < c.all.m.func.insts.len() ==> (#[trigger] insts[i]).block != c.end
            &&& open_here(c.tested) ==> {
                let f = c.tested.m.func.insts.len() as int;
                &&& f < insts.len()
                &&& insts[f].block == c.tested.m.at
                &&& insts[f].op == OpV::Branch(c.cond, c.body, c.end)
            }
            &&& open_here(c.turn_done) ==> {
                let g = c.turn_done.m.func.insts.len() as int;
                &&& g < insts.len()
                &&& insts[g].block == c.turn_done.m.at
                &&& insts[g].op == OpV::Jump(c.head)
            }
        }),
{
    let c = while_code(s, st);
    let s0 = CgV { span: st.span, ..s };
    let l = crate::native::LoopCtx { exit: 0, next: 0, depth: 0, result: None };
    let jump = OpV::Jump(c.head);
    let branch = OpV::Branch(c.cond, c.body, c.end);
    let b1 = c.made.emit(jump, ""@).0;
    let ctx = loop_ctx(c.branched, c.end, c.head, None);
    lemma_same_code(s, s0);
    lemma_three_blocks(s0, "while"@, "while_body"@, "while_end"@);
    lemma_blocks(c.made, jump, ""@, 0, l);
    lemma_blocks(b1, jump, ""@, c.head, l);
    lemma_blocks(c.tested, branch, ""@, 0, l);
    lemma_blocks(c.branched, branch, ""@, 0, ctx);
    lemma_blocks(c.branched.push_loop(ctx), branch, ""@, c.body, l);
    lemma_blocks(c.turn_done, jump, ""@, 0, l);
    lemma_blocks(c.turn_out, jump, ""@, 0, l);
    lemma_blocks(c.turn_out.pop_loop(), jump, ""@, c.end, l);
    lemma_emit_continues(c.tested, branch, ""@);
    lemma_emit_continues(c.turn_done, jump, ""@);
    lemma_continues(s0, c.made);
    lemma_continues(s0, c.asked);
    lemma_continues(c.asked, c.tested);
    lemma_continues(c.asked, c.branched);
    lemma_continues(c.tested, c.branched);
    lemma_continues(s0, c.turn);
    lemma_continues(c.turn, c.turn_done);
    lemma_continues(c.turn, c.turn_out);
    lemma_continues(c.turn_done, c.turn_out);
    lemma_continues(s0, c.all);
    let n = s.m.func.insts.len() as int;
    let asked = c.asked.m.func;
    let out = c.branched.m.func;
    let turn = c.turn.m.func;
    let all = c.all.m.func;
    assert(asked.insts == s.m.func.insts.push(
        InstV { block: s.m.at, name: ""@, op: jump },
    ));
    assert(turn.insts == out.insts);
    assert(turn.blocks == out.blocks);
    assert(all.insts == c.turn_out.m.func.insts);
    assert(all.blocks == c.turn_out.m.func.blocks);
    assert(asked.blocks.len() == s.m.func.blocks.len() + 3);
    assert forall|i: int| 0 <= i < asked.insts.len() implies (#[trigger] insts[i]).block
        < c.head && insts[i] == asked.insts[i] by {
        assert(all.insts[i] == insts[i]);
        assert(turn.insts[i] == all.insts[i]);
        assert(asked.insts[i] == out.insts[i]);
        if i < n {
            assert(asked.insts[i] == s.m.func.insts[i]);
        }
    }
    assert forall|i: int| asked.insts.len() <= i < turn.insts.len() implies (
    #[trigger] insts[i]).block == c.head || insts[i].block > c.end by {
        assert(all.insts[i] == insts[i]);
        assert(turn.insts[i] == all.insts[i]);
        assert(out.insts[i].block == c.head || out.insts[i].block >= asked.blocks.len());
    }
    assert forall|i: int| turn.insts.len() <= i < all.insts.len() implies (
    #[trigger] insts[i]).block == c.body || insts[i].block > c.end by {
        assert(all.insts[i] == insts[i]);
        assert(c.turn_out.m.func.insts[i] == all.insts[i]);
    }
    assert(asked.blocks[c.head as int] == ("while"@, false));
    assert(asked.blocks[c.body as int] == ("while_body"@, false));
    assert(asked.blocks[c.end as int] == ("while_end"@, false));
    assert(out.blocks[c.body as int] == asked.blocks[c.body as int]);
    assert(out.blocks[c.end as int] == asked.blocks[c.end as int]);
    assert(c.turn_out.m.func.blocks[c.end as int] == turn.blocks[c.end as int]);
    assert forall|i: int| 0 <= i < turn.insts.len() implies turn.insts[i]
        == #[trigger] insts[i] by {
        assert(all.insts[i] == insts[i]);
        assert(turn.insts[i] == all.insts[i]);
    }
    assert forall|i: int| 0 <= i < c.tested.m.func.insts.len() implies c.tested.m.func.insts[i]
        == #[trigger] insts[i] by {
        assert(turn.insts[i] == insts[i]);
        assert(c.tested.m.func.insts[i] == out.insts[i]);
    }
    assert forall|i: int| 0 <= i < c.turn_done.m.func.insts.len() implies c.turn_done.m.func.insts[i]
        == #[trigger] insts[i] by {
        assert(all.insts[i] == insts[i]);
        assert(c.turn_done.m.func.insts[i] == c.turn_out.m.func.insts[i]);
    }
    assert forall|i: int| 0 <= i < c.tested.m.texts.len() implies c.tested.m.texts[i]
        == #[trigger] c.all.m.texts[i] by {
        assert(c.tested.m.texts[i] == c.branched.m.texts[i]);
        assert(c.turn.m.texts[i] == c.turn_out.m.texts[i]);
    }
    assert forall|i: int| 0 <= i < c.turn_done.m.texts.len() implies c.turn_done.m.texts[i]
        == #[trigger] c.all.m.texts[i] by {
        assert(c.turn_done.m.texts[i] == c.turn_out.m.texts[i]);
    }
    if open_here(c.tested) {
        let f = c.tested.m.func.insts.len() as int;
        assert(out.insts[f].op == branch);
        assert(turn.insts[f] == insts[f]);
    }
    if open_here(c.turn_done) {
        let g = c.turn_done.m.func.insts.len() as int;
        assert(all.insts[g].op == jump);
        assert(all.insts[g] == insts[g]);
    }
}

#[verifier::rlimit(80)]
proof fn lemma_while_agrees(
    st: StmtV,
    s: CgV,
    m: MachineV,
    mem: Memory,
    stack: Seq<FrameV>,
    insts: Seq<InstV>,
    rounds: nat,
) -> (r: (nat, nat, Memory))
    requires
        st.kind is While,
        alike(s, m, mem),
        open_here(s),
        simple_stmt(st, s.types),
        check_stmt(st, s.types).0 is Ok,
        starts_with(insts, gen_stmt(s, st)),
        roomy(gen_stmt(s, st)),
    ensures
        interpreted(at(m, stack, CtlV::Exec(st)), r.0, stack, effect(st, m, rounds)),
        executed(insts, s, gen_stmt(s, st), mem, r.1, r.2, effect(st, m, rounds)),
    decreases rounds, st, 0int,
{
    let cond = st.kind->While_cond;
    let body = st.kind->While_body;
    let m0 = MachineV { span: st.span, ..m };
    let zero = MachineV { scopes: zeroed(m.scopes), ..m };
    let c = while_code(s, st);
    lemma_shaped(s, m, mem);
    lemma_while_goes_on(s, st, zero);
    lemma_while_places(s, st, insts);
    lemma_alike_later(s, c.asked, m, m0, mem, mem);
    let start = Point::At(s.m.at, s.m.func.insts.len() as int, mem);
    let to = c.asked.m.func.insts.len() as int;
    assert(walked(insts, start, 0) == start);
    lemma_one_move(insts, start, 0, s.m.at, s.m.func.insts.len() as int, mem);
    lemma_jumped(insts, start, 1, c.head, to, mem);
    let from = at(m, stack, CtlV::Exec(st));
    let task = TaskV::WhileTest(while_loop(cond, body));
    let f = FrameV::Collect { task, exprs: seq![cond], vals: Seq::empty() };
    let begun = at(m0, stack.push(f), CtlV::Eval(cond));
    lemma_one_step(from);
    assert(step(from) == (begun, ActionV::Continue));
    let (k, j, after) = lemma_loop_agrees(st, s, m0, mem, stack, insts, rounds, start, 1 + to as nat);
    lemma_leads(from, 1, begun, k);
    (1 + k, j, after)
}

/// A `while` as the interpreter keeps it.
pub open spec fn while_loop(cond: ExprV, body: Seq<StmtV>) -> LoopV {
    LoopV { is_expr: false, walk: WalkV::Cond(cond), body, result: ValueV::Unit }
}

/// A loop, from where the code of its condition starts.
#[verifier::rlimit(100)]
proof fn lemma_loop_agrees(
    st: StmtV,
    s: CgV,
    m: MachineV,
    mem: Memory,
    stack: Seq<FrameV>,
    insts: Seq<InstV>,
    rounds: nat,
    start: Point,
    j: nat,
) -> (r: (nat, nat, Memory))
    requires
        st.kind is While,
        while_parts(s, st),
        alike(while_code(s, st).asked, m, mem),
        open_here(s),
        simple_stmt(st, s.types),
        check_stmt(st, s.types).0 is Ok,
        starts_with(insts, while_code(s, st).all),
        roomy(while_code(s, st).all),
        m.span == st.span,
        walked(insts, start, j) == Point::At(
            while_code(s, st).head,
            while_code(s, st).asked.m.func.insts.len() as int,
            mem,
        ),
    ensures
        ({
            let cond = st.kind->While_cond;
            let body = st.kind->While_body;
            let e = looped(cond, body, m, rounds);
            let task = TaskV::WhileTest(while_loop(cond, body));
            let f = FrameV::Collect { task, exprs: seq![cond], vals: Seq::empty() };
            &&& interpreted(at(m, stack.push(f), CtlV::Eval(cond)), r.0, stack, e)
            &&& ended(s, while_code(s, st).all, walked(insts, start, r.1), r.2, e)
        }),
    decreases rounds, st.kind->While_body, st.kind->While_body.len() + 3,
{
    let cond = st.kind->While_cond;
    let body = st.kind->While_body;
    let c = while_code(s, st);
    let l = while_loop(cond, body);
    let task = TaskV::WhileTest(l);
    let f = FrameV::Collect { task, exprs: seq![cond], vals: Seq::empty() };
    let from = at(m, stack.push(f), CtlV::Eval(cond));
    lemma_while_places(s, st, insts);
    let zero = MachineV { scopes: zeroed(m.scopes), ..m };
    lemma_shaped(c.asked, m, mem);
    assert(c.asked == (CgV { span: st.span, ..c.asked }));
    lemma_expr_goes_on(c.asked, st.span, cond, zero);
    let (s1, w) = gen_expr(c.asked, cond);
    lemma_to_i1(s1, w->Int_0, zeros());
    lemma_starts_earlier(insts, s1, c.tested);
    lemma_continues(s1, c.tested);
    let (j1, after) = lemma_expr_runs(c.asked, st.span, cond, m, mem, insts);
    law_walks_add_up(insts, start, j, j1);
    let k = lemma_one_value(m, stack, task, cond);
    match worth(cond, m) {
        Err(_) => (k, j + j1, after),
        Ok(v) => {
            let n1 = s1.m.func.insts.len() as int;
            let n = c.tested.m.func.insts.len() as int;
            let tested = given(after, n1, Datum::Truth(word_of(v) != 0));
            lemma_to_i1(s1, w->Int_0, after);
            law_later_code_does_not_matter(c.tested.m.func.insts, insts, s1.m.at, n1, n, after);
            let j2 = law_run_takes_steps(insts, s1.m.at, n1, n, after);
            law_walks_add_up(insts, start, j + j1, j2);
            assert(operand(tested, c.cond) == Some(Datum::Truth(holds(v))));
            lemma_one_move(insts, start, j + j1 + j2, c.tested.m.at, n, tested);
            let j3 = j + j1 + j2 + 1;
            if !holds(v) {
                let end = c.all.m.func.insts.len() as int;
                lemma_jumped(insts, start, j3, c.end, end, tested);
                lemma_alike_later(c.asked, c.all, m, m, mem, tested);
                (k, j3 + end as nat, tested)
            } else if rounds == 0 {
                (k, j3, tested)
            } else {
                let fewer = (rounds - 1) as nat;
                let to = c.turn.m.func.insts.len() as int;
                lemma_jumped(insts, start, j3, c.body, to, tested);
                lemma_alike_later(c.asked, c.turn, m, m, mem, tested);
                let (k1, j4, turned) = lemma_block_agrees(
                    body,
                    BlockV::Loop(l),
                    m.span,
                    c.turn,
                    m,
                    tested,
                    stack,
                    insts,
                    fewer,
                );
                let inside = at(
                    m.push_scope(),
                    stack.push(in_block(BlockV::Loop(l), body, 0, m.span)),
                    CtlV::Next,
                );
                assert(leads(from, k, inside));
                lemma_leads(from, k, inside, k1);
                let j5 = j3 + to as nat;
                law_walks_add_up(insts, start, j5, j4);
                match effects(body, 0, m.push_scope(), fewer) {
                    Effect::Done(m1) => {
                        let last = in_block(BlockV::Loop(l), body, body.len() as int, m.span);
                        let over = at(m1, stack.push(last), CtlV::Next);
                        assert(leads(from, k + k1, over));
                        lemma_one_step(over);
                        assert(over.stack.last() == last);
                        assert(over.stack.drop_last() =~= stack);
                        assert(quiet(m1));
                        let back = MachineV { span: m.span, ..m1 };
                        let gone = MachineV { span: m.span, ..m1.pop_scope() };
                        assert(signal(at(back, stack, CtlV::Stopped), BlockV::Loop(l)) is None);
                        let again = at(gone, stack.push(f), CtlV::Eval(cond));
                        assert(step(over) == (again, ActionV::Continue));
                        lemma_leads(from, k + k1, over, 1);
                        assert(leads(from, k + k1 + 1, again));
                        let g = c.turn_done.m.func.insts.len() as int;
                        let head = c.asked.m.func.insts.len() as int;
                        lemma_one_move(insts, start, j5 + j4, c.turn_done.m.at, g, turned);
                        lemma_jumped(insts, start, j5 + j4 + 1, c.head, head, turned);
                        let (k2, j6, last_mem) = lemma_loop_agrees(
                            st,
                            s,
                            gone,
                            turned,
                            stack,
                            insts,
                            fewer,
                            start,
                            j5 + j4 + 1 + head as nat,
                        );
                        lemma_leads(from, k + k1 + 1, again, k2);
                        (k + k1 + 1 + k2, j6, last_mem)
                    },
                    _ => (k + k1, j5 + j4, turned),
                }
            }
        },
    }
}

/// Statements made of `let`, assignments, expressions, `if` and `while` over
/// integers and truth values do the same to both backends. Where the interpreter
/// gets to their end, native code gets to the end of their code, and the slots
/// hold the words for what the variables stand for. Where the interpreter fails,
/// native code stops the program with the same report. This holds of every run
/// in which no loop takes more than `rounds` rounds, for any `rounds`.
pub proof fn law_statements_agree(
    ss: Seq<StmtV>,
    kind: BlockV,
    span: Span,
    s: CgV,
    m: MachineV,
    mem: Memory,
    stack: Seq<FrameV>,
    rounds: nat,
) -> (r: (nat, nat, Memory))
    requires
        alike(s, m, mem),
        open_here(s),
        !(kind is Top),
        kind matches BlockV::Loop(l) ==> !l.is_expr,
        simple_stmts(ss, 0, s.types),
        check_stmts(ss, 0, s.types).0 is Ok,
        roomy(gen_stmts(s, ss, 0)),
    ensures
        interpreted(
            at(m, stack.push(in_block(kind, ss, 0, span)), CtlV::Next),
            r.0,
            stack.push(in_block(kind, ss, ss.len() as int, span)),
            effects(ss, 0, m, rounds),
        ),
        executed(
            gen_stmts(s, ss, 0).m.func.insts,
            s,
            gen_stmts(s, ss, 0),
            mem,
            r.1,
            r.2,
            effects(ss, 0, m, rounds),
        ),
{
    let insts = gen_stmts(s, ss, 0).m.func.insts;
    lemma_stmts_agree(ss, 0, kind, span, s, m, mem, stack, insts, rounds)
}

/// What is looked at does not change what happens: a run that ends within some
/// rounds ends in the same way where more are looked at.
pub proof fn law_more_rounds(ss: Seq<StmtV>, i: int, m: MachineV, rounds: nat, more: nat)
    requires
        rounds <= more,
        !(effects(ss, i, m, rounds) is Unfinished),
    ensures
        effects(ss, i, m, more) == effects(ss, i, m, rounds),
    decreases rounds, ss, ss.len() - i,
{
    if 0 <= i < ss.len() {
        lemma_more_rounds(ss[i], m, rounds, more);
        match effect(ss[i], m, rounds) {
            Effect::Done(m1) => law_more_rounds(ss, i + 1, m1, rounds, more),
            _ => {},
        }
    }
}

proof fn lemma_more_rounds(st: StmtV, before: MachineV, rounds: nat, more: nat)
    requires
        rounds <= more,
        !(effect(st, before, rounds) is Unfinished),
    ensures
        effect(st, before, more) == effect(st, before, rounds),
    decreases rounds, st, 0int,
{
    let m = MachineV { span: st.span, ..before };
    match st.kind {
        StmtKindV::If { cond, then_body, else_body } => match worth(cond, m) {
            Ok(v) => if chooses(v) {
                law_more_rounds(then_body, 0, m.push_scope(), rounds, more);
            } else {
                match else_body {
                    Some(eb) => law_more_rounds(eb, 0, m.push_scope(), rounds, more),
                    None => {},
                }
            },
            Err(_) => {},
        },
        StmtKindV::While { cond, body } => lemma_more_loops(cond, body, m, rounds, more),
        _ => {},
    }
}

proof fn lemma_more_loops(
    cond: ExprV,
    body: Seq<StmtV>,
    m: MachineV,
    rounds: nat,
    more: nat,
)
    requires
        rounds <= more,
        !(looped(cond, body, m, rounds) is Unfinished),
    ensures
        looped(cond, body, m, more) == looped(cond, body, m, rounds),
    decreases rounds, body, body.len() + 1,
{
    match worth(cond, m) {
        Ok(v) => if holds(v) {
            let fewer = (rounds - 1) as nat;
            let others = (more - 1) as nat;
            law_more_rounds(body, 0, m.push_scope(), fewer, others);
            match closed(effects(body, 0, m.push_scope(), fewer), m.span) {
                Effect::Done(m1) => lemma_more_loops(cond, body, m1, fewer, others),
                _ => {},
            }
        },
        Err(_) => {},
    }
}

} // verus!
