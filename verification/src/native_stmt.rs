//! Native code for statements.

use crate::ast::{
    opt_expr_view, stmts_view, Expr, ExprV, Stmt, StmtKind, StmtKindV, StmtV, Type, TypeV,
};
use crate::ir::{Op, OpV, Room, Val};
use crate::native::{adds, lemma_state, open_here, stays_in, CgV, CgValue, Codegen, LocalV, LoopCtx};
use crate::native_expr::{elem_of, elem_type, for_bounds, gen_expr, loop_ctx};
use crate::native_ops::{
    bind_element, bind_local, close_scope, declare_global, gen_cond, known_type, lemma_bind_word,
    lemma_known_type, lemma_own_nothing, lemma_plain_cond, lemma_release_open_nothing,
    lemma_set_word, lemma_spend_nothing, lemma_type_recorded, load_slot, local_made, local_set,
    nothing_held, own, release_open, set_global, spend, store_into, turn_head, turn_step,
    valueless,
};
use crate::native_rt::{gen_release, managed, to_i1, value_to_int, value_to_ptr};
use crate::typing::{check_expr, TypeErrorV};
use vstd::prelude::*;

verus! {

/// Whether a type leaves open what a value holds.
pub open spec fn vague(t: TypeV) -> bool {
    match t {
        TypeV::Inferred => true,
        TypeV::Named(_, args) => args.len() == 0,
        TypeV::Array(el) => *el is Inferred,
        _ => false,
    }
}

/// The type that says how a local is held: the checker's, where it says enough;
/// else the one that is written down; else the shape of the value.
pub open spec fn local_type(written: TypeV, found: TypeV, v: CgValue) -> TypeV {
    if vague(found) && !(written is Inferred) {
        written
    } else if found is Inferred {
        match v {
            CgValue::Str(_) => TypeV::String,
            CgValue::Float(_) => TypeV::Float,
            CgValue::Int(_) => TypeV::Int,
        }
    } else {
        found
    }
}

pub(crate) fn is_vague(t: &Type) -> (r: bool)
    ensures
        r == vague(t@),
{
    match t {
        Type::Inferred => true,
        Type::Named(_, args) => {
            assert(crate::ast::types_view(args@).len() == args@.len());
            args.len() == 0
        },
        Type::Array(el) => is_inferred(el),
        _ => false,
    }
}

fn is_inferred(t: &Type) -> (r: bool)
    ensures
        r == (t@ is Inferred),
{
    matches!(t, Type::Inferred)
}

fn let_type(written: &Type, found: &Type, v: CgValue) -> (t: Type)
    ensures
        t@ == local_type(written@, found@, v),
{
    if is_vague(found) && !is_inferred(written) {
        written.dup()
    } else if is_inferred(found) {
        match v {
            CgValue::Str(_) => Type::String,
            CgValue::Float(_) => Type::Float,
            CgValue::Int(_) => Type::Int,
        }
    } else {
        found.dup()
    }
}

/// The statements from the `i`th on. Nothing follows a `return`, a `break` or a `continue`.
pub closed spec fn gen_stmts(s: CgV, ss: Seq<StmtV>, i: int) -> CgV
    decreases ss, ss.len() - i, 0int,
{
    let s = if 0 <= i < ss.len() && !s.left() {
        let s = gen_stmt(s, ss[i]);
        let s = gen_stmts(s, ss, i + 1);
        s
    } else {
        s
    };
    s
}

/// Statements with a scope of their own. What comes next is again part of the
/// statement that they stand in.
pub closed spec fn gen_block(s: CgV, ss: Seq<StmtV>) -> CgV
    decreases ss, ss.len() + 1, 0int,
{
    let outer = s.span;
    let s = s.open_scope();
    let s = gen_stmts(s, ss, 0);
    let s = close_scope(s);
    let s = s.set_span(outer);
    s
}

/// Make code for a statement.
pub closed spec fn gen_stmt(s: CgV, st: StmtV) -> CgV
    decreases st, 2int, 0int,
{
    let s = s.set_span(st.span);
    let s = match st.kind {
        StmtKindV::Let { .. } => {
            let s = gen_let(s, st);
            s
        },
        StmtKindV::Assign { .. } => {
            let s = gen_assign(s, st);
            s
        },
        StmtKindV::Expr(_) => {
            let s = gen_discard(s, st);
            s
        },
        StmtKindV::Return(_) => {
            let s = gen_return(s, st);
            s
        },
        StmtKindV::If { .. } => {
            let s = gen_if_stmt(s, st);
            s
        },
        StmtKindV::While { .. } => {
            let s = gen_while_stmt(s, st);
            s
        },
        StmtKindV::For { .. } => {
            let s = gen_for_stmt(s, st);
            s
        },
        StmtKindV::Break(_) => {
            let s = gen_break(s, st);
            s
        },
        StmtKindV::Continue(_) => {
            let s = gen_continue(s);
            s
        },
        _ => {
            s
        },
    };
    s
}

/// At top level a name becomes a variable of the program, elsewhere a local.
pub closed spec fn gen_let(s: CgV, st: StmtV) -> CgV
    decreases st, 1int, 0int,
{
    let s = match st.kind {
        StmtKindV::Let { name, ty, value } => {
            let (s, vt) = known_type(s, value);
            let (s, v) = gen_expr(s, value);
            let s = if s.scopes.len() == 0 {
                let s = declare_global(s, name, v, value);
                s
            } else {
                let s = own(s, v, local_type(ty, vt, v), value);
                let s = bind_local(s, name, local_type(ty, vt, v), v);
                s
            };
            s
        },
        _ => {
            s
        },
    };
    s
}

/// What the name held goes after the store, so rebinding a name to itself is safe. A
/// name that stands for nothing cannot be read afterwards: what is assigned to it is
/// let go of.
pub closed spec fn gen_assign(s: CgV, st: StmtV) -> CgV
    decreases st, 1int, 0int,
{
    let s = match st.kind {
        StmtKindV::Assign { name, value } => {
            let (s, vt) = known_type(s, value);
            let (s, v) = gen_expr(s, value);
            let s = match s.local(name) {
                Some(l) => {
                    let s = own(s, v, l.ty, value);
                    let (s, old_v) = load_slot(s, l.slot, l.ty);
                    let s = store_into(s, l.slot, l.ty, v);
                    let s = if managed(s.types, l.ty) {
                        let (s, p) = value_to_ptr(s, old_v);
                        let s = gen_release(s, p, l.ty);
                        s
                    } else {
                        s
                    };
                    s
                },
                None => {
                    let s = match s.global(name) {
                        Some(g) => {
                            let s = set_global(s, g, v, value);
                            s
                        },
                        None => {
                            let s = spend(s, v, vt, value);
                            s
                        },
                    };
                    s
                },
            };
            s
        },
        _ => {
            s
        },
    };
    s
}

pub closed spec fn gen_discard(s: CgV, st: StmtV) -> CgV
    decreases st, 1int, 0int,
{
    let s = match st.kind {
        StmtKindV::Expr(e) => {
            let (s, t) = known_type(s, e);
            let (s, v) = gen_expr(s, e);
            let s = spend(s, v, t, e);
            s
        },
        _ => {
            s
        },
    };
    s
}

/// A function lets go of everything that it holds, once what it returns has an owner.
/// In a loop that has a value, what is returned is that value. What a statement at top
/// level returns goes nowhere.
pub closed spec fn gen_return(s: CgV, st: StmtV) -> CgV
    decreases st, 1int, 0int,
{
    let s = match st.kind {
        StmtKindV::Return(e) => {
            let s = match s.value_loop() {
                Some(l) => {
                    let s = gen_leave(s, e, l);
                    s
                },
                None => if s.scopes.len() == 0 {
                    let s = match e {
                        Some(y) => {
                            let (s, t) = known_type(s, y);
                            let (s, v) = gen_expr(s, y);
                            let s = spend(s, v, t, y);
                            s
                        },
                        None => {
                            s
                        },
                    };
                    s
                } else {
                    let (s, word) = gen_result(s, e);
                    let s = release_open(s, s.scopes.len() as int, 0);
                    let s = if s.gives() {
                        let s = s.emit(OpV::Return(Some(word)), ""@).0;
                        s
                    } else {
                        let s = s.emit(OpV::Return(None), ""@).0;
                        s
                    };
                    s
                },
            };
            s
        },
        _ => {
            s
        },
    };
    s
}

/// Leave a loop, with a value where it has one. What the scopes inside the loop
/// introduced goes. The value of a loop is an integer.
pub closed spec fn gen_leave(s: CgV, e: Option<ExprV>, l: LoopCtx) -> CgV
    decreases e, 4int, 0int,
{
    let (s, word) = gen_result(s, e);
    let s = match l.result {
        Some(place) => {
            let s = match e {
                Some(y) => {
                    let (s, t) = known_type(s, y);
                    let s = if t is Int || t is Inferred {
                        s
                    } else {
                        let s = s.refuse("a loop gives an int"@);
                        s
                    };
                    let s = s.emit(OpV::Store(place, word), ""@).0;
                    s
                },
                None => {
                    s
                },
            };
            s
        },
        None => {
            s
        },
    };
    let s = release_open(s, s.scopes.len() as int, l.depth as int);
    let s = s.emit(OpV::Jump(l.exit), ""@).0;
    s
}

pub closed spec fn gen_result(s: CgV, e: Option<ExprV>) -> (CgV, Val)
    decreases e, 3int, 0int,
{
    let (s, x) = match e {
        Some(y) => {
            let (s, t) = known_type(s, y);
            let (s, v) = gen_expr(s, y);
            let s = own(s, v, t, y);
            let (s, word) = value_to_int(s, v);
            (s, word)
        },
        None => {
            (s, Val::Word(0))
        },
    };
    (s, x)
}

pub closed spec fn gen_if_stmt(s: CgV, st: StmtV) -> CgV
    decreases st, 1int, 0int,
{
    let s = match st.kind {
        StmtKindV::If { cond, then_body, else_body } => {
            let (s, ct) = known_type(s, cond);
            let (s, cv) = gen_expr(s, cond);
            let (s, c) = gen_cond(s, cv, ct, cond, true);
            let (s, then_bb) = s.block("then"@);
            let (s, else_bb) = s.block("else"@);
            let (s, merge) = s.block("ifcont"@);
            let s = s.emit(OpV::Branch(c, then_bb, else_bb), ""@).0;
            let s = s.position(then_bb);
            let s = gen_block(s, then_body);
            let s = s.emit(OpV::Jump(merge), ""@).0;
            let s = s.position(else_bb);
            let s = match else_body {
                Some(eb) => {
                    let s = gen_block(s, eb);
                    s
                },
                None => {
                    s
                },
            };
            let s = s.emit(OpV::Jump(merge), ""@).0;
            let s = s.position(merge);
            s
        },
        _ => {
            s
        },
    };
    s
}

pub closed spec fn gen_while_stmt(s: CgV, st: StmtV) -> CgV
    decreases st, 1int, 0int,
{
    let s = match st.kind {
        StmtKindV::While { cond, body } => {
            let (s, head) = s.block("while"@);
            let (s, body_bb) = s.block("while_body"@);
            let (s, after) = s.block("while_end"@);
            let s = s.emit(OpV::Jump(head), ""@).0;
            let s = s.position(head);
            let (s, ct) = known_type(s, cond);
            let (s, cv) = gen_expr(s, cond);
            let (s, c) = gen_cond(s, cv, ct, cond, false);
            let s = s.emit(OpV::Branch(c, body_bb, after), ""@).0;
            let s = s.push_loop(loop_ctx(s, after, head, None));
            let s = s.position(body_bb);
            let s = gen_block(s, body);
            let s = s.emit(OpV::Jump(head), ""@).0;
            let s = s.pop_loop();
            let s = s.position(after);
            s
        },
        _ => {
            s
        },
    };
    s
}

pub closed spec fn gen_for_stmt(s: CgV, st: StmtV) -> CgV
    decreases st, 1int, 0int,
{
    let s = match st.kind {
        StmtKindV::For { var, iter, body } => {
            let s = s.open_scope();
            let (s, it) = known_type(s, iter);
            let (s, b) = for_bounds(s, iter);
            let (s, i_ptr) = s.slot(Room::Word, "for_idx"@);
            let s = s.emit(OpV::Store(i_ptr, b.from), ""@).0;
            let (s, head) = s.block("for_entry"@);
            let (s, body_bb) = s.block("for_body"@);
            let (s, cont) = s.block("for_cont"@);
            let (s, after) = s.block("for_exit"@);
            let s = s.emit(OpV::Jump(head), ""@).0;
            let (s, i) = turn_head(s, i_ptr, b.to, head, body_bb, after);
            let s = s.push_loop(loop_ctx(s, after, cont, None));
            let s = s.position(body_bb);
            let s = s.open_scope();
            let s = bind_element(s, var, i, b, elem_of(it));
            let s = gen_block(s, body);
            let s = close_scope(s);
            let s = s.emit(OpV::Jump(cont), ""@).0;
            let s = s.pop_loop();
            let s = turn_step(s, i_ptr, head, cont);
            let s = s.position(after);
            let s = close_scope(s);
            s
        },
        _ => {
            s
        },
    };
    s
}

/// A `break` lets go of what the scopes inside the loop introduced.
pub closed spec fn gen_break(s: CgV, st: StmtV) -> CgV
    decreases st, 1int, 0int,
{
    let s = match st.kind {
        StmtKindV::Break(e) => {
            let s = match s.top_loop() {
                Some(l) => {
                    let s = gen_leave(s, e, l);
                    s
                },
                None => {
                    s
                },
            };
            s
        },
        _ => {
            s
        },
    };
    s
}

pub closed spec fn gen_continue(s: CgV) -> CgV
{
    let s = match s.top_loop() {
        Some(l) => {
            let s = release_open(s, s.scopes.len() as int, l.depth as int);
            let s = s.emit(OpV::Jump(l.next), ""@).0;
            s
        },
        None => {
            s
        },
    };
    s
}

impl Codegen {
    /// The statements from the `i`th on. Nothing follows a `return`, a `break` or a `continue`.
    pub(crate) fn gen_stmts(&mut self, ss: &Vec<Stmt>, i: usize)
        requires
            old(self).wf(),
        ensures
            final(self).wf(),
            stays_in(old(self)@, final(self)@),
            final(self)@ == gen_stmts(old(self)@, stmts_view(ss@), i as int),
        decreases ss, ss@.len() - i, 0int,
    {
        assert(stmts_view(ss@).len() == ss@.len());
        if i < ss.len() && !self.left() {
            assert(stmts_view(ss@)[i as int] == ss@[i as int]@);
            self.gen_stmt(&ss[i]);
            self.gen_stmts(ss, i + 1);
        }
    }

    /// Statements with a scope of their own.
    pub(crate) fn gen_block(&mut self, ss: &Vec<Stmt>)
        requires
            old(self).wf(),
        ensures
            final(self).wf(),
            stays_in(old(self)@, final(self)@),
            final(self)@ == gen_block(old(self)@, stmts_view(ss@)),
        decreases ss, ss@.len() + 1, 0int,
    {
        assert(stmts_view(ss@).len() == ss@.len());
        let outer = self.get_span();
        self.open_scope();
        self.gen_stmts(ss, 0);
        self.close_scope();
        self.set_span(outer);
    }

    /// Make code for a statement.
    pub(crate) fn gen_stmt(&mut self, st: &Stmt)
        requires
            old(self).wf(),
        ensures
            final(self).wf(),
            stays_in(old(self)@, final(self)@),
            final(self)@ == gen_stmt(old(self)@, st@),
        decreases st, 2int, 0int,
    {
        assert(st@.kind == st.kind@);
        self.set_span(st.span);
        match &st.kind {
            StmtKind::Let { .. }  => {
                self.gen_let(st);
            },
            StmtKind::Assign { .. }  => {
                self.gen_assign(st);
            },
            StmtKind::Expr(_) => {
                self.gen_discard(st);
            },
            StmtKind::Return(_) => {
                self.gen_return(st);
            },
            StmtKind::If { .. }  => {
                self.gen_if_stmt(st);
            },
            StmtKind::While { .. }  => {
                self.gen_while_stmt(st);
            },
            StmtKind::For { .. }  => {
                self.gen_for_stmt(st);
            },
            StmtKind::Break(_) => {
                self.gen_break(st);
            },
            StmtKind::Continue(_) => {
                self.gen_continue();
            },
            _ => {
            },
        }
    }

    pub(crate) fn gen_let(&mut self, st: &Stmt)
        requires
            old(self).wf(),
        ensures
            final(self).wf(),
            stays_in(old(self)@, final(self)@),
            final(self)@ == gen_let(old(self)@, st@),
        decreases st, 1int, 0int,
    {
        assert(st@.kind == st.kind@);
        match &st.kind {
            StmtKind::Let { name, ty, value }  => {
                let vt = self.known_type(value);
                let v = self.gen_expr(value);
                if self.depth() == 0 {
                    self.declare_global(name.as_str(), v, value);
                } else {
                    let t = let_type(ty, &vt, v);
                    self.own(v, &t, value);
                    self.bind_local(name.as_str(), &t, v);
                }
            },
            _ => {
            },
        }
    }

    /// What the name held goes after the store, so rebinding a name to itself is safe.
    pub(crate) fn gen_assign(&mut self, st: &Stmt)
        requires
            old(self).wf(),
        ensures
            final(self).wf(),
            stays_in(old(self)@, final(self)@),
            final(self)@ == gen_assign(old(self)@, st@),
        decreases st, 1int, 0int,
    {
        assert(st@.kind == st.kind@);
        match &st.kind {
            StmtKind::Assign { name, value }  => {
                let vt = self.known_type(value);
                let v = self.gen_expr(value);
                match self.local(name.as_str()) {
                    Some(l) => {
                        self.own(v, &l.ty, value);
                        let old_v = self.load_slot(l.slot, &l.ty);
                        self.store_into(l.slot, &l.ty, v);
                        if self.is_managed(&l.ty) {
                            let p = self.value_to_ptr(old_v);
                            self.gen_release(p, &l.ty);
                        }
                    },
                    None => {
                        match self.global(name.as_str()) {
                            Some(g) => {
                                self.set_global(&g, v, value);
                            },
                            None => {
                                self.spend(v, &vt, value);
                            },
                        }
                    },
                }
            },
            _ => {
            },
        }
    }

    pub(crate) fn gen_discard(&mut self, st: &Stmt)
        requires
            old(self).wf(),
        ensures
            final(self).wf(),
            stays_in(old(self)@, final(self)@),
            final(self)@ == gen_discard(old(self)@, st@),
        decreases st, 1int, 0int,
    {
        assert(st@.kind == st.kind@);
        match &st.kind {
            StmtKind::Expr(e)  => {
                let t = self.known_type(e);
                let v = self.gen_expr(e);
                self.spend(v, &t, e);
            },
            _ => {
            },
        }
    }

    /// A function lets go of everything that it holds, once what it returns has an owner.
    pub(crate) fn gen_return(&mut self, st: &Stmt)
        requires
            old(self).wf(),
        ensures
            final(self).wf(),
            stays_in(old(self)@, final(self)@),
            final(self)@ == gen_return(old(self)@, st@),
        decreases st, 1int, 0int,
    {
        assert(st@.kind == st.kind@);
        match &st.kind {
            StmtKind::Return(e)  => {
                match self.value_loop() {
                    Some(l) => {
                        self.gen_leave(e, l);
                    },
                    None => if self.depth() == 0 {
                        match e {
                            Some(y) => {
                                let t = self.known_type(y);
                                let v = self.gen_expr(y);
                                self.spend(v, &t, y);
                            },
                            None => {
                            },
                        }
                    } else {
                        let word = self.gen_result(e);
                        let n = self.depth();
                        self.release_open(n, 0);
                        if self.gives() {
                            let _ = self.emit(Op::Return(Some(word)), "");
                        } else {
                            let _ = self.emit(Op::Return(None), "");
                        }
                    },
                }
            },
            _ => {
            },
        }
    }

    /// Leave a loop, with a value where it has one.
    pub(crate) fn gen_leave(&mut self, e: &Option<Expr>, l: LoopCtx)
        requires
            old(self).wf(),
        ensures
            final(self).wf(),
            stays_in(old(self)@, final(self)@),
            final(self)@ == gen_leave(old(self)@, opt_expr_view(*e), l),
        decreases e, 4int, 0int,
    {
        let word = self.gen_result(e);
        match l.result {
            Some(place) => {
                match e {
                    Some(y) => {
                        let t = self.known_type(y);
                        if !matches!(t, Type::Int | Type::Inferred) {
                            self.refuse("a loop gives an int".to_owned());
                        }
                        let _ = self.emit(Op::Store(place, word), "");
                    },
                    None => {
                    },
                }
            },
            None => {
            },
        }
        let n = self.depth();
        self.release_open(n, l.depth);
        let _ = self.emit(Op::Jump(l.exit), "");
    }

    pub(crate) fn gen_result(&mut self, e: &Option<Expr>) -> (r: Val)
        requires
            old(self).wf(),
        ensures
            final(self).wf(),
            stays_in(old(self)@, final(self)@),
            (final(self)@, r) == gen_result(old(self)@, opt_expr_view(*e)),
        decreases e, 3int, 0int,
    {
        let x = match e {
            Some(y) => {
                let t = self.known_type(y);
                let v = self.gen_expr(y);
                self.own(v, &t, y);
                let word = self.value_to_int(v);
                word
            },
            None => {
                Val::Word(0)
            },
        };
        x
    }

    pub(crate) fn gen_if_stmt(&mut self, st: &Stmt)
        requires
            old(self).wf(),
        ensures
            final(self).wf(),
            stays_in(old(self)@, final(self)@),
            final(self)@ == gen_if_stmt(old(self)@, st@),
        decreases st, 1int, 0int,
    {
        assert(st@.kind == st.kind@);
        match &st.kind {
            StmtKind::If { cond, then_body, else_body }  => {
                let ct = self.known_type(cond);
                let cv = self.gen_expr(cond);
                let c = self.gen_cond(cv, &ct, cond, true);
                let then_bb = self.block("then");
                let else_bb = self.block("else");
                let merge = self.block("ifcont");
                let _ = self.emit(Op::Branch(c, then_bb, else_bb), "");
                self.position(then_bb);
                self.gen_block(then_body);
                let _ = self.emit(Op::Jump(merge), "");
                self.position(else_bb);
                match else_body {
                    Some(eb) => {
                        self.gen_block(eb);
                    },
                    None => {
                    },
                }
                let _ = self.emit(Op::Jump(merge), "");
                self.position(merge);
            },
            _ => {
            },
        }
    }

    pub(crate) fn gen_while_stmt(&mut self, st: &Stmt)
        requires
            old(self).wf(),
        ensures
            final(self).wf(),
            stays_in(old(self)@, final(self)@),
            final(self)@ == gen_while_stmt(old(self)@, st@),
        decreases st, 1int, 0int,
    {
        assert(st@.kind == st.kind@);
        match &st.kind {
            StmtKind::While { cond, body }  => {
                let head = self.block("while");
                let body_bb = self.block("while_body");
                let after = self.block("while_end");
                let _ = self.emit(Op::Jump(head), "");
                self.position(head);
                let ct = self.known_type(cond);
                let cv = self.gen_expr(cond);
                let c = self.gen_cond(cv, &ct, cond, false);
                let _ = self.emit(Op::Branch(c, body_bb, after), "");
                let ghost around = self@.loops;
                self.push_loop(self.loop_here(after, head, None));
                self.position(body_bb);
                self.gen_block(body);
                let _ = self.emit(Op::Jump(head), "");
                self.pop_loop();
                assert(self@.loops =~= around);
                self.position(after);
            },
            _ => {
            },
        }
    }

    pub(crate) fn gen_for_stmt(&mut self, st: &Stmt)
        requires
            old(self).wf(),
        ensures
            final(self).wf(),
            stays_in(old(self)@, final(self)@),
            final(self)@ == gen_for_stmt(old(self)@, st@),
        decreases st, 1int, 0int,
    {
        assert(st@.kind == st.kind@);
        match &st.kind {
            StmtKind::For { var, iter, body }  => {
                self.open_scope();
                let it = self.known_type(iter);
                let b = self.for_bounds(iter);
                let i_ptr = self.slot(Room::Word, "for_idx");
                let _ = self.emit(Op::Store(i_ptr, b.from), "");
                let head = self.block("for_entry");
                let body_bb = self.block("for_body");
                let cont = self.block("for_cont");
                let after = self.block("for_exit");
                let _ = self.emit(Op::Jump(head), "");
                let i = self.turn_head(i_ptr, b.to, head, body_bb, after);
                let ghost around = self@.loops;
                self.push_loop(self.loop_here(after, cont, None));
                self.position(body_bb);
                self.open_scope();
                self.bind_element(var.as_str(), i, b, &elem_type(&it));
                self.gen_block(body);
                self.close_scope();
                let _ = self.emit(Op::Jump(cont), "");
                self.pop_loop();
                assert(self@.loops =~= around);
                self.turn_step(i_ptr, head, cont);
                self.position(after);
                self.close_scope();
            },
            _ => {
            },
        }
    }

    /// A `break` lets go of what the scopes inside the loop introduced.
    pub(crate) fn gen_break(&mut self, st: &Stmt)
        requires
            old(self).wf(),
        ensures
            final(self).wf(),
            stays_in(old(self)@, final(self)@),
            final(self)@ == gen_break(old(self)@, st@),
        decreases st, 1int, 0int,
    {
        assert(st@.kind == st.kind@);
        match &st.kind {
            StmtKind::Break(e)  => {
                match self.top_loop() {
                    Some(l) => {
                        self.gen_leave(e, l);
                    },
                    None => {
                    },
                }
            },
            _ => {
            },
        }
    }

    pub(crate) fn gen_continue(&mut self)
        requires
            old(self).wf(),
        ensures
            final(self).wf(),
            stays_in(old(self)@, final(self)@),
            final(self)@ == gen_continue(old(self)@),
    {
        match self.top_loop() {
            Some(l) => {
                let n = self.depth();
                self.release_open(n, l.depth);
                let _ = self.emit(Op::Jump(l.next), "");
            },
            None => {
            },
        }
    }
}

// ---- code for integers and truth values ----

/// The code for a `let` of an integer or a truth value.
pub proof fn lemma_let_code(s: CgV, st: StmtV, t: TypeV)
    requires
        st.kind is Let,
        check_expr(st.kind->Let_value, s.types) == (Ok::<TypeV, TypeErrorV>(t), s.types),
        !valueless(st.kind->Let_value),
        t is Int || t is Bool,
        s.scopes.len() > 0,
        adds(CgV { span: st.span, ..s }, gen_expr(CgV { span: st.span, ..s }, st.kind->Let_value).0),
        gen_expr(CgV { span: st.span, ..s }, st.kind->Let_value).1 is Int,
    ensures
        ({
            let (s1, v) = gen_expr(CgV { span: st.span, ..s }, st.kind->Let_value);
            gen_stmt(s, st) == local_made(s1, st.kind->Let_name, t, v->Int_0)
        }),
{
    let s0 = CgV { span: st.span, ..s };
    lemma_state(s, st.span);
    let e = st.kind->Let_value;
    let (s1, v) = gen_expr(s0, e);
    lemma_known_type(s0, e, t);
    lemma_own_nothing(s1, v, t, e);
    lemma_bind_word(s1, st.kind->Let_name, t, v->Int_0);
    assert(local_type(st.kind->Let_ty, t, v) == t);
    assert(gen_let(s0, st) == bind_local(s1, st.kind->Let_name, t, v));
}

/// The code for an assignment to a local that holds an integer or a truth value.
pub proof fn lemma_assign_code(s: CgV, st: StmtV, l: LocalV)
    requires
        st.kind is Assign,
        s.local(st.kind->Assign_name) == Some(l),
        check_expr(st.kind->Assign_value, s.types).1 == s.types,
        l.ty is Int || l.ty is Bool,
        adds(
            CgV { span: st.span, ..s },
            gen_expr(CgV { span: st.span, ..s }, st.kind->Assign_value).0,
        ),
        gen_expr(CgV { span: st.span, ..s }, st.kind->Assign_value).1 is Int,
    ensures
        ({
            let (s1, v) = gen_expr(CgV { span: st.span, ..s }, st.kind->Assign_value);
            gen_stmt(s, st) == local_set(s1, l.slot, v->Int_0)
        }),
{
    let s0 = CgV { span: st.span, ..s };
    lemma_state(s, st.span);
    let e = st.kind->Assign_value;
    let (s1, v) = gen_expr(s0, e);
    lemma_type_recorded(s0, e);
    lemma_own_nothing(s1, v, l.ty, e);
    lemma_set_word(s1, l.slot, l.ty, v->Int_0);
    assert(s1.local(st.kind->Assign_name) == Some(l));
}

/// The code for an expression whose value is not used.
pub proof fn lemma_discard_code(s: CgV, st: StmtV, t: TypeV)
    requires
        st.kind is Expr,
        check_expr(st.kind->Expr_0, s.types) == (Ok::<TypeV, TypeErrorV>(t), s.types),
        !valueless(st.kind->Expr_0),
        t is Int || t is Bool || t is Unit,
    ensures
        gen_stmt(s, st) == gen_expr(CgV { span: st.span, ..s }, st.kind->Expr_0).0,
{
    let s0 = CgV { span: st.span, ..s };
    lemma_state(s, st.span);
    let e = st.kind->Expr_0;
    let (s1, v) = gen_expr(s0, e);
    lemma_known_type(s0, e, t);
    lemma_spend_nothing(s1, v, t, e);
}

/// Code for statements is the code for the first, then for the others.
pub proof fn lemma_statements_code(s: CgV, ss: Seq<StmtV>, i: int)
    ensures
        0 <= i < ss.len() && !s.left() ==> gen_stmts(s, ss, i) == gen_stmts(
            gen_stmt(s, ss[i]),
            ss,
            i + 1,
        ),
        i >= ss.len() || s.left() ==> gen_stmts(s, ss, i) == s,
        open_here(s) ==> !s.left(),
{
    lemma_state(s, s.span);
}

/// The code for statements in a scope of their own.
pub proof fn lemma_block_code(s: CgV, ss: Seq<StmtV>)
    ensures
        ({
            let s1 = CgV {
                scopes: s.scopes.push(Seq::empty()),
                types: s.types.push_scope(),
                ..s
            };
            gen_block(s, ss) == (CgV { span: s.span, ..close_scope(gen_stmts(s1, ss, 0)) })
        }),
{
    let s1 = CgV { scopes: s.scopes.push(Seq::empty()), types: s.types.push_scope(), ..s };
    lemma_state(s, s.span);
    lemma_state(close_scope(gen_stmts(s1, ss, 0)), s.span);
}

/// The parts of the code for an `if`, one after the other: after the condition,
/// where the first branch starts, where it ends and is left, where the second
/// branch starts, where it ends and is left.
pub struct IfCode {
    pub tested: CgV,
    pub cond: Val,
    pub yes: usize,
    pub no: usize,
    pub merge: usize,
    pub split: CgV,
    pub first: CgV,
    pub first_done: CgV,
    pub first_out: CgV,
    pub second: CgV,
    pub second_done: CgV,
    pub second_out: CgV,
    pub all: CgV,
}

pub open spec fn if_code(s: CgV, st: StmtV) -> IfCode {
    let (s1, cv) = gen_expr(CgV { span: st.span, ..s }, st.kind->If_cond);
    let (tested, cond) = to_i1(s1, cv->Int_0);
    let (s2, yes) = tested.block("then"@);
    let (s3, no) = s2.block("else"@);
    let (split, merge) = s3.block("ifcont"@);
    let first = split.emit(OpV::Branch(cond, yes, no), ""@).0.position(yes);
    let first_done = gen_block(first, st.kind->If_then_body);
    let first_out = first_done.emit(OpV::Jump(merge), ""@).0;
    let second = first_out.position(no);
    let second_done = match st.kind->If_else_body {
        Some(eb) => gen_block(second, eb),
        None => second,
    };
    let second_out = second_done.emit(OpV::Jump(merge), ""@).0;
    let all = second_out.position(merge);
    IfCode {
        tested,
        cond,
        yes,
        no,
        merge,
        split,
        first,
        first_done,
        first_out,
        second,
        second_done,
        second_out,
        all,
    }
}

pub proof fn lemma_if_code(s: CgV, st: StmtV, t: TypeV)
    requires
        st.kind is If,
        check_expr(st.kind->If_cond, s.types) == (Ok::<TypeV, TypeErrorV>(t), s.types),
        t is Int || t is Bool,
        !valueless(st.kind->If_cond),
        gen_expr(CgV { span: st.span, ..s }, st.kind->If_cond).1 is Int,
    ensures
        gen_stmt(s, st) == if_code(s, st).all,
{
    lemma_state(s, st.span);
    let s0 = CgV { span: st.span, ..s };
    let e = st.kind->If_cond;
    let (s1, v) = gen_expr(s0, e);
    lemma_known_type(s0, e, t);
    lemma_plain_cond(s1, v->Int_0, t, e, true);
}

/// The parts of the code for a `while`, one after the other: where the condition
/// starts, after it and after the branch, where the body starts, where it ends and
/// is left.
pub struct WhileCode {
    pub head: usize,
    pub body: usize,
    pub end: usize,
    pub made: CgV,
    pub asked: CgV,
    pub tested: CgV,
    pub cond: Val,
    pub branched: CgV,
    pub turn: CgV,
    pub turn_done: CgV,
    pub turn_out: CgV,
    pub all: CgV,
}

pub open spec fn while_code(s: CgV, st: StmtV) -> WhileCode {
    let s0 = CgV { span: st.span, ..s };
    let (s1, head) = s0.block("while"@);
    let (s2, body) = s1.block("while_body"@);
    let (made, end) = s2.block("while_end"@);
    let asked = made.emit(OpV::Jump(head), ""@).0.position(head);
    let (s3, cv) = gen_expr(asked, st.kind->While_cond);
    let (tested, cond) = to_i1(s3, cv->Int_0);
    let branched = tested.emit(OpV::Branch(cond, body, end), ""@).0;
    let turn = branched.push_loop(loop_ctx(branched, end, head, None)).position(body);
    let turn_done = gen_block(turn, st.kind->While_body);
    let turn_out = turn_done.emit(OpV::Jump(head), ""@).0;
    let all = turn_out.pop_loop().position(end);
    WhileCode { head, body, end, made, asked, tested, cond, branched, turn, turn_done, turn_out, all }
}

pub proof fn lemma_while_code(s: CgV, st: StmtV, t: TypeV)
    requires
        st.kind is While,
        while_code(s, st).asked.types == s.types,
        check_expr(st.kind->While_cond, s.types) == (Ok::<TypeV, TypeErrorV>(t), s.types),
        t is Int || t is Bool,
        !valueless(st.kind->While_cond),
        gen_expr(while_code(s, st).asked, st.kind->While_cond).1 is Int,
    ensures
        gen_stmt(s, st) == while_code(s, st).all,
{
    lemma_state(s, st.span);
    let s0 = while_code(s, st).asked;
    let e = st.kind->While_cond;
    let (s1, v) = gen_expr(s0, e);
    lemma_known_type(s0, e, t);
    lemma_plain_cond(s1, v->Int_0, t, e, false);
}

/// The declaration of a function adds nothing to the code it stands in.
pub proof fn lemma_declaration(s: CgV, ss: Seq<StmtV>)
    requires
        ss.len() == 1,
        ss[0].kind is Fn,
        !s.left(),
    ensures
        gen_stmts(s, ss, 0) == (CgV { span: ss[0].span, ..s }),
{
    lemma_state(s, ss[0].span);
    lemma_statements_code(s, ss, 0);
    let s1 = gen_stmt(s, ss[0]);
    lemma_statements_code(s1, ss, 1);
}

/// A `break` without a value, and a `continue`, are one jump where the open scopes hold
/// integers and truth values.
pub proof fn lemma_jumps(s: CgV, st: StmtV, l: LoopCtx)
    requires
        s.top_loop() == Some(l),
        forall|i: int| 0 <= i < s.scopes.len() ==> nothing_held(#[trigger] s.scopes[i]),
    ensures
        st.kind == StmtKindV::Break(None) ==> gen_stmt(s, st) == (CgV { span: st.span, ..s }).emit(
            OpV::Jump(l.exit),
            ""@,
        ).0,
        st.kind is Continue ==> gen_stmt(s, st) == (CgV { span: st.span, ..s }).emit(
            OpV::Jump(l.next),
            ""@,
        ).0,
{
    lemma_state(s, st.span);
    let s0 = CgV { span: st.span, ..s };
    lemma_release_open_nothing(s0, s0.scopes.len() as int, l.depth as int);
}

/// A `for` statement: what it counts from goes to a slot; a turn starts at the head and
/// ends with one more; `break` leaves the loop and `continue` goes on with the end of the
/// turn; the variable is bound in a scope of the turn.
pub proof fn law_for_code(
    s: CgV,
    st: StmtV,
    var: Seq<char>,
    iter: ExprV,
    body: Seq<StmtV>,
)
    requires
        st.kind == (StmtKindV::For { var, iter, body }),
    ensures
        ({
            let s1 = CgV { span: st.span, ..s }.open_scope();
            let (s2, it) = known_type(s1, iter);
            let (s3, b) = for_bounds(s2, iter);
            let (s4, count) = s3.slot(Room::Word, "for_idx"@);
            let s5 = s4.emit(OpV::Store(count, b.from), ""@).0;
            let (s6, head) = s5.block("for_entry"@);
            let (s7, inside) = s6.block("for_body"@);
            let (s8, next) = s7.block("for_cont"@);
            let (s9, exit) = s8.block("for_exit"@);
            let (s10, i) = turn_head(
                s9.emit(OpV::Jump(head), ""@).0,
                count,
                b.to,
                head,
                inside,
                exit,
            );
            let s11 = s10.push_loop(
                LoopCtx { exit, next, depth: s10.scopes.len() as usize, result: None },
            ).position(inside).open_scope();
            let s12 = close_scope(gen_block(bind_element(s11, var, i, b, elem_of(it)), body));
            let s13 = turn_step(
                s12.emit(OpV::Jump(next), ""@).0.pop_loop(),
                count,
                head,
                next,
            );
            gen_stmt(s, st) == close_scope(s13.position(exit))
        }),
{
    lemma_state(s, st.span);
}

/// A `return` in a function lets go of what the function holds and returns the word of
/// its value; a function without a result returns nothing.
pub proof fn law_return_code(s: CgV, st: StmtV, e: Option<ExprV>)
    requires
        st.kind == StmtKindV::Return(e),
        s.value_loop() is None,
        s.scopes.len() > 0,
    ensures
        ({
            let (s1, word) = gen_result(CgV { span: st.span, ..s }, e);
            let s2 = release_open(s1, s1.scopes.len() as int, 0);
            gen_stmt(s, st) == s2.emit(
                OpV::Return(
                    if s2.gives() {
                        Some(word)
                    } else {
                        None
                    },
                ),
                ""@,
            ).0
        }),
{
    lemma_state(s, st.span);
}

/// What a `return` or a `break` gives is the word of its expression, once it has an owner.
pub proof fn law_result_code(s: CgV, e: ExprV)
    ensures
        ({
            let (s1, t) = known_type(s, e);
            let (s2, v) = gen_expr(s1, e);
            gen_result(s, Some(e)) == value_to_int(own(s2, v, t, e), v)
        }),
{
}

} // verus!
