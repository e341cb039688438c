//! The native backend: from a program that type-checks to the functions of an
//! executable.

use crate::ast::{
    exprs_view, params_view, stmts_view, types_view, Expr, Program, Stmt, StmtKind, StmtKindV,
    StmtV, Type, TypeV,
};
use crate::ir::{FuncV, InstV, Module, ModuleV, Op, OpV, Room, Ty, Val};
use crate::macros::{expand_macros_program, law_program_without_macros, unfolded_program};
use crate::monomorphize::declares_fn;
use crate::native::{
    group_module_keeps, grows, has_func, lemma_blocks, lemma_fresh_state, lemma_function,
    lemma_left, module_grows, stays_in, CgV, Codegen,
};
use crate::native_expr::{fn_ret, gen_fn_call, lemma_bare_call, method_name};
use crate::native_ops::{bind_local, close_scope, known_type, retain_value};
use crate::native_rt::{
    lemma_float_grows, lemma_release_grows, lemma_runtime_grows, lemma_show_grows,
    lemma_split_grows, lemma_trimmed_grows, make_abort, make_blank, make_char_start, make_chars,
    make_float, make_release, make_retain, make_show, make_skipped, make_split, make_trimmed,
    typed_value,
};
use crate::native_stmt::{gen_stmts, is_vague, lemma_declaration, vague};
use crate::text::{cat2, cat5, str_eq, texts};
use crate::types::same_type;
use crate::typing::declared;
use vstd::prelude::*;

verus! {

/// How many types get functions of their own.
pub const MOST_TYPES: usize = 10000;

/// The parameters of a function: one word each.
pub open spec fn word_params(n: nat) -> Seq<Ty> {
    Seq::new(n, |i: int| Ty::Word)
}

fn words_of(n: usize) -> (r: Vec<Ty>)
    ensures
        r@ == word_params(n as nat),
        n == 0 ==> r@ == Seq::<Ty>::empty(),
{
    let mut r: Vec<Ty> = Vec::new();
    let mut i: usize = 0;
    while i < n
        invariant
            i <= n,
            r@ == word_params(i as nat),
        decreases n - i,
    {
        r.push(Ty::Word);
        assert(r@ =~= word_params((i + 1) as nat));
        i += 1;
    }
    r
}

/// The type of a parameter of a method of a type.
pub open spec fn param_type(owner: Seq<char>, p: (Seq<char>, TypeV)) -> TypeV {
    if p.0 == "self"@ {
        TypeV::Named(owner, Seq::empty())
    } else {
        p.1
    }
}

fn param_of(owner: &str, p: &(String, Type)) -> (t: Type)
    ensures
        t@ == param_type(owner@, (p.0@, p.1@)),
{
    if str_eq(p.0.as_str(), "self") {
        let none: Vec<Type> = Vec::new();
        assert(types_view(none@) =~= Seq::empty());
        Type::Named(owner.to_owned(), none)
    } else {
        p.1.dup()
    }
}

/// Whether a function of a name is declared from the `i`th statement on.
pub open spec fn fn_after(ss: Seq<StmtV>, name: Seq<char>, i: int) -> bool {
    exists|j: int| i <= j < ss.len() && 0 <= j && declares_fn(#[trigger] ss[j], name)
}

fn has_fn_after(ss: &Vec<Stmt>, name: &str, from: usize) -> (r: bool)
    ensures
        r == fn_after(stmts_view(ss@), name@, from as int),
{
    let ghost all = stmts_view(ss@);
    let mut i: usize = from;
    while i < ss.len()
        invariant
            from <= i,
            all == stmts_view(ss@),
            forall|j: int| from <= j < i && j < all.len() ==> !declares_fn(#[trigger] all[j], name@),
        decreases ss@.len() - i,
    {
        assert(all[i as int] == ss@[i as int]@);
        assert(ss@[i as int]@.kind == ss@[i as int].kind@);
        match &ss[i].kind {
            StmtKind::Fn { name: n, .. } => {
                if str_eq(n.as_str(), name) {
                    assert(declares_fn(all[i as int], name@));
                    return true;
                }
            },
            _ => {},
        }
        assert(!declares_fn(all[i as int], name@));
        i += 1;
    }
    assert(all.len() == ss@.len());
    false
}

/// There is code for a method of a type.
pub open spec fn has_method_code(done: Seq<FuncV>, owner: Seq<char>, s: StmtV) -> bool {
    match s.kind {
        StmtKindV::Fn { name, params, ret, .. } => has_func(
            done,
            method_name(owner, name),
            word_params(params.len()),
            !(ret is Unit),
        ),
        _ => true,
    }
}

/// There is code for what the `k`th statement of a program declares: for a
/// function that is neither generic nor declared again later, and for every
/// method of an `impl`.
pub open spec fn has_code(done: Seq<FuncV>, ss: Seq<StmtV>, k: int) -> bool {
    match ss[k].kind {
        StmtKindV::Fn { name, generics, params, ret, .. } => generics.len() == 0 && !fn_after(
            ss,
            name,
            k + 1,
        ) ==> has_func(done, "zr."@ + name, word_params(params.len()), !(ret is Unit)),
        StmtKindV::Impl { for_type, methods, .. } => forall|j: int|
            0 <= j < methods.len() ==> has_method_code(done, for_type, #[trigger] methods[j]),
        _ => true,
    }
}

/// There is code for every function and method of a program, and a function to
/// start with.
pub open spec fn covers_program(done: Seq<FuncV>, ss: Seq<StmtV>) -> bool {
    &&& has_func(done, "main"@, Seq::empty(), true)
    &&& forall|k: int| 0 <= k < ss.len() ==> #[trigger] has_code(done, ss, k)
}

/// What there was code for, there still is.
proof fn lemma_code_stays(before: CgV, after: CgV, ss: Seq<StmtV>)
    requires
        grows(before, after),
    ensures
        forall|name: Seq<char>, params: Seq<Ty>, gives: bool|
            has_func(before.m.done, name, params, gives) ==> #[trigger] has_func(
                after.m.done,
                name,
                params,
                gives,
            ),
        forall|owner: Seq<char>, s: StmtV|
            has_method_code(before.m.done, owner, s) ==> #[trigger] has_method_code(
                after.m.done,
                owner,
                s,
            ),
        forall|k: int|
            0 <= k < ss.len() && has_code(before.m.done, ss, k) ==> #[trigger] has_code(
                after.m.done,
                ss,
                k,
            ),
{
    assert forall|name: Seq<char>, params: Seq<Ty>, gives: bool|
        has_func(before.m.done, name, params, gives) implies #[trigger] has_func(
        after.m.done,
        name,
        params,
        gives,
    ) by {
        let k = choose|k: int|
            0 <= k < before.m.done.len() && (#[trigger] before.m.done[k]).name == name
                && before.m.done[k].params == params && before.m.done[k].gives == gives;
        assert(after.m.done[k] == before.m.done[k]);
    }
}

/// A type whose text function is wanted, by its place.
pub open spec fn show_wanted(s: CgV, i: int) -> Option<TypeV> {
    if 0 <= i < s.shows.len() {
        Some(s.shows[i])
    } else {
        None
    }
}

/// A type whose release function is wanted, by its place.
pub open spec fn release_wanted(s: CgV, i: int) -> Option<TypeV> {
    if 0 <= i < s.releases.len() {
        Some(s.releases[i])
    } else {
        None
    }
}

/// The parameters of a function, from the `i`th on. Every parameter arrives as a
/// word; its declared type says how to unpack it. `self` is of the type that the
/// `impl` is for.
pub closed spec fn bind_params(s: CgV, owner: Seq<char>, params: Seq<(Seq<char>, TypeV)>, i: int) -> CgV
    decreases params.len() - i,
{
    let s = if 0 <= i < params.len() {
        let (s, v) = typed_value(s, Val::Param(i as usize), param_type(owner, params[i]));
        let s = retain_value(s, v, param_type(owner, params[i]));
        let s = bind_local(s, params[i].0, param_type(owner, params[i]), v);
        let s = bind_params(s, owner, params, i + 1);
        s
    } else {
        s
    };
    s
}

/// A function. Falling off its end, it lets go of its locals and returns nothing.
pub closed spec fn gen_function(s: CgV, full: Seq<char>, owner: Seq<char>, params: Seq<(Seq<char>, TypeV)>, ret: TypeV, body: Seq<StmtV>) -> CgV
{
    let s = s.begin(full, word_params(params.len()), !(ret is Unit));
    let s = s.open_scope();
    let s = bind_params(s, owner, params, 0);
    let s = gen_stmts(s, body, 0);
    let s = close_scope(s);
    let s = gen_end(s);
    let s = s.finish();
    s
}

/// The end of a function that has not returned.
pub closed spec fn gen_end(s: CgV) -> CgV
{
    let s = if s.gives() {
        let s = s.emit(OpV::Return(Some(Val::Word(0))), ""@).0;
        s
    } else {
        let s = s.emit(OpV::Return(None), ""@).0;
        s
    };
    s
}

/// The methods of an `impl`.
pub closed spec fn gen_methods(s: CgV, owner: Seq<char>, methods: Seq<StmtV>, i: int) -> CgV
    decreases methods.len() - i,
{
    let s = if 0 <= i < methods.len() {
        let s = match methods[i].kind {
            StmtKindV::Fn { name, generics, params, ret, body } => {
                let s = gen_function(s, method_name(owner, name), owner, params, ret, body);
                s
            },
            _ => {
                s
            },
        };
        let s = gen_methods(s, owner, methods, i + 1);
        s
    } else {
        s
    };
    s
}

/// The functions of a program. A generic function has no code of its own, only its
/// copies have; of two functions of one name the last counts.
pub closed spec fn gen_decls(s: CgV, ss: Seq<StmtV>, i: int) -> CgV
    decreases ss.len() - i,
{
    let s = if 0 <= i < ss.len() {
        let s = match ss[i].kind {
            StmtKindV::Fn { name, generics, params, ret, body } => {
                let s = if generics.len() == 0 && !fn_after(ss, name, i + 1) {
                    let s = gen_function(s, "zr."@ + name, ""@, params, ret, body);
                    s
                } else {
                    s
                };
                s
            },
            StmtKindV::Impl { trait_name, for_type, methods } => {
                let s = gen_methods(s, for_type, methods, 0);
                s
            },
            _ => {
                s
            },
        };
        let s = gen_decls(s, ss, i + 1);
        s
    } else {
        s
    };
    s
}

/// Whether a statement declares code that sees the variables of the program.
pub open spec fn declares_code(st: StmtV) -> bool {
    st.kind is Fn || st.kind is Impl
}

/// Whether some statement from the `i`th on declares code.
pub open spec fn has_functions(ss: Seq<StmtV>, i: int) -> bool {
    exists|j: int| i <= j < ss.len() && 0 <= j && declares_code(#[trigger] ss[j])
}

fn with_functions(ss: &Vec<Stmt>) -> (r: bool)
    ensures
        r == has_functions(stmts_view(ss@), 0),
{
    let ghost all = stmts_view(ss@);
    let mut i: usize = 0;
    while i < ss.len()
        invariant
            all == stmts_view(ss@),
            forall|j: int| 0 <= j < i && j < all.len() ==> !declares_code(#[trigger] all[j]),
        decreases ss@.len() - i,
    {
        assert(all[i as int] == ss@[i as int]@);
        assert(ss@[i as int]@.kind == ss@[i as int].kind@);
        if matches!(&ss[i].kind, StmtKind::Fn { .. } | StmtKind::Impl { .. }) {
            assert(declares_code(all[i as int]));
            return true;
        }
        i += 1;
    }
    assert(all.len() == ss@.len());
    false
}

/// The type of a variable of the program.
pub open spec fn global_type(written: TypeV, found: TypeV) -> TypeV {
    if vague(found) && !(written is Inferred) {
        written
    } else if found is Inferred {
        TypeV::Int
    } else {
        found
    }
}

/// The room that a variable of a type takes.
pub open spec fn room_for(t: TypeV) -> Room {
    match t {
        TypeV::Float => Room::Real,
        TypeV::String => Room::Ptr,
        _ => Room::Word,
    }
}

fn room_of(t: &Type) -> (r: Room)
    ensures
        r == room_for(t@),
{
    match t {
        Type::Float => Room::Real,
        Type::String => Room::Ptr,
        _ => Room::Word,
    }
}

fn type_of_global(written: &Type, found: &Type) -> (t: Type)
    ensures
        t@ == global_type(written@, found@),
{
    if is_vague(found) && !matches!(written, Type::Inferred) {
        written.dup()
    } else if matches!(found, Type::Inferred) {
        Type::Int
    } else {
        found.dup()
    }
}

/// The variables that a program declares at top level, from the `i`th statement on.
/// One that is declared again has to keep its type.
pub closed spec fn add_globals(s: CgV, ss: Seq<StmtV>, i: int) -> CgV
    decreases ss.len() - i,
{
    let s = if 0 <= i < ss.len() {
        let s = match ss[i].kind {
            StmtKindV::Let { name, ty, value } => {
                let (s, vt) = known_type(s, value);
                let s = match s.global(name) {
                    Some(g) => {
                        let s = if g.ty == global_type(ty, vt) {
                            s
                        } else {
                            let s = s.refuse("declared with two types: "@ + name);
                            s
                        };
                        s
                    },
                    None => {
                        let s = s.add_global(room_for(global_type(ty, vt)), name, global_type(ty, vt));
                        s
                    },
                };
                s
            },
            _ => {
                s
            },
        };
        let s = add_globals(s, ss, i + 1);
        s
    } else {
        s
    };
    s
}

/// The function that the executable starts with: it runs the statements at top level,
/// and then the program's `main`, if there is one. The variables of a program without
/// functions are locals.
pub closed spec fn gen_main(s: CgV, ss: Seq<StmtV>) -> CgV
{
    let s = s.begin("main"@, Seq::empty(), true);
    let s = if has_functions(ss, 0) {
        let s = gen_stmts(s, ss, 0);
        let s = if fn_after(ss, "main"@, 0) {
            let (s, v) = gen_fn_call(s, "main"@, Seq::empty());
            s
        } else {
            s
        };
        let s = s.emit(OpV::Return(Some(Val::Word(0))), ""@).0;
        s
    } else {
        let s = s.open_scope();
        let s = gen_stmts(s, ss, 0);
        let s = close_scope(s);
        let s = s.emit(OpV::Return(Some(Val::Word(0))), ""@).0;
        s
    };
    let s = s.finish();
    s
}

/// The text functions that are wanted, and those that they want.
pub closed spec fn drain_shows(s: CgV, fuel: int) -> CgV
    decreases fuel,
{
    let s = if 0 < fuel <= MOST_TYPES {
        let s = match show_wanted(s, MOST_TYPES - fuel) {
            Some(t) => {
                let s = make_show(s, t);
                let s = drain_shows(s, fuel - 1);
                s
            },
            None => {
                s
            },
        };
        s
    } else {
        let s = s.refuse("too many types to print"@);
        s
    };
    s
}

/// The release functions that are wanted, and those that they want.
pub closed spec fn drain_releases(s: CgV, fuel: int) -> CgV
    decreases fuel,
{
    let s = if 0 < fuel <= MOST_TYPES {
        let s = match release_wanted(s, MOST_TYPES - fuel) {
            Some(t) => {
                let s = make_release(s, t);
                let s = drain_releases(s, fuel - 1);
                s
            },
            None => {
                s
            },
        };
        s
    } else {
        let s = s.refuse("too many types to release"@);
        s
    };
    s
}

/// All code of a program.
pub closed spec fn gen_program(s: CgV, ss: Seq<StmtV>) -> CgV
{
    let s = if has_functions(ss, 0) {
        let s = add_globals(s, ss, 0);
        s
    } else {
        s
    };
    let s = gen_decls(s, ss, 0);
    let s = gen_main(s, ss);
    let s = gen_rest(s);
    s
}

/// The functions that the code of a program calls besides its own.
pub closed spec fn gen_rest(s: CgV) -> CgV
{
    let s = make_abort(s);
    let s = make_retain(s);
    let s = make_float(s);
    let s = make_chars(s);
    let s = make_char_start(s);
    let s = make_blank(s);
    let s = make_skipped(s);
    let s = make_trimmed(s);
    let s = if s.splits {
        let s = make_split(s);
        s
    } else {
        s
    };
    let s = drain_shows(s, MOST_TYPES as int);
    let s = drain_releases(s, MOST_TYPES as int);
    s
}

impl Codegen {
    /// The parameters of a function, from the `i`th on. Every parameter arrives as a
    /// word; its declared type says how to unpack it. `self` is of the type that the
    /// `impl` is for.
    pub(crate) fn bind_params(&mut self, owner: &str, params: &Vec<(String, Type)>, i: usize)
        requires
            old(self).wf(),
        ensures
            final(self).wf(),
            stays_in(old(self)@, final(self)@),
            final(self)@ == bind_params(old(self)@, owner@, params_view(params@), i as int),
        decreases params@.len() - i,
    {
        assert(params_view(params@).len() == params@.len());
        if i < params.len() {
            assert(params_view(params@)[i as int] == (params@[i as int].0@, params@[i as int].1@));
            let t = param_of(owner, &params[i]);
            let v = self.typed_value(Val::Param(i), &t);
            self.retain_value(v, &t);
            self.bind_local(params[i].0.as_str(), &t, v);
            self.bind_params(owner, params, i + 1);
        }
    }

    /// A function. Falling off its end, it lets go of its locals and returns nothing.
    pub(crate) fn gen_function(&mut self, full: &str, owner: &str, params: &Vec<(String, Type)>, ret: &Type, body: &Vec<Stmt>)
        requires
            old(self).wf(),
        ensures
            final(self).wf(),
            grows(old(self)@, final(self)@),
            final(self)@ == gen_function(old(self)@, full@, owner@, params_view(params@), ret@, stmts_view(body@)),
            has_func(final(self)@.m.done, full@, word_params(params@.len()), !(ret@ is Unit)),
    {
        assert(params_view(params@).len() == params@.len());
        self.begin(full, words_of(params.len()), !matches!(ret, Type::Unit));
        self.open_scope();
        self.bind_params(owner, params, 0);
        self.gen_stmts(body, 0);
        self.close_scope();
        self.gen_end();
        self.finish();
    }

    /// The end of a function that has not returned.
    pub(crate) fn gen_end(&mut self)
        requires
            old(self).wf(),
        ensures
            final(self).wf(),
            stays_in(old(self)@, final(self)@),
            final(self)@ == gen_end(old(self)@),
    {
        if self.gives() {
            let _ = self.emit(Op::Return(Some(Val::Word(0))), "");
        } else {
            let _ = self.emit(Op::Return(None), "");
        }
    }

    /// The methods of an `impl`.
    pub(crate) fn gen_methods(&mut self, owner: &str, methods: &Vec<Stmt>, i: usize)
        requires
            old(self).wf(),
        ensures
            final(self).wf(),
            grows(old(self)@, final(self)@),
            final(self)@ == gen_methods(old(self)@, owner@, stmts_view(methods@), i as int),
            forall|k: int|
                i <= k < methods@.len() ==> has_method_code(
                    final(self)@.m.done,
                    owner@,
                    #[trigger] stmts_view(methods@)[k],
                ),
        decreases methods@.len() - i,
    {
        assert(stmts_view(methods@).len() == methods@.len());
        if i < methods.len() {
            assert(stmts_view(methods@)[i as int] == methods@[i as int]@);
            assert(methods@[i as int]@.kind == methods@[i as int].kind@);
            match &methods[i].kind {
                StmtKind::Fn { name, generics, params, ret, body }  => {
                    let full = cat5("zr.", owner, ".", name.as_str(), "");
                    self.gen_function(full.as_str(), owner, params, ret, body);
                },
                _ => {
                },
            }
            let ghost now = self@;
            assert(has_method_code(now.m.done, owner@, stmts_view(methods@)[i as int]));
            self.gen_methods(owner, methods, i + 1);
            proof {
                lemma_code_stays(now, self@, stmts_view(methods@));
            }
        }
    }

    /// The functions of a program. A generic function has no code of its own, only
    /// its copies have; of two functions of one name the last counts.
    pub(crate) fn gen_decls(&mut self, ss: &Vec<Stmt>, i: usize)
        requires
            old(self).wf(),
        ensures
            final(self).wf(),
            grows(old(self)@, final(self)@),
            final(self)@ == gen_decls(old(self)@, stmts_view(ss@), i as int),
            forall|k: int|
                i <= k < ss@.len() ==> #[trigger] has_code(final(self)@.m.done, stmts_view(ss@), k),
        decreases ss@.len() - i,
    {
        assert(stmts_view(ss@).len() == ss@.len());
        if i < ss.len() {
            assert(stmts_view(ss@)[i as int] == ss@[i as int]@);
            assert(ss@[i as int]@.kind == ss@[i as int].kind@);
            match &ss[i].kind {
                StmtKind::Fn { name, generics, params, ret, body }  => {
                    assert(texts(generics@).len() == generics@.len());
                    if generics.len() == 0 && !has_fn_after(ss, name.as_str(), i + 1) {
                        let full = cat2("zr.", name.as_str());
                        self.gen_function(full.as_str(), "", params, ret, body);
                    }
                },
                StmtKind::Impl { trait_name, for_type, methods }  => {
                    self.gen_methods(for_type.as_str(), methods, 0);
                },
                _ => {
                },
            }
            let ghost now = self@;
            assert(has_code(now.m.done, stmts_view(ss@), i as int));
            self.gen_decls(ss, i + 1);
            proof {
                lemma_code_stays(now, self@, stmts_view(ss@));
            }
        }
    }

    /// The variables that a program declares at top level, from the `i`th statement
    /// on.
    pub(crate) fn add_globals(&mut self, ss: &Vec<Stmt>, i: usize)
        requires
            old(self).wf(),
        ensures
            final(self).wf(),
            grows(old(self)@, final(self)@),
            final(self)@ == add_globals(old(self)@, stmts_view(ss@), i as int),
        decreases ss@.len() - i,
    {
        assert(stmts_view(ss@).len() == ss@.len());
        if i < ss.len() {
            assert(stmts_view(ss@)[i as int] == ss@[i as int]@);
            assert(ss@[i as int]@.kind == ss@[i as int].kind@);
            match &ss[i].kind {
                StmtKind::Let { name, ty, value }  => {
                    let vt = self.known_type(value);
                    let t = type_of_global(ty, &vt);
                    match self.global(name.as_str()) {
                        Some(g) => {
                            if !same_type(&g.ty, &t) {
                                let why = cat2("declared with two types: ", name.as_str());
                                self.refuse(why);
                            }
                        },
                        None => {
                            self.add_global(room_of(&t), name.as_str(), &t);
                        },
                    }
                },
                _ => {
                },
            }
            self.add_globals(ss, i + 1);
        }
    }

    /// The function that the executable starts with: it runs the statements at top
    /// level, and then the program's `main`, if there is one.
    pub(crate) fn gen_main(&mut self, ss: &Vec<Stmt>)
        requires
            old(self).wf(),
        ensures
            final(self).wf(),
            grows(old(self)@, final(self)@),
            final(self)@ == gen_main(old(self)@, stmts_view(ss@)),
            has_func(final(self)@.m.done, "main"@, Seq::empty(), true),
    {
        self.begin("main", words_of(0), true);
        if with_functions(ss) {
            self.gen_stmts(ss, 0);
            if has_fn_after(ss, "main", 0) {
                let none: Vec<Expr> = Vec::new();
                assert(exprs_view(none@) =~= Seq::empty());
                let v = self.gen_fn_call("main", &none);
            }
            let _ = self.emit(Op::Return(Some(Val::Word(0))), "");
        } else {
            self.open_scope();
            self.gen_stmts(ss, 0);
            self.close_scope();
            let _ = self.emit(Op::Return(Some(Val::Word(0))), "");
        }
        self.finish();
    }

    /// The text functions that are wanted, and those that they want.
    pub(crate) fn drain_shows(&mut self, fuel: usize)
        requires
            old(self).wf(),
        ensures
            final(self).wf(),
            grows(old(self)@, final(self)@),
            final(self)@ == drain_shows(old(self)@, fuel as int),
        decreases fuel,
    {
        if fuel > 0 && fuel <= MOST_TYPES {
            match self.show_at(MOST_TYPES - fuel) {
                Some(t) => {
                    self.make_show(&t);
                    self.drain_shows(fuel - 1);
                },
                None => {
                },
            }
        } else {
            self.refuse("too many types to print".to_owned());
        }
    }

    /// The release functions that are wanted, and those that they want.
    pub(crate) fn drain_releases(&mut self, fuel: usize)
        requires
            old(self).wf(),
        ensures
            final(self).wf(),
            grows(old(self)@, final(self)@),
            final(self)@ == drain_releases(old(self)@, fuel as int),
        decreases fuel,
    {
        if fuel > 0 && fuel <= MOST_TYPES {
            match self.release_at(MOST_TYPES - fuel) {
                Some(t) => {
                    self.make_release(&t);
                    self.drain_releases(fuel - 1);
                },
                None => {
                },
            }
        } else {
            self.refuse("too many types to release".to_owned());
        }
    }

    /// All code of a program.
    pub(crate) fn gen_program(&mut self, ss: &Vec<Stmt>)
        requires
            old(self).wf(),
        ensures
            final(self).wf(),
            grows(old(self)@, final(self)@),
            final(self)@ == gen_program(old(self)@, stmts_view(ss@)),
            covers_program(final(self)@.m.done, stmts_view(ss@)),
    {
        if with_functions(ss) {
            self.add_globals(ss, 0);
        }
        self.gen_decls(ss, 0);
        let ghost declared = self@;
        self.gen_main(ss);
        let ghost started = self@;
        self.make_abort();
        self.make_retain();
        self.make_float();
        self.make_chars();
        self.make_char_start();
        self.make_blank();
        self.make_skipped();
        self.make_trimmed();
        if self.splits() {
            self.make_split();
        }
        self.drain_shows(MOST_TYPES);
        self.drain_releases(MOST_TYPES);
        proof {
            assert(stmts_view(ss@).len() == ss@.len());
            lemma_code_stays(declared, started, stmts_view(ss@));
            lemma_code_stays(started, self@, stmts_view(ss@));
        }
    }
}

/// The native code of a program, or why there is none.
pub open spec fn compiled(ss: Seq<StmtV>, path: Seq<char>, src: Seq<char>) -> Result<
    ModuleV,
    Seq<char>,
> {
    let plain = unfolded_program(ss);
    let s = gen_program(CgV::new(plain, path, src), plain);
    match s.failure {
        Some(why) => Err(why),
        None => Ok(s.m),
    }
}

/// Compile a program that type-checks and in which no generic function is left
/// called. A failure at run time is reported against its source, which is given
/// with the path that it came from.
pub fn compile_to_module(program: &Program, path: &str, src: &str) -> (r: Result<Module, String>)
    ensures
        match compiled(program@, path@, src@) {
            Ok(m) => r is Ok && r->Ok_0@ == m,
            Err(why) => r is Err && r->Err_0@ == why,
        },
        r is Ok ==> r->Ok_0@.sound(),
        r is Ok ==> covers_program(r->Ok_0@.done, unfolded_program(program@)),
{
    let plain = expand_macros_program(program);
    let mut cg = Codegen::new(&plain, path, src);
    cg.gen_program(&plain.stmts);
    cg.into_module()
}

// ---- a program that is its `main` ----

/// A program that declares a `main` without parameters and result, and nothing else.
pub open spec fn only_main(ss: Seq<StmtV>) -> bool {
    ss.len() == 1 && (ss[0].kind matches StmtKindV::Fn { name, generics, params, ret, .. } && name
        == "main"@ && generics.len() == 0 && params.len() == 0 && ret is Unit)
}

/// What such a program runs.
pub open spec fn main_body(ss: Seq<StmtV>) -> Seq<StmtV> {
    match ss[0].kind {
        StmtKindV::Fn { body, .. } => body,
        _ => Seq::empty(),
    }
}

/// Before the code of its statements.
pub open spec fn main_start(ss: Seq<StmtV>, path: Seq<char>, src: Seq<char>) -> CgV {
    CgV::new(ss, path, src).begin("zr."@ + "main"@, word_params(0), false).open_scope()
}

/// After the code of its statements.
pub open spec fn main_stmts(ss: Seq<StmtV>, path: Seq<char>, src: Seq<char>) -> CgV {
    gen_stmts(main_start(ss, path, src), main_body(ss), 0)
}

proof fn lemma_shows_grow(s: CgV, fuel: int)
    ensures
        module_grows(s, drain_shows(s, fuel)),
    decreases fuel,
{
    broadcast use group_module_keeps;

    if 0 < fuel <= MOST_TYPES {
        match show_wanted(s, MOST_TYPES - fuel) {
            Some(t) => {
                lemma_show_grows(s, t);
                lemma_shows_grow(make_show(s, t), fuel - 1);
            },
            None => {},
        }
    }
}

proof fn lemma_releases_grow(s: CgV, fuel: int)
    ensures
        module_grows(s, drain_releases(s, fuel)),
    decreases fuel,
{
    broadcast use group_module_keeps;

    if 0 < fuel <= MOST_TYPES {
        match release_wanted(s, MOST_TYPES - fuel) {
            Some(t) => {
                lemma_release_grows(s, t);
                lemma_releases_grow(make_release(s, t), fuel - 1);
            },
            None => {},
        }
    }
}

/// What follows the code of the program leaves it as it is.
proof fn lemma_rest_grows(s: CgV)
    ensures
        module_grows(s, gen_rest(s)),
{
    lemma_runtime_grows(s);
    let s1 = make_abort(s);
    lemma_runtime_grows(s1);
    let s2 = make_retain(s1);
    lemma_float_grows(s2);
    let s3 = make_float(s2);
    lemma_runtime_grows(s3);
    let s4 = make_chars(s3);
    lemma_runtime_grows(s4);
    let s5 = make_char_start(s4);
    lemma_runtime_grows(s5);
    let s6 = make_blank(s5);
    lemma_runtime_grows(s6);
    let s7 = make_skipped(s6);
    lemma_trimmed_grows(s7);
    let s8 = make_trimmed(s7);
    lemma_split_grows(s8);
    let s9 = if s8.splits {
        make_split(s8)
    } else {
        s8
    };
    lemma_shows_grow(s9, MOST_TYPES as int);
    lemma_releases_grow(drain_shows(s9, MOST_TYPES as int), MOST_TYPES as int);
}

/// The function for `main`, and the function that the executable starts with.
#[verifier::rlimit(60)]
pub proof fn lemma_main_alone(ss: Seq<StmtV>, path: Seq<char>, src: Seq<char>)
    requires
        only_main(ss),
        close_scope(main_stmts(ss, path, src)).m == main_stmts(ss, path, src).m,
        close_scope(main_stmts(ss, path, src)).types.functions == declared(ss).functions,
        main_stmts(ss, path, src).m.done.len() == 0,
        !main_stmts(ss, path, src).m.func.gives,
        main_stmts(ss, path, src).m.func.name == "zr."@ + "main"@,
        compiled(ss, path, src) is Ok,
    ensures
        ({
            let m = compiled(ss, path, src)->Ok_0;
            let t = main_stmts(ss, path, src);
            let f = t.m.func.push(t.m.at, OpV::Return(None), ""@);
            &&& m.done.len() >= 2
            &&& m.done[0] == f.seal(0)
            &&& m.done[1].name == "main"@
            &&& m.done[1].insts.len() == 2
            &&& m.done[1].insts[0] == (InstV {
                block: 0,
                name: ""@,
                op: OpV::Run("zr."@ + "main"@, Seq::empty()),
            })
            &&& m.done[1].insts[1] == (InstV {
                block: 0,
                name: ""@,
                op: OpV::Return(Some(Val::Word(0))),
            })
            &&& t.m.texts.is_prefix_of(m.texts)
        }),
{
    broadcast use group_module_keeps;

    law_program_without_macros(ss);
    let new = CgV::new(ss, path, src);
    lemma_fresh_state(ss, path, src, new);
    assert(declares_code(ss[0]) && declares_fn(ss[0], "main"@));
    assert(has_functions(ss, 0));
    assert(fn_after(ss, "main"@, 0));
    assert(!fn_after(ss, "main"@, 1));
    assert(add_globals(new, ss, 1) == new);
    assert(add_globals(new, ss, 0) == new);
    let full = "zr."@ + "main"@;
    let body = main_body(ss);
    let s1 = new.begin(full, word_params(0), false);
    let s2 = main_start(ss, path, src);
    let t = main_stmts(ss, path, src);
    let c = close_scope(t);
    lemma_fresh_state(ss, path, src, c);
    lemma_blocks(c, OpV::Return(None), ""@, 0, arbitrary());
    let e = c.emit(OpV::Return(None), ""@).0;
    let d = e.finish();
    lemma_function(e, ""@, Seq::empty(), false);
    let params = match ss[0].kind {
        StmtKindV::Fn { params, .. } => params,
        _ => Seq::empty(),
    };
    assert(bind_params(s2, ""@, params, 0) == s2);
    assert(gen_function(new, full, ""@, params, TypeV::Unit, body) == d);
    assert(gen_decls(d, ss, 1) == d);
    assert(gen_decls(new, ss, 0) == d);
    let b = d.begin("main"@, Seq::empty(), true);
    lemma_function(d, "main"@, Seq::empty(), true);
    lemma_left(b);
    lemma_declaration(b, ss);
    let g = gen_stmts(b, ss, 0);
    lemma_only_fn(ss);
    lemma_bare_call(g, "main"@);
    let run = OpV::Run(full, Seq::empty());
    lemma_blocks(g, run, ""@, 0, arbitrary());
    let h = g.emit(run, ""@).0;
    let ret = OpV::Return(Some(Val::Word(0)));
    lemma_blocks(h, ret, ""@, 0, arbitrary());
    let i = h.emit(ret, ""@).0;
    lemma_function(i, ""@, Seq::empty(), false);
    assert(gen_main(d, ss) == i.finish());
    lemma_seal_left(i.m.func);
    lemma_rest_grows(i.finish());
    let last = gen_rest(i.finish());
    assert(gen_program(new, ss) == last);
    assert(last.m.done[0] == i.finish().m.done[0]);
    assert(last.m.done[1] == i.finish().m.done[1]);
    assert(t.m.texts =~= last.m.texts.subrange(0, t.m.texts.len() as int));
}

proof fn lemma_only_fn(ss: Seq<StmtV>)
    requires
        only_main(ss),
    ensures
        fn_ret(declared(ss), "main"@) == Some(TypeV::Unit),
{
    assert(ss.last() == ss[0]);
}

/// A function of one block that has been left is complete.
proof fn lemma_seal_left(f: FuncV)
    requires
        f.blocks.len() == 1,
        f.blocks[0].1,
    ensures
        f.seal(0) == f,
{
    assert(f.push(0, OpV::Unreachable, ""@) == f);
    assert(f.seal(1) == f);
}

/// The parameters of a function are its locals: the `i`th holds the `i`th word that the
/// caller hands over.
pub proof fn law_parameter_code(
    s: CgV,
    owner: Seq<char>,
    params: Seq<(Seq<char>, TypeV)>,
    i: int,
)
    requires
        0 <= i < params.len(),
        i <= usize::MAX,
        params[i].0 != "self"@,
    ensures
        ({
            let (name, ty) = params[i];
            let (s1, v) = typed_value(s, Val::Param(i as usize), ty);
            bind_params(s, owner, params, i) == bind_params(
                bind_local(retain_value(s1, v, ty), name, ty, v),
                owner,
                params,
                i + 1,
            )
        }),
{
}

/// A function is made under its name, with a word for each parameter; its parameters are
/// bound before its statements, and it ends with a return.
pub proof fn law_function_code(
    s: CgV,
    full: Seq<char>,
    owner: Seq<char>,
    params: Seq<(Seq<char>, TypeV)>,
    ret: TypeV,
    body: Seq<StmtV>,
)
    ensures
        ({
            let s1 = s.begin(full, Seq::new(params.len(), |i: int| Ty::Word), !(ret is Unit));
            let s2 = bind_params(s1.open_scope(), owner, params, 0);
            let s3 = close_scope(gen_stmts(s2, body, 0));
            gen_function(s, full, owner, params, ret, body) == s3.emit(
                OpV::Return(
                    if s3.gives() {
                        Some(Val::Word(0))
                    } else {
                        None
                    },
                ),
                ""@,
            ).0.finish()
        }),
{
    assert(word_params(params.len()) =~= Seq::new(params.len(), |i: int| Ty::Word));
}

} // verus!
