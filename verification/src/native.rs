//! What the native backend keeps while it makes code: the module that it
//! fills, the names in scope, the loops it stands in, and the functions that
//! are still to be made.

use crate::ast::{Expr, ExprV, Program, Type, TypeV};
use crate::diagnostic::{Diagnostic, DiagnosticV, Span};
use crate::env::TypeEnv;
use crate::ir::{
    law_finish_keeps_signature, law_modules_stay_sound, law_new_function_is_ordered,
    law_push_keeps_order, FuncV, InstV, Module, ModuleV, Op, OpV, Room, Ty, Val,
};
use crate::ir_semantics::{
    computed, given, is_fresh, law_later_code_does_not_matter, law_runs_compose, operand, run,
    Datum, Memory, Outcome,
};
use crate::text::{chars_of, str_eq};
use crate::typecheck::TypeChecker;
use crate::types::same_type;
use crate::typing::{check_expr, declared, EnvV, TypeErrorV};
use vstd::prelude::*;

verus! {

/// A value of the program while code is made: where it is, and in which form.
#[derive(Debug, Clone, Copy, PartialEq, Eq, Structural)]
pub enum CgValue {
    Int(Val),
    Float(Val),
    Str(Val),
}

/// A local: where it lives, and the type that says how to read it back. A
/// local owns what it holds.
pub struct Local {
    pub name: String,
    pub slot: Val,
    pub ty: Type,
}

/// The model of a `Local`.
pub struct LocalV {
    pub name: Seq<char>,
    pub slot: Val,
    pub ty: TypeV,
}

impl Local {
    pub open spec fn view(&self) -> LocalV {
        LocalV { name: self.name@, slot: self.slot, ty: self.ty@ }
    }

    pub fn dup(&self) -> (r: Self)
        ensures
            r@ == self@,
    {
        Local { name: self.name.clone(), slot: self.slot, ty: self.ty.dup() }
    }
}

pub open spec fn locals_view(s: Seq<Local>) -> Seq<LocalV> {
    s.map_values(|l: Local| l@)
}

pub open spec fn scopes_of(s: Seq<Vec<Local>>) -> Seq<Seq<LocalV>> {
    s.map_values(|v: Vec<Local>| locals_view(v@))
}

pub open spec fn types_of(s: Seq<Type>) -> Seq<TypeV> {
    s.map_values(|t: Type| t@)
}

/// A loop that code is being made for: where a `break` and a `continue` go,
/// how many scopes stay open there, and where a `break` leaves its value.
#[derive(Debug, Clone, Copy, PartialEq, Eq, Structural)]
pub struct LoopCtx {
    pub exit: usize,
    pub next: usize,
    pub depth: usize,
    pub result: Option<Val>,
}

/// A variable of the program: where it is, and where it says whether it has been
/// declared.
pub struct Global {
    pub name: String,
    pub place: Val,
    pub flag: Val,
    pub ty: Type,
}

/// The model of a `Global`.
pub struct GlobalV {
    pub name: Seq<char>,
    pub place: Val,
    pub flag: Val,
    pub ty: TypeV,
}

impl Global {
    pub open spec fn view(&self) -> GlobalV {
        GlobalV { name: self.name@, place: self.place, flag: self.flag, ty: self.ty@ }
    }

    fn dup(&self) -> (r: Self)
        ensures
            r@ == self@,
    {
        Global {
            name: self.name.clone(),
            place: self.place,
            flag: self.flag,
            ty: self.ty.dup(),
        }
    }
}

pub open spec fn globals_view(s: Seq<Global>) -> Seq<GlobalV> {
    s.map_values(|g: Global| g@)
}

/// The innermost loop that has a value.
pub open spec fn value_loop_of(loops: Seq<LoopCtx>) -> Option<LoopCtx>
    decreases loops.len(),
{
    if loops.len() == 0 {
        None
    } else if loops.last().result is Some {
        Some(loops.last())
    } else {
        value_loop_of(loops.drop_last())
    }
}

/// The variable of a name.
pub open spec fn global_in(gs: Seq<GlobalV>, name: Seq<char>) -> Option<GlobalV>
    decreases gs.len(),
{
    if gs.len() == 0 {
        None
    } else if gs.last().name == name {
        Some(gs.last())
    } else {
        global_in(gs.drop_last(), name)
    }
}

/// The model of a `Codegen`.
pub struct CgV {
    pub m: ModuleV,
    pub types: EnvV,
    pub scopes: Seq<Seq<LocalV>>,
    /// The variables of the program. Next to each stands a word that says
    /// whether it has been declared.
    pub globals: Seq<GlobalV>,
    pub loops: Seq<LoopCtx>,
    /// The types whose release functions are wanted, and those whose text
    /// functions are.
    pub releases: Seq<TypeV>,
    pub shows: Seq<TypeV>,
    pub splits: bool,
    pub span: Span,
    /// Whether a value is being built that is consumed on the spot. What is
    /// allocated then goes on the frame.
    pub transient: bool,
    pub path: Seq<char>,
    pub src: Seq<char>,
    /// Why native code cannot be made for the program, if that was found.
    pub failure: Option<Seq<char>>,
}

/// The native backend.
pub struct Codegen {
    module: Module,
    types: TypeEnv,
    scopes: Vec<Vec<Local>>,
    globals: Vec<Global>,
    loops: Vec<LoopCtx>,
    releases: Vec<Type>,
    shows: Vec<Type>,
    splits: bool,
    span: Span,
    transient: bool,
    path: String,
    src: String,
    failure: Option<String>,
}

/// A diagnostic as a format of `printf`: a percent sign stands for itself, and
/// two marks for a number and for a string that are known at run time only.
pub open spec fn format_text(t: Seq<char>) -> Seq<char>
    decreases t.len(),
{
    if t.len() == 0 {
        Seq::empty()
    } else {
        let rest = format_text(t.drop_last());
        if t.last() == '%' {
            rest + "%%"@
        } else if t.last() == '\u{1}' {
            rest + "%ld"@
        } else if t.last() == '\u{2}' {
            rest + "%s"@
        } else {
            rest.push(t.last())
        }
    }
}

fn to_format(t: &str) -> (r: String)
    ensures
        r@ == format_text(t@),
{
    let chars = chars_of(t);
    let mut out = String::new();
    let mut i: usize = 0;
    assert(chars@.take(0) =~= Seq::empty());
    while i < chars.len()
        invariant
            i <= chars@.len(),
            out@ == format_text(chars@.take(i as int)),
        decreases chars@.len() - i,
    {
        assert(chars@.take(i + 1).drop_last() =~= chars@.take(i as int));
        if chars[i] == '%' {
            out.append("%%");
        } else if chars[i] == '\u{1}' {
            out.append("%ld");
        } else if chars[i] == '\u{2}' {
            out.append("%s");
        } else {
            out.push(chars[i]);
        }
        i += 1;
    }
    assert(chars@.take(i as int) =~= chars@);
    out
}

/// The last local of a name in a scope.
pub open spec fn local_in(scope: Seq<LocalV>, name: Seq<char>) -> Option<LocalV>
    decreases scope.len(),
{
    if scope.len() == 0 {
        None
    } else if scope.last().name == name {
        Some(scope.last())
    } else {
        local_in(scope.drop_last(), name)
    }
}

/// The innermost local of a name.
pub open spec fn local_of(scopes: Seq<Seq<LocalV>>, name: Seq<char>) -> Option<LocalV>
    decreases scopes.len(),
{
    if scopes.len() == 0 {
        None
    } else {
        match local_in(scopes.last(), name) {
            Some(l) => Some(l),
            None => local_of(scopes.drop_last(), name),
        }
    }
}

impl CgV {
    pub closed spec fn emit(self, op: OpV, name: Seq<char>) -> (CgV, Val) {
        (CgV { m: self.m.emit(op, name).0, ..self }, self.m.emit(op, name).1)
    }

    pub closed spec fn block(self, name: Seq<char>) -> (CgV, usize) {
        (CgV { m: self.m.block(name).0, ..self }, self.m.block(name).1)
    }

    pub closed spec fn position(self, b: usize) -> CgV {
        CgV { m: self.m.position(b), ..self }
    }

    pub closed spec fn slot(self, room: Room, name: Seq<char>) -> (CgV, Val) {
        (CgV { m: self.m.slot(room, name).0, ..self }, self.m.slot(room, name).1)
    }

    /// A constant C string.
    pub closed spec fn text(self, t: Seq<char>) -> (CgV, Val) {
        (CgV { m: self.m.text(t).0, ..self }, Val::Text(self.m.text(t).1))
    }

    /// A string constant, laid out like a heap value so that it can be held in
    /// a variable and released like one. The release does nothing to it.
    pub closed spec fn string_global(self, t: Seq<char>) -> (CgV, Val) {
        (CgV { m: self.m.text(t).0, ..self }, Val::Str(self.m.text(t).1))
    }

    pub closed spec fn number(self, t: Seq<char>) -> (CgV, Val) {
        (CgV { m: self.m.number(t).0, ..self }, self.m.number(t).1)
    }

    pub closed spec fn begin(self, name: Seq<char>, params: Seq<Ty>, gives: bool) -> CgV {
        CgV { m: self.m.begin(name, params, gives), ..self }
    }

    pub closed spec fn finish(self) -> CgV {
        CgV { m: self.m.finish(), ..self }
    }

    pub closed spec fn left(self) -> bool {
        self.m.is_left()
    }

    pub closed spec fn here(self) -> usize {
        self.m.at
    }

    /// Whether the function that is being made gives a value.
    pub closed spec fn gives(self) -> bool {
        self.m.func.gives
    }

    pub closed spec fn open_scope(self) -> CgV {
        CgV {
            scopes: self.scopes.push(Seq::empty()),
            types: self.types.push_scope(),
            ..self
        }
    }

    /// The innermost scope goes, with its names.
    pub closed spec fn drop_scope(self) -> CgV {
        if self.scopes.len() == 0 {
            self
        } else {
            CgV { scopes: self.scopes.drop_last(), types: self.types.pop_scope(), ..self }
        }
    }

    pub closed spec fn declare(self, name: Seq<char>, slot: Val, ty: TypeV) -> CgV {
        if self.scopes.len() == 0 {
            self
        } else {
            CgV {
                scopes: self.scopes.update(
                    self.scopes.len() - 1,
                    self.scopes.last().push(LocalV { name, slot, ty }),
                ),
                types: self.types.define(name, ty),
                ..self
            }
        }
    }

    pub open spec fn local(self, name: Seq<char>) -> Option<LocalV> {
        local_of(self.scopes, name)
    }

    pub open spec fn global(self, name: Seq<char>) -> Option<GlobalV> {
        global_in(self.globals, name)
    }

    /// One more variable of the program, with its type in the scope that all
    /// functions see.
    pub closed spec fn add_global(self, room: Room, name: Seq<char>, ty: TypeV) -> CgV {
        let (m1, place) = self.m.global(room, name);
        let (m2, flag) = m1.global(Room::Word, name);
        CgV {
            m: m2,
            globals: self.globals.push(GlobalV { name, place, flag, ty }),
            types: self.types.define(name, ty),
            ..self
        }
    }

    pub closed spec fn set_transient(self, on: bool) -> CgV {
        CgV { transient: on, ..self }
    }

    pub closed spec fn set_span(self, span: Span) -> CgV {
        CgV { span, ..self }
    }

    /// Native code cannot be made for the program. The first reason stays.
    pub closed spec fn refuse(self, why: Seq<char>) -> CgV {
        CgV {
            failure: match self.failure {
                Some(w) => Some(w),
                None => Some(why),
            },
            ..self
        }
    }

    pub closed spec fn push_loop(self, l: LoopCtx) -> CgV {
        CgV { loops: self.loops.push(l), ..self }
    }

    pub closed spec fn pop_loop(self) -> CgV {
        if self.loops.len() == 0 {
            self
        } else {
            CgV { loops: self.loops.drop_last(), ..self }
        }
    }

    pub open spec fn top_loop(self) -> Option<LoopCtx> {
        if self.loops.len() == 0 {
            None
        } else {
            Some(self.loops.last())
        }
    }

    /// The innermost loop that has a value.
    pub open spec fn value_loop(self) -> Option<LoopCtx> {
        value_loop_of(self.loops)
    }

    /// The declared or inferred type of an expression.
    pub closed spec fn type_of(self, e: ExprV) -> (CgV, Option<TypeV>) {
        (
            CgV { types: check_expr(e, self.types).1, ..self },
            match check_expr(e, self.types).0 {
                Ok(t) => Some(t),
                Err(_) => None,
            },
        )
    }

    pub closed spec fn want_release(self, ty: TypeV) -> CgV {
        if self.releases.contains(ty) {
            self
        } else {
            CgV { releases: self.releases.push(ty), ..self }
        }
    }

    pub closed spec fn want_show(self, ty: TypeV) -> CgV {
        if self.shows.contains(ty) {
            self
        } else {
            CgV { shows: self.shows.push(ty), ..self }
        }
    }

    pub closed spec fn want_split(self) -> CgV {
        CgV { splits: true, ..self }
    }

    /// The diagnostic of a failure at the current statement, as a format.
    pub closed spec fn abort_text(self, message: Seq<char>) -> Seq<char> {
        format_text(
            crate::diagnostic::rendered(
                DiagnosticV { message, span: self.span },
                self.path,
                self.src,
            ),
        )
    }

    /// Before any code is made.
    pub closed spec fn new(program: Seq<crate::ast::StmtV>, path: Seq<char>, src: Seq<char>) -> CgV {
        CgV {
            m: ModuleV::new(),
            types: declared(program),
            scopes: Seq::empty(),
            globals: Seq::empty(),
            loops: Seq::empty(),
            releases: Seq::empty(),
            shows: Seq::empty(),
            splits: false,
            span: Span { line: 1, col: 1 },
            transient: false,
            path,
            src,
            failure: None,
        }
    }
}

/// Code was added to the same function: the functions that are done, the
/// signature of the one being made, the number of open scopes and the loops are
/// as before.
pub open spec fn stays_in(before: CgV, after: CgV) -> bool {
    &&& after.m.done == before.m.done
    &&& after.m.func.name == before.m.func.name
    &&& after.m.func.params == before.m.func.params
    &&& after.m.func.gives == before.m.func.gives
    &&& after.scopes.len() == before.scopes.len()
    &&& after.loops == before.loops
}

/// Functions were added: those that were done are still there, and the number
/// of open scopes and the loops are as before.
pub open spec fn grows(before: CgV, after: CgV) -> bool {
    &&& after.scopes.len() == before.scopes.len()
    &&& after.loops == before.loops
    &&& before.m.done.len() <= after.m.done.len()
    &&& forall|k: int|
        0 <= k < before.m.done.len() ==> #[trigger] after.m.done[k] == before.m.done[k]
}

/// Some function has a signature.
pub open spec fn has_func(done: Seq<FuncV>, name: Seq<char>, params: Seq<Ty>, gives: bool) -> bool {
    exists|k: int|
        0 <= k < done.len() && (#[trigger] done[k]).name == name && done[k].params == params
            && done[k].gives == gives
}

fn has_type(ts: &Vec<Type>, ty: &Type) -> (r: bool)
    ensures
        r == types_of(ts@).contains(ty@),
{
    let mut i: usize = 0;
    while i < ts.len()
        invariant
            i <= ts@.len(),
            forall|j: int| 0 <= j < i ==> types_of(ts@)[j] != ty@,
        decreases ts@.len() - i,
    {
        assert(types_of(ts@)[i as int] == ts@[i as int]@);
        if same_type(&ts[i], ty) {
            return true;
        }
        i += 1;
    }
    false
}

fn find_in_scope(scope: &Vec<Local>, name: &str) -> (r: Option<Local>)
    ensures
        match local_in(locals_view(scope@), name@) {
            Some(l) => r is Some && r->Some_0@ == l,
            None => r is None,
        },
{
    let ghost all = locals_view(scope@);
    let mut i: usize = scope.len();
    assert(all.take(i as int) =~= all);
    while i > 0
        invariant
            i <= scope@.len(),
            all == locals_view(scope@),
            local_in(all.take(i as int), name@) == local_in(all, name@),
        decreases i,
    {
        proof {
            assert(all.take(i as int).drop_last() =~= all.take(i - 1));
            assert(all.take(i as int).last() == scope@[i - 1]@);
        }
        i -= 1;
        if str_eq(scope[i].name.as_str(), name) {
            return Some(scope[i].dup());
        }
    }
    None
}

impl Codegen {
    pub closed spec fn view(&self) -> CgV {
        CgV {
            m: self.module@,
            types: self.types@,
            scopes: scopes_of(self.scopes@),
            globals: globals_view(self.globals@),
            loops: self.loops@,
            releases: types_of(self.releases@),
            shows: types_of(self.shows@),
            splits: self.splits,
            span: self.span,
            transient: self.transient,
            path: self.path@,
            src: self.src@,
            failure: match self.failure {
                Some(w) => Some(w@),
                None => None,
            },
        }
    }

    /// There are scopes of types for all scopes of names, and the code made so
    /// far is sound.
    pub closed spec fn wf(&self) -> bool {
        self.types@.scopes.len() > self.scopes@.len() && self.module@.sound()
    }

    pub fn new(program: &Program, path: &str, src: &str) -> (cg: Self)
        ensures
            cg.wf(),
            cg@ == CgV::new(program@, path@, src@),
    {
        let cg = Codegen {
            module: Module::new(),
            types: TypeChecker::env_for(program),
            scopes: Vec::new(),
            globals: Vec::new(),
            loops: Vec::new(),
            releases: Vec::new(),
            shows: Vec::new(),
            splits: false,
            span: Span::new(1, 1),
            transient: false,
            path: path.to_owned(),
            src: src.to_owned(),
            failure: None,
        };
        assert(scopes_of(cg.scopes@) =~= Seq::empty());
        assert(globals_view(cg.globals@) =~= Seq::empty());
        assert(types_of(cg.releases@) =~= Seq::empty());
        assert(types_of(cg.shows@) =~= Seq::empty());
        proof {
            law_new_function_is_ordered(""@, Seq::empty(), false);
        }
        cg
    }

    /// The module, or why there is none.
    pub(crate) fn into_module(self) -> (r: Result<Module, String>)
        requires
            self.wf(),
        ensures
            r is Ok ==> r->Ok_0@.sound(),
            match self@.failure {
                Some(w) => r is Err && r->Err_0@ == w,
                None => r is Ok && r->Ok_0@ == self@.m,
            },
    {
        match self.failure {
            Some(w) => Err(w),
            None => Ok(self.module),
        }
    }

    pub(crate) fn types(&self) -> (r: &TypeEnv)
        ensures
            r@ == self@.types,
    {
        &self.types
    }

    pub(crate) fn emit(&mut self, op: Op, name: &str) -> (r: Val)
        requires
            old(self).wf(),
        ensures
            final(self).wf(),
            stays_in(old(self)@, final(self)@),
            (final(self)@, r) == old(self)@.emit(op@, name@),
    {
        proof {
            law_modules_stay_sound(self.module@, op@, name@, Seq::empty(), false);
        }
        self.module.emit(op, name)
    }

    pub(crate) fn block(&mut self, name: &str) -> (b: usize)
        requires
            old(self).wf(),
        ensures
            final(self).wf(),
            stays_in(old(self)@, final(self)@),
            (final(self)@, b) == old(self)@.block(name@),
    {
        proof {
            law_modules_stay_sound(self.module@, OpV::Unreachable, name@, Seq::empty(), false);
        }
        self.module.block(name)
    }

    pub(crate) fn position(&mut self, b: usize)
        requires
            old(self).wf(),
        ensures
            final(self).wf(),
            stays_in(old(self)@, final(self)@),
            final(self)@ == old(self)@.position(b),
    {
        self.module.position(b);
    }

    /// A slot of the function's frame, so a buffer inside a loop is reserved
    /// once for the frame rather than on every iteration.
    pub(crate) fn slot(&mut self, room: Room, name: &str) -> (r: Val)
        requires
            old(self).wf(),
        ensures
            final(self).wf(),
            stays_in(old(self)@, final(self)@),
            (final(self)@, r) == old(self)@.slot(room, name@),
    {
        self.module.slot(room, name)
    }

    pub(crate) fn text(&mut self, t: &str) -> (r: Val)
        requires
            old(self).wf(),
        ensures
            final(self).wf(),
            stays_in(old(self)@, final(self)@),
            (final(self)@, r) == old(self)@.text(t@),
    {
        Val::Text(self.module.text(t))
    }

    pub(crate) fn string_global(&mut self, t: &str) -> (r: Val)
        requires
            old(self).wf(),
        ensures
            final(self).wf(),
            stays_in(old(self)@, final(self)@),
            (final(self)@, r) == old(self)@.string_global(t@),
    {
        Val::Str(self.module.text(t))
    }

    pub(crate) fn number(&mut self, t: &str) -> (r: Val)
        requires
            old(self).wf(),
        ensures
            final(self).wf(),
            stays_in(old(self)@, final(self)@),
            (final(self)@, r) == old(self)@.number(t@),
    {
        self.module.number(t)
    }

    pub(crate) fn begin(&mut self, name: &str, params: Vec<Ty>, gives: bool)
        requires
            old(self).wf(),
        ensures
            final(self).wf(),
            final(self)@ == old(self)@.begin(name@, params@, gives),
            grows(old(self)@, final(self)@),
            final(self)@.m.done == old(self)@.m.done,
            final(self)@.m.func.name == name@,
            final(self)@.m.func.params == params@,
            final(self)@.m.func.gives == gives,
    {
        proof {
            law_modules_stay_sound(self.module@, OpV::Unreachable, name@, params@, gives);
        }
        self.module.begin(name, params, gives);
    }

    pub(crate) fn finish(&mut self)
        requires
            old(self).wf(),
        ensures
            final(self).wf(),
            final(self)@ == old(self)@.finish(),
            grows(old(self)@, final(self)@),
            has_func(
                final(self)@.m.done,
                old(self)@.m.func.name,
                old(self)@.m.func.params,
                old(self)@.m.func.gives,
            ),
    {
        proof {
            law_finish_keeps_signature(self.module@);
            let done = self.module@.finish().done;
            assert(done[done.len() - 1].name == self.module@.func.name);
            law_modules_stay_sound(self.module@, OpV::Unreachable, ""@, Seq::empty(), false);
        }
        self.module.finish();
    }

    pub(crate) fn left(&self) -> (r: bool)
        ensures
            r == self@.left(),
    {
        self.module.is_left()
    }

    pub(crate) fn here(&self) -> (b: usize)
        ensures
            b == self@.here(),
    {
        self.module.at
    }

    pub(crate) fn gives(&self) -> (r: bool)
        ensures
            r == self@.gives(),
    {
        self.module.func.gives
    }

    pub(crate) fn open_scope(&mut self)
        requires
            old(self).wf(),
        ensures
            final(self).wf(),
            final(self)@ == old(self)@.open_scope(),
            final(self)@.scopes.len() == old(self)@.scopes.len() + 1,
            stays_in(CgV { scopes: final(self)@.scopes, ..old(self)@ }, final(self)@),
    {
        let ghost before = self.scopes@;
        let scope: Vec<Local> = Vec::new();
        self.scopes.push(scope);
        self.types.push_scope();
        assert(locals_view(scope@) =~= Seq::empty());
        assert(scopes_of(self.scopes@) =~= scopes_of(before).push(Seq::empty()));
    }

    pub(crate) fn drop_scope(&mut self)
        requires
            old(self).wf(),
        ensures
            final(self).wf(),
            final(self)@ == old(self)@.drop_scope(),
            old(self)@.scopes.len() > 0 ==> final(self)@.scopes.len() == old(self)@.scopes.len() - 1,
            stays_in(CgV { scopes: final(self)@.scopes, ..old(self)@ }, final(self)@),
    {
        let ghost before = self.scopes@;
        match self.scopes.pop() {
            Some(_) => {
                self.types.pop_scope();
                assert(scopes_of(self.scopes@) =~= scopes_of(before).drop_last());
            },
            None => {},
        }
    }

    pub(crate) fn declare(&mut self, name: &str, slot: Val, ty: &Type)
        requires
            old(self).wf(),
        ensures
            final(self).wf(),
            stays_in(old(self)@, final(self)@),
            final(self)@ == old(self)@.declare(name@, slot, ty@),
    {
        let ghost before = self.scopes@;
        match self.scopes.pop() {
            Some(scope) => {
                let mut scope = scope;
                let ghost inner = scope@;
                let l = Local { name: name.to_owned(), slot, ty: ty.dup() };
                let ghost lv = l@;
                scope.push(l);
                assert(locals_view(scope@) =~= locals_view(inner).push(lv));
                self.scopes.push(scope);
                self.types.define(name, ty.dup());
                assert(scopes_of(self.scopes@) =~= scopes_of(before).update(
                    before.len() - 1,
                    scopes_of(before).last().push(lv),
                ));
            },
            None => {},
        }
    }

    pub(crate) fn value_loop(&self) -> (r: Option<LoopCtx>)
        ensures
            r == self@.value_loop(),
    {
        let mut i: usize = self.loops.len();
        assert(self.loops@.take(i as int) =~= self.loops@);
        while i > 0
            invariant
                i <= self.loops@.len(),
                value_loop_of(self.loops@.take(i as int)) == value_loop_of(self.loops@),
            decreases i,
        {
            proof {
                assert(self.loops@.take(i as int).drop_last() =~= self.loops@.take(i - 1));
            }
            i -= 1;
            if self.loops[i].result.is_some() {
                return Some(self.loops[i]);
            }
        }
        None
    }

    pub(crate) fn get_span(&self) -> (r: Span)
        ensures
            r == self@.span,
    {
        self.span
    }

    pub(crate) fn add_global(&mut self, room: Room, name: &str, ty: &Type)
        requires
            old(self).wf(),
        ensures
            final(self).wf(),
            stays_in(old(self)@, final(self)@),
            final(self)@ == old(self)@.add_global(room, name@, ty@),
    {
        let ghost before = self.globals@;
        let place = self.module.global(room, name);
        let flag = self.module.global(Room::Word, name);
        let g = Global { name: name.to_owned(), place, flag, ty: ty.dup() };
        let ghost gv = g@;
        self.globals.push(g);
        self.types.define(name, ty.dup());
        assert(globals_view(self.globals@) =~= globals_view(before).push(gv));
    }

    pub(crate) fn global(&self, name: &str) -> (r: Option<Global>)
        ensures
            match self@.global(name@) {
                Some(g) => r is Some && r->Some_0@ == g,
                None => r is None,
            },
    {
        let ghost all = globals_view(self.globals@);
        let mut i: usize = self.globals.len();
        assert(all.take(i as int) =~= all);
        while i > 0
            invariant
                i <= self.globals@.len(),
                all == globals_view(self.globals@),
                global_in(all.take(i as int), name@) == global_in(all, name@),
            decreases i,
        {
            proof {
                assert(all.take(i as int).drop_last() =~= all.take(i - 1));
                assert(all.take(i as int).last() == self.globals@[i - 1]@);
            }
            i -= 1;
            if str_eq(self.globals[i].name.as_str(), name) {
                return Some(self.globals[i].dup());
            }
        }
        None
    }

    pub(crate) fn local(&self, name: &str) -> (r: Option<Local>)
        ensures
            match self@.local(name@) {
                Some(l) => r is Some && r->Some_0@ == l,
                None => r is None,
            },
    {
        let ghost all = scopes_of(self.scopes@);
        let mut i: usize = self.scopes.len();
        assert(all.take(i as int) =~= all);
        while i > 0
            invariant
                i <= self.scopes@.len(),
                all == scopes_of(self.scopes@),
                local_of(all.take(i as int), name@) == local_of(all, name@),
            decreases i,
        {
            proof {
                assert(all.take(i as int).drop_last() =~= all.take(i - 1));
                assert(all.take(i as int).last() == locals_view(self.scopes@[i - 1]@));
            }
            i -= 1;
            match find_in_scope(&self.scopes[i], name) {
                Some(l) => {
                    return Some(l);
                },
                None => {},
            }
        }
        None
    }

    /// How many scopes are open.
    pub(crate) fn depth(&self) -> (n: usize)
        ensures
            n == self@.scopes.len(),
    {
        assert(scopes_of(self.scopes@).len() == self.scopes@.len());
        self.scopes.len()
    }

    /// How many locals a scope has.
    pub(crate) fn locals_in(&self, k: usize) -> (n: usize)
        requires
            k < self@.scopes.len(),
        ensures
            n == self@.scopes[k as int].len(),
    {
        assert(scopes_of(self.scopes@).len() == self.scopes@.len());
        assert(scopes_of(self.scopes@)[k as int] == locals_view(self.scopes@[k as int]@));
        self.scopes[k].len()
    }

    /// A local of a scope.
    pub(crate) fn local_at(&self, k: usize, i: usize) -> (l: Local)
        requires
            k < self@.scopes.len(),
            i < self@.scopes[k as int].len(),
        ensures
            l@ == self@.scopes[k as int][i as int],
    {
        assert(scopes_of(self.scopes@).len() == self.scopes@.len());
        assert(scopes_of(self.scopes@)[k as int] == locals_view(self.scopes@[k as int]@));
        self.scopes[k][i].dup()
    }

    pub(crate) fn is_transient(&self) -> (r: bool)
        ensures
            r == self@.transient,
    {
        self.transient
    }

    pub(crate) fn set_transient(&mut self, on: bool)
        requires
            old(self).wf(),
        ensures
            final(self).wf(),
            stays_in(old(self)@, final(self)@),
            final(self)@ == old(self)@.set_transient(on),
    {
        self.transient = on;
    }

    pub(crate) fn set_span(&mut self, span: Span)
        requires
            old(self).wf(),
        ensures
            final(self).wf(),
            stays_in(old(self)@, final(self)@),
            final(self)@ == old(self)@.set_span(span),
    {
        self.span = span;
    }

    pub(crate) fn refuse(&mut self, why: String)
        requires
            old(self).wf(),
        ensures
            final(self).wf(),
            stays_in(old(self)@, final(self)@),
            final(self)@ == old(self)@.refuse(why@),
    {
        if self.failure.is_none() {
            self.failure = Some(why);
        }
    }

    pub(crate) fn push_loop(&mut self, l: LoopCtx)
        requires
            old(self).wf(),
        ensures
            final(self).wf(),
            final(self)@ == old(self)@.push_loop(l),
            stays_in(CgV { loops: old(self)@.loops.push(l), ..old(self)@ }, final(self)@),
    {
        self.loops.push(l);
    }

    pub(crate) fn pop_loop(&mut self)
        requires
            old(self).wf(),
        ensures
            final(self).wf(),
            final(self)@ == old(self)@.pop_loop(),
            old(self)@.loops.len() > 0 ==> stays_in(
                CgV { loops: old(self)@.loops.drop_last(), ..old(self)@ },
                final(self)@,
            ),
    {
        let _ = self.loops.pop();
    }

    pub(crate) fn top_loop(&self) -> (r: Option<LoopCtx>)
        ensures
            r == self@.top_loop(),
    {
        if self.loops.len() == 0 {
            None
        } else {
            Some(self.loops[self.loops.len() - 1])
        }
    }

    pub(crate) fn type_of(&mut self, e: &Expr) -> (r: Option<Type>)
        requires
            old(self).wf(),
        ensures
            final(self).wf(),
            stays_in(old(self)@, final(self)@),
            final(self)@ == old(self)@.type_of(e@).0,
            match old(self)@.type_of(e@).1 {
                Some(t) => r is Some && r->Some_0@ == t,
                None => r is None,
            },
    {
        match TypeChecker::check_expr(e, &mut self.types) {
            Ok(t) => Some(t),
            Err(_) => None,
        }
    }

    pub(crate) fn want_release(&mut self, ty: &Type)
        requires
            old(self).wf(),
        ensures
            final(self).wf(),
            stays_in(old(self)@, final(self)@),
            final(self)@ == old(self)@.want_release(ty@),
    {
        if !has_type(&self.releases, ty) {
            let ghost before = self.releases@;
            self.releases.push(ty.dup());
            assert(types_of(self.releases@) =~= types_of(before).push(ty@));
        }
    }

    pub(crate) fn want_show(&mut self, ty: &Type)
        requires
            old(self).wf(),
        ensures
            final(self).wf(),
            stays_in(old(self)@, final(self)@),
            final(self)@ == old(self)@.want_show(ty@),
    {
        if !has_type(&self.shows, ty) {
            let ghost before = self.shows@;
            self.shows.push(ty.dup());
            assert(types_of(self.shows@) =~= types_of(before).push(ty@));
        }
    }

    pub(crate) fn want_split(&mut self)
        requires
            old(self).wf(),
        ensures
            final(self).wf(),
            stays_in(old(self)@, final(self)@),
            final(self)@ == old(self)@.want_split(),
    {
        self.splits = true;
    }

    pub(crate) fn splits(&self) -> (r: bool)
        ensures
            r == self@.splits,
    {
        self.splits
    }

    /// A type whose release function is wanted, by its place.
    pub(crate) fn release_at(&self, i: usize) -> (r: Option<Type>)
        ensures
            match r {
                Some(t) => i < self@.releases.len() && t@ == self@.releases[i as int],
                None => i >= self@.releases.len(),
            },
    {
        assert(types_of(self.releases@).len() == self.releases@.len());
        if i < self.releases.len() {
            assert(types_of(self.releases@)[i as int] == self.releases@[i as int]@);
            Some(self.releases[i].dup())
        } else {
            None
        }
    }

    /// A type whose text function is wanted, by its place.
    pub(crate) fn show_at(&self, i: usize) -> (r: Option<Type>)
        ensures
            match r {
                Some(t) => i < self@.shows.len() && t@ == self@.shows[i as int],
                None => i >= self@.shows.len(),
            },
    {
        assert(types_of(self.shows@).len() == self.shows@.len());
        if i < self.shows.len() {
            assert(types_of(self.shows@)[i as int] == self.shows@[i as int]@);
            Some(self.shows[i].dup())
        } else {
            None
        }
    }

    pub(crate) fn abort_text(&self, message: &str) -> (r: String)
        ensures
            r@ == self@.abort_text(message@),
    {
        let d = Diagnostic::new(message.to_owned(), self.span);
        to_format(d.render(self.path.as_str(), self.src.as_str()).as_str())
    }
}

// ---- running the code that is made ----

/// Code and constants were added, and nothing else is different.
pub open spec fn adds(s: CgV, t: CgV) -> bool {
    &&& t.m.done == s.m.done
    &&& t.m.func.name == s.m.func.name
    &&& t.m.func.gives == s.m.func.gives
    &&& s.m.func.insts.len() <= t.m.func.insts.len()
    &&& forall|i: int|
        0 <= i < s.m.func.insts.len() ==> s.m.func.insts[i] == #[trigger] t.m.func.insts[i]
    &&& s.m.func.blocks.len() <= t.m.func.blocks.len()
    &&& s.m.func.slots.len() <= t.m.func.slots.len()
    &&& s.m.texts.len() <= t.m.texts.len()
    &&& forall|i: int| 0 <= i < s.m.texts.len() ==> s.m.texts[i] == #[trigger] t.m.texts[i]
    &&& t.scopes == s.scopes
    &&& t.types == s.types
    &&& t.span == s.span
    &&& t.path == s.path
    &&& t.src == s.src
    &&& t.transient == s.transient
}

/// More code can be put into the current block.
pub open spec fn open_here(s: CgV) -> bool {
    &&& s.m.func.ordered()
    &&& !s.m.func.is_left(s.m.at)
}

/// What the code that leads from one state to another does.
pub open spec fn code_between(s: CgV, t: CgV, mem: Memory) -> Outcome {
    run(
        t.m.func.insts,
        s.m.at,
        s.m.func.insts.len() as int,
        t.m.func.insts.len() as int,
        mem,
    )
}

/// The code that leads from one state to another runs through, and more code can
/// follow.
pub open spec fn runs(s: CgV, t: CgV, mem: Memory, after: Memory) -> bool {
    &&& adds(s, t)
    &&& open_here(t)
    &&& code_between(s, t, mem) == Outcome::Reached(t.m.at, after)
}

/// The code that leads from one state to another stops the program with a
/// message.
pub open spec fn stops(s: CgV, t: CgV, mem: Memory, message: Seq<char>) -> bool {
    &&& adds(s, t)
    &&& code_between(s, t, mem) matches Outcome::Stopped(k, _, _) && k < t.m.texts.len()
        && t.m.texts[k as int] == s.abort_text(message)
}

/// The same, where the message speaks of two numbers.
pub open spec fn stops_with(
    s: CgV,
    t: CgV,
    mem: Memory,
    message: Seq<char>,
    x: i64,
    y: i64,
) -> bool {
    &&& stops(s, t, mem, message)
    &&& code_between(s, t, mem) matches Outcome::Stopped(_, a, b) && a == Some(Datum::Word(x)) && b
        == Some(Datum::Word(y))
}

/// An operand that is known before the `n`th instruction.
pub open spec fn settled(v: Val, n: int) -> bool {
    v matches Val::Reg(k) ==> k < n
}

/// What is known in a memory of the instructions before the `n`th is known in
/// another.
pub open spec fn keeps(mem: Memory, after: Memory, n: int) -> bool {
    &&& after.slots == mem.slots
    &&& after.params == mem.params
    &&& after.heap == mem.heap
    &&& forall|k: int|
        k < n && mem.regs.contains_key(k) ==> #[trigger] after.regs.contains_key(k)
            && after.regs[k] == mem.regs[k]
}

pub proof fn lemma_adds_chain(s: CgV, t: CgV, u: CgV)
    requires
        adds(s, t),
        adds(t, u),
    ensures
        adds(s, u),
        continues(s, t) && continues(t, u) ==> continues(s, u),
{
    if continues(s, t) && continues(t, u) {
        lemma_continues_chain(s, t, u);
    }
    assert forall|i: int| 0 <= i < s.m.func.insts.len() implies s.m.func.insts[i]
        == #[trigger] u.m.func.insts[i] by {
        assert(t.m.func.insts[i] == u.m.func.insts[i]);
    }
    assert forall|i: int| 0 <= i < s.m.texts.len() implies s.m.texts[i]
        == #[trigger] u.m.texts[i] by {
        assert(t.m.texts[i] == u.m.texts[i]);
    }
}

/// Code that is followed by more code does what it does alone, and where it ends
/// the rest goes on.
pub proof fn law_code_follows_code(s: CgV, t: CgV, u: CgV, mem: Memory)
    requires
        adds(s, t),
        adds(t, u),
    ensures
        adds(s, u),
        code_between(s, t, mem) matches Outcome::Reached(b, after) ==> (b == t.m.at ==> code_between(
            s,
            u,
            mem,
        ) == code_between(t, u, after)),
        code_between(s, t, mem) is Stopped ==> code_between(s, u, mem) == code_between(s, t, mem),
{
    lemma_adds_chain(s, t, u);
    let n = s.m.func.insts.len() as int;
    let mid = t.m.func.insts.len() as int;
    let to = u.m.func.insts.len() as int;
    law_later_code_does_not_matter(t.m.func.insts, u.m.func.insts, s.m.at, n, mid, mem);
    law_runs_compose(u.m.func.insts, s.m.at, n, mid, to, mem);
}

/// Code that runs through, then code that runs through or stops.
pub proof fn lemma_then(s: CgV, t: CgV, u: CgV, mem: Memory, after: Memory)
    requires
        runs(s, t, mem, after),
    ensures
        forall|last: Memory| #[trigger] runs(t, u, after, last) ==> runs(s, u, mem, last),
        forall|m: Seq<char>| #[trigger] stops(t, u, after, m) ==> stops(s, u, mem, m),
{
    if adds(t, u) {
        law_code_follows_code(s, t, u, mem);
    }
}

/// Code that stops is not reached by what follows it.
pub proof fn lemma_stopped_then(s: CgV, t: CgV, u: CgV, mem: Memory, message: Seq<char>)
    requires
        stops(s, t, mem, message),
        adds(t, u),
    ensures
        stops(s, u, mem, message),
{
    law_code_follows_code(s, t, u, mem);
}

/// An instruction that does not leave its block: whatever it is, it is added,
/// and where it computes something, that is what its register holds.
pub proof fn lemma_emit(s: CgV, op: OpV, name: Seq<char>, mem: Memory)
    ensures
        adds(s, s.emit(op, name).0),
        continues(s, s.emit(op, name).0),
        s.emit(op, name).0.m.texts == s.m.texts,
        open_here(s) && !op.leaves() && !(op is Run) ==> {
            let n = s.m.func.insts.len() as int;
            let t = s.emit(op, name).0;
            &&& s.emit(op, name).1 == Val::Reg(n as usize)
            &&& t.m.func.insts.len() == n + 1
            &&& t.m.func.blocks == s.m.func.blocks
            &&& open_here(t)
            &&& computed(op, mem) matches Some(d) ==> runs(s, t, mem, given(mem, n, d))
        },
{
    lemma_emit_continues(s, op, name);
    let t = s.emit(op, name).0;
    let n = s.m.func.insts.len() as int;
    if open_here(s) && !op.leaves() && !(op is Run) {
        law_push_keeps_order(s.m.func, s.m.at, op, name);
        let insts = t.m.func.insts;
        assert(insts[n].block == s.m.at);
        match computed(op, mem) {
            Some(d) => {
                assert(run(insts, s.m.at, n + 1, n + 1, given(mem, n, d)) == Outcome::Reached(
                    s.m.at,
                    given(mem, n, d),
                ));
                assert(code_between(s, t, mem) == Outcome::Reached(t.m.at, given(mem, n, d)));
            },
            None => {},
        }
    }
}

/// A new block, another current block, and a constant text add no code.
pub proof fn lemma_no_code(s: CgV, name: Seq<char>, b: usize)
    ensures
        adds(s, s.block(name).0),
        adds(s, s.position(b)),
        adds(s, s.text(name).0),
        adds(s, s.refuse(name)),
{
}

/// The places of instructions, blocks and texts are numbers of the machine.
pub open spec fn countable(s: CgV) -> bool {
    &&& s.m.func.insts.len() <= usize::MAX
    &&& s.m.func.blocks.len() <= usize::MAX
    &&& s.m.texts.len() <= usize::MAX
}

/// Code that stops the program where a condition holds.
pub open spec fn guarded(s: CgV, bad: Val, text: Seq<char>, a: Val, b: Val) -> CgV {
    let (s, fail) = s.block("stop"@);
    let (s, ok) = s.block("go_on"@);
    let s = s.emit(OpV::Branch(bad, fail, ok), ""@).0;
    let s = s.position(fail);
    let s = stopped(s, text, a, b);
    s.position(ok)
}

/// Code that stops the program.
pub open spec fn stopped(s: CgV, text: Seq<char>, a: Val, b: Val) -> CgV {
    let (s, fmt) = s.text(text);
    let s = s.emit(OpV::Run("zarrin.abort"@, Seq::empty().push(fmt).push(a).push(b)), ""@).0;
    s.emit(OpV::Unreachable, ""@).0
}

/// The diagnostic of a failure is the same wherever only code was added.
pub proof fn lemma_same_diagnostic(s: CgV, t: CgV, message: Seq<char>)
    requires
        adds(s, t),
    ensures
        t.abort_text(message) == s.abort_text(message),
{
}

/// Code that stops the program adds to what is there.
pub proof fn lemma_stopping_adds(s: CgV, bad: Val, text: Seq<char>, a: Val, b: Val)
    ensures
        adds(s, stopped(s, text, a, b)),
        adds(s, guarded(s, bad, text, a, b)),
{
    let s1 = s.text(text).0;
    let abort = OpV::Run(
        "zarrin.abort"@,
        Seq::empty().push(s.text(text).1).push(a).push(b),
    );
    let s2 = s1.emit(abort, ""@).0;
    let s3 = s2.emit(OpV::Unreachable, ""@).0;
    lemma_adds_chain(s, s1, s2);
    lemma_adds_chain(s, s2, s3);
    let t1 = s.block("stop"@).0;
    let t2 = t1.block("go_on"@).0;
    let t3 = t2.emit(OpV::Branch(bad, s.block("stop"@).1, t1.block("go_on"@).1), ""@).0;
    let t4 = t3.position(s.block("stop"@).1);
    lemma_adds_chain(s, t1, t2);
    lemma_adds_chain(s, t2, t3);
    lemma_adds_chain(s, t3, t4);
    let u1 = t4.text(text).0;
    let abort2 = OpV::Run(
        "zarrin.abort"@,
        Seq::empty().push(t4.text(text).1).push(a).push(b),
    );
    let u2 = u1.emit(abort2, ""@).0;
    let u3 = u2.emit(OpV::Unreachable, ""@).0;
    lemma_adds_chain(s, t4, u1);
    lemma_adds_chain(s, u1, u2);
    lemma_adds_chain(s, u2, u3);
}

/// Code that stops the program does so.
pub proof fn lemma_stopped(s: CgV, text: Seq<char>, a: Val, b: Val, mem: Memory)
    requires
        open_here(s),
        countable(stopped(s, text, a, b)),
    ensures
        code_between(s, stopped(s, text, a, b), mem) matches Outcome::Stopped(k, _, _) && k < stopped(
            s,
            text,
            a,
            b,
        ).m.texts.len() && stopped(s, text, a, b).m.texts[k as int] == text,
{
    let t = stopped(s, text, a, b);
    let n = s.m.func.insts.len() as int;
    let k = s.m.texts.len();
    let abort = OpV::Run(
        "zarrin.abort"@,
        Seq::empty().push(Val::Text(k as usize)).push(a).push(b),
    );
    assert(s.text(text).1 == Val::Text(k as usize));
    assert(t.m.func.insts[n] == (InstV { block: s.m.at, name: ""@, op: abort }));
    assert(t.m.texts[k as int] == text);
    assert(t.m.texts.len() == k + 1);
}

/// A guard lets a run through where its condition does not hold, and stops the
/// program where it does.
#[verifier::rlimit(50)]
pub proof fn lemma_guarded(s: CgV, bad: Val, text: Seq<char>, a: Val, b: Val, mem: Memory, c: bool)
    requires
        open_here(s),
        countable(guarded(s, bad, text, a, b)),
        operand(mem, bad) == Some(Datum::Truth(c)),
    ensures
        !c ==> runs(s, guarded(s, bad, text, a, b), mem, mem),
        c ==> (code_between(s, guarded(s, bad, text, a, b), mem) matches Outcome::Stopped(k, x, y) && x
            == operand(mem, a) && y == operand(mem, b) && k
            < guarded(s, bad, text, a, b).m.texts.len() && guarded(
            s,
            bad,
            text,
            a,
            b,
        ).m.texts[k as int] == text),
{
    lemma_stopping_adds(s, bad, text, a, b);
    let t = guarded(s, bad, text, a, b);
    let f = s.m.func;
    let n = f.insts.len() as int;
    let k = s.m.texts.len();
    let fail = f.blocks.len() as usize;
    let ok = (f.blocks.len() + 1) as usize;
    let insts = t.m.func.insts;
    let s1 = s.block("stop"@).0;
    let s2 = s1.block("go_on"@).0;
    assert(s.block("stop"@).1 == fail);
    assert(s1.block("go_on"@).1 == ok);
    let s3 = s2.emit(OpV::Branch(bad, fail, ok), ""@).0;
    assert(s2.m.func.blocks[s.m.at as int] == f.blocks[s.m.at as int]);
    assert(!s2.m.func.is_left(s2.m.at));
    assert(s3.m.func.insts =~= f.insts.push(
        InstV { block: s.m.at, name: ""@, op: OpV::Branch(bad, fail, ok) },
    ));
    assert(s2.m.func.blocks.len() == f.blocks.len() + 2);
    assert(s3.m.func.blocks[fail as int] == ("stop"@, false));
    assert(s3.m.func.blocks[ok as int] == ("go_on"@, false));
    let s4 = s3.position(fail);
    let (s5, fmt) = s4.text(text);
    assert(fmt == Val::Text(k as usize));
    let abort = OpV::Run("zarrin.abort"@, Seq::empty().push(fmt).push(a).push(b));
    let s6 = s5.emit(abort, ""@).0;
    assert(s6.m.func.insts =~= s3.m.func.insts.push(
        InstV { block: fail, name: ""@, op: abort },
    ));
    let s7 = s6.emit(OpV::Unreachable, ""@).0;
    assert(s7.m.func.insts =~= s6.m.func.insts.push(
        InstV { block: fail, name: ""@, op: OpV::Unreachable },
    ));
    assert(t == s7.position(ok));
    assert(insts.len() == n + 3);
    assert(insts[n] == (InstV { block: s.m.at, name: ""@, op: OpV::Branch(bad, fail, ok) }));
    assert(insts[n + 1] == (InstV { block: fail, name: ""@, op: abort }));
    assert(insts[n + 2] == (InstV { block: fail, name: ""@, op: OpV::Unreachable }));
    assert(t.m.texts[k as int] == text);
    assert forall|i: int| 0 <= i < n + 1 && i < insts.len() implies (#[trigger] insts[i]).block
        != fail && insts[i].block != ok by {
        if i < n {
            assert(insts[i] == f.insts[i]);
        }
    }
    assert(is_fresh(insts, fail, n + 1));
    assert(is_fresh(insts, ok, n + 1));
    if c {
        assert(run(insts, fail, n + 1, n + 3, mem) == Outcome::Stopped(
            k as usize,
            operand(mem, a),
            operand(mem, b),
        ));
    } else {
        assert(run(insts, ok, n + 3, n + 3, mem) == Outcome::Reached(ok, mem));
        assert(run(insts, ok, n + 2, n + 3, mem) == Outcome::Reached(ok, mem));
        assert(run(insts, ok, n + 1, n + 3, mem) == Outcome::Reached(ok, mem));
        // the function stays in order
        lemma_block_keeps_order(s);
        lemma_block_keeps_order(s1);
        law_push_keeps_order(s2.m.func, s2.m.at, OpV::Branch(bad, fail, ok), ""@);
        law_push_keeps_order(s5.m.func, s5.m.at, abort, ""@);
        law_push_keeps_order(s6.m.func, s6.m.at, OpV::Unreachable, ""@);
        assert(t.m.func.blocks[ok as int] == ("go_on"@, false));
    }
}

proof fn lemma_block_keeps_order(s: CgV)
    requires
        s.m.func.ordered(),
        s.m.func.blocks.len() < usize::MAX,
    ensures
        forall|name: Seq<char>| (#[trigger] s.block(name)).0.m.func.ordered(),
{
    assert forall|name: Seq<char>| (#[trigger] s.block(name)).0.m.func.ordered() by {
        let f = s.m.func;
        let g = s.block(name).0.m.func;
        assert forall|i: int|
            0 <= i < g.insts.len() && (#[trigger] g.insts[i]).op.leaves() implies g.blocks[g.insts[i].block as int].1 by {
            assert(f.blocks[f.insts[i].block as int].1);
        }
        assert forall|c: int|
            0 <= c < g.blocks.len() && (#[trigger] g.blocks[c]).1 implies exists|i: int|
            0 <= i < g.insts.len() && (#[trigger] g.insts[i]).block == c && g.insts[i].op.leaves() by {
            assert(f.blocks[c].1);
        }
    }
}

/// Before any code is added, nothing is run.
pub proof fn lemma_no_run(s: CgV, mem: Memory)
    ensures
        adds(s, s),
        continues(s, s),
        open_here(s) ==> runs(s, s, mem, mem),
{
}

/// One more instruction after code that runs through.
pub proof fn lemma_then_emit(s: CgV, t: CgV, op: OpV, name: Seq<char>, mem: Memory, now: Memory)
    requires
        runs(s, t, mem, now),
        !op.leaves(),
        !(op is Run),
        computed(op, now) is Some,
    ensures
        ({
            let u = t.emit(op, name).0;
            let n = t.m.func.insts.len() as int;
            &&& adds(t, u)
            &&& runs(s, u, mem, given(now, n, computed(op, now)->Some_0))
            &&& t.emit(op, name).1 == Val::Reg(n as usize)
            &&& u.m.func.insts.len() == n + 1
        }),
{
    lemma_emit(t, op, name, now);
    lemma_then(s, t, t.emit(op, name).0, mem, now);
}

/// Asking for a type changes nothing but what checking records.
pub proof fn lemma_type_state(s: CgV, e: ExprV)
    ensures
        s.type_of(e).0 == (CgV { types: check_expr(e, s.types).1, ..s }),
{
}

/// The type of an expression that checks, where checking records nothing.
pub proof fn lemma_type_of(s: CgV, e: ExprV, t: TypeV)
    requires
        check_expr(e, s.types) == (Ok::<TypeV, TypeErrorV>(t), s.types),
    ensures
        s.type_of(e) == (s, Some(t)),
{
}

/// What is kept twice is kept.
pub proof fn lemma_keeps_chain(a: Memory, b: Memory, c: Memory, n: int, k: int)
    requires
        keeps(a, b, n),
        keeps(b, c, k),
        n <= k,
    ensures
        keeps(a, c, n),
{
    assert forall|i: int| i < n && a.regs.contains_key(i) implies #[trigger] c.regs.contains_key(i)
        && c.regs[i] == a.regs[i] by {
        assert(b.regs.contains_key(i));
        assert(b.regs[i] == a.regs[i]);
        assert(c.regs.contains_key(i));
        assert(c.regs[i] == b.regs[i]);
    }
    assert(c.slots == a.slots);
    assert(c.params == a.params);
    assert(keeps(a, c, n));
}

/// An operand that is known stays known.
pub proof fn lemma_kept_word(mem: Memory, after: Memory, v: Val, n: int)
    requires
        keeps(mem, after, n),
        settled(v, n),
        operand(mem, v) is Some,
    ensures
        operand(after, v) == operand(mem, v),
{
    match v {
        Val::Reg(k) => {
            assert(after.regs.contains_key(k as int));
        },
        _ => {},
    }
}

/// The text that a program stops with is the report of the failure, made a
/// format.
pub proof fn lemma_abort_text(s: CgV, message: Seq<char>)
    ensures
        s.abort_text(message) == format_text(
            crate::diagnostic::rendered(
                DiagnosticV { message, span: s.span },
                s.path,
                s.src,
            ),
        ),
{
}

/// What a statement does to the state of code generation besides its code.
pub proof fn lemma_state(s: CgV, span: Span)
    ensures
        s.set_span(span) == (CgV { span, ..s }),
        s.open_scope() == (CgV {
            scopes: s.scopes.push(Seq::empty()),
            types: s.types.push_scope(),
            ..s
        }),
        s.scopes.len() > 0 ==> s.drop_scope() == (CgV {
            scopes: s.scopes.drop_last(),
            types: s.types.pop_scope(),
            ..s
        }),
        s.left() == s.m.func.is_left(s.m.at),
{
}

/// What makes up the code for a local: its slot, an instruction, its name.
pub proof fn lemma_local_parts(s: CgV, op: OpV, name: Seq<char>, slot: Val, ty: TypeV)
    ensures
        s.slot(Room::Word, name) == (
            CgV { m: s.m.slot(Room::Word, name).0, ..s },
            s.m.slot(Room::Word, name).1,
        ),
        s.emit(op, name) == (CgV { m: s.m.emit(op, name).0, ..s }, s.m.emit(op, name).1),
        s.scopes.len() > 0 ==> s.declare(name, slot, ty) == (CgV {
            scopes: s.scopes.update(
                s.scopes.len() - 1,
                s.scopes.last().push(LocalV { name, slot, ty }),
            ),
            types: s.types.define(name, ty),
            ..s
        }),
{
}

// ---- where code goes ----

/// Code that is added goes to the end of the current block and into new blocks.
/// Other blocks stay as they are.
pub open spec fn goes_on(s: CgV, t: CgV) -> bool {
    &&& t.m.done == s.m.done
    &&& t.m.func.name == s.m.func.name
    &&& t.m.func.gives == s.m.func.gives
    &&& s.m.func.insts.len() <= t.m.func.insts.len()
    &&& s.m.func.blocks.len() <= t.m.func.blocks.len()
    &&& s.m.texts.len() <= t.m.texts.len()
    &&& s.m.func.slots.len() <= t.m.func.slots.len()
    &&& forall|i: int|
        0 <= i < s.m.func.insts.len() ==> s.m.func.insts[i] == #[trigger] t.m.func.insts[i]
    &&& forall|i: int| 0 <= i < s.m.texts.len() ==> s.m.texts[i] == #[trigger] t.m.texts[i]
    &&& s.m.func.ordered() && countable(t) ==> {
        &&& t.m.func.ordered()
        &&& t.m.at == s.m.at || t.m.at >= s.m.func.blocks.len()
        &&& forall|i: int|
            s.m.func.insts.len() <= i < t.m.func.insts.len() ==> {
                let b = (#[trigger] t.m.func.insts[i]).block;
                b == s.m.at || b >= s.m.func.blocks.len()
            }
        &&& forall|b: int|
            0 <= b < s.m.func.blocks.len() && b != s.m.at ==> #[trigger] t.m.func.blocks[b]
                == s.m.func.blocks[b]
    }
}

/// The same, without the details.
pub closed spec fn continues(s: CgV, t: CgV) -> bool {
    goes_on(s, t)
}

pub proof fn lemma_continues(s: CgV, t: CgV)
    ensures
        continues(s, t) == goes_on(s, t),
{
}

pub proof fn lemma_continues_chain(s: CgV, t: CgV, u: CgV)
    requires
        continues(s, t),
        continues(t, u),
    ensures
        continues(s, u),
{
    assert forall|i: int| 0 <= i < s.m.func.insts.len() implies s.m.func.insts[i]
        == #[trigger] u.m.func.insts[i] by {
        assert(t.m.func.insts[i] == u.m.func.insts[i]);
    }
    assert forall|i: int| 0 <= i < s.m.texts.len() implies s.m.texts[i]
        == #[trigger] u.m.texts[i] by {
        assert(t.m.texts[i] == u.m.texts[i]);
    }
    if s.m.func.ordered() && countable(u) {
        assert forall|i: int| s.m.func.insts.len() <= i < u.m.func.insts.len() implies {
            let b = (#[trigger] u.m.func.insts[i]).block;
            b == s.m.at || b >= s.m.func.blocks.len()
        } by {
            if i < t.m.func.insts.len() {
                assert(t.m.func.insts[i] == u.m.func.insts[i]);
            }
        }
        assert forall|b: int| 0 <= b < s.m.func.blocks.len() && b != s.m.at implies
            #[trigger] u.m.func.blocks[b] == s.m.func.blocks[b] by {
            assert(t.m.func.blocks[b] == s.m.func.blocks[b]);
        }
    }
}

/// An instruction.
pub proof fn lemma_emit_continues(s: CgV, op: OpV, name: Seq<char>)
    ensures
        continues(s, s.emit(op, name).0),
{
    let t = s.emit(op, name).0;
    if s.m.func.ordered() {
        law_push_keeps_order(s.m.func, s.m.at, op, name);
    }
    assert forall|i: int| s.m.func.insts.len() <= i < t.m.func.insts.len() implies {
        let b = (#[trigger] t.m.func.insts[i]).block;
        b == s.m.at || b >= s.m.func.blocks.len()
    } by {
        assert(t.m.func.insts[i].block == s.m.at);
    }
}

/// A constant text, a reason why there can be no code, and a new block, add no
/// code. Code can go on in any new block.
pub proof fn lemma_no_code_continues(s: CgV, t: CgV, name: Seq<char>, b: usize)
    requires
        continues(s, t),
    ensures
        continues(s, s.text(name).0),
        continues(s, s.refuse(name)),
        continues(s, s.set_transient(true)),
        continues(s, s.set_transient(false)),
        continues(s, s.block(name).0),
        countable(s.block(name).0) ==> s.block(name).1 == s.m.func.blocks.len(),
        (countable(t) ==> b >= s.m.func.blocks.len()) ==> continues(s, t.position(b)),
{
    let u = s.block(name).0;
    if s.m.func.ordered() && countable(u) {
        assert forall|k: int| 0 <= k < u.m.func.blocks.len() && (#[trigger] u.m.func.blocks[k]).1
            implies exists|i: int|
            0 <= i < u.m.func.insts.len() && (#[trigger] u.m.func.insts[i]).block == k
                && u.m.func.insts[i].op.leaves() by {
            assert(u.m.func.blocks[k] == s.m.func.blocks[k]);
            let i = choose|i: int|
                0 <= i < s.m.func.insts.len() && (#[trigger] s.m.func.insts[i]).block == k
                    && s.m.func.insts[i].op.leaves();
            assert(u.m.func.insts[i].block == k);
        }
    }
}

/// Code that stops the program, always or under a condition.
pub proof fn lemma_stopping_continues(s: CgV, bad: Val, text: Seq<char>, a: Val, b: Val)
    ensures
        continues(s, stopped(s, text, a, b)),
        continues(s, guarded(s, bad, text, a, b)),
{
    lemma_stopped_continues(s, text, a, b);
    lemma_emit_continues(s, OpV::Unreachable, ""@);
    let (t1, fail) = s.block("stop"@);
    let (t2, ok) = t1.block("go_on"@);
    let t3 = t2.emit(OpV::Branch(bad, fail, ok), ""@).0;
    let t4 = t3.position(fail);
    let t5 = stopped(t4, text, a, b);
    lemma_continues_itself(s);
    lemma_no_code_continues(s, s, "stop"@, 0);
    lemma_continues_itself(t1);
    lemma_no_code_continues(t1, t1, "go_on"@, 0);
    lemma_continues_chain(s, t1, t2);
    lemma_emit_continues(t2, OpV::Branch(bad, fail, ok), ""@);
    lemma_continues_chain(s, t2, t3);
    lemma_stopped_continues(t4, text, a, b);
    if countable(t5) {
        lemma_no_code_continues(s, t3, ""@, fail);
        lemma_continues_chain(s, t4, t5);
        lemma_no_code_continues(s, t5, ""@, ok);
    }
}

pub proof fn lemma_continues_itself(s: CgV)
    ensures
        continues(s, s),
{
}

proof fn lemma_stopped_continues(s: CgV, text: Seq<char>, a: Val, b: Val)
    ensures
        continues(s, stopped(s, text, a, b)),
{
    let (s1, fmt) = s.text(text);
    let abort = OpV::Run("zarrin.abort"@, Seq::empty().push(fmt).push(a).push(b));
    let s2 = s1.emit(abort, ""@).0;
    lemma_emit_continues(s1, abort, ""@);
    lemma_emit_continues(s2, OpV::Unreachable, ""@);
    lemma_continues_chain(s, s1, s2);
    lemma_continues_chain(s, s2, stopped(s, text, a, b));
}

/// What blocks and loops are to the state of code generation.
pub proof fn lemma_blocks(s: CgV, op: OpV, name: Seq<char>, b: usize, l: LoopCtx)
    ensures
        s.block(name) == (CgV { m: s.m.block(name).0, ..s }, s.m.block(name).1),
        s.position(b) == (CgV { m: s.m.position(b), ..s }),
        s.emit(op, name) == (CgV { m: s.m.emit(op, name).0, ..s }, s.m.emit(op, name).1),
        s.push_loop(l) == (CgV { loops: s.loops.push(l), ..s }),
        s.pop_loop() == (CgV { loops: s.pop_loop().loops, ..s }),
{
}

/// Where the code stays the same, it goes on from there.
pub proof fn lemma_same_code(s: CgV, t: CgV)
    requires
        t.m.func.insts == s.m.func.insts,
        t.m.func.blocks == s.m.func.blocks,
        t.m.func.slots.len() >= s.m.func.slots.len(),
        t.m.texts == s.m.texts,
        t.m.at == s.m.at,
        t.m.done == s.m.done,
        t.m.func.name == s.m.func.name,
        t.m.func.gives == s.m.func.gives,
    ensures
        continues(s, t),
        open_here(s) ==> open_here(t),
{
}

/// Constant texts and the place for passing values.
pub proof fn lemma_constants(s: CgV, text: Seq<char>, on: bool)
    ensures
        s.text(text) == (CgV { m: s.m.text(text).0, ..s }, Val::Text(s.m.text(text).1)),
        s.string_global(text) == (CgV { m: s.m.text(text).0, ..s }, Val::Str(s.m.text(text).1)),
        s.set_transient(on) == (CgV { transient: on, ..s }),
{
}

/// A slot of the frame, and a function that is wanted, add no code.
pub proof fn lemma_wants_add(s: CgV, room: Room, name: Seq<char>, ty: TypeV)
    ensures
        adds(s, s.slot(room, name).0),
        adds(s, s.want_release(ty)),
{
}

/// A function is begun, and is done.
pub proof fn lemma_function(s: CgV, name: Seq<char>, params: Seq<Ty>, gives: bool)
    ensures
        s.begin(name, params, gives) == (CgV { m: s.m.begin(name, params, gives), ..s }),
        s.finish() == (CgV { m: s.m.finish(), ..s }),
{
}

/// What is wanted, and slots, leave the code as it is.
pub proof fn lemma_wanted_state(s: CgV, ty: TypeV)
    ensures
        s.want_release(ty) == (CgV { releases: s.want_release(ty).releases, ..s }),
{
}

pub proof fn lemma_slot_state(s: CgV, name: Seq<char>)
    ensures
        s.slot(Room::Word, name).0 == (CgV { m: s.m.slot(Room::Word, name).0, ..s }),
{
}

pub proof fn lemma_left(s: CgV)
    ensures
        s.left() == s.m.func.is_left(s.m.at),
{
}

// ---- what stays in a module ----

/// The functions that are done and the constant texts stay.
pub open spec fn module_grows(s: CgV, t: CgV) -> bool {
    &&& s.m.done.len() <= t.m.done.len()
    &&& s.m.texts.len() <= t.m.texts.len()
    &&& forall|i: int| 0 <= i < s.m.done.len() ==> #[trigger] t.m.done[i] == s.m.done[i]
    &&& forall|i: int| 0 <= i < s.m.texts.len() ==> #[trigger] t.m.texts[i] == s.m.texts[i]
}

pub broadcast proof fn lemma_emit_keeps(s: CgV, op: OpV, name: Seq<char>)
    ensures
        (#[trigger] s.emit(op, name)).0.m.done == s.m.done,
        s.emit(op, name).0.m.texts == s.m.texts,
{
}

pub broadcast proof fn lemma_block_keeps(s: CgV, name: Seq<char>)
    ensures
        (#[trigger] s.block(name)).0.m.done == s.m.done,
        s.block(name).0.m.texts == s.m.texts,
{
}

pub broadcast proof fn lemma_position_keeps(s: CgV, b: usize)
    ensures
        (#[trigger] s.position(b)).m.done == s.m.done,
        s.position(b).m.texts == s.m.texts,
{
}

pub broadcast proof fn lemma_slot_keeps(s: CgV, room: Room, name: Seq<char>)
    ensures
        (#[trigger] s.slot(room, name)).0.m.done == s.m.done,
        s.slot(room, name).0.m.texts == s.m.texts,
{
}

pub broadcast proof fn lemma_text_keeps(s: CgV, t: Seq<char>)
    ensures
        (#[trigger] s.text(t)).0.m.done == s.m.done,
        s.text(t).0.m.texts == s.m.texts.push(t),
{
}

pub broadcast proof fn lemma_string_keeps(s: CgV, t: Seq<char>)
    ensures
        (#[trigger] s.string_global(t)).0.m.done == s.m.done,
        s.string_global(t).0.m.texts == s.m.texts.push(t),
{
}

pub broadcast proof fn lemma_number_keeps(s: CgV, t: Seq<char>)
    ensures
        (#[trigger] s.number(t)).0.m.done == s.m.done,
        s.number(t).0.m.texts == s.m.texts,
{
}

pub broadcast proof fn lemma_begin_keeps(s: CgV, name: Seq<char>, params: Seq<Ty>, gives: bool)
    ensures
        (#[trigger] s.begin(name, params, gives)).m.done == s.m.done,
        s.begin(name, params, gives).m.texts == s.m.texts,
{
}

pub broadcast proof fn lemma_finish_keeps(s: CgV)
    ensures
        (#[trigger] s.finish()).m.done == s.m.done.push(s.m.func.seal(0)),
        s.finish().m.texts == s.m.texts,
{
}

pub broadcast proof fn lemma_want_release_keeps(s: CgV, ty: TypeV)
    ensures
        (#[trigger] s.want_release(ty)).m == s.m,
{
}

pub broadcast proof fn lemma_want_show_keeps(s: CgV, ty: TypeV)
    ensures
        (#[trigger] s.want_show(ty)).m == s.m,
{
}

pub broadcast proof fn lemma_refuse_keeps(s: CgV, why: Seq<char>)
    ensures
        (#[trigger] s.refuse(why)).m == s.m,
{
}

pub broadcast group group_module_keeps {
    lemma_emit_keeps,
    lemma_block_keeps,
    lemma_position_keeps,
    lemma_slot_keeps,
    lemma_text_keeps,
    lemma_string_keeps,
    lemma_number_keeps,
    lemma_begin_keeps,
    lemma_finish_keeps,
    lemma_want_release_keeps,
    lemma_want_show_keeps,
    lemma_refuse_keeps,
}

/// The state before any code, and the scopes of a state.
pub proof fn lemma_fresh_state(program: Seq<crate::ast::StmtV>, path: Seq<char>, src: Seq<char>, s: CgV)
    ensures
        ({
            let new = CgV::new(program, path, src);
            &&& new.m == ModuleV::new()
            &&& new.types == declared(program)
            &&& new.scopes == Seq::<Seq<LocalV>>::empty()
            &&& new.path == path
            &&& new.src == src
        }),
        s.open_scope() == (CgV {
            scopes: s.scopes.push(Seq::empty()),
            types: s.types.push_scope(),
            ..s
        }),
        s.gives() == s.m.func.gives,
{
}

} // verus!
