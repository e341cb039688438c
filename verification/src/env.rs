//! The type checker's view of a program. Exposed so the backends can ask the
//! same question the checker answers ("what type is this expression?") instead
//! of each re-deriving the rules and drifting from them.

use crate::ast::{
    dup_params, dup_methods, dup_stmts, dup_texts, methods_view, params_view, stmts_view,
    types_view, Program, Stmt, StmtKind, TraitMethod, Type, TypeV,
};
use crate::diagnostic::Span;
use crate::names::{Model, NameMap};
use crate::text::{str_eq, texts};
use crate::typing::{
    declared, extern_table, find_in, fn_table, impl_table, lookup_method, macro_table, method_in,
    param_types, struct_table, trait_table, EnvV, ImplV, InstanceV, SigV,
};
use crate::variants::{lookup_v, of_enum, sorted_by_tag, variants_view, Lookup};
use crate::variants::{Variant, VariantIndex};
use vstd::prelude::*;

verus! {

broadcast use crate::ast::group_views;

/// A function's type parameters, parameter types and result type.
pub struct FnSig {
    pub generics: Vec<String>,
    pub params: Vec<Type>,
    pub ret: Type,
}

impl FnSig {
    pub open spec fn view(&self) -> SigV {
        SigV {
            generics: texts(self.generics@),
            params: types_view(self.params@),
            ret: self.ret@,
        }
    }

    /// A copy of the signature.
    pub fn dup(&self) -> (r: Self)
        ensures
            r@ == self@,
    {
        FnSig {
            generics: dup_texts(&self.generics),
            params: crate::ast::dup_types(&self.params),
            ret: self.ret.dup(),
        }
    }
}

impl Model for FnSig {
    type M = SigV;

    open spec fn model(&self) -> SigV {
        self@
    }
}

struct ImplEntry {
    trait_name: String,
    for_type: String,
    methods: Vec<Stmt>,
}

impl ImplEntry {
    spec fn view(&self) -> ImplV {
        ImplV {
            trait_name: self.trait_name@,
            for_type: self.for_type@,
            methods: stmts_view(self.methods@),
        }
    }
}

/// One way a generic function is called: in which function, where, which
/// function, and what its type parameters stand for.
pub struct Instance {
    pub enclosing: String,
    pub span: Span,
    pub name: String,
    pub args: Vec<Type>,
}

impl Instance {
    pub open spec fn view(&self) -> InstanceV {
        InstanceV {
            enclosing: self.enclosing@,
            span: self.span,
            name: self.name@,
            args: types_view(self.args@),
        }
    }
}

/// The models of a list of instances.
pub open spec fn instances_view(s: Seq<Instance>) -> Seq<InstanceV> {
    s.map_values(|x: Instance| x@)
}

/// What the body of a function hides of the outside.
pub struct Outside {
    current_return: Option<Type>,
    enclosing: String,
    in_generic: bool,
}

impl Outside {
    /// The result type, name and genericity of the enclosing function.
    pub closed spec fn view(&self) -> (Option<TypeV>, Seq<char>, bool) {
        (opt_type_view(self.current_return), self.enclosing@, self.in_generic)
    }
}

/// The model of an optional type.
pub open spec fn opt_type_view(t: Option<Type>) -> Option<TypeV> {
    match t {
        Some(x) => Some(x@),
        None => None,
    }
}

/// What is known about the names of a program at one place in it.
pub struct TypeEnv {
    scopes: Vec<NameMap<Type>>,
    functions: NameMap<FnSig>,
    structs: NameMap<Vec<(String, Type)>>,
    variants: VariantIndex,
    traits: NameMap<Vec<TraitMethod>>,
    impls: Vec<ImplEntry>,
    extern_fns: NameMap<FnSig>,
    macros: NameMap<usize>,
    current_return: Option<Type>,
    enclosing: String,
    in_generic: bool,
    instantiations: Vec<Instance>,
}

spec fn scopes_view(s: Seq<NameMap<Type>>) -> Seq<Map<Seq<char>, TypeV>> {
    s.map_values(|m: NameMap<Type>| m@)
}

spec fn impls_view(s: Seq<ImplEntry>) -> Seq<ImplV> {
    s.map_values(|x: ImplEntry| x@)
}

/// The types of a list of parameters.
fn types_of_params(params: &Vec<(String, Type)>) -> (r: Vec<Type>)
    ensures
        types_view(r@) == param_types(params_view(params@)),
{
    let mut out: Vec<Type> = Vec::new();
    let mut i: usize = 0;
    while i < params.len()
        invariant
            i <= params@.len(),
            out@.len() == i,
            forall|j: int| 0 <= j < i ==> (#[trigger] out@[j])@ == params@[j].1@,
        decreases params@.len() - i,
    {
        out.push(params[i].1.dup());
        i += 1;
    }
    assert(types_view(out@) =~= param_types(params_view(params@)));
    out
}

impl TypeEnv {
    pub closed spec fn view(&self) -> EnvV {
        EnvV {
            scopes: scopes_view(self.scopes@),
            functions: self.functions@,
            structs: self.structs@,
            variants: self.variants@,
            traits: self.traits@,
            impls: impls_view(self.impls@),
            extern_fns: self.extern_fns@,
            macros: self.macros@,
            current_return: opt_type_view(self.current_return),
            enclosing: self.enclosing@,
            in_generic: self.in_generic,
            instantiations: instances_view(self.instantiations@),
        }
    }

    /// The calls of generic functions found so far, outside generic bodies.
    pub fn instantiations(&self) -> (r: &Vec<Instance>)
        ensures
            instances_view(r@) == self@.instantiations,
    {
        &self.instantiations
    }

    /// Declarations only: signatures, structs, traits, externs, macros. No
    /// statement bodies are walked.
    pub(crate) fn declare(program: &Program) -> (env: Self)
        ensures
            env@ == declared(program@),
    {
        let ghost all = stmts_view(program.stmts@);
        let mut functions: NameMap<FnSig> = NameMap::new();
        let mut structs: NameMap<Vec<(String, Type)>> = NameMap::new();
        let mut traits: NameMap<Vec<TraitMethod>> = NameMap::new();
        let mut extern_fns: NameMap<FnSig> = NameMap::new();
        let mut macros: NameMap<usize> = NameMap::new();
        let mut impls: Vec<ImplEntry> = Vec::new();
        let mut i: usize = 0;
        assert(impls_view(impls@) =~= impl_table(all.take(0)));
        while i < program.stmts.len()
            invariant
                i <= program.stmts@.len(),
                all == stmts_view(program.stmts@),
                functions@ == fn_table(all.take(i as int)),
                structs@ == struct_table(all.take(i as int)),
                traits@ == trait_table(all.take(i as int)),
                extern_fns@ == extern_table(all.take(i as int)),
                macros@ == macro_table(all.take(i as int)),
                impls_view(impls@) == impl_table(all.take(i as int)),
            decreases program.stmts@.len() - i,
        {
            let ghost before = impls@;
            proof {
                assert(all.take(i + 1).drop_last() =~= all.take(i as int));
                assert(all.take(i + 1).last() == program.stmts@[i as int]@);
            }
            match &program.stmts[i].kind {
                StmtKind::Fn { name, generics, params, ret, .. } => {
                    functions.insert(
                        name.clone(),
                        FnSig {
                            generics: dup_texts(generics),
                            params: types_of_params(params),
                            ret: ret.dup(),
                        },
                    );
                },
                StmtKind::Struct { name, fields, .. } => {
                    structs.insert(name.clone(), dup_params(fields));
                },
                StmtKind::Trait { name, methods } => {
                    traits.insert(name.clone(), dup_methods(methods));
                },
                StmtKind::ExternFn { name, params, ret } => {
                    let generics: Vec<String> = Vec::new();
                    assert(texts(generics@) =~= Seq::empty());
                    extern_fns.insert(
                        name.clone(),
                        FnSig { generics, params: types_of_params(params), ret: ret.dup() },
                    );
                },
                StmtKind::Macro { name, params, .. } => {
                    // A macro is substituted, not called, so its result type is
                    // only known after expansion.
                    macros.insert(name.clone(), params.len());
                },
                StmtKind::Impl { trait_name, for_type, methods } => {
                    let entry = ImplEntry {
                        trait_name: trait_name.clone(),
                        for_type: for_type.clone(),
                        methods: dup_stmts(methods),
                    };
                    assert(impls_view(before.push(entry)) =~= impls_view(before).push(entry@));
                    impls.push(entry);
                },
                _ => {},
            }
            i += 1;
        }
        assert(all.take(i as int) =~= all);
        let mut scopes: Vec<NameMap<Type>> = Vec::new();
        let first: NameMap<Type> = NameMap::new();
        scopes.push(first);
        let enclosing = String::new();
        let instantiations: Vec<Instance> = Vec::new();
        proof {
            assert(scopes_view(scopes@) =~= seq![Map::<Seq<char>, TypeV>::empty()]);
            assert(enclosing@ =~= Seq::empty());
            assert(instances_view(instantiations@) =~= Seq::empty());
        }
        TypeEnv {
            scopes,
            functions,
            structs,
            variants: VariantIndex::build(program),
            traits,
            impls,
            extern_fns,
            macros,
            current_return: None,
            enclosing,
            in_generic: false,
            instantiations,
        }
    }

    pub fn push_scope(&mut self)
        ensures
            final(self)@ == old(self)@.push_scope(),
    {
        let scope: NameMap<Type> = NameMap::new();
        let ghost before = self.scopes@;
        self.scopes.push(scope);
        assert(scopes_view(self.scopes@) =~= scopes_view(before).push(Map::empty()));
    }

    pub fn pop_scope(&mut self)
        ensures
            final(self)@ == old(self)@.pop_scope(),
    {
        let ghost before = self.scopes@;
        match self.scopes.pop() {
            Some(_) => {
                assert(scopes_view(self.scopes@) =~= scopes_view(before).drop_last());
            },
            None => {},
        }
    }

    pub fn define(&mut self, name: &str, ty: Type)
        requires
            old(self)@.scopes.len() > 0,
        ensures
            final(self)@ == old(self)@.define(name@, ty@),
    {
        let ghost before = self.scopes@;
        match self.scopes.pop() {
            Some(scope) => {
                let mut scope = scope;
                assert(scope@ == scopes_view(before).last());
                scope.insert(name.to_owned(), ty);
                self.scopes.push(scope);
                assert(scopes_view(self.scopes@) =~= scopes_view(before).update(
                    before.len() - 1,
                    scope@,
                ));
            },
            None => {},
        }
    }

    /// Define each of a list of parameters.
    pub(crate) fn define_all(&mut self, params: &Vec<(String, Type)>)
        requires
            old(self)@.scopes.len() > 0,
        ensures
            final(self)@ == old(self)@.define_all(params_view(params@)),
            final(self)@.scopes.len() == old(self)@.scopes.len(),
    {
        let ghost all = params_view(params@);
        let ghost start = self@;
        let mut i: usize = 0;
        while i < params.len()
            invariant
                i <= params@.len(),
                all == params_view(params@),
                start.scopes.len() > 0,
                self@.scopes.len() == start.scopes.len(),
                self@ == start.define_all(all.take(i as int)),
            decreases params@.len() - i,
        {
            proof {
                assert(all.take(i + 1).drop_last() =~= all.take(i as int));
            }
            self.define(params[i].0.as_str(), params[i].1.dup());
            i += 1;
        }
        assert(all.take(i as int) =~= all);
    }

    pub(crate) fn lookup(&self, name: &str) -> (r: Option<Type>)
        ensures
            opt_type_view(r) == self@.lookup(name@),
    {
        let ghost all = scopes_view(self.scopes@);
        let mut i: usize = self.scopes.len();
        assert(all.take(i as int) =~= all);
        while i > 0
            invariant
                i <= self.scopes@.len(),
                all == scopes_view(self.scopes@),
                find_in(all.take(i as int), name@) == find_in(all, name@),
            decreases i,
        {
            proof {
                assert(all.take(i as int).drop_last() =~= all.take(i - 1));
                assert(all.take(i as int).last() == self.scopes@[i - 1]@);
            }
            i -= 1;
            match self.scopes[i].get(name) {
                Some(t) => {
                    return Some(t.dup());
                },
                None => {},
            }
        }
        None
    }

    pub(crate) fn lookup_method(&self, for_type: &str, method: &str) -> (r: Option<
        (Vec<(String, Type)>, Type),
    >)
        ensures
            match lookup_method(self@.impls, for_type@, method@, 0) {
                Some((params, ret)) => r is Some && params_view(r->Some_0.0@) == params
                    && r->Some_0.1@ == ret,
                None => r is None,
            },
    {
        let ghost all = impls_view(self.impls@);
        let mut i: usize = 0;
        while i < self.impls.len()
            invariant
                i <= self.impls@.len(),
                all == impls_view(self.impls@),
                lookup_method(all, for_type@, method@, i as int) == lookup_method(
                    all,
                    for_type@,
                    method@,
                    0,
                ),
            decreases self.impls@.len() - i,
        {
            assert(all[i as int] == self.impls@[i as int]@);
            if str_eq(self.impls[i].for_type.as_str(), for_type) {
                let found = find_method(&self.impls[i].methods, method);
                if found.is_some() {
                    return found;
                }
            }
            i += 1;
        }
        None
    }

    pub(crate) fn lookup_variant(&self, name: &str) -> (r: Lookup)
        ensures
            r@ == lookup_v(self@.variants, name@),
    {
        self.variants.lookup(name)
    }

    pub(crate) fn variants_of(&self, enum_name: &str) -> (r: Vec<Variant>)
        ensures
            variants_view(r@) == sorted_by_tag(of_enum(self@.variants, enum_name@)),
    {
        self.variants.variants_of(enum_name)
    }

    pub(crate) fn function(&self, name: &str) -> (r: Option<FnSig>)
        ensures
            match r {
                Some(sig) => self@.functions.contains_key(name@) && sig@ == self@.functions[name@],
                None => !self@.functions.contains_key(name@),
            },
    {
        match self.functions.get(name) {
            Some(sig) => Some(sig.dup()),
            None => None,
        }
    }

    pub(crate) fn is_extern(&self, name: &str) -> (r: bool)
        ensures
            r == self@.extern_fns.contains_key(name@),
    {
        self.extern_fns.contains(name)
    }

    pub(crate) fn macro_arity(&self, name: &str) -> (r: Option<usize>)
        ensures
            match r {
                Some(n) => self@.macros.contains_key(name@) && n == self@.macros[name@],
                None => !self@.macros.contains_key(name@),
            },
    {
        match self.macros.get(name) {
            Some(n) => Some(*n),
            None => None,
        }
    }

    pub(crate) fn struct_fields(&self, name: &str) -> (r: Option<Vec<(String, Type)>>)
        ensures
            match r {
                Some(fields) => self@.structs.contains_key(name@) && params_view(fields@)
                    == self@.structs[name@],
                None => !self@.structs.contains_key(name@),
            },
    {
        match self.structs.get(name) {
            Some(fields) => Some(dup_params(fields)),
            None => None,
        }
    }

    pub(crate) fn trait_methods(&self, name: &str) -> (r: Option<&Vec<TraitMethod>>)
        ensures
            match r {
                Some(methods) => self@.traits.contains_key(name@) && methods_view(methods@)
                    == self@.traits[name@],
                None => !self@.traits.contains_key(name@),
            },
    {
        self.traits.get(name)
    }

    /// The result type of the enclosing function; at top level it is unit.
    pub(crate) fn return_type(&self) -> (r: Type)
        ensures
            r@ == (match self@.current_return {
                Some(t) => t,
                None => TypeV::Unit,
            }),
    {
        match &self.current_return {
            Some(t) => t.dup(),
            None => Type::Unit,
        }
    }

    /// Record what the type parameters of a called function stand for, unless
    /// the call stands in a generic function.
    pub(crate) fn record(&mut self, name: &str, span: Span, args: Vec<Type>)
        ensures
            final(self)@ == (if old(self)@.in_generic {
                old(self)@
            } else {
                EnvV {
                    instantiations: old(self)@.instantiations.push(
                        InstanceV {
                            enclosing: old(self)@.enclosing,
                            span,
                            name: name@,
                            args: types_view(args@),
                        },
                    ),
                    ..old(self)@
                }
            }),
    {
        if !self.in_generic {
            let ghost before = self.instantiations@;
            let x = Instance {
                enclosing: self.enclosing.clone(),
                span,
                name: name.to_owned(),
                args,
            };
            assert(instances_view(before.push(x)) =~= instances_view(before).push(x@));
            self.instantiations.push(x);
        }
    }

    /// Enter the body of a function.
    pub(crate) fn enter_fn(&mut self, name: &str, generic: bool, ret: Type) -> (out: Outside)
        ensures
            out@ == (old(self)@.current_return, old(self)@.enclosing, old(self)@.in_generic),
            final(self)@ == (EnvV {
                current_return: Some(ret@),
                enclosing: name@,
                in_generic: generic,
                ..old(self)@
            }),
    {
        let mut current_return: Option<Type> = Some(ret);
        let mut enclosing = name.to_owned();
        let in_generic = self.in_generic;
        std::mem::swap(&mut self.current_return, &mut current_return);
        std::mem::swap(&mut self.enclosing, &mut enclosing);
        self.in_generic = generic;
        Outside { current_return, enclosing, in_generic }
    }

    /// Leave the body of a function.
    pub(crate) fn leave_fn(&mut self, out: Outside)
        ensures
            final(self)@ == (EnvV {
                current_return: out@.0,
                enclosing: out@.1,
                in_generic: out@.2,
                ..old(self)@
            }),
    {
        self.current_return = out.current_return;
        self.enclosing = out.enclosing;
        self.in_generic = out.in_generic;
    }
}

/// A method's parameters and result.
pub(crate) fn find_method(methods: &Vec<Stmt>, method: &str) -> (r: Option<
    (Vec<(String, Type)>, Type),
>)
    ensures
        match method_in(stmts_view(methods@), method@, 0) {
            Some((params, ret)) => r is Some && params_view(r->Some_0.0@) == params
                && r->Some_0.1@ == ret,
            None => r is None,
        },
{
    let ghost all = stmts_view(methods@);
    let mut i: usize = 0;
    while i < methods.len()
        invariant
            i <= methods@.len(),
            all == stmts_view(methods@),
            method_in(all, method@, i as int) == method_in(all, method@, 0),
        decreases methods@.len() - i,
    {
        assert(all[i as int] == methods@[i as int]@);
        match &methods[i].kind {
            StmtKind::Fn { name, params, ret, .. } => {
                if str_eq(name.as_str(), method) {
                    return Some((dup_params(params), ret.dup()));
                }
            },
            _ => {},
        }
        i += 1;
    }
    None
}

} // verus!
