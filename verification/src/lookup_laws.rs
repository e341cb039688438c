//! What a name refers to when a program runs: functions, methods, macros, structs, and
//! the fields of a struct value; and that it is what the type checker took it for.

use crate::ast::{StmtKindV, StmtV, TypeV};
use crate::semantics::{
    arranged, find_fn, find_macro, find_method, find_struct, fn_in, given, has_extern, in_order,
    param_names, put, slot, undeclared,
};
use crate::typing::{
    fn_table, impl_table, lookup_method, macro_table, method_in, named_type, struct_table, ImplV,
};
use crate::typing_laws::{is_field, is_method, law_field_of_a_name};
use crate::value::ValueV;
use vstd::prelude::*;

verus! {

// ---- methods ----

/// The `j`th function of the `k`th statement, an `impl` of a type, has a name.
pub open spec fn holds(ss: Seq<StmtV>, t: Seq<char>, name: Seq<char>, k: int, j: int) -> bool {
    &&& 0 <= k < ss.len()
    &&& ss[k].kind is Impl
    &&& ss[k].kind->Impl_for_type == t
    &&& is_method(ss[k].kind->Impl_methods, name, j)
}

/// It is the first one of that name.
pub open spec fn holds_first(
    ss: Seq<StmtV>,
    t: Seq<char>,
    name: Seq<char>,
    k: int,
    j: int,
) -> bool {
    &&& holds(ss, t, name, k, j)
    &&& forall|k2: int, j2: int|
        #[trigger] holds(ss, t, name, k2, j2) ==> k < k2 || k == k2 && j <= j2
}

proof fn lemma_fn_in(methods: Seq<StmtV>, name: Seq<char>, i: int) -> (j: int)
    requires
        0 <= i,
    ensures
        fn_in(methods, name, i) is Some <==> method_in(methods, name, i) is Some,
        fn_in(methods, name, i) is Some ==> {
            &&& is_method(methods, name, j)
            &&& i <= j
            &&& forall|j2: int| i <= j2 && #[trigger] is_method(methods, name, j2) ==> j <= j2
            &&& fn_in(methods, name, i) == Some(
                (param_names(methods[j].kind->Fn_params), methods[j].kind->Fn_body),
            )
            &&& method_in(methods, name, i) == Some(
                (methods[j].kind->Fn_params, methods[j].kind->Fn_ret),
            )
        },
        fn_in(methods, name, i) is None ==> forall|j2: int|
            i <= j2 ==> !#[trigger] is_method(methods, name, j2),
    decreases methods.len() - i,
{
    if i < methods.len() {
        if is_method(methods, name, i) {
            i
        } else {
            lemma_fn_in(methods, name, i + 1)
        }
    } else {
        0
    }
}

/// The `impl`s of a program stand in the checker's table in the order of the program.
proof fn lemma_impl_table(ss: Seq<StmtV>, i: int)
    requires
        0 <= i <= ss.len(),
    ensures
        impl_table(ss.take(i)).is_prefix_of(impl_table(ss)),
        i < ss.len() ==> match ss[i].kind {
            StmtKindV::Impl { trait_name, for_type, methods } => {
                &&& impl_table(ss.take(i + 1)).len() == impl_table(ss.take(i)).len() + 1
                &&& impl_table(ss.take(i)).len() < impl_table(ss).len()
                &&& impl_table(ss)[impl_table(ss.take(i)).len() as int] == (ImplV {
                    trait_name,
                    for_type,
                    methods,
                })
            },
            _ => impl_table(ss.take(i + 1)).len() == impl_table(ss.take(i)).len(),
        },
    decreases ss.len() - i,
{
    if i == ss.len() {
        assert(ss.take(i) =~= ss);
    } else {
        let front = ss.take(i + 1);
        lemma_impl_table(ss, i + 1);
        assert(front.drop_last() =~= ss.take(i));
        assert(front.last() == ss[i]);
        let a = impl_table(ss.take(i));
        let b = impl_table(front);
        let c = impl_table(ss);
        assert(a.is_prefix_of(b));
        assert forall|q: int| 0 <= q < b.len() implies b[q] == c[q] by {
            assert(b =~= c.subrange(0, b.len() as int));
        }
        assert(a =~= c.subrange(0, a.len() as int));
    }
}

proof fn lemma_find_method(ss: Seq<StmtV>, t: Seq<char>, name: Seq<char>, i: int) -> (r: (int, int))
    requires
        0 <= i <= ss.len(),
    ensures
        find_method(ss, t, name, i) is Some <==> lookup_method(
            impl_table(ss),
            t,
            name,
            impl_table(ss.take(i)).len() as int,
        ) is Some,
        find_method(ss, t, name, i) is Some ==> {
            let f = ss[r.0].kind->Impl_methods[r.1].kind;
            &&& i <= r.0
            &&& holds(ss, t, name, r.0, r.1)
            &&& forall|k: int, j: int|
                i <= k && #[trigger] holds(ss, t, name, k, j) ==> r.0 < k || r.0 == k && r.1 <= j
            &&& find_method(ss, t, name, i) == Some((param_names(f->Fn_params), f->Fn_body))
            &&& lookup_method(impl_table(ss), t, name, impl_table(ss.take(i)).len() as int)
                == Some((f->Fn_params, f->Fn_ret))
        },
        find_method(ss, t, name, i) is None ==> forall|k: int, j: int|
            i <= k ==> !#[trigger] holds(ss, t, name, k, j),
    decreases ss.len() - i,
{
    lemma_impl_table(ss, i);
    if i == ss.len() {
        assert(ss.take(i) =~= ss);
        (0, 0)
    } else {
        let rest = lemma_find_method(ss, t, name, i + 1);
        match ss[i].kind {
            StmtKindV::Impl { for_type, methods, .. } => {
                let j = lemma_fn_in(methods, name, 0);
                if for_type == t && fn_in(methods, name, 0) is Some {
                    assert(holds(ss, t, name, i, j));
                    (i, j)
                } else {
                    assert forall|j2: int| !#[trigger] holds(ss, t, name, i, j2) by {
                        if holds(ss, t, name, i, j2) {
                            assert(is_method(methods, name, j2));
                        }
                    }
                    rest
                }
            },
            _ => rest,
        }
    }
}

/// A method is found at run time if and only if some `impl` of the type, whichever it is,
/// holds a function of that name. What is found is the first of them: its parameters and
/// its body.
pub proof fn law_method_is_found(ss: Seq<StmtV>, t: Seq<char>, name: Seq<char>)
    ensures
        find_method(ss, t, name, 0) is Some <==> exists|k: int, j: int| #[trigger]
            holds(ss, t, name, k, j),
        forall|k: int, j: int| #[trigger]
            holds_first(ss, t, name, k, j) ==> find_method(ss, t, name, 0) == Some(
                (
                    param_names(ss[k].kind->Impl_methods[j].kind->Fn_params),
                    ss[k].kind->Impl_methods[j].kind->Fn_body,
                ),
            ),
        find_method(ss, t, name, 0) is Some ==> exists|k: int, j: int| #[trigger]
            holds_first(ss, t, name, k, j),
{
    let r = lemma_find_method(ss, t, name, 0);
    if find_method(ss, t, name, 0) is Some {
        assert(holds(ss, t, name, r.0, r.1));
        assert(holds_first(ss, t, name, r.0, r.1));
        assert forall|k: int, j: int| #[trigger] holds_first(ss, t, name, k, j) implies k == r.0
            && j == r.1 by {
            assert(holds(ss, t, name, k, j));
        }
    } else {
        assert forall|k: int, j: int| !#[trigger] holds_first(ss, t, name, k, j) by {
            assert(!holds(ss, t, name, k, j));
        }
    }
}

/// The method that the interpreter finds is the one that the type checker found: each
/// finds one where the other does, with the same parameters.
pub proof fn law_checked_method_is_found(ss: Seq<StmtV>, t: Seq<char>, name: Seq<char>)
    ensures
        find_method(ss, t, name, 0) is Some <==> lookup_method(impl_table(ss), t, name, 0) is Some,
        find_method(ss, t, name, 0) is Some ==> find_method(ss, t, name, 0)->Some_0.0
            == param_names(lookup_method(impl_table(ss), t, name, 0)->Some_0.0),
{
    let r = lemma_find_method(ss, t, name, 0);
    assert(ss.take(0) =~= Seq::empty());
}

// ---- functions, macros and structs ----

/// The `k`th statement declares a function.
pub open spec fn declares_function(ss: Seq<StmtV>, name: Seq<char>, k: int) -> bool {
    0 <= k < ss.len() && ss[k].kind is Fn && ss[k].kind->Fn_name == name
}

/// A function is found if and only if it is declared; what is found is its last
/// declaration, the `k`th statement, which is also the one that calls are checked against.
pub proof fn law_function_is_found(ss: Seq<StmtV>, name: Seq<char>) -> (k: int)
    ensures
        find_fn(ss, name) is Some ==> {
            &&& declares_function(ss, name, k)
            &&& forall|l: int| #[trigger] declares_function(ss, name, l) ==> l <= k
            &&& find_fn(ss, name) == Some(
                (param_names(ss[k].kind->Fn_params), ss[k].kind->Fn_body),
            )
            &&& fn_table(ss)[name].ret == ss[k].kind->Fn_ret
            &&& fn_table(ss)[name].generics == ss[k].kind->Fn_generics
            &&& fn_table(ss)[name].params == ss[k].kind->Fn_params.map_values(
                |p: (Seq<char>, TypeV)| p.1,
            )
        },
        !(find_fn(ss, name) is Some) ==> forall|l: int| !#[trigger] declares_function(ss, name, l),
        fn_table(ss).contains_key(name) <==> find_fn(ss, name) is Some,
    decreases ss.len(),
{
    if ss.len() > 0 {
        let front = ss.drop_last();
        let n = ss.len() - 1;
        let k = law_function_is_found(front, name);
        assert(ss[n] == ss.last());
        assert forall|l: int| #[trigger] declares_function(ss, name, l) implies l == n || declares_function(
            front,
            name,
            l,
        ) by {}
        if declares_function(ss, name, n) {
            n
        } else {
            k
        }
    } else {
        0
    }
}

/// The `k`th statement declares a struct.
pub open spec fn declares_struct(ss: Seq<StmtV>, name: Seq<char>, k: int) -> bool {
    0 <= k < ss.len() && ss[k].kind is Struct && ss[k].kind->Struct_name == name
}

/// The same of structs and their fields.
pub proof fn law_struct_is_found(ss: Seq<StmtV>, name: Seq<char>) -> (k: int)
    ensures
        find_struct(ss, name) is Some ==> {
            &&& declares_struct(ss, name, k)
            &&& forall|l: int| #[trigger] declares_struct(ss, name, l) ==> l <= k
            &&& find_struct(ss, name) == Some(ss[k].kind->Struct_fields)
            &&& struct_table(ss)[name] == ss[k].kind->Struct_fields
        },
        !(find_struct(ss, name) is Some) ==> forall|l: int| !#[trigger] declares_struct(ss, name, l),
        struct_table(ss).contains_key(name) <==> find_struct(ss, name) is Some,
    decreases ss.len(),
{
    if ss.len() > 0 {
        let front = ss.drop_last();
        let n = ss.len() - 1;
        let k = law_struct_is_found(front, name);
        assert(ss[n] == ss.last());
        assert forall|l: int| #[trigger] declares_struct(ss, name, l) implies l == n || declares_struct(
            front,
            name,
            l,
        ) by {}
        if declares_struct(ss, name, n) {
            n
        } else {
            k
        }
    } else {
        0
    }
}

/// The `k`th statement declares a macro.
pub open spec fn declares_macro(ss: Seq<StmtV>, name: Seq<char>, k: int) -> bool {
    0 <= k < ss.len() && ss[k].kind is Macro && ss[k].kind->Macro_name == name
}

/// The same of macros.
pub proof fn law_macro_is_found(ss: Seq<StmtV>, name: Seq<char>) -> (k: int)
    ensures
        find_macro(ss, name) is Some ==> {
            &&& declares_macro(ss, name, k)
            &&& forall|l: int| #[trigger] declares_macro(ss, name, l) ==> l <= k
            &&& find_macro(ss, name) == Some((ss[k].kind->Macro_params, ss[k].kind->Macro_body))
            &&& macro_table(ss)[name] == ss[k].kind->Macro_params.len()
        },
        !(find_macro(ss, name) is Some) ==> forall|l: int| !#[trigger] declares_macro(ss, name, l),
        macro_table(ss).contains_key(name) <==> find_macro(ss, name) is Some,
    decreases ss.len(),
{
    if ss.len() > 0 {
        let front = ss.drop_last();
        let n = ss.len() - 1;
        let k = law_macro_is_found(front, name);
        assert(ss[n] == ss.last());
        assert forall|l: int| #[trigger] declares_macro(ss, name, l) implies l == n || declares_macro(
            front,
            name,
            l,
        ) by {}
        if declares_macro(ss, name, n) {
            n
        } else {
            k
        }
    } else {
        0
    }
}

/// A foreign function is known if and only if some statement declares it.
pub proof fn law_foreign_function_is_found(ss: Seq<StmtV>, name: Seq<char>)
    ensures
        has_extern(ss, name) <==> exists|k: int|
            0 <= k < ss.len() && (#[trigger] ss[k]).kind is ExternFn && ss[k].kind->ExternFn_name
                == name,
    decreases ss.len(),
{
    if ss.len() > 0 {
        let front = ss.drop_last();
        law_foreign_function_is_found(front, name);
        if has_extern(front, name) {
            let k = choose|k: int|
                0 <= k < front.len() && (#[trigger] front[k]).kind is ExternFn
                    && front[k].kind->ExternFn_name == name;
            assert(ss[k] == front[k]);
        }
        if exists|k: int|
            0 <= k < ss.len() && (#[trigger] ss[k]).kind is ExternFn && ss[k].kind->ExternFn_name
                == name {
            let k = choose|k: int|
                0 <= k < ss.len() && (#[trigger] ss[k]).kind is ExternFn && ss[k].kind->ExternFn_name
                    == name;
            if k < front.len() {
                assert(front[k] == ss[k]);
            }
        }
        assert(ss[ss.len() - 1] == ss.last());
    }
}

// ---- the fields of a struct value ----

/// The `k`th of some named values has a name, and none before it.
pub open spec fn is_slot(fields: Seq<(Seq<char>, ValueV)>, name: Seq<char>, k: int) -> bool {
    &&& 0 <= k < fields.len()
    &&& fields[k].0 == name
    &&& forall|j: int| 0 <= j < k ==> (#[trigger] fields[j]).0 != name
}

/// A field is read if and only if the value has it.
pub proof fn law_slot(fields: Seq<(Seq<char>, ValueV)>, name: Seq<char>, i: int)
    requires
        0 <= i,
        forall|j: int| 0 <= j < i && j < fields.len() ==> (#[trigger] fields[j]).0 != name,
    ensures
        forall|k: int| #[trigger] is_slot(fields, name, k) ==> slot(fields, name, i) == Some(
            fields[k].1,
        ),
        slot(fields, name, i) is Some ==> exists|k: int| #[trigger] is_slot(fields, name, k),
    decreases fields.len() - i,
{
    if i < fields.len() {
        if fields[i].0 == name {
            assert(is_slot(fields, name, i));
            assert forall|k: int| #[trigger] is_slot(fields, name, k) implies k == i by {
                if k < i {
                    assert(fields[k].0 != name);
                } else if k > i {
                    assert(fields[i].0 != name);
                }
            }
        } else {
            law_slot(fields, name, i + 1);
        }
    }
}

/// Names that differ from each other.
pub open spec fn distinct(names: Seq<Seq<char>>) -> bool {
    forall|i: int, j: int|
        0 <= i < j < names.len() ==> #[trigger] names[i] != #[trigger] names[j]
}

proof fn lemma_put_new(fields: Seq<(Seq<char>, ValueV)>, name: Seq<char>, v: ValueV, i: int)
    requires
        0 <= i <= fields.len(),
        forall|j: int| i <= j < fields.len() ==> (#[trigger] fields[j]).0 != name,
    ensures
        put(fields, name, v, i) == fields.push((name, v)),
    decreases fields.len() - i,
{
    if i < fields.len() {
        lemma_put_new(fields, name, v, i + 1);
    }
}

proof fn lemma_given(names: Seq<Seq<char>>, vals: Seq<ValueV>, n: int)
    requires
        0 <= n <= names.len(),
        names.len() == vals.len(),
        distinct(names),
    ensures
        given(names, vals, n).len() == n,
        forall|k: int|
            0 <= k < n ==> (#[trigger] given(names, vals, n)[k]) == (names[k], vals[k]),
    decreases n,
{
    if n > 0 {
        lemma_given(names, vals, n - 1);
        let before = given(names, vals, n - 1);
        assert forall|j: int| 0 <= j < before.len() implies (#[trigger] before[j]).0 != names[n
            - 1] by {}
        lemma_put_new(before, names[n - 1], vals[n - 1], 0);
    }
}

/// The `i`th declared field stands at its place with the value that was given for it.
proof fn lemma_in_order(
    def: Seq<(Seq<char>, TypeV)>,
    fields: Seq<(Seq<char>, ValueV)>,
    i: int,
    acc: Seq<(Seq<char>, ValueV)>,
)
    requires
        0 <= i <= def.len(),
        acc.len() == i,
        forall|k: int| 0 <= k < def.len() ==> slot(fields, (#[trigger] def[k]).0, 0) is Some,
        forall|k: int|
            0 <= k < i ==> (#[trigger] acc[k]) == (def[k].0, slot(fields, def[k].0, 0)->Some_0),
    ensures
        in_order(def, fields, i, acc).len() == def.len(),
        forall|k: int|
            0 <= k < def.len() ==> (#[trigger] in_order(def, fields, i, acc)[k]) == (
                def[k].0,
                slot(fields, def[k].0, 0)->Some_0,
            ),
    decreases def.len() - i,
{
    if i < def.len() {
        assert(slot(fields, def[i].0, 0) is Some);
        lemma_in_order(
            def,
            fields,
            i + 1,
            acc.push((def[i].0, slot(fields, def[i].0, 0)->Some_0)),
        );
    }
}

proof fn lemma_nothing_undeclared(
    def: Seq<(Seq<char>, TypeV)>,
    fields: Seq<(Seq<char>, ValueV)>,
    i: int,
    acc: Seq<(Seq<char>, ValueV)>,
)
    requires
        0 <= i,
        forall|k: int|
            0 <= k < fields.len() ==> named_type(def, (#[trigger] fields[k]).0, 0) is Some,
    ensures
        undeclared(def, fields, i, acc) == acc,
    decreases fields.len() - i,
{
    if i < fields.len() {
        assert(named_type(def, fields[i].0, 0) is Some);
        lemma_nothing_undeclared(def, fields, i + 1, acc);
    }
}

/// A struct has a field of a name.
pub open spec fn has_field(def: Seq<(Seq<char>, TypeV)>, name: Seq<char>) -> bool {
    exists|i: int| #[trigger] is_field(def, name, i)
}

/// The value of a struct literal that gives every field of the struct once, in whatever
/// order: the fields stand in the order of the declaration, and each has the value that
/// was given under its name.
#[verifier::rlimit(60)]
pub proof fn law_struct_value(
    def: Seq<(Seq<char>, TypeV)>,
    names: Seq<Seq<char>>,
    vals: Seq<ValueV>,
    d: int,
    k: int,
)
    requires
        names.len() == vals.len(),
        distinct(names),
        forall|i: int| 0 <= i < def.len() ==> names.contains((#[trigger] def[i]).0),
        forall|j: int| 0 <= j < names.len() ==> has_field(def, #[trigger] names[j]),
        0 <= d < def.len(),
        0 <= k < names.len(),
        def[d].0 == names[k],
    ensures
        ({
            let value = arranged(Some(def), given(names, vals, names.len() as int));
            &&& value.len() == def.len()
            &&& value[d] == (names[k], vals[k])
            &&& slot(value, names[k], 0) == Some(vals[k])
        }),
{
    let n = names.len() as int;
    let fields = given(names, vals, n);
    lemma_given(names, vals, n);
    assert forall|j: int| 0 <= j < n implies slot(fields, #[trigger] names[j], 0) == Some(
        vals[j],
    ) by {
        assert(fields[j] == (names[j], vals[j]));
        assert forall|q: int| 0 <= q < j implies (#[trigger] fields[q]).0 != names[j] by {
            assert(fields[q] == (names[q], vals[q]));
        }
        assert(is_slot(fields, names[j], j));
        law_slot(fields, names[j], 0);
    }
    assert forall|i: int| 0 <= i < def.len() implies slot(fields, (#[trigger] def[i]).0, 0)
        is Some by {
        assert(names.contains(def[i].0));
        let j = choose|j: int| 0 <= j < names.len() && names[j] == def[i].0;
        assert(slot(fields, names[j], 0) == Some(vals[j]));
    }
    lemma_in_order(def, fields, 0, Seq::empty());
    assert forall|j: int| 0 <= j < fields.len() implies named_type(
        def,
        (#[trigger] fields[j]).0,
        0,
    ) is Some by {
        assert(fields[j] == (names[j], vals[j]));
        assert(has_field(def, names[j]));
        let i = choose|i: int| #[trigger] is_field(def, names[j], i);
        law_field_of_a_name(def, names[j], 0);
        assert(is_field(def, names[j], i));
    }
    let ordered = in_order(def, fields, 0, Seq::empty());
    lemma_nothing_undeclared(def, fields, 0, ordered);
    assert(slot(fields, names[k], 0) == Some(vals[k]));
    assert(ordered[d] == (def[d].0, vals[k]));
    law_slot(ordered, names[k], 0);
    assert(has_field(def, names[k]));
    let i = choose|i: int| #[trigger] is_field(def, names[k], i);
    assert(ordered[i] == (def[i].0, slot(fields, def[i].0, 0)->Some_0));
    assert forall|j: int| 0 <= j < i implies (#[trigger] ordered[j]).0 != names[k] by {
        assert(def[j].0 != names[k]);
    }
    assert(is_slot(ordered, names[k], i));
}

} // verus!
