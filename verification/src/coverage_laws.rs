//! When a `match` covers its scrutinee, both ways: nothing is reported of one that does,
//! and what is reported of one that does not is what no arm takes. And what a name means
//! as a variant.

use crate::ast::{ExprKindV, ExprV, PatternV, TypeV};
use crate::typing::{
    covers_variant, has_catch_all, irrefutable, is_truth, missing_truths, missing_variants,
    truth_covered, uncovered, variant_covered,
};
use crate::variants::{
    law_sorted_by_tag, lookup_v, named, of_enum, qualified, separator, sorted_by_tag, LookupV,
    VariantV,
};
use vstd::prelude::*;

verus! {

/// An arm: alternatives, a guard, a body.
pub type ArmV = (Seq<PatternV>, Option<ExprV>, ExprV);

/// The `j`th alternative of the `i`th arm stands, and no guard can turn it down.
pub open spec fn stands(arms: Seq<ArmV>, i: int, j: int) -> bool {
    0 <= i < arms.len() && 0 <= j < arms[i].0.len() && arms[i].1 is None
}

/// `_` and a name take any value.
pub open spec fn takes_any(p: PatternV) -> bool {
    p is Wildcard || p is Variable
}

/// A pattern that names a variant and takes whatever the variant carries.
pub open spec fn takes_variant(p: PatternV, v: VariantV, all: Seq<VariantV>) -> bool {
    p matches PatternV::EnumVariant { name, inner } && (lookup_v(all, name) matches LookupV::Unique(
        w,
    ) && w.enum_name == v.enum_name && w.name == v.name) && forall|k: int|
        0 <= k < inner.len() ==> takes_any(#[trigger] inner[k])
}

/// A pattern that is a truth value.
pub open spec fn takes_truth(p: PatternV, b: bool) -> bool {
    p matches PatternV::Literal(e) && *e.kind == ExprKindV::Bool(b)
}

/// Some alternative of some arm without a guard takes a variant.
pub open spec fn variant_taken(arms: Seq<ArmV>, v: VariantV, all: Seq<VariantV>) -> bool {
    exists|i: int, j: int|
        #[trigger] stands(arms, i, j) && takes_variant(arms[i].0[j], v, all)
}

pub open spec fn truth_taken(arms: Seq<ArmV>, b: bool) -> bool {
    exists|i: int, j: int| #[trigger] stands(arms, i, j) && takes_truth(arms[i].0[j], b)
}

pub open spec fn all_taken(arms: Seq<ArmV>) -> bool {
    exists|i: int, j: int| #[trigger] stands(arms, i, j) && takes_any(arms[i].0[j])
}

proof fn lemma_taken(arms: Seq<ArmV>, v: VariantV, all: Seq<VariantV>, b: bool)
    ensures
        has_catch_all(arms) == all_taken(arms),
        truth_covered(arms, b) == truth_taken(arms, b),
        variant_covered(arms, v, all) == variant_taken(arms, v, all),
{
    assert forall|i: int, j: int| #[trigger] stands(arms, i, j) implies (takes_any(arms[i].0[j])
        == irrefutable(arms[i].0[j])) && (takes_truth(arms[i].0[j], b) == is_truth(
        arms[i].0[j],
        b,
    )) && (takes_variant(arms[i].0[j], v, all) == covers_variant(arms[i].0[j], v, all)) by {
        match arms[i].0[j] {
            PatternV::EnumVariant { name, inner } => {
                if covers_variant(arms[i].0[j], v, all) {
                    assert forall|k: int| 0 <= k < inner.len() implies takes_any(
                        #[trigger] inner[k],
                    ) by {
                        assert(irrefutable(inner[k]));
                    }
                }
                if takes_variant(arms[i].0[j], v, all) {
                    assert forall|k: int| 0 <= k < inner.len() implies irrefutable(
                        #[trigger] inner[k],
                    ) by {
                        assert(takes_any(inner[k]));
                    }
                }
            },
            _ => {},
        }
    }
    if has_catch_all(arms) {
        let (i, j) = choose|i: int, j: int|
            0 <= i < arms.len() && 0 <= j < arms[i].0.len() && arms[i].1 is None && irrefutable(
                #[trigger] arms[i].0[j],
            );
        assert(stands(arms, i, j));
    }
    if truth_covered(arms, b) {
        let (i, j) = choose|i: int, j: int|
            0 <= i < arms.len() && 0 <= j < arms[i].0.len() && arms[i].1 is None && is_truth(
                #[trigger] arms[i].0[j],
                b,
            );
        assert(stands(arms, i, j));
    }
    if variant_covered(arms, v, all) {
        let (i, j) = choose|i: int, j: int|
            0 <= i < arms.len() && 0 <= j < arms[i].0.len() && arms[i].1 is None
                && covers_variant(#[trigger] arms[i].0[j], v, all);
        assert(stands(arms, i, j));
    }
    if all_taken(arms) {
        let (i, j) = choose|i: int, j: int|
            #[trigger] stands(arms, i, j) && takes_any(arms[i].0[j]);
        assert(irrefutable(arms[i].0[j]));
    }
    if truth_taken(arms, b) {
        let (i, j) = choose|i: int, j: int|
            #[trigger] stands(arms, i, j) && takes_truth(arms[i].0[j], b);
        assert(is_truth(arms[i].0[j], b));
    }
    if variant_taken(arms, v, all) {
        let (i, j) = choose|i: int, j: int|
            #[trigger] stands(arms, i, j) && takes_variant(arms[i].0[j], v, all);
        assert(covers_variant(arms[i].0[j], v, all));
    }
}

/// The variants of an enum are those of its name.
pub proof fn law_variants_of_an_enum(all: Seq<VariantV>, n: Seq<char>, v: VariantV)
    ensures
        of_enum(all, n).contains(v) <==> all.contains(v) && v.enum_name == n,
        sorted_by_tag(of_enum(all, n)).contains(v) <==> all.contains(v) && v.enum_name == n,
    decreases all.len(),
{
    broadcast use vstd::seq_lib::group_to_multiset_ensures;

    let own = of_enum(all, n);
    if all.len() > 0 {
        let front = all.drop_last();
        law_variants_of_an_enum(front, n, v);
        assert(all =~= front.push(all.last()));
        lemma_push_contains(front, all.last(), v);
        lemma_push_contains(of_enum(front, n), all.last(), v);
    }
    law_sorted_by_tag(own);
    assert(own.to_multiset().count(v) == sorted_by_tag(own).to_multiset().count(v));
    assert(own.contains(v) <==> own.to_multiset().count(v) > 0);
    assert(sorted_by_tag(own).contains(v) <==> sorted_by_tag(own).to_multiset().count(v) > 0);
}

proof fn lemma_push_contains<T>(s: Seq<T>, x: T, v: T)
    ensures
        s.push(x).contains(v) <==> s.contains(v) || v == x,
{
    let t = s.push(x);
    if s.contains(v) {
        let i = choose|i: int| 0 <= i < s.len() && s[i] == v;
        assert(t[i] == v);
    }
    if v == x {
        assert(t[s.len() as int] == v);
    }
    if t.contains(v) {
        let i = choose|i: int| 0 <= i < t.len() && t[i] == v;
        if i < s.len() {
            assert(s[i] == v);
        }
    }
}

proof fn lemma_missing(vs: Seq<VariantV>, arms: Seq<ArmV>, all: Seq<VariantV>, name: Seq<char>)
    ensures
        missing_variants(vs, arms, all).len() == 0 <==> forall|v: VariantV| #[trigger]
            vs.contains(v) ==> variant_taken(arms, v, all),
        missing_variants(vs, arms, all).contains(name) <==> exists|v: VariantV| #[trigger]
            vs.contains(v) && v.name == name && !variant_taken(arms, v, all),
    decreases vs.len(),
{
    if vs.len() > 0 {
        let front = vs.drop_last();
        let last = vs.last();
        lemma_missing(front, arms, all, name);
        lemma_taken(arms, last, all, true);
        assert(vs =~= front.push(last));
        assert forall|v: VariantV| #[trigger] vs.contains(v) <==> front.contains(v) || v == last by {
            lemma_push_contains(front, last, v);
        }
        assert(vs.contains(last));
        let rest = missing_variants(front, arms, all);
        lemma_push_contains(rest, last.name, name);
        if exists|v: VariantV| #[trigger]
            front.contains(v) && v.name == name && !variant_taken(arms, v, all) {
            let v = choose|v: VariantV| #[trigger]
                front.contains(v) && v.name == name && !variant_taken(arms, v, all);
            assert(vs.contains(v));
        }
        if !(forall|v: VariantV| #[trigger] front.contains(v) ==> variant_taken(arms, v, all)) {
            let v = choose|v: VariantV| #[trigger]
                front.contains(v) && !variant_taken(arms, v, all);
            assert(vs.contains(v));
        }
    } else {
        assert forall|v: VariantV| !#[trigger] vs.contains(v) by {}
        assert(!missing_variants(vs, arms, all).contains(name));
    }
}

/// A `match` covers its scrutinee, and nothing is reported, if and only if some
/// alternative of an arm without a guard takes any value; or the type is not known; or it
/// is a truth value and both are taken; or it is an enum with variants, and every one of
/// them is taken by some alternative of some arm without a guard.
pub proof fn law_coverage(t: TypeV, arms: Seq<ArmV>, all: Seq<VariantV>)
    ensures
        uncovered(t, arms, all) is None <==> {
            ||| all_taken(arms)
            ||| t is Inferred
            ||| t is Bool && truth_taken(arms, true) && truth_taken(arms, false)
            ||| {
                &&& t is Named
                &&& exists|v: VariantV| #[trigger] all.contains(v) && v.enum_name == t->Named_0
                &&& forall|v: VariantV| #[trigger]
                    all.contains(v) && v.enum_name == t->Named_0 ==> variant_taken(arms, v, all)
            }
        },
{
    let nobody: VariantV = arbitrary();
    lemma_taken(arms, nobody, all, true);
    lemma_taken(arms, nobody, all, false);
    match t {
        TypeV::Named(n, _) => {
            let vs = sorted_by_tag(of_enum(all, n));
            lemma_missing(vs, arms, all, Seq::empty());
            assert forall|v: VariantV|
                #![trigger all.contains(v)]
                #![trigger vs.contains(v)]
                all.contains(v) && v.enum_name == n <==> vs.contains(v) by {
                law_variants_of_an_enum(all, n, v);
            }
            if vs.len() > 0 {
                assert(vs.contains(vs[0]));
            }
        },
        _ => {},
    }
}

/// What is reported of an enum is what no arm takes: the names of exactly those variants.
pub proof fn law_what_is_missing(
    n: Seq<char>,
    targs: Seq<TypeV>,
    arms: Seq<ArmV>,
    all: Seq<VariantV>,
    name: Seq<char>,
)
    ensures
        uncovered(TypeV::Named(n, targs), arms, all) matches Some(missing) ==> (missing.contains(
            name,
        ) <==> exists|v: VariantV| #[trigger]
            all.contains(v) && v.enum_name == n && v.name == name && !variant_taken(arms, v, all)),
{
    let vs = sorted_by_tag(of_enum(all, n));
    lemma_missing(vs, arms, all, name);
    assert forall|v: VariantV|
        #![trigger all.contains(v)]
        #![trigger vs.contains(v)]
        all.contains(v) && v.enum_name == n <==> vs.contains(v) by {
        law_variants_of_an_enum(all, n, v);
    }
    if missing_variants(vs, arms, all).contains(name) {
        let v = choose|v: VariantV| #[trigger]
            vs.contains(v) && v.name == name && !variant_taken(arms, v, all);
        assert(all.contains(v));
    }
    if exists|v: VariantV| #[trigger]
        all.contains(v) && v.enum_name == n && v.name == name && !variant_taken(arms, v, all) {
        let v = choose|v: VariantV| #[trigger]
            all.contains(v) && v.enum_name == n && v.name == name && !variant_taken(arms, v, all);
        assert(vs.contains(v));
    }
}

/// What is reported of a truth value: those that no arm takes.
pub proof fn law_missing_truths(arms: Seq<ArmV>, all: Seq<VariantV>)
    ensures
        uncovered(TypeV::Bool, arms, all) matches Some(missing) ==> {
            &&& missing.contains("true"@) <==> !truth_taken(arms, true)
            &&& missing.contains("false"@) <==> !truth_taken(arms, false)
        },
{
    let nobody: VariantV = arbitrary();
    lemma_taken(arms, nobody, all, true);
    lemma_taken(arms, nobody, all, false);
    reveal_strlit("true");
    reveal_strlit("false");
    let yes = "true"@;
    let no = "false"@;
    assert(yes.len() == 4 && no.len() == 5);
    let missing = missing_truths(arms);
    if !truth_covered(arms, true) {
        assert(missing[0] == yes);
    }
    if !truth_covered(arms, false) {
        assert(missing[missing.len() - 1] == no);
    }
}

// ---- names of variants ----

/// No `::` stands in a name.
pub open spec fn bare(name: Seq<char>) -> bool {
    forall|i: int|
        #![trigger name[i]]
        0 <= i && i + 1 < name.len() ==> !(name[i] == ':' && name[i + 1] == ':')
}

proof fn lemma_separator(name: Seq<char>, i: int)
    requires
        0 <= i,
    ensures
        separator(name, i) matches Some(k) ==> i <= k && k + 1 < name.len() && name[k] == ':'
            && name[k + 1] == ':' && forall|j: int|
            #![trigger name[j]]
            i <= j < k ==> !(name[j] == ':' && name[j + 1] == ':'),
        separator(name, i) is None ==> forall|j: int|
            #![trigger name[j]]
            i <= j && j + 1 < name.len() ==> !(name[j] == ':' && name[j + 1] == ':'),
    decreases name.len() - i,
{
    if i + 1 < name.len() {
        lemma_separator(name, i + 1);
    }
}

proof fn lemma_named(all: Seq<VariantV>, name: Seq<char>, v: VariantV)
    ensures
        named(all, name).contains(v) <==> all.contains(v) && v.name == name,
    decreases all.len(),
{
    if all.len() > 0 {
        let front = all.drop_last();
        lemma_named(front, name, v);
        assert(all =~= front.push(all.last()));
        lemma_push_contains(front, all.last(), v);
        lemma_push_contains(named(front, name), all.last(), v);
    }
}

/// No variant has a name.
pub open spec fn unused(all: Seq<VariantV>, name: Seq<char>) -> bool {
    forall|i: int| 0 <= i < all.len() ==> (#[trigger] all[i]).name != name
}

/// One variant, the `i`th, has a name.
pub open spec fn used_once(all: Seq<VariantV>, name: Seq<char>, i: int) -> bool {
    &&& 0 <= i < all.len()
    &&& all[i].name == name
    &&& forall|j: int| 0 <= j < all.len() && (#[trigger] all[j]).name == name ==> j == i
}

proof fn lemma_unused(all: Seq<VariantV>, name: Seq<char>)
    ensures
        named(all, name).len() == 0 <==> unused(all, name),
    decreases all.len(),
{
    if all.len() > 0 {
        let front = all.drop_last();
        lemma_unused(front, name);
        assert forall|i: int| 0 <= i < front.len() implies all[i] == #[trigger] front[i] by {}
        if unused(all, name) {
            assert(all[all.len() - 1].name != name);
            assert forall|i: int| 0 <= i < front.len() implies (#[trigger] front[i]).name
                != name by {
                assert(all[i].name != name);
            }
        } else if all.last().name != name {
            let i = choose|i: int| 0 <= i < all.len() && (#[trigger] all[i]).name == name;
            assert(front[i].name == name);
        }
    }
}

proof fn lemma_used_once(all: Seq<VariantV>, name: Seq<char>) -> (k: int)
    ensures
        named(all, name).len() == 1 ==> used_once(all, name, k),
        forall|i: int| #[trigger] used_once(all, name, i) ==> named(all, name).len() == 1,
    decreases all.len(),
{
    if all.len() > 0 {
        let front = all.drop_last();
        let n = all.len() - 1;
        let k = lemma_used_once(front, name);
        lemma_unused(front, name);
        assert forall|i: int| #[trigger] used_once(all, name, i) implies named(all, name).len()
            == 1 by {
            if i == n {
                assert forall|j: int| 0 <= j < front.len() implies (#[trigger] front[j]).name
                    != name by {
                    assert(all[j] == front[j]);
                }
            } else {
                assert(all[n].name != name);
                assert forall|j: int|
                    0 <= j < front.len() && (#[trigger] front[j]).name == name implies j == i by {
                    assert(all[j] == front[j]);
                }
                assert(used_once(front, name, i));
            }
        }
        if named(all, name).len() == 1 {
            let r = if all.last().name == name {
                n
            } else {
                k
            };
            assert forall|j: int| 0 <= j < all.len() && (#[trigger] all[j]).name == name implies j
                == r by {
                if j < n {
                    assert(front[j].name == name);
                }
            }
            assert(used_once(all, name, r));
            r
        } else {
            0
        }
    } else {
        0
    }
}

/// A bare name means a variant if and only if exactly one variant has it. It means
/// nothing if none has, and is ambiguous if several have.
pub proof fn law_bare_name(all: Seq<VariantV>, name: Seq<char>)
    requires
        bare(name),
    ensures
        lookup_v(all, name) is Unknown <==> unused(all, name),
        lookup_v(all, name) is Unique <==> exists|i: int| #[trigger] used_once(all, name, i),
        lookup_v(all, name) matches LookupV::Unique(v) ==> all.contains(v) && v.name == name,
{
    lemma_separator(name, 0);
    match separator(name, 0) {
        Some(k) => {
            assert(name[k] == ':');
        },
        None => {
            lemma_unused(all, name);
            let k = lemma_used_once(all, name);
            if named(all, name).len() == 1 {
                assert(used_once(all, name, k));
                lemma_named(all, name, named(all, name)[0]);
                assert(named(all, name).contains(named(all, name)[0]));
            }
        },
    }
}

proof fn lemma_qualified(all: Seq<VariantV>, enum_name: Seq<char>, name: Seq<char>)
    ensures
        qualified(all, enum_name, name) is None <==> forall|v: VariantV| #[trigger]
            all.contains(v) ==> !(v.name == name && v.enum_name == enum_name),
        qualified(all, enum_name, name) matches Some(v) ==> all.contains(v) && v.name == name
            && v.enum_name == enum_name,
    decreases all.len(),
{
    if all.len() > 0 {
        let front = all.drop_last();
        lemma_qualified(front, enum_name, name);
        assert(all =~= front.push(all.last()));
        assert forall|v: VariantV| #[trigger] all.contains(v) <==> front.contains(v) || v
            == all.last() by {
            lemma_push_contains(front, all.last(), v);
        }
        assert(all.contains(all.last()));
        match qualified(front, enum_name, name) {
            Some(v) => {
                assert(all.contains(v));
            },
            None => {},
        }
    } else {
        assert forall|v: VariantV| !#[trigger] all.contains(v) by {}
    }
}

/// A name `E::V` means the variant `V` of the enum `E`, whatever other enums have one of
/// that name, and means nothing if `E` has none.
pub proof fn law_qualified_name(all: Seq<VariantV>, e: Seq<char>, v: Seq<char>)
    requires
        bare(e),
        e.len() > 0 ==> e.last() != ':',
    ensures
        lookup_v(all, e + seq![':', ':'] + v) matches LookupV::Unique(w) ==> all.contains(w)
            && w.enum_name == e && w.name == v,
        lookup_v(all, e + seq![':', ':'] + v) is Unique <==> exists|w: VariantV| #[trigger]
            all.contains(w) && w.enum_name == e && w.name == v,
        !(lookup_v(all, e + seq![':', ':'] + v) is Ambiguous),
{
    let name = e + seq![':', ':'] + v;
    let n = e.len() as int;
    lemma_separator(name, 0);
    assert(name[n] == ':' && name[n + 1] == ':');
    match separator(name, 0) {
        Some(k) => {
            if k < n {
                assert(name[k] == e[k]);
                if k + 1 < n {
                    assert(name[k + 1] == e[k + 1]);
                }
            } else if k > n {
                assert(name[n] == ':');
            }
            assert(name.take(k) =~= e);
            assert(name.skip(k + 2) =~= v);
            lemma_qualified(all, e, v);
        },
        None => {},
    }
}

} // verus!
