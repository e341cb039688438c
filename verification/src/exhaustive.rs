//! Whether a `match` covers every value of its scrutinee's type.

use crate::ast::{arms_view, patterns_view, Expr, ExprKind, Pattern, PatternV, Type};
use crate::env::TypeEnv;
use crate::text::{str_eq, texts};
use crate::typing::{
    covers_variant, has_catch_all, irrefutable, irrefutable_each, is_truth, missing_truths,
    missing_variants, truth_covered, uncovered, variant_covered,
};
use crate::variants::{variants_view, Lookup, Variant};
use vstd::prelude::*;

verus! {

broadcast use crate::ast::group_views;

fn is_irrefutable(p: &Pattern) -> (r: bool)
    ensures
        r == irrefutable(p@),
{
    match p {
        Pattern::Wildcard => true,
        Pattern::Variable(_) => true,
        _ => false,
    }
}

fn any_irrefutable(ps: &Vec<Pattern>) -> (r: bool)
    ensures
        r == exists|j: int|
            0 <= j < ps@.len() && irrefutable(#[trigger] patterns_view(ps@)[j]),
{
    let mut j: usize = 0;
    while j < ps.len()
        invariant
            j <= ps@.len(),
            forall|k: int| 0 <= k < j ==> !irrefutable(#[trigger] patterns_view(ps@)[k]),
        decreases ps@.len() - j,
    {
        assert(patterns_view(ps@)[j as int] == ps@[j as int]@);
        if is_irrefutable(&ps[j]) {
            return true;
        }
        j += 1;
    }
    false
}

fn all_irrefutable(ps: &Vec<Pattern>) -> (r: bool)
    ensures
        r == irrefutable_each(patterns_view(ps@)),
{
    let mut j: usize = 0;
    while j < ps.len()
        invariant
            j <= ps@.len(),
            forall|k: int| 0 <= k < j ==> irrefutable(#[trigger] patterns_view(ps@)[k]),
        decreases ps@.len() - j,
    {
        assert(patterns_view(ps@)[j as int] == ps@[j as int]@);
        if !is_irrefutable(&ps[j]) {
            return false;
        }
        j += 1;
    }
    true
}

/// Some unguarded arm holds a pattern that every value matches.
fn find_catch_all(arms: &Vec<(Vec<Pattern>, Option<Expr>, Expr)>) -> (r: bool)
    ensures
        r == has_catch_all(arms_view(arms@)),
{
    let ghost all = arms_view(arms@);
    let mut i: usize = 0;
    while i < arms.len()
        invariant
            i <= arms@.len(),
            all == arms_view(arms@),
            forall|k: int, j: int|
                0 <= k < i && 0 <= j < all[k].0.len() && all[k].1 is None ==> !irrefutable(
                    #[trigger] all[k].0[j],
                ),
        decreases arms@.len() - i,
    {
        assert(all[i as int].0 == patterns_view(arms@[i as int].0@));
        if arms[i].1.is_none() && any_irrefutable(&arms[i].0) {
            let ghost j = choose|j: int|
                0 <= j < arms@[i as int].0@.len() && irrefutable(
                    #[trigger] patterns_view(arms@[i as int].0@)[j],
                );
            assert(irrefutable(all[i as int].0[j]));
            return true;
        }
        i += 1;
    }
    false
}

fn covers(p: &Pattern, v: &Variant, env: &TypeEnv) -> (r: bool)
    ensures
        r == covers_variant(p@, v@, env@.variants),
{
    match p {
        Pattern::EnumVariant { name, inner } => {
            assert(p@ == (PatternV::EnumVariant { name: name@, inner: patterns_view(inner@) }));
            match env.lookup_variant(name.as_str()) {
                Lookup::Unique(w) => str_eq(w.enum_name.as_str(), v.enum_name.as_str()) && str_eq(
                    w.name.as_str(),
                    v.name.as_str(),
                ) && all_irrefutable(inner),
                _ => false,
            }
        },
        _ => false,
    }
}

fn any_covers(ps: &Vec<Pattern>, v: &Variant, env: &TypeEnv) -> (r: bool)
    ensures
        r == exists|j: int|
            0 <= j < ps@.len() && covers_variant(
                #[trigger] patterns_view(ps@)[j],
                v@,
                env@.variants,
            ),
{
    let mut j: usize = 0;
    while j < ps.len()
        invariant
            j <= ps@.len(),
            forall|k: int|
                0 <= k < j ==> !covers_variant(
                    #[trigger] patterns_view(ps@)[k],
                    v@,
                    env@.variants,
                ),
        decreases ps@.len() - j,
    {
        assert(patterns_view(ps@)[j as int] == ps@[j as int]@);
        if covers(&ps[j], v, env) {
            return true;
        }
        j += 1;
    }
    false
}

/// Some unguarded arm covers a variant.
fn is_covered(arms: &Vec<(Vec<Pattern>, Option<Expr>, Expr)>, v: &Variant, env: &TypeEnv) -> (r:
    bool)
    ensures
        r == variant_covered(arms_view(arms@), v@, env@.variants),
{
    let ghost all = arms_view(arms@);
    let mut i: usize = 0;
    while i < arms.len()
        invariant
            i <= arms@.len(),
            all == arms_view(arms@),
            forall|k: int, j: int|
                0 <= k < i && 0 <= j < all[k].0.len() && all[k].1 is None ==> !covers_variant(
                    #[trigger] all[k].0[j],
                    v@,
                    env@.variants,
                ),
        decreases arms@.len() - i,
    {
        assert(all[i as int].0 == patterns_view(arms@[i as int].0@));
        if arms[i].1.is_none() && any_covers(&arms[i].0, v, env) {
            let ghost j = choose|j: int|
                0 <= j < arms@[i as int].0@.len() && covers_variant(
                    #[trigger] patterns_view(arms@[i as int].0@)[j],
                    v@,
                    env@.variants,
                );
            assert(covers_variant(all[i as int].0[j], v@, env@.variants));
            return true;
        }
        i += 1;
    }
    false
}

fn is_bool(p: &Pattern, b: bool) -> (r: bool)
    ensures
        r == is_truth(p@, b),
{
    match p {
        Pattern::Literal(e) => {
            assert(*e@.kind == (*e.kind)@);
            match &*e.kind {
                ExprKind::Bool(x) => *x == b,
                _ => false,
            }
        },
        _ => false,
    }
}

fn any_bool(ps: &Vec<Pattern>, b: bool) -> (r: bool)
    ensures
        r == exists|j: int| 0 <= j < ps@.len() && is_truth(#[trigger] patterns_view(ps@)[j], b),
{
    let mut j: usize = 0;
    while j < ps.len()
        invariant
            j <= ps@.len(),
            forall|k: int| 0 <= k < j ==> !is_truth(#[trigger] patterns_view(ps@)[k], b),
        decreases ps@.len() - j,
    {
        assert(patterns_view(ps@)[j as int] == ps@[j as int]@);
        if is_bool(&ps[j], b) {
            return true;
        }
        j += 1;
    }
    false
}

/// Some unguarded arm is the given truth value.
fn covers_bool(arms: &Vec<(Vec<Pattern>, Option<Expr>, Expr)>, b: bool) -> (r: bool)
    ensures
        r == truth_covered(arms_view(arms@), b),
{
    let ghost all = arms_view(arms@);
    let mut i: usize = 0;
    while i < arms.len()
        invariant
            i <= arms@.len(),
            all == arms_view(arms@),
            forall|k: int, j: int|
                0 <= k < i && 0 <= j < all[k].0.len() && all[k].1 is None ==> !is_truth(
                    #[trigger] all[k].0[j],
                    b,
                ),
        decreases arms@.len() - i,
    {
        assert(all[i as int].0 == patterns_view(arms@[i as int].0@));
        if arms[i].1.is_none() && any_bool(&arms[i].0, b) {
            let ghost j = choose|j: int|
                0 <= j < arms@[i as int].0@.len() && is_truth(
                    #[trigger] patterns_view(arms@[i as int].0@)[j],
                    b,
                );
            assert(is_truth(all[i as int].0[j], b));
            return true;
        }
        i += 1;
    }
    false
}

/// The names of the variants that no arm covers.
fn find_missing(vs: &Vec<Variant>, arms: &Vec<(Vec<Pattern>, Option<Expr>, Expr)>, env: &TypeEnv) -> (r:
    Vec<String>)
    ensures
        texts(r@) == missing_variants(variants_view(vs@), arms_view(arms@), env@.variants),
{
    let ghost all = variants_view(vs@);
    let mut out: Vec<String> = Vec::new();
    let mut i: usize = 0;
    assert(texts(out@) =~= missing_variants(all.take(0), arms_view(arms@), env@.variants));
    while i < vs.len()
        invariant
            i <= vs@.len(),
            all == variants_view(vs@),
            texts(out@) == missing_variants(
                all.take(i as int),
                arms_view(arms@),
                env@.variants,
            ),
        decreases vs@.len() - i,
    {
        proof {
            assert(all.take(i + 1).drop_last() =~= all.take(i as int));
            assert(all.take(i + 1).last() == vs@[i as int]@);
        }
        if !is_covered(arms, &vs[i], env) {
            out.push(vs[i].name.clone());
        }
        i += 1;
    }
    assert(all.take(i as int) =~= all);
    out
}

/// What a match on a value of type `t` leaves uncovered: every variant of an
/// enum, both booleans, or a catch-all arm is needed. A guarded arm covers
/// nothing, since its guard can turn it down.
pub(crate) fn find_uncovered(
    t: &Type,
    arms: &Vec<(Vec<Pattern>, Option<Expr>, Expr)>,
    env: &TypeEnv,
) -> (r: Option<Vec<String>>)
    ensures
        match uncovered(t@, arms_view(arms@), env@.variants) {
            Some(missing) => r is Some && texts(r->Some_0@) == missing,
            None => r is None,
        },
{
    if find_catch_all(arms) {
        return None;
    }
    match t {
        Type::Inferred => None,
        Type::Bool => {
            let mut out: Vec<String> = Vec::new();
            let no_true = !covers_bool(arms, true);
            let no_false = !covers_bool(arms, false);
            if no_true {
                out.push("true".to_owned());
            }
            if no_false {
                out.push("false".to_owned());
            }
            assert(texts(out@) =~= missing_truths(arms_view(arms@)));
            if out.len() == 0 {
                None
            } else {
                Some(out)
            }
        },
        Type::Named(n, _) => {
            let vs = env.variants_of(n.as_str());
            assert(variants_view(vs@).len() == vs@.len());
            if vs.len() == 0 {
                let none: Vec<String> = Vec::new();
                assert(texts(none@) =~= Seq::empty());
                return Some(none);
            }
            let missing = find_missing(&vs, arms, env);
            assert(texts(missing@).len() == missing@.len());
            if missing.len() == 0 {
                None
            } else {
                Some(missing)
            }
        },
        _ => {
            let none: Vec<String> = Vec::new();
            assert(texts(none@) =~= Seq::empty());
            Some(none)
        },
    }
}

} // verus!
