//! Deterministic mapping from an enum-variant name to the enum that declares
//! it. The index is built from the program in declaration order, and reports a
//! collision as an ambiguity rather than silently picking a winner. It also
//! resolves qualified names (`Color::Red`).

use crate::ast::{
    cases_view, dup_types, stmts_view, types_view, Program, StmtKind, StmtKindV, StmtV, Type,
    TypeV,
};
use crate::text::{chars_of, str_eq, string_of, texts};
use vstd::prelude::*;

verus! {

/// A variant and the enum that declares it.
#[derive(Debug)]
pub struct Variant {
    pub enum_name: String,
    pub name: String,
    /// Position within its enum; used as the runtime tag by the native
    /// backend.
    pub tag: usize,
    pub payload: Vec<Type>,
    /// Whether *any* variant of the owning enum carries a payload. The native
    /// backend picks a boxed or an immediate representation based on this.
    pub enum_has_payload: bool,
}

/// The model of a `Variant`.
pub struct VariantV {
    pub enum_name: Seq<char>,
    pub name: Seq<char>,
    pub tag: int,
    pub payload: Seq<TypeV>,
    pub enum_has_payload: bool,
}

impl Variant {
    pub open spec fn view(&self) -> VariantV {
        VariantV {
            enum_name: self.enum_name@,
            name: self.name@,
            tag: self.tag as int,
            payload: types_view(self.payload@),
            enum_has_payload: self.enum_has_payload,
        }
    }

    /// A copy of the variant.
    pub fn dup(&self) -> (r: Self)
        ensures
            r@ == self@,
    {
        Variant {
            enum_name: self.enum_name.clone(),
            name: self.name.clone(),
            tag: self.tag,
            payload: dup_types(&self.payload),
            enum_has_payload: self.enum_has_payload,
        }
    }
}

/// The models of a list of variants.
pub open spec fn variants_view(s: Seq<Variant>) -> Seq<VariantV> {
    s.map_values(|v: Variant| v@)
}

/// What a name in a program means as a variant.
#[derive(Debug)]
pub enum Lookup {
    Unknown,
    Unique(Variant),
    /// Declared by more than one enum. Names are in declaration order.
    Ambiguous(Vec<String>),
}

/// The model of a `Lookup`.
pub enum LookupV {
    Unknown,
    Unique(VariantV),
    Ambiguous(Seq<Seq<char>>),
}

impl Lookup {
    pub open spec fn view(&self) -> LookupV {
        match self {
            Lookup::Unknown => LookupV::Unknown,
            Lookup::Unique(v) => LookupV::Unique(v@),
            Lookup::Ambiguous(names) => LookupV::Ambiguous(texts(names@)),
        }
    }
}

/// Whether one of the first `n` variants of an enum carries a payload.
pub open spec fn any_payload(cases: Seq<(Seq<char>, Seq<TypeV>)>) -> bool {
    exists|i: int| 0 <= i < cases.len() && (#[trigger] cases[i]).1.len() > 0
}

/// The variants that one enum declares, tagged in order.
pub open spec fn enum_variants(name: Seq<char>, cases: Seq<(Seq<char>, Seq<TypeV>)>) -> Seq<
    VariantV,
> {
    Seq::new(
        cases.len(),
        |i: int|
            VariantV {
                enum_name: name,
                name: cases[i].0,
                tag: i,
                payload: cases[i].1,
                enum_has_payload: any_payload(cases),
            },
    )
}

/// The enums that every program has.
pub open spec fn builtin_enums_v() -> Seq<(Seq<char>, Seq<(Seq<char>, Seq<TypeV>)>)> {
    seq![
        ("Option"@, seq![("Some"@, seq![TypeV::Inferred]), ("None"@, Seq::empty())]),
        ("Result"@, seq![("Ok"@, seq![TypeV::Inferred]), ("Err"@, seq![TypeV::Inferred])]),
    ]
}

/// The variants of a list of enums, in order.
pub open spec fn enums_variants(enums: Seq<(Seq<char>, Seq<(Seq<char>, Seq<TypeV>)>)>) -> Seq<
    VariantV,
>
    decreases enums.len(),
{
    if enums.len() == 0 {
        Seq::empty()
    } else {
        enums_variants(enums.drop_last()) + enum_variants(enums.last().0, enums.last().1)
    }
}

/// The enums that a program declares, in order.
pub open spec fn declared_enums(stmts: Seq<StmtV>) -> Seq<
    (Seq<char>, Seq<(Seq<char>, Seq<TypeV>)>),
>
    decreases stmts.len(),
{
    if stmts.len() == 0 {
        Seq::empty()
    } else {
        match stmts.last().kind {
            StmtKindV::Enum { name, variants } => declared_enums(stmts.drop_last()).push(
                (name, variants),
            ),
            _ => declared_enums(stmts.drop_last()),
        }
    }
}

/// All variants of a program: the built-in ones first, so that a user enum
/// reusing these names shows up as an ambiguity.
pub open spec fn program_variants(stmts: Seq<StmtV>) -> Seq<VariantV> {
    enums_variants(builtin_enums_v() + declared_enums(stmts))
}

/// The variants with a given name.
pub open spec fn named(all: Seq<VariantV>, name: Seq<char>) -> Seq<VariantV>
    decreases all.len(),
{
    if all.len() == 0 {
        Seq::empty()
    } else if all.last().name == name {
        named(all.drop_last(), name).push(all.last())
    } else {
        named(all.drop_last(), name)
    }
}

/// The first variant with a given name in a given enum.
pub open spec fn qualified(all: Seq<VariantV>, enum_name: Seq<char>, name: Seq<char>) -> Option<
    VariantV,
>
    decreases all.len(),
{
    if all.len() == 0 {
        None
    } else {
        match qualified(all.drop_last(), enum_name, name) {
            Some(v) => Some(v),
            None => if all.last().name == name && all.last().enum_name == enum_name {
                Some(all.last())
            } else {
                None
            },
        }
    }
}

/// Where the first `::` stands at or after `i`.
pub open spec fn separator(name: Seq<char>, i: int) -> Option<int>
    decreases name.len() - i,
{
    if i + 1 >= name.len() {
        None
    } else if name[i] == ':' && name[i + 1] == ':' {
        Some(i)
    } else {
        separator(name, i + 1)
    }
}

/// What a name means as a variant. A name is bare (`Red`) or qualified
/// (`Color::Red`).
pub open spec fn lookup_v(all: Seq<VariantV>, name: Seq<char>) -> LookupV {
    match separator(name, 0) {
        Some(k) => match qualified(all, name.take(k), name.skip(k + 2)) {
            Some(v) => LookupV::Unique(v),
            None => LookupV::Unknown,
        },
        None => {
            let found = named(all, name);
            if found.len() == 0 {
                LookupV::Unknown
            } else if found.len() == 1 {
                LookupV::Unique(found[0])
            } else {
                LookupV::Ambiguous(found.map_values(|v: VariantV| v.enum_name))
            }
        },
    }
}

/// The variants of an enum, in the order they were indexed.
pub open spec fn of_enum(all: Seq<VariantV>, enum_name: Seq<char>) -> Seq<VariantV>
    decreases all.len(),
{
    if all.len() == 0 {
        Seq::empty()
    } else if all.last().enum_name == enum_name {
        of_enum(all.drop_last(), enum_name).push(all.last())
    } else {
        of_enum(all.drop_last(), enum_name)
    }
}

/// `v` put behind every variant whose tag is not larger.
pub open spec fn insert_by_tag(s: Seq<VariantV>, v: VariantV) -> Seq<VariantV>
    decreases s.len(),
{
    if s.len() > 0 && s.last().tag > v.tag {
        insert_by_tag(s.drop_last(), v).push(s.last())
    } else {
        s.push(v)
    }
}

/// Variants sorted by tag; equal tags keep their order.
pub open spec fn sorted_by_tag(s: Seq<VariantV>) -> Seq<VariantV>
    decreases s.len(),
{
    if s.len() == 0 {
        s
    } else {
        insert_by_tag(sorted_by_tag(s.drop_last()), s.last())
    }
}

pub open spec fn tags_ascend(s: Seq<VariantV>) -> bool {
    forall|i: int, j: int| 0 <= i <= j < s.len() ==> (#[trigger] s[i]).tag <= (#[trigger] s[j]).tag
}

proof fn lemma_insert_by_tag(s: Seq<VariantV>, v: VariantV)
    requires
        tags_ascend(s),
    ensures
        tags_ascend(insert_by_tag(s, v)),
        insert_by_tag(s, v).to_multiset() =~= s.to_multiset().insert(v),
        insert_by_tag(s, v).len() == s.len() + 1,
        s.len() > 0 && s.last().tag > v.tag ==> insert_by_tag(s, v).last() == s.last(),
        !(s.len() > 0 && s.last().tag > v.tag) ==> insert_by_tag(s, v).last() == v,
    decreases s.len(),
{
    broadcast use vstd::seq_lib::group_to_multiset_ensures;

    if s.len() > 0 && s.last().tag > v.tag {
        let front = s.drop_last();
        lemma_insert_by_tag(front, v);
        assert(s =~= front.push(s.last()));
    }
}

/// Sorting by tag gives ascending tags and keeps the variants.
pub proof fn law_sorted_by_tag(s: Seq<VariantV>)
    ensures
        tags_ascend(sorted_by_tag(s)),
        sorted_by_tag(s).to_multiset() =~= s.to_multiset(),
        sorted_by_tag(s).len() == s.len(),
    decreases s.len(),
{
    broadcast use vstd::seq_lib::group_to_multiset_ensures;

    if s.len() > 0 {
        law_sorted_by_tag(s.drop_last());
        lemma_insert_by_tag(sorted_by_tag(s.drop_last()), s.last());
        assert(s =~= s.drop_last().push(s.last()));
    }
}

proof fn lemma_sorted_already(s: Seq<VariantV>)
    requires
        tags_ascend(s),
    ensures
        sorted_by_tag(s) == s,
    decreases s.len(),
{
    if s.len() > 0 {
        lemma_sorted_already(s.drop_last());
        assert(s =~= s.drop_last().push(s.last()));
        if s.len() > 1 {
            assert(s.drop_last().last() == s[s.len() - 2]);
        }
    }
}

proof fn lemma_of_enum_adds(a: Seq<VariantV>, b: Seq<VariantV>, e: Seq<char>)
    ensures
        of_enum(a + b, e) == of_enum(a, e) + of_enum(b, e),
    decreases b.len(),
{
    if b.len() == 0 {
        assert(a + b =~= a);
    } else {
        lemma_of_enum_adds(a, b.drop_last(), e);
        assert((a + b).drop_last() =~= a + b.drop_last());
        assert((a + b).last() == b.last());
    }
}

proof fn lemma_of_enum_uniform(s: Seq<VariantV>, name: Seq<char>, e: Seq<char>)
    requires
        forall|i: int| 0 <= i < s.len() ==> (#[trigger] s[i]).enum_name == name,
    ensures
        of_enum(s, e) == (if name == e {
            s
        } else {
            Seq::empty()
        }),
    decreases s.len(),
{
    if s.len() > 0 {
        lemma_of_enum_uniform(s.drop_last(), name, e);
        assert(s =~= s.drop_last().push(s.last()));
        assert(s[s.len() - 1].enum_name == name);
    }
}

/// An enum that is declared once has its variants in declaration order.
pub proof fn law_declaration_order(
    enums: Seq<(Seq<char>, Seq<(Seq<char>, Seq<TypeV>)>)>,
    k: int,
)
    requires
        0 <= k < enums.len(),
        forall|i: int| 0 <= i < enums.len() && i != k ==> (#[trigger] enums[i]).0 != enums[k].0,
    ensures
        sorted_by_tag(of_enum(enums_variants(enums), enums[k].0)) == enum_variants(
            enums[k].0,
            enums[k].1,
        ),
{
    let own = enum_variants(enums[k].0, enums[k].1);
    lemma_one_declaration(enums, k, enums.len() as int);
    assert(enums.take(enums.len() as int) =~= enums);
    assert(tags_ascend(own));
    lemma_sorted_already(own);
}

proof fn lemma_one_declaration(
    enums: Seq<(Seq<char>, Seq<(Seq<char>, Seq<TypeV>)>)>,
    k: int,
    n: int,
)
    requires
        0 <= k < enums.len(),
        0 <= n <= enums.len(),
        forall|i: int| 0 <= i < enums.len() && i != k ==> (#[trigger] enums[i]).0 != enums[k].0,
    ensures
        of_enum(enums_variants(enums.take(n)), enums[k].0) == (if n > k {
            enum_variants(enums[k].0, enums[k].1)
        } else {
            Seq::empty()
        }),
    decreases n,
{
    if n > 0 {
        lemma_one_declaration(enums, k, n - 1);
        let front = enums.take(n);
        assert(front.drop_last() =~= enums.take(n - 1));
        let last = enum_variants(enums[n - 1].0, enums[n - 1].1);
        lemma_of_enum_adds(enums_variants(front.drop_last()), last, enums[k].0);
        lemma_of_enum_uniform(last, enums[n - 1].0, enums[k].0);
        if n - 1 == k {
            assert(Seq::<VariantV>::empty() + last =~= last);
        } else {
            assert(of_enum(enums_variants(front.drop_last()), enums[k].0) + Seq::<VariantV>::empty()
                =~= of_enum(enums_variants(front.drop_last()), enums[k].0));
        }
    }
}

proof fn lemma_named_adds(a: Seq<VariantV>, b: Seq<VariantV>, name: Seq<char>)
    ensures
        named(a + b, name) == named(a, name) + named(b, name),
    decreases b.len(),
{
    if b.len() == 0 {
        assert(a + b =~= a);
    } else {
        lemma_named_adds(a, b.drop_last(), name);
        assert((a + b).drop_last() =~= a + b.drop_last());
        assert((a + b).last() == b.last());
    }
}

proof fn lemma_named_finds(s: Seq<VariantV>, i: int)
    requires
        0 <= i < s.len(),
    ensures
        named(s, s[i].name).len() >= 1,
    decreases s.len(),
{
    if i < s.len() - 1 {
        lemma_named_finds(s.drop_last(), i);
    }
}

proof fn lemma_named_once(name: Seq<char>, cases: Seq<(Seq<char>, Seq<TypeV>)>, n: int, i: int)
    requires
        0 <= n <= cases.len(),
        0 <= i < cases.len(),
        forall|a: int, b: int|
            0 <= a < b < cases.len() ==> (#[trigger] cases[a]).0 != (#[trigger] cases[b]).0,
    ensures
        named(enum_variants(name, cases).take(n), cases[i].0) == (if i < n {
            seq![enum_variants(name, cases)[i]]
        } else {
            Seq::empty()
        }),
    decreases n,
{
    let own = enum_variants(name, cases);
    if n > 0 {
        lemma_named_once(name, cases, n - 1, i);
        assert(own.take(n).drop_last() =~= own.take(n - 1));
        assert(own.take(n).last() == own[n - 1]);
        assert(own[n - 1].name == cases[n - 1].0);
        if n - 1 == i {
            assert(Seq::<VariantV>::empty().push(own[i]) =~= seq![own[i]]);
        }
    }
}

proof fn lemma_named_not(all: Seq<VariantV>, name: Seq<char>)
    requires
        forall|i: int| 0 <= i < all.len() ==> (#[trigger] all[i]).name != name,
    ensures
        named(all, name) == Seq::<VariantV>::empty(),
    decreases all.len(),
{
    if all.len() > 0 {
        assert(all[all.len() - 1].name != name);
        lemma_named_not(all.drop_last(), name);
    }
}

/// Adding an enum leaves the variants of the other enums as they are, and with them
/// every bare name that the enum does not declare.
pub proof fn law_enum_leaves_the_others(
    all: Seq<VariantV>,
    enum_name: Seq<char>,
    cases: Seq<(Seq<char>, Seq<TypeV>)>,
    other: Seq<char>,
    name: Seq<char>,
)
    requires
        other != enum_name,
        separator(name, 0) is None,
        forall|i: int| 0 <= i < cases.len() ==> (#[trigger] cases[i]).0 != name,
    ensures
        of_enum(all + enum_variants(enum_name, cases), other) == of_enum(all, other),
        sorted_by_tag(of_enum(all + enum_variants(enum_name, cases), other)) == sorted_by_tag(
            of_enum(all, other),
        ),
        lookup_v(all + enum_variants(enum_name, cases), name) == lookup_v(all, name),
{
    let own = enum_variants(enum_name, cases);
    lemma_of_enum_adds(all, own, other);
    lemma_of_enum_uniform(own, enum_name, other);
    assert(of_enum(all, other) + Seq::<VariantV>::empty() =~= of_enum(all, other));
    assert forall|i: int| 0 <= i < own.len() implies (#[trigger] own[i]).name != name by {
        assert(cases[i].0 != name);
    }
    lemma_named_adds(all, own, name);
    lemma_named_not(own, name);
    assert(named(all, name) + Seq::<VariantV>::empty() =~= named(all, name));
}

/// A bare name that an added enum declares once belongs to it where no enum had it,
/// and is ambiguous, the added enum last, where some enum had it.
pub proof fn law_enum_adds_its_names(
    all: Seq<VariantV>,
    enum_name: Seq<char>,
    cases: Seq<(Seq<char>, Seq<TypeV>)>,
    i: int,
)
    requires
        0 <= i < cases.len(),
        separator(cases[i].0, 0) is None,
        forall|a: int, b: int|
            0 <= a < b < cases.len() ==> (#[trigger] cases[a]).0 != (#[trigger] cases[b]).0,
    ensures
        lookup_v(all + enum_variants(enum_name, cases), cases[i].0) == (match lookup_v(
            all,
            cases[i].0,
        ) {
            LookupV::Unknown => LookupV::Unique(enum_variants(enum_name, cases)[i]),
            LookupV::Unique(v) => LookupV::Ambiguous(seq![v.enum_name, enum_name]),
            LookupV::Ambiguous(names) => LookupV::Ambiguous(names.push(enum_name)),
        }),
{
    let own = enum_variants(enum_name, cases);
    let name = cases[i].0;
    lemma_named_adds(all, own, name);
    lemma_named_once(enum_name, cases, cases.len() as int, i);
    assert(own.take(cases.len() as int) =~= own);
    let found = named(all, name);
    let both = found + seq![own[i]];
    let names = both.map_values(|v: VariantV| v.enum_name);
    assert(names =~= found.map_values(|v: VariantV| v.enum_name).push(enum_name));
    if found.len() == 1 {
        assert(names =~= seq![found[0].enum_name, enum_name]);
    }
}

proof fn lemma_enums_variants_adds(
    a: Seq<(Seq<char>, Seq<(Seq<char>, Seq<TypeV>)>)>,
    b: Seq<(Seq<char>, Seq<(Seq<char>, Seq<TypeV>)>)>,
)
    ensures
        enums_variants(a + b) == enums_variants(a) + enums_variants(b),
    decreases b.len(),
{
    if b.len() == 0 {
        assert(a + b =~= a);
        assert(enums_variants(a) + enums_variants(b) =~= enums_variants(a));
    } else {
        lemma_enums_variants_adds(a, b.drop_last());
        assert((a + b).drop_last() =~= a + b.drop_last());
        assert((a + b).last() == b.last());
        assert(enums_variants(a + b) =~= enums_variants(a) + enums_variants(b));
    }
}

proof fn lemma_enum_in_list(enums: Seq<(Seq<char>, Seq<(Seq<char>, Seq<TypeV>)>)>, k: int, i: int)
    requires
        0 <= k < enums.len(),
        0 <= i < enums[k].1.len(),
    ensures
        named(enums_variants(enums), enums[k].1[i].0).len() >= 1,
    decreases enums.len(),
{
    let front = enums.drop_last();
    let own = enum_variants(enums.last().0, enums.last().1);
    lemma_named_adds(enums_variants(front), own, enums[k].1[i].0);
    if k < enums.len() - 1 {
        lemma_enum_in_list(front, k, i);
    } else {
        lemma_named_finds(own, i);
        assert(own[i].name == enums[k].1[i].0);
    }
}

/// A variant name that two enums of a program declare is ambiguous; the
/// built-in enums count.
pub proof fn law_shared_name_is_ambiguous(
    first: Seq<(Seq<char>, Seq<(Seq<char>, Seq<TypeV>)>)>,
    second: Seq<(Seq<char>, Seq<(Seq<char>, Seq<TypeV>)>)>,
    j: int,
    a: int,
    k: int,
    b: int,
)
    requires
        0 <= j < first.len(),
        0 <= a < first[j].1.len(),
        0 <= k < second.len(),
        0 <= b < second[k].1.len(),
        first[j].1[a].0 == second[k].1[b].0,
        separator(first[j].1[a].0, 0) is None,
    ensures
        lookup_v(enums_variants(first + second), first[j].1[a].0) is Ambiguous,
{
    let name = first[j].1[a].0;
    lemma_enums_variants_adds(first, second);
    lemma_named_adds(enums_variants(first), enums_variants(second), name);
    lemma_enum_in_list(first, j, a);
    lemma_enum_in_list(second, k, b);
}

/// The index of a program's variants.
pub struct VariantIndex {
    all: Vec<Variant>,
}

proof fn lemma_variants_push(s: Seq<Variant>, v: Variant)
    ensures
        variants_view(s.push(v)) == variants_view(s).push(v@),
{
    assert(variants_view(s.push(v)) =~= variants_view(s).push(v@));
}

/// The models of a list of enums.
pub open spec fn enums_view(s: Seq<(String, Vec<(String, Vec<Type>)>)>) -> Seq<
    (Seq<char>, Seq<(Seq<char>, Seq<TypeV>)>),
> {
    s.map_values(|e: (String, Vec<(String, Vec<Type>)>)| (e.0@, cases_view(e.1@)))
}

impl VariantIndex {
    /// The indexed variants, in declaration order.
    pub closed spec fn view(&self) -> Seq<VariantV> {
        variants_view(self.all@)
    }

    pub fn build(program: &Program) -> (idx: Self)
        ensures
            idx@ == program_variants(program@),
    {
        let mut idx = VariantIndex { all: Vec::new() };
        let builtins = builtin_enums();
        let ghost bs = enums_view(builtins@);
        assert(idx@ =~= enums_variants(bs.take(0)));
        let mut i: usize = 0;
        while i < builtins.len()
            invariant
                i <= builtins@.len(),
                bs == enums_view(builtins@),
                idx@ == enums_variants(bs.take(i as int)),
            decreases builtins@.len() - i,
        {
            idx.add_enum(builtins[i].0.as_str(), &builtins[i].1);
            assert(bs.take(i + 1).drop_last() =~= bs.take(i as int));
            i += 1;
        }
        let ghost all = stmts_view(program.stmts@);
        assert(bs.take(i as int) =~= bs);
        assert(bs + declared_enums(all.take(0)) =~= bs);
        let mut k: usize = 0;
        while k < program.stmts.len()
            invariant
                k <= program.stmts@.len(),
                all == stmts_view(program.stmts@),
                idx@ == enums_variants(bs + declared_enums(all.take(k as int))),
            decreases program.stmts@.len() - k,
        {
            let ghost before = declared_enums(all.take(k as int));
            proof {
                assert(all.take(k + 1).drop_last() =~= all.take(k as int));
                assert(all.take(k + 1).last() == program.stmts@[k as int]@);
            }
            match &program.stmts[k].kind {
                StmtKind::Enum { name, variants } => {
                    idx.add_enum(name.as_str(), variants);
                    proof {
                        let item = (name@, cases_view(variants@));
                        let now = bs + before.push(item);
                        assert(now.drop_last() =~= bs + before);
                        assert(now.last() == item);
                    }
                },
                _ => {},
            }
            k += 1;
        }
        assert(all.take(k as int) =~= all);
        idx
    }

    fn add_enum(&mut self, enum_name: &str, variants: &Vec<(String, Vec<Type>)>)
        ensures
            final(self)@ == old(self)@ + enum_variants(enum_name@, cases_view(variants@)),
    {
        let ghost cases = cases_view(variants@);
        let mut has_payload = false;
        let mut i: usize = 0;
        while i < variants.len()
            invariant
                i <= variants@.len(),
                cases == cases_view(variants@),
                has_payload == exists|j: int| 0 <= j < i && (#[trigger] cases[j]).1.len() > 0,
            decreases variants@.len() - i,
        {
            assert(cases[i as int].1 == types_view(variants@[i as int].1@));
            if variants[i].1.len() > 0 {
                has_payload = true;
                assert(cases[i as int].1.len() > 0);
            }
            i += 1;
        }
        let ghost start = self@;
        let ghost own = enum_variants(enum_name@, cases);
        let mut tag: usize = 0;
        assert(start + own.take(0) =~= start);
        while tag < variants.len()
            invariant
                tag <= variants@.len(),
                cases == cases_view(variants@),
                has_payload == any_payload(cases),
                own == enum_variants(enum_name@, cases),
                self@ == start + own.take(tag as int),
            decreases variants@.len() - tag,
        {
            let v = Variant {
                enum_name: enum_name.to_owned(),
                name: variants[tag].0.clone(),
                tag,
                payload: dup_types(&variants[tag].1),
                enum_has_payload: has_payload,
            };
            proof {
                assert(v@ == own[tag as int]);
                lemma_variants_push(self.all@, v);
                assert((start + own.take(tag as int)).push(v@) =~= start + own.take(tag + 1));
            }
            self.all.push(v);
            tag += 1;
        }
        assert(own.take(tag as int) =~= own);
    }

    /// Every variant of an enum, in declaration order.
    pub fn variants_of(&self, enum_name: &str) -> (r: Vec<Variant>)
        ensures
            variants_view(r@) == sorted_by_tag(of_enum(self@, enum_name@)),
    {
        let mut found: Vec<Variant> = Vec::new();
        let mut i: usize = 0;
        let ghost all = self@;
        assert(variants_view(found@) =~= sorted_by_tag(of_enum(all.take(0), enum_name@)));
        while i < self.all.len()
            invariant
                i <= self.all@.len(),
                all == variants_view(self.all@),
                variants_view(found@) == sorted_by_tag(of_enum(all.take(i as int), enum_name@)),
            decreases self.all@.len() - i,
        {
            assert(all.take(i + 1).drop_last() =~= all.take(i as int));
            assert(all.take(i + 1).last() == self.all@[i as int]@);
            if str_eq(self.all[i].enum_name.as_str(), enum_name) {
                let ghost sofar = of_enum(all.take(i as int), enum_name@);
                let ghost v = self.all@[i as int]@;
                insert_variant(&mut found, self.all[i].dup());
                assert(sofar.push(v).drop_last() =~= sofar);
            }
            i += 1;
        }
        assert(all.take(i as int) =~= all);
        found
    }

    pub fn is_enum(&self, name: &str) -> (r: bool)
        ensures
            r == (of_enum(self@, name@).len() > 0),
    {
        let mut i: usize = 0;
        let ghost all = self@;
        while i < self.all.len()
            invariant
                i <= self.all@.len(),
                all == variants_view(self.all@),
                of_enum(all.take(i as int), name@).len() == 0,
            decreases self.all@.len() - i,
        {
            assert(all.take(i + 1).drop_last() =~= all.take(i as int));
            assert(all.take(i + 1).last() == self.all@[i as int]@);
            if str_eq(self.all[i].enum_name.as_str(), name) {
                proof {
                    lemma_of_enum_adds(all.take(i + 1), all.skip(i + 1), name@);
                    assert(all =~= all.take(i + 1) + all.skip(i + 1));
                }
                return true;
            }
            i += 1;
        }
        assert(all.take(i as int) =~= all);
        false
    }

    /// Accepts both a bare name (`Red`) and a qualified one (`Color::Red`).
    pub fn lookup(&self, name: &str) -> (r: Lookup)
        ensures
            r@ == lookup_v(self@, name@),
    {
        let chars = chars_of(name);
        match find_separator(&chars) {
            Some(k) => {
                assert(k + 2 <= chars.len());
                let enum_name = string_of(&chars, 0, k);
                let vname = string_of(&chars, k + 2, chars.len());
                assert(enum_name@ =~= name@.take(k as int));
                assert(vname@ =~= name@.skip(k + 2));
                self.lookup_in(enum_name.as_str(), vname.as_str())
            },
            None => self.lookup_bare(name),
        }
    }

    fn lookup_in(&self, enum_name: &str, name: &str) -> (r: Lookup)
        ensures
            r@ == (match qualified(self@, enum_name@, name@) {
                Some(v) => LookupV::Unique(v),
                None => LookupV::Unknown,
            }),
    {
        let ghost all = self@;
        let mut i: usize = 0;
        while i < self.all.len()
            invariant
                i <= self.all@.len(),
                all == variants_view(self.all@),
                qualified(all.take(i as int), enum_name@, name@) is None,
            decreases self.all@.len() - i,
        {
            assert(all.take(i + 1).drop_last() =~= all.take(i as int));
            assert(all.take(i + 1).last() == self.all@[i as int]@);
            if str_eq(self.all[i].enum_name.as_str(), enum_name) && str_eq(
                self.all[i].name.as_str(),
                name,
            ) {
                proof {
                    lemma_qualified_stays(all, i + 1, enum_name@, name@);
                }
                return Lookup::Unique(self.all[i].dup());
            }
            i += 1;
        }
        assert(all.take(i as int) =~= all);
        Lookup::Unknown
    }

    fn lookup_bare(&self, name: &str) -> (r: Lookup)
        ensures
            r@ == ({
                let found = named(self@, name@);
                if found.len() == 0 {
                    LookupV::Unknown
                } else if found.len() == 1 {
                    LookupV::Unique(found[0])
                } else {
                    LookupV::Ambiguous(found.map_values(|v: VariantV| v.enum_name))
                }
            }),
    {
        let ghost all = self@;
        let mut found: Vec<Variant> = Vec::new();
        let mut i: usize = 0;
        assert(variants_view(found@) =~= named(all.take(0), name@));
        while i < self.all.len()
            invariant
                i <= self.all@.len(),
                all == variants_view(self.all@),
                variants_view(found@) == named(all.take(i as int), name@),
            decreases self.all@.len() - i,
        {
            assert(all.take(i + 1).drop_last() =~= all.take(i as int));
            assert(all.take(i + 1).last() == self.all@[i as int]@);
            if str_eq(self.all[i].name.as_str(), name) {
                let v = self.all[i].dup();
                proof {
                    lemma_variants_push(found@, v);
                }
                found.push(v);
            }
            i += 1;
        }
        assert(all.take(i as int) =~= all);
        let ghost model = variants_view(found@);
        if found.len() == 0 {
            return Lookup::Unknown;
        }
        if found.len() == 1 {
            match found.pop() {
                Some(v) => {
                    assert(v@ == model[0]);
                    return Lookup::Unique(v);
                },
                None => {
                    return Lookup::Unknown;
                },
            }
        }
        let mut names: Vec<String> = Vec::new();
        let mut k: usize = 0;
        while k < found.len()
            invariant
                k <= found@.len(),
                names@.len() == k,
                forall|j: int| 0 <= j < k ==> (#[trigger] names@[j])@ == found@[j].enum_name@,
            decreases found@.len() - k,
        {
            names.push(found[k].enum_name.clone());
            k += 1;
        }
        assert(texts(names@) =~= model.map_values(|v: VariantV| v.enum_name));
        Lookup::Ambiguous(names)
    }
}

proof fn lemma_qualified_stays(all: Seq<VariantV>, n: int, enum_name: Seq<char>, name: Seq<char>)
    requires
        0 <= n <= all.len(),
        qualified(all.take(n), enum_name, name) is Some,
    ensures
        qualified(all, enum_name, name) == qualified(all.take(n), enum_name, name),
    decreases all.len() - n,
{
    if n < all.len() {
        assert(all.take(n + 1).drop_last() =~= all.take(n));
        lemma_qualified_stays(all, n + 1, enum_name, name);
    } else {
        assert(all.take(n) =~= all);
    }
}

fn find_separator(name: &Vec<char>) -> (r: Option<usize>)
    ensures
        match r {
            Some(k) => separator(name@, 0) == Some(k as int) && k + 2 <= name@.len(),
            None => separator(name@, 0) is None,
        },
{
    let mut i: usize = 0;
    while i < name.len() && name.len() - i > 1
        invariant
            i <= name@.len(),
            separator(name@, i as int) == separator(name@, 0),
        decreases name@.len() - i,
    {
        if name[i] == ':' && name[i + 1] == ':' {
            return Some(i);
        }
        i += 1;
    }
    None
}

fn insert_variant(found: &mut Vec<Variant>, v: Variant)
    ensures
        variants_view(final(found)@) == insert_by_tag(variants_view(old(found)@), v@),
    decreases old(found)@.len(),
{
    let ghost before = found@;
    let n = found.len();
    if n > 0 && found[n - 1].tag > v.tag {
        match found.pop() {
            Some(last) => {
                assert(variants_view(before).drop_last() =~= variants_view(found@));
                assert(variants_view(before).last() == last@);
                insert_variant(found, v);
                proof {
                    lemma_variants_push(found@, last);
                }
                found.push(last);
            },
            None => {},
        }
    } else {
        proof {
            if n > 0 {
                assert(variants_view(before).last() == before[n - 1]@);
            }
            lemma_variants_push(found@, v);
        }
        found.push(v);
    }
}

fn one_type(t: Type) -> (v: Vec<Type>)
    ensures
        types_view(v@) == seq![t@],
{
    let ghost tv = t@;
    let mut v: Vec<Type> = Vec::new();
    v.push(t);
    assert(types_view(v@) =~= seq![tv]);
    v
}

fn two_cases(a: (String, Vec<Type>), b: (String, Vec<Type>)) -> (v: Vec<(String, Vec<Type>)>)
    ensures
        cases_view(v@) == seq![(a.0@, types_view(a.1@)), (b.0@, types_view(b.1@))],
{
    let mut v: Vec<(String, Vec<Type>)> = Vec::new();
    v.push(a);
    v.push(b);
    assert(cases_view(v@) =~= seq![(a.0@, types_view(a.1@)), (b.0@, types_view(b.1@))]);
    v
}

/// `Option` and `Result` are predeclared.
pub fn builtin_enums() -> (r: Vec<(String, Vec<(String, Vec<Type>)>)>)
    ensures
        enums_view(r@) == builtin_enums_v(),
{
    let none: Vec<Type> = Vec::new();
    assert(types_view(none@) =~= Seq::empty());
    let option = two_cases(
        ("Some".to_owned(), one_type(Type::Inferred)),
        ("None".to_owned(), none),
    );
    let result = two_cases(
        ("Ok".to_owned(), one_type(Type::Inferred)),
        ("Err".to_owned(), one_type(Type::Inferred)),
    );
    let mut r: Vec<(String, Vec<(String, Vec<Type>)>)> = Vec::new();
    r.push(("Option".to_owned(), option));
    r.push(("Result".to_owned(), result));
    assert(enums_view(r@) =~= builtin_enums_v());
    r
}

} // verus!
