//! Maps from names to what they stand for.

use crate::text::str_eq;
use vstd::prelude::*;

verus! {

/// What a value means mathematically.
pub trait Model {
    type M;

    spec fn model(&self) -> Self::M;
}

impl Model for usize {
    type M = nat;

    open spec fn model(&self) -> nat {
        *self as nat
    }
}

/// A map from names, kept as a list in which no name stands twice.
pub struct NameMap<V> {
    entries: Vec<(String, V)>,
}

/// The map that a list of entries is. A later entry takes precedence.
spec fn entries_map<V: Model>(s: Seq<(String, V)>) -> Map<Seq<char>, V::M>
    decreases s.len(),
{
    if s.len() == 0 {
        Map::empty()
    } else {
        entries_map(s.drop_last()).insert(s.last().0@, s.last().1.model())
    }
}

proof fn lemma_entries_push<V: Model>(s: Seq<(String, V)>, x: (String, V))
    ensures
        entries_map(s.push(x)) == entries_map(s).insert(x.0@, x.1.model()),
{
    assert(s.push(x).drop_last() =~= s);
}

/// Replacing the last entry of a name replaces the name's value.
proof fn lemma_entries_update<V: Model>(s: Seq<(String, V)>, i: int, x: (String, V))
    requires
        0 <= i < s.len(),
        s[i].0@ == x.0@,
        forall|j: int| i < j < s.len() ==> (#[trigger] s[j]).0@ != x.0@,
    ensures
        entries_map(s.update(i, x)) == entries_map(s).insert(x.0@, x.1.model()),
    decreases s.len(),
{
    let t = s.update(i, x);
    if i == s.len() - 1 {
        assert(t.drop_last() =~= s.drop_last());
        assert(entries_map(t) =~= entries_map(s).insert(x.0@, x.1.model()));
    } else {
        lemma_entries_update(s.drop_last(), i, x);
        assert(t.drop_last() =~= s.drop_last().update(i, x));
        assert(s.last() == s[s.len() - 1]);
        assert(entries_map(t) =~= entries_map(s).insert(x.0@, x.1.model()));
    }
}

/// A name that stands in no entry from `n` on has the value that the first `n`
/// entries give it.
proof fn lemma_entries_prefix<V: Model>(s: Seq<(String, V)>, n: int, name: Seq<char>)
    requires
        0 <= n <= s.len(),
        forall|j: int| n <= j < s.len() ==> (#[trigger] s[j]).0@ != name,
    ensures
        entries_map(s).contains_key(name) == entries_map(s.take(n)).contains_key(name),
        entries_map(s).contains_key(name) ==> entries_map(s)[name] == entries_map(s.take(n))[name],
    decreases s.len() - n,
{
    if n < s.len() {
        assert(s.take(n + 1).drop_last() =~= s.take(n));
        lemma_entries_prefix(s, n + 1, name);
        assert(s[n].0@ != name);
    } else {
        assert(s.take(n) =~= s);
    }
}

impl<V: Model> NameMap<V> {
    pub closed spec fn view(&self) -> Map<Seq<char>, V::M> {
        entries_map(self.entries@)
    }

    /// The map that holds no name.
    pub fn new() -> (m: Self)
        ensures
            m@ == Map::<Seq<char>, V::M>::empty(),
    {
        NameMap { entries: Vec::new() }
    }

    /// Where the last entry of a name stands.
    fn position(&self, name: &str) -> (r: Option<usize>)
        ensures
            match r {
                Some(i) => i < self.entries@.len() && self.entries@[i as int].0@ == name@
                    && forall|j: int|
                    i < j < self.entries@.len() ==> (#[trigger] self.entries@[j]).0@ != name@,
                None => forall|j: int|
                    0 <= j < self.entries@.len() ==> (#[trigger] self.entries@[j]).0@ != name@,
            },
    {
        let mut i: usize = self.entries.len();
        while i > 0
            invariant
                i <= self.entries@.len(),
                forall|j: int|
                    i <= j < self.entries@.len() ==> (#[trigger] self.entries@[j]).0@ != name@,
            decreases i,
        {
            i -= 1;
            if str_eq(self.entries[i].0.as_str(), name) {
                return Some(i);
            }
        }
        None
    }

    /// What a name stands for.
    pub fn get(&self, name: &str) -> (r: Option<&V>)
        ensures
            match r {
                Some(v) => self@.contains_key(name@) && v.model() == self@[name@],
                None => !self@.contains_key(name@),
            },
    {
        match self.position(name) {
            Some(i) => {
                proof {
                    lemma_entries_prefix(self.entries@, i + 1, name@);
                    let front = self.entries@.take(i + 1);
                    assert(front.last() == self.entries@[i as int]);
                }
                Some(&self.entries[i].1)
            },
            None => {
                proof {
                    lemma_entries_prefix(self.entries@, 0, name@);
                    assert(self.entries@.take(0) =~= Seq::empty());
                }
                None
            },
        }
    }

    /// Whether a name stands for something.
    pub fn contains(&self, name: &str) -> (r: bool)
        ensures
            r == self@.contains_key(name@),
    {
        match self.get(name) {
            Some(_) => true,
            None => false,
        }
    }

    /// Let a name stand for a value from now on.
    pub fn insert(&mut self, name: String, value: V)
        ensures
            final(self)@ == old(self)@.insert(name@, value.model()),
    {
        match self.position(name.as_str()) {
            Some(i) => {
                let ghost before = self.entries@;
                let entry = (name, value);
                proof {
                    lemma_entries_update(before, i as int, entry);
                }
                self.entries.set(i, entry);
            },
            None => {
                proof {
                    lemma_entries_push(self.entries@, (name, value));
                }
                self.entries.push((name, value));
            },
        }
    }
}

} // verus!
