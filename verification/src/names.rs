//! Dictionaries keyed by name, kept in insertion order.

use vstd::prelude::*;

verus! {

/// The index of the first entry of `s` whose key is `name`.
pub open spec fn position<V>(s: Seq<(String, V)>, name: Seq<char>) -> Option<int>
    decreases s.len(),
{
    if s.len() == 0 {
        None
    } else {
        match position(s.drop_last(), name) {
            Some(i) => Some(i),
            None => if s.last().0@ == name {
                Some(s.len() - 1)
            } else {
                None
            },
        }
    }
}

/// `position` finds the first entry with the key, and finds none only if
/// there is none.
pub proof fn lemma_position<V>(s: Seq<(String, V)>, name: Seq<char>)
    ensures
        match position(s, name) {
            Some(i) => {
                &&& 0 <= i < s.len()
                &&& s[i].0@ == name
                &&& forall|j: int| 0 <= j < i ==> s[j].0@ != name
            },
            None => forall|j: int| 0 <= j < s.len() ==> s[j].0@ != name,
        },
    decreases s.len(),
{
    if s.len() > 0 {
        let t = s.drop_last();
        lemma_position(t, name);
        assert(forall|j: int| 0 <= j < t.len() ==> t[j] == s[j]);
        match position(t, name) {
            Some(i) => {
                assert(t[i] == s[i]);
            },
            None => {
                assert forall|j: int| 0 <= j < s.len() - 1 implies s[j].0@ != name by {
                    assert(t[j] == s[j]);
                }
            },
        }
    }
}

/// An entry that matches, with none before it, is the one that `position`
/// finds.
pub proof fn lemma_position_is<V>(s: Seq<(String, V)>, name: Seq<char>, i: int)
    requires
        0 <= i < s.len(),
        s[i].0@ == name,
        forall|j: int| 0 <= j < i ==> s[j].0@ != name,
    ensures
        position(s, name) == Some(i),
{
    lemma_position(s, name);
}

/// No entry that matches means that `position` finds none.
pub proof fn lemma_position_none<V>(s: Seq<(String, V)>, name: Seq<char>)
    requires
        forall|j: int| 0 <= j < s.len() ==> s[j].0@ != name,
    ensures
        position(s, name) is None,
{
    lemma_position(s, name);
}

/// A dictionary from names to values of type `V`, in the order in which the
/// names were entered.
#[derive(Debug)]
pub struct NameMap<V> {
    pub entries: Vec<(String, V)>,
}

impl<V> NameMap<V> {
    /// The entries in insertion order.
    pub open spec fn view(&self) -> Seq<(String, V)> {
        self.entries@
    }

    /// No name is entered twice.
    pub open spec fn wf(&self) -> bool {
        forall|i: int, j: int|
            0 <= i < j < self@.len() ==> (#[trigger] self@[i]).0@ != (#[trigger] self@[j]).0@
    }

    /// Whether `name` is entered.
    pub open spec fn has(&self, name: Seq<char>) -> bool {
        position(self@, name) is Some
    }

    /// The value entered for `name`.
    pub open spec fn value(&self, name: Seq<char>) -> V
        recommends
            self.has(name),
    {
        self@[position(self@, name)->Some_0].1
    }

    pub fn new() -> (r: Self)
        ensures
            r@ == Seq::<(String, V)>::empty(),
            r.wf(),
    {
        NameMap { entries: Vec::new() }
    }

    pub fn len(&self) -> (n: usize)
        ensures
            n == self@.len(),
    {
        self.entries.len()
    }

    /// The index of the entry for `name`.
    pub fn find(&self, name: &String) -> (r: Option<usize>)
        ensures
            match r {
                Some(i) => position(self@, name@) == Some(i as int) && i < self@.len(),
                None => position(self@, name@) is None,
            },
    {
        let mut i: usize = 0;
        while i < self.entries.len()
            invariant
                0 <= i <= self@.len(),
                forall|j: int| 0 <= j < i ==> self@[j].0@ != name@,
            decreases self@.len() - i,
        {
            if self.entries[i].0 == *name {
                proof {
                    lemma_position_is(self@, name@, i as int);
                }
                return Some(i);
            }
            i += 1;
        }
        proof {
            lemma_position_none(self@, name@);
        }
        None
    }

    /// The value entered for `name`.
    pub fn get(&self, name: &String) -> (r: Option<&V>)
        ensures
            match r {
                Some(v) => self.has(name@) && *v == self.value(name@),
                None => !self.has(name@),
            },
    {
        match self.find(name) {
            Some(i) => Some(&self.entries[i].1),
            None => None,
        }
    }

    /// Enters `name` with the value `v`, after all other entries.
    pub fn push(&mut self, name: String, v: V)
        requires
            old(self).wf(),
            !old(self).has(name@),
        ensures
            final(self)@ == old(self)@.push((name, v)),
            final(self).wf(),
    {
        proof {
            lemma_position(self@, name@);
        }
        self.entries.push((name, v));
    }
}

/// An entry added after the others is found under its name, and changes no
/// other lookup.
pub proof fn lemma_position_push<V>(s: Seq<(String, V)>, e: (String, V), name: Seq<char>)
    ensures
        position(s.push(e), name) == (match position(s, name) {
            Some(i) => Some(i),
            None => if e.0@ == name {
                Some(s.len() as int)
            } else {
                None
            },
        }),
{
    assert(s.push(e).drop_last() =~= s);
}

/// The index of the first entry of `s` whose key is `k`.
pub open spec fn first_key<K, V>(s: Seq<(K, V)>, k: K) -> Option<int>
    decreases s.len(),
{
    if s.len() == 0 {
        None
    } else {
        match first_key(s.drop_last(), k) {
            Some(i) => Some(i),
            None => if s.last().0 == k {
                Some(s.len() - 1)
            } else {
                None
            },
        }
    }
}

/// `first_key` finds the first entry with the key, and finds none only if
/// there is none.
pub proof fn lemma_first_key<K, V>(s: Seq<(K, V)>, k: K)
    ensures
        match first_key(s, k) {
            Some(i) => {
                &&& 0 <= i < s.len()
                &&& s[i].0 == k
                &&& forall|j: int| 0 <= j < i ==> s[j].0 != k
            },
            None => forall|j: int| 0 <= j < s.len() ==> s[j].0 != k,
        },
    decreases s.len(),
{
    if s.len() > 0 {
        let t = s.drop_last();
        lemma_first_key(t, k);
        assert(forall|j: int| 0 <= j < t.len() ==> t[j] == s[j]);
        match first_key(t, k) {
            Some(i) => {
                assert(t[i] == s[i]);
            },
            None => {
                assert forall|j: int| 0 <= j < s.len() - 1 implies s[j].0 != k by {
                    assert(t[j] == s[j]);
                }
            },
        }
    }
}

/// An entry added after the others is found under its key if no entry
/// before it has that key, and changes no other search.
pub proof fn lemma_first_key_push<K, V>(s: Seq<(K, V)>, e: (K, V), k: K)
    ensures
        first_key(s.push(e), k) == (match first_key(s, k) {
            Some(i) => Some(i),
            None => if e.0 == k {
                Some(s.len() as int)
            } else {
                None
            },
        }),
{
    assert(s.push(e).drop_last() =~= s);
}

/// Whether no key has two entries.
pub open spec fn keys_distinct<K, V>(s: Seq<(K, V)>) -> bool {
    forall|i: int, j: int| 0 <= i < j < s.len() ==> (#[trigger] s[i]).0 != (#[trigger] s[j]).0
}

/// Two lists with the same keys at the same places find a name at the same
/// place.
pub proof fn lemma_position_same_keys<V, W>(
    s: Seq<(String, V)>,
    t: Seq<(String, W)>,
    name: Seq<char>,
)
    requires
        s.len() == t.len(),
        forall|i: int| 0 <= i < s.len() ==> s[i].0 == t[i].0,
    ensures
        position(s, name) == position(t, name),
    decreases s.len(),
{
    if s.len() > 0 {
        lemma_position_same_keys(s.drop_last(), t.drop_last(), name);
    }
}

/// A list of distinct names, each of which is found in a second list, is
/// no longer than the second list.
pub proof fn lemma_names_fit<V, W>(a: Seq<(String, V)>, b: Seq<(String, W)>)
    requires
        forall|i: int, j: int|
            0 <= i < j < a.len() ==> (#[trigger] a[i]).0@ != (#[trigger] a[j]).0@,
        forall|i: int| 0 <= i < a.len() ==> position(b, (#[trigger] a[i]).0@) is Some,
    ensures
        a.len() <= b.len(),
{
    let f = |i: int| position(b, a[i].0@)->Some_0;
    let x = vstd::set_lib::set_int_range(0, a.len() as int);
    let y = x.map(f);
    let z = vstd::set_lib::set_int_range(0, b.len() as int);
    vstd::set_lib::lemma_int_range(0, a.len() as int);
    vstd::set_lib::lemma_int_range(0, b.len() as int);
    assert(vstd::relations::injective_on(f, x)) by {
        assert forall|i: int, j: int| x.contains(i) && x.contains(j) && #[trigger] f(i)
            == #[trigger] f(j) implies i == j by {
            lemma_position(b, a[i].0@);
            lemma_position(b, a[j].0@);
            if i < j {
                assert(a[i].0@ != a[j].0@);
            } else if j < i {
                assert(a[j].0@ != a[i].0@);
            }
        }
    }
    vstd::set_lib::lemma_map_size(x, y, f);
    assert(y.subset_of(z)) by {
        assert forall|v: int| y.contains(v) implies z.contains(v) by {
            let i = choose|i: int| x.contains(i) && f(i) == v;
            lemma_position(b, a[i].0@);
        }
    }
    vstd::set_lib::lemma_len_subset(y, z);
}

} // verus!
