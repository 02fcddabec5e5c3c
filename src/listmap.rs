//! A small map from string names to values, kept as an ordered list.

use vstd::prelude::*;

verus! {

/// The map that a list of entries stands for: a later entry for a name
/// shadows an earlier one.
pub open spec fn entries_map<V>(s: Seq<(String, V)>) -> Map<Seq<char>, V>
    decreases s.len(),
{
    if s.len() == 0 {
        Map::empty()
    } else {
        entries_map(s.drop_last()).insert(s.last().0@, s.last().1)
    }
}

/// A map from names to values. Each name has at most one entry; entries keep
/// the order in which names were first inserted.
#[derive(Clone, Debug, PartialEq)]
pub struct ListMap<V> {
    pub entries: Vec<(String, V)>,
}

impl<V> View for ListMap<V> {
    type V = Map<Seq<char>, V>;

    open spec fn view(&self) -> Map<Seq<char>, V> {
        entries_map(self.entries@)
    }
}

/// No two entries hold the same name.
pub open spec fn unique_names<V>(s: Seq<(String, V)>) -> bool {
    forall|i: int, j: int| 0 <= i < j < s.len() ==> (#[trigger] s[i]).0@ != (#[trigger] s[j]).0@
}

/// No entry after `i` holds the name `k`.
pub open spec fn last_with_name<V>(s: Seq<(String, V)>, i: int, k: Seq<char>) -> bool {
    &&& 0 <= i < s.len()
    &&& s[i].0@ == k
    &&& forall|j: int| i < j < s.len() ==> s[j].0@ != k
}

pub proof fn lemma_absent<V>(s: Seq<(String, V)>, k: Seq<char>)
    requires
        forall|j: int| 0 <= j < s.len() ==> s[j].0@ != k,
    ensures
        !entries_map(s).contains_key(k),
    decreases s.len(),
{
    if s.len() > 0 {
        lemma_absent(s.drop_last(), k);
    }
}

pub proof fn lemma_last_with_name<V>(s: Seq<(String, V)>, i: int, k: Seq<char>)
    requires
        last_with_name(s, i, k),
    ensures
        entries_map(s).contains_key(k),
        entries_map(s)[k] == s[i].1,
    decreases s.len(),
{
    if i < s.len() - 1 {
        lemma_last_with_name(s.drop_last(), i, k);
    }
}

proof fn lemma_update_last<V>(s: Seq<(String, V)>, i: int, k: String, v: V)
    requires
        last_with_name(s, i, k@),
    ensures
        entries_map(s.update(i, (k, v))) == entries_map(s).insert(k@, v),
    decreases s.len(),
{
    let t = s.update(i, (k, v));
    if i == s.len() - 1 {
        assert(t.drop_last() == s.drop_last());
        assert(entries_map(s).insert(k@, v) =~= entries_map(s.drop_last()).insert(k@, v));
    } else {
        assert(t.drop_last() == s.drop_last().update(i, (k, v)));
        lemma_update_last(s.drop_last(), i, k, v);
        assert(entries_map(t) =~= entries_map(s).insert(k@, v));
    }
}

/// Taking the value part of each entry commutes with reading the list as a map.
pub proof fn lemma_map_values<V, W>(s: Seq<(String, V)>, t: Seq<(String, W)>, f: spec_fn(V) -> W)
    requires
        s.len() == t.len(),
        forall|j: int| 0 <= j < s.len() ==> t[j].0 == s[j].0 && t[j].1 == f(s[j].1),
    ensures
        entries_map(t) == entries_map(s).map_values(f),
    decreases s.len(),
{
    if s.len() > 0 {
        lemma_map_values(s.drop_last(), t.drop_last(), f);
        assert(entries_map(t) =~= entries_map(s).map_values(f));
    } else {
        assert(entries_map(t) =~= entries_map(s).map_values(f));
    }
}

impl<V> ListMap<V> {
    /// An empty map.
    pub fn new() -> (r: Self)
        ensures
            r@ == Map::<Seq<char>, V>::empty(),
            r.entries@.len() == 0,
            unique_names(r.entries@),
    {
        ListMap { entries: Vec::new() }
    }

    /// The position of the entry for `k`, if any.
    fn find(&self, k: &String) -> (r: Option<usize>)
        ensures
            match r {
                Some(i) => last_with_name(self.entries@, i as int, k@),
                None => forall|j: int| 0 <= j < self.entries@.len() ==> self.entries@[j].0@ != k@,
            },
    {
        let mut i: usize = self.entries.len();
        while i > 0
            invariant
                i <= self.entries@.len(),
                forall|j: int| i <= j < self.entries@.len() ==> self.entries@[j].0@ != k@,
            decreases i,
        {
            if self.entries[i - 1].0 == *k {
                return Some(i - 1);
            }
            i = i - 1;
        }
        None
    }

    /// The value held for `k`.
    pub fn get(&self, k: &String) -> (r: Option<&V>)
        ensures
            r.is_some() == self@.contains_key(k@),
            r.is_some() ==> *r.unwrap() == self@[k@],
    {
        match self.find(k) {
            Some(i) => {
                proof {
                    lemma_last_with_name(self.entries@, i as int, k@);
                }
                Some(&self.entries[i].1)
            },
            None => {
                proof {
                    lemma_absent(self.entries@, k@);
                }
                None
            },
        }
    }

    /// Sets the value for `k`, replacing the one it had.
    pub fn insert(&mut self, k: String, v: V)
        ensures
            final(self)@ == old(self)@.insert(k@, v),
            unique_names(old(self).entries@) ==> unique_names(final(self).entries@),
    {
        match self.find(&k) {
            Some(i) => {
                proof {
                    lemma_update_last(self.entries@, i as int, k, v);
                }
                self.entries.set(i, (k, v));
            },
            None => {
                let ghost s = self.entries@;
                let ghost key = k@;
                self.entries.push((k, v));
                proof {
                    assert(self.entries@.drop_last() == s);
                    assert(self.entries@.last().0@ == key);
                }
            },
        }
    }

}

} // verus!
