//! An association table from strings to values, kept as a vector of slots in
//! which no key occurs twice.

use vstd::prelude::*;
use crate::text::str_eq;

verus! {

/// The mapping that a sequence of pairs stands for: later pairs win.
pub open spec fn assoc_map<T>(s: Seq<(Seq<char>, T)>) -> Map<Seq<char>, T>
    decreases s.len(),
{
    if s.len() == 0 {
        Map::empty()
    } else {
        assoc_map(s.drop_last()).insert(s.last().0, s.last().1)
    }
}

/// No key occurs in two different positions.
pub open spec fn distinct_keys<T>(s: Seq<(Seq<char>, T)>) -> bool {
    forall|i: int, j: int| 0 <= i < j < s.len() ==> s[i].0 != s[j].0
}

/// Some position of `s` holds the key `k`.
pub open spec fn has_key<T>(s: Seq<(Seq<char>, T)>, k: Seq<char>) -> bool {
    exists|i: int| 0 <= i < s.len() && #[trigger] s[i].0 == k
}

/// A key is in the mapping exactly if some position holds it.
pub proof fn lemma_assoc_dom<T>(s: Seq<(Seq<char>, T)>, k: Seq<char>)
    ensures
        assoc_map(s).dom().contains(k) <==> has_key(s, k),
    decreases s.len(),
{
    if s.len() > 0 {
        let t = s.drop_last();
        lemma_assoc_dom(t, k);
        if has_key(t, k) {
            let i = choose|i: int| 0 <= i < t.len() && #[trigger] t[i].0 == k;
            assert(s[i].0 == k);
        }
        if has_key(s, k) {
            let i = choose|i: int| 0 <= i < s.len() && #[trigger] s[i].0 == k;
            if i < s.len() - 1 {
                assert(t[i].0 == k);
            }
        }
    }
}

/// With distinct keys, each position's key maps to that position's value.
pub proof fn lemma_assoc_value<T>(s: Seq<(Seq<char>, T)>, i: int)
    requires
        distinct_keys(s),
        0 <= i < s.len(),
    ensures
        assoc_map(s).dom().contains(s[i].0),
        assoc_map(s)[s[i].0] == s[i].1,
    decreases s.len(),
{
    let t = s.drop_last();
    if i < s.len() - 1 {
        assert(distinct_keys(t)) by {
            assert forall|a: int, b: int| 0 <= a < b < t.len() implies t[a].0 != t[b].0 by {
                assert(s[a].0 != s[b].0);
            }
        }
        lemma_assoc_value(t, i);
        assert(t[i] == s[i]);
        assert(s[i].0 != s[s.len() - 1].0);
    }
}

/// With distinct keys, the mapping is finite and as large as the sequence.
pub proof fn lemma_assoc_len<T>(s: Seq<(Seq<char>, T)>)
    requires
        distinct_keys(s),
    ensures
        assoc_map(s).dom().finite(),
        assoc_map(s).len() == s.len(),
    decreases s.len(),
{
    if s.len() > 0 {
        let t = s.drop_last();
        assert(distinct_keys(t)) by {
            assert forall|a: int, b: int| 0 <= a < b < t.len() implies t[a].0 != t[b].0 by {
                assert(s[a].0 != s[b].0);
            }
        }
        lemma_assoc_len(t);
        lemma_assoc_dom(t, s.last().0);
        if has_key(t, s.last().0) {
            let i = choose|i: int| 0 <= i < t.len() && #[trigger] t[i].0 == s.last().0;
            assert(s[i].0 == s[s.len() - 1].0);
        }
    }
}

/// Appending a pair whose key is new keeps the keys distinct.
pub proof fn lemma_assoc_push<T>(s: Seq<(Seq<char>, T)>, k: Seq<char>, v: T)
    requires
        distinct_keys(s),
        !has_key(s, k),
    ensures
        distinct_keys(s.push((k, v))),
        assoc_map(s.push((k, v))) == assoc_map(s).insert(k, v),
{
    let p = s.push((k, v));
    assert(p.drop_last() =~= s);
    assert forall|a: int, b: int| 0 <= a < b < p.len() implies p[a].0 != p[b].0 by {
        if b == s.len() {
            assert(s[a].0 != k);
        } else {
            assert(s[a].0 != s[b].0);
        }
    }
}

/// The pairs of `s` whose key is not `k`, in their order.
pub open spec fn without_key<T>(s: Seq<(Seq<char>, T)>, k: Seq<char>) -> Seq<(Seq<char>, T)>
    decreases s.len(),
{
    if s.len() == 0 {
        s
    } else if s.last().0 == k {
        without_key(s.drop_last(), k)
    } else {
        without_key(s.drop_last(), k).push(s.last())
    }
}

/// The pairs of `s` after `k` was given the value `v`: the pair moves to the
/// end.
pub open spec fn with_pair<T>(s: Seq<(Seq<char>, T)>, k: Seq<char>, v: T) -> Seq<(Seq<char>, T)> {
    without_key(s, k).push((k, v))
}

/// Dropping the last pair of a sequence with distinct keys keeps them
/// distinct, and the last key does not occur before.
pub proof fn lemma_distinct_prefix<T>(s: Seq<(Seq<char>, T)>)
    requires
        distinct_keys(s),
        s.len() > 0,
    ensures
        distinct_keys(s.drop_last()),
        !has_key(s.drop_last(), s.last().0),
{
    let t = s.drop_last();
    assert forall|a: int, b: int| 0 <= a < b < t.len() implies t[a].0 != t[b].0 by {
        assert(s[a].0 != s[b].0);
    }
    if has_key(t, s.last().0) {
        let i = choose|i: int| 0 <= i < t.len() && #[trigger] t[i].0 == s.last().0;
        assert(s[i].0 != s[s.len() - 1].0);
    }
}

/// Taking a key out of the pairs takes it out of the mapping, and keeps the
/// keys distinct.
pub proof fn lemma_without_key<T>(s: Seq<(Seq<char>, T)>, k: Seq<char>)
    ensures
        assoc_map(without_key(s, k)) == assoc_map(s).remove(k),
        !has_key(without_key(s, k), k),
        distinct_keys(s) ==> distinct_keys(without_key(s, k)),
        !has_key(s, k) ==> without_key(s, k) == s,
    decreases s.len(),
{
    let w = without_key(s, k);
    lemma_assoc_dom(w, k);
    if s.len() == 0 {
        assert(assoc_map(w) =~= assoc_map(s).remove(k));
    } else {
        let t = s.drop_last();
        let wt = without_key(t, k);
        lemma_without_key(t, k);
        if !has_key(s, k) {
            if has_key(t, k) {
                let i = choose|i: int| 0 <= i < t.len() && #[trigger] t[i].0 == k;
                assert(s[i].0 == k);
            }
            assert(s[s.len() - 1].0 != k);
            assert(wt.push(s.last()) =~= s);
        }
        if s.last().0 == k {
            assert(assoc_map(w) =~= assoc_map(s).remove(k));
        } else {
            assert(w.drop_last() =~= wt);
            assert(assoc_map(w) =~= assoc_map(s).remove(k));
            if distinct_keys(s) {
                lemma_distinct_prefix(s);
                lemma_assoc_dom(wt, s.last().0);
                lemma_assoc_dom(t, s.last().0);
                lemma_assoc_push(wt, s.last().0, s.last().1);
            }
        }
        if distinct_keys(s) {
            lemma_distinct_prefix(s);
        }
    }
}

/// With distinct keys, taking the key of position `i` out is removing that
/// position.
pub proof fn lemma_without_at<T>(s: Seq<(Seq<char>, T)>, i: int)
    requires
        distinct_keys(s),
        0 <= i < s.len(),
    ensures
        without_key(s, s[i].0) == s.remove(i),
    decreases s.len(),
{
    let k = s[i].0;
    let t = s.drop_last();
    lemma_distinct_prefix(s);
    if i == s.len() - 1 {
        lemma_without_key(t, k);
        assert(s.remove(i) =~= t);
    } else {
        assert(s[i].0 != s[s.len() - 1].0);
        assert(t[i] == s[i]);
        lemma_without_at(t, i);
        assert(t.remove(i).push(s.last()) =~= s.remove(i));
    }
}

/// Giving `k` the value `v` is an insertion into the mapping, and keeps the
/// keys distinct.
pub proof fn lemma_with_pair<T>(s: Seq<(Seq<char>, T)>, k: Seq<char>, v: T)
    ensures
        assoc_map(with_pair(s, k, v)) == assoc_map(s).insert(k, v),
        distinct_keys(s) ==> distinct_keys(with_pair(s, k, v)),
{
    lemma_without_key(s, k);
    let w = without_key(s, k);
    assert(w.push((k, v)).drop_last() =~= w);
    assert(assoc_map(s).remove(k).insert(k, v) =~= assoc_map(s).insert(k, v));
    if distinct_keys(s) {
        lemma_assoc_push(w, k, v);
    }
}

/// Every key of `s` meets `p`.
pub open spec fn every_key<T>(s: Seq<(Seq<char>, T)>, p: spec_fn(Seq<char>) -> bool) -> bool {
    forall|i: int| 0 <= i < s.len() ==> p((#[trigger] s[i]).0)
}

/// Taking a key out leaves only keys that were there.
pub proof fn lemma_every_key_without<T>(
    s: Seq<(Seq<char>, T)>,
    k: Seq<char>,
    p: spec_fn(Seq<char>) -> bool,
)
    requires
        every_key(s, p),
    ensures
        every_key(without_key(s, k), p),
    decreases s.len(),
{
    if s.len() > 0 {
        let t = s.drop_last();
        assert(every_key(t, p)) by {
            assert forall|i: int| 0 <= i < t.len() implies p((#[trigger] t[i]).0) by {
                assert(t[i] == s[i]);
            }
        }
        lemma_every_key_without(t, k, p);
        assert(p(s[s.len() - 1].0));
    }
}

/// Giving a key that meets `p` a value leaves only keys that meet `p`.
pub proof fn lemma_every_key_with<T>(
    s: Seq<(Seq<char>, T)>,
    k: Seq<char>,
    v: T,
    p: spec_fn(Seq<char>) -> bool,
)
    requires
        every_key(s, p),
        p(k),
    ensures
        every_key(with_pair(s, k, v), p),
{
    lemma_every_key_without(s, k, p);
}

/// One slot of a table.
pub struct Slot<V> {
    pub key: String,
    pub value: V,
}

/// A table from strings to values.
pub struct Table<V: View> {
    slots: Vec<Slot<V>>,
}

impl<V: View> Table<V> {
    /// The table's slots as pairs of plain values, in storage order.
    pub closed spec fn pairs(&self) -> Seq<(Seq<char>, V::V)> {
        self.slots@.map_values(|s: Slot<V>| (s.key@, s.value@))
    }

    /// The table's invariant: no key is stored twice.
    pub open spec fn wf(&self) -> bool {
        distinct_keys(self.pairs())
    }

    /// The mapping that the table holds.
    pub open spec fn view(&self) -> Map<Seq<char>, V::V> {
        assoc_map(self.pairs())
    }

    /// An empty table.
    pub fn new() -> (t: Self)
        ensures
            t.wf(),
            t@ == Map::<Seq<char>, V::V>::empty(),
            t.pairs().len() == 0,
    {
        Table { slots: Vec::new() }
    }

    /// The number of keys.
    pub fn len(&self) -> (n: usize)
        ensures
            n == self.pairs().len(),
            self.wf() ==> n == self@.len() && self@.dom().finite(),
    {
        proof {
            if self.wf() {
                lemma_assoc_len(self.pairs());
            }
        }
        self.slots.len()
    }

    /// The slot at position `i`.
    pub fn slot(&self, i: usize) -> (s: &Slot<V>)
        requires
            i < self.pairs().len(),
        ensures
            (s.key@, s.value@) == self.pairs()[i as int],
    {
        &self.slots[i]
    }

    /// The position that holds `key`, if any.
    pub fn position(&self, key: &str) -> (r: Option<usize>)
        ensures
            match r {
                Some(i) => i < self.pairs().len() && self.pairs()[i as int].0 == key@,
                None => !has_key(self.pairs(), key@),
            },
    {
        let mut i: usize = 0;
        while i < self.slots.len()
            invariant
                i <= self.slots.len(),
                forall|j: int| 0 <= j < i ==> (#[trigger] self.pairs()[j]).0 != key@,
            decreases self.slots.len() - i,
        {
            if str_eq(self.slots[i].key.as_str(), key) {
                return Some(i);
            }
            i += 1;
        }
        None
    }

    /// Whether `key` is in the table.
    pub fn contains_key(&self, key: &str) -> (b: bool)
        ensures
            b == self@.contains_key(key@),
    {
        proof {
            lemma_assoc_dom(self.pairs(), key@);
        }
        self.position(key).is_some()
    }

    /// The value stored under `key`, if any.
    pub fn get(&self, key: &str) -> (r: Option<&V>)
        requires
            self.wf(),
        ensures
            match r {
                Some(v) => self@.contains_key(key@) && v@ == self@[key@],
                None => !self@.contains_key(key@),
            },
    {
        proof {
            lemma_assoc_dom(self.pairs(), key@);
        }
        match self.position(key) {
            Some(i) => {
                proof {
                    lemma_assoc_value(self.pairs(), i as int);
                }
                Some(&self.slots[i].value)
            },
            None => None,
        }
    }

    /// Takes `key` out of the table and returns what it held.
    pub fn remove(&mut self, key: &str) -> (r: Option<V>)
        requires
            old(self).wf(),
        ensures
            final(self).wf(),
            final(self).pairs() == without_key(old(self).pairs(), key@),
            final(self)@ == old(self)@.remove(key@),
            match r {
                Some(v) => old(self)@.contains_key(key@) && v@ == old(self)@[key@],
                None => !old(self)@.contains_key(key@),
            },
    {
        proof {
            lemma_assoc_dom(self.pairs(), key@);
            lemma_without_key(self.pairs(), key@);
        }
        match self.position(key) {
            Some(i) => {
                proof {
                    lemma_assoc_value(self.pairs(), i as int);
                    lemma_without_at(self.pairs(), i as int);
                }
                let ghost before = self.pairs();
                let s = self.slots.remove(i);
                assert(self.pairs() =~= before.remove(i as int));
                Some(s.value)
            },
            None => None,
        }
    }

    /// Stores `value` under `key` and returns what the key held before.
    pub fn insert(&mut self, key: String, value: V) -> (r: Option<V>)
        requires
            old(self).wf(),
        ensures
            final(self).wf(),
            final(self).pairs() == with_pair(old(self).pairs(), key@, value@),
            final(self)@ == old(self)@.insert(key@, value@),
            match r {
                Some(v) => old(self)@.contains_key(key@) && v@ == old(self)@[key@],
                None => !old(self)@.contains_key(key@),
            },
    {
        let prev = self.remove(key.as_str());
        proof {
            lemma_with_pair(old(self).pairs(), key@, value@);
        }
        let ghost before = self.pairs();
        self.slots.push(Slot { key, value });
        assert(self.pairs() =~= before.push((key@, value@)));
        prev
    }

    /// Empties the table.
    pub fn clear(&mut self)
        ensures
            final(self).wf(),
            final(self)@ == Map::<Seq<char>, V::V>::empty(),
            final(self).pairs().len() == 0,
    {
        self.slots.clear();
    }
}

} // verus!
