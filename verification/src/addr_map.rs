//! A map keyed by actor, node or operator name.
//!
//! Entries are kept in a vector in the order their keys were first inserted;
//! no key occurs twice. The abstract view is a map from the key's characters
//! to the value.
use vstd::prelude::*;

verus! {

pub struct AddrMap<V> {
    entries: Vec<(String, V)>,
}

/// No key occurs twice among the entries.
pub open spec fn keys_distinct<V>(s: Seq<(String, V)>) -> bool {
    forall|i: int, j: int|
        0 <= i < s.len() && 0 <= j < s.len() && i != j ==> (#[trigger] s[i]).0@ != (#[trigger] s[j]).0@
}

/// The key `k` is held by some entry.
pub open spec fn has_key<V>(s: Seq<(String, V)>, k: Seq<char>) -> bool {
    exists|i: int| 0 <= i < s.len() && (#[trigger] s[i]).0@ == k
}

/// The map that a list of entries with distinct keys stands for.
pub open spec fn entries_map<V>(s: Seq<(String, V)>) -> Map<Seq<char>, V> {
    Map::new(
        |k: Seq<char>| has_key(s, k),
        |k: Seq<char>| s[choose|i: int| 0 <= i < s.len() && (#[trigger] s[i]).0@ == k].1,
    )
}

/// With distinct keys, entry `i` gives the value of its key.
pub proof fn lemma_entry_value<V>(s: Seq<(String, V)>, i: int)
    requires
        keys_distinct(s),
        0 <= i < s.len(),
    ensures
        entries_map(s).dom().contains(s[i].0@),
        entries_map(s)[s[i].0@] == s[i].1,
{
    let k = s[i].0@;
    assert(has_key(s, k));
    let j = choose|j: int| 0 <= j < s.len() && (#[trigger] s[j]).0@ == k;
    assert(j == i);
}

/// Appending an entry with a new key adds it to the map.
pub proof fn lemma_push<V>(s: Seq<(String, V)>, k: String, v: V)
    requires
        keys_distinct(s),
        !has_key(s, k@),
    ensures
        keys_distinct(s.push((k, v))),
        entries_map(s.push((k, v))) == entries_map(s).insert(k@, v),
{
    let t = s.push((k, v));
    assert(keys_distinct(t)) by {
        assert forall|i: int, j: int|
            0 <= i < t.len() && 0 <= j < t.len() && i != j implies (#[trigger] t[i]).0@ != (
            #[trigger] t[j]).0@ by {
            if i < s.len() && j < s.len() {
                assert(t[i] == s[i] && t[j] == s[j]);
            } else if i == s.len() {
                assert(t[j] == s[j]);
            } else {
                assert(t[i] == s[i]);
            }
        }
    }
    let m = entries_map(t);
    let n = entries_map(s).insert(k@, v);
    assert forall|key: Seq<char>| m.dom().contains(key) == n.dom().contains(key) by {
        if has_key(s, key) {
            let i = choose|i: int| 0 <= i < s.len() && (#[trigger] s[i]).0@ == key;
            assert(t[i] == s[i]);
        }
        if has_key(t, key) && key != k@ {
            let i = choose|i: int| 0 <= i < t.len() && (#[trigger] t[i]).0@ == key;
            assert(i < s.len());
            assert(s[i] == t[i]);
        }
        assert(t[s.len() as int] == (k, v));
    }
    assert forall|key: Seq<char>| #[trigger] m.dom().contains(key) implies m[key] == n[key] by {
        let i = choose|i: int| 0 <= i < t.len() && (#[trigger] t[i]).0@ == key;
        lemma_entry_value(t, i);
        if i < s.len() {
            assert(s[i] == t[i]);
            lemma_entry_value(s, i);
        }
    }
    assert(m =~= n);
}

/// With distinct keys, the map has one key per entry.
pub proof fn lemma_dom_len<V>(s: Seq<(String, V)>)
    requires
        keys_distinct(s),
    ensures
        entries_map(s).dom().finite(),
        entries_map(s).dom().len() == s.len(),
    decreases s.len(),
{
    if s.len() == 0 {
        assert(entries_map(s).dom() =~= Set::<Seq<char>>::empty());
    } else {
        let t = s.drop_last();
        let (k, v) = s.last();
        assert(keys_distinct(t)) by {
            assert forall|i: int, j: int|
                0 <= i < t.len() && 0 <= j < t.len() && i != j implies (#[trigger] t[i]).0@ != (
                #[trigger] t[j]).0@ by {
                assert(t[i] == s[i] && t[j] == s[j]);
            }
        }
        assert(!has_key(t, k@)) by {
            if has_key(t, k@) {
                let i = choose|i: int| 0 <= i < t.len() && (#[trigger] t[i]).0@ == k@;
                assert(t[i] == s[i]);
            }
        }
        lemma_dom_len(t);
        lemma_push(t, k, v);
        assert(t.push((k, v)) =~= s);
        assert(entries_map(s).dom() =~= entries_map(t).dom().insert(k@));
    }
}

/// Removing entry `i` removes its key from the map.
pub proof fn lemma_remove<V>(s: Seq<(String, V)>, i: int)
    requires
        keys_distinct(s),
        0 <= i < s.len(),
    ensures
        keys_distinct(s.remove(i)),
        entries_map(s.remove(i)) == entries_map(s).remove(s[i].0@),
{
    let t = s.remove(i);
    let k = s[i].0@;
    assert forall|a: int| 0 <= a < t.len() implies #[trigger] t[a] == s[if a < i {
        a
    } else {
        a + 1
    }] by {}
    assert(keys_distinct(t)) by {
        assert forall|a: int, b: int|
            0 <= a < t.len() && 0 <= b < t.len() && a != b implies (#[trigger] t[a]).0@ != (
            #[trigger] t[b]).0@ by {
            let a2 = if a < i {
                a
            } else {
                a + 1
            };
            let b2 = if b < i {
                b
            } else {
                b + 1
            };
            assert(t[a] == s[a2] && t[b] == s[b2]);
        }
    }
    let m = entries_map(t);
    let n = entries_map(s).remove(k);
    assert forall|key: Seq<char>| m.dom().contains(key) == n.dom().contains(key) by {
        if has_key(t, key) {
            let a = choose|a: int| 0 <= a < t.len() && (#[trigger] t[a]).0@ == key;
            let a2 = if a < i {
                a
            } else {
                a + 1
            };
            assert(t[a] == s[a2]);
        }
        if has_key(s, key) && key != k {
            let b = choose|b: int| 0 <= b < s.len() && (#[trigger] s[b]).0@ == key;
            assert(b != i);
            let b2 = if b < i {
                b
            } else {
                b - 1
            };
            assert(t[b2] == s[b]);
        }
    }
    assert forall|key: Seq<char>| #[trigger] m.dom().contains(key) implies m[key] == n[key] by {
        let a = choose|a: int| 0 <= a < t.len() && (#[trigger] t[a]).0@ == key;
        lemma_entry_value(t, a);
        let a2 = if a < i {
            a
        } else {
            a + 1
        };
        assert(t[a] == s[a2]);
        lemma_entry_value(s, a2);
    }
    assert(m =~= n);
}

impl<V> AddrMap<V> {
    /// The entries, in the order their keys were first inserted.
    pub closed spec fn entry_seq(&self) -> Seq<(String, V)> {
        self.entries@
    }

    pub closed spec fn wf(&self) -> bool {
        keys_distinct(self.entries@)
    }

    /// The map from key to value.
    pub open spec fn view(&self) -> Map<Seq<char>, V> {
        entries_map(self.entry_seq())
    }

    pub proof fn lemma_wf(&self)
        requires
            self.wf(),
        ensures
            keys_distinct(self.entry_seq()),
    {
    }

    /// The empty map.
    pub fn new() -> (r: Self)
        ensures
            r.wf(),
            r.entry_seq() == Seq::<(String, V)>::empty(),
            r@ == Map::<Seq<char>, V>::empty(),
    {
        let r = AddrMap { entries: Vec::new() };
        assert(r@ =~= Map::<Seq<char>, V>::empty());
        r
    }

    /// Number of keys.
    pub fn len(&self) -> (r: usize)
        ensures
            r == self.entry_seq().len(),
    {
        self.entries.len()
    }

    /// Where the key sits among the entries.
    fn find(&self, k: &str) -> (r: Option<usize>)
        requires
            self.wf(),
        ensures
            match r {
                Some(i) => i < self.entry_seq().len() && self.entry_seq()[i as int].0@ == k@,
                None => !has_key(self.entry_seq(), k@),
            },
    {
        let key = String::from_str(k);
        let mut i: usize = 0;
        while i < self.entries.len()
            invariant
                i <= self.entries.len(),
                key@ == k@,
                forall|j: int| 0 <= j < i ==> (#[trigger] self.entries@[j]).0@ != k@,
            decreases self.entries.len() - i,
        {
            if self.entries[i].0 == key {
                return Some(i);
            }
            i = i + 1;
        }
        None
    }

    /// Where the key sits among the entries, if present.
    pub fn position(&self, k: &str) -> (r: Option<usize>)
        requires
            self.wf(),
        ensures
            match r {
                Some(i) => i < self.entry_seq().len() && self.entry_seq()[i as int].0@ == k@,
                None => !has_key(self.entry_seq(), k@),
            },
    {
        self.find(k)
    }

    /// Whether the key is present.
    pub fn contains_key(&self, k: &str) -> (r: bool)
        requires
            self.wf(),
        ensures
            r == self@.dom().contains(k@),
    {
        self.find(k).is_some()
    }

    /// The value of a key.
    pub fn get(&self, k: &str) -> (r: Option<&V>)
        requires
            self.wf(),
        ensures
            r is Some == self@.dom().contains(k@),
            r matches Some(v) ==> *v == self@[k@],
    {
        match self.find(k) {
            Some(i) => {
                proof {
                    lemma_entry_value(self.entries@, i as int);
                }
                Some(&self.entries[i].1)
            },
            None => None,
        }
    }

    /// Sets the value of a key, handing back the value it replaces. A new key
    /// goes after all present ones; a present key keeps its place.
    pub fn insert(&mut self, k: String, v: V) -> (r: Option<V>)
        requires
            old(self).wf(),
        ensures
            final(self).wf(),
            final(self)@ == old(self)@.insert(k@, v),
            r is Some == old(self)@.dom().contains(k@),
            r matches Some(o) ==> o == old(self)@[k@],
            !old(self)@.dom().contains(k@) ==> final(self).entry_seq() == old(self).entry_seq().push(
                (k, v),
            ),
    {
        match self.find(k.as_str()) {
            Some(i) => {
                proof {
                    lemma_entry_value(self.entries@, i as int);
                }
                let ghost s = self.entries@;
                let (_, o) = self.entries.remove(i);
                proof {
                    lemma_remove(s, i as int);
                }
                let ghost t = self.entries@;
                self.entries.insert(i, (k, v));
                proof {
                    assert(self.entries@ =~= t.insert(i as int, (k, v)));
                    assert(keys_distinct(self.entries@)) by {
                        assert forall|a: int, b: int|
                            0 <= a < self.entries@.len() && 0 <= b < self.entries@.len() && a
                                != b implies (#[trigger] self.entries@[a]).0@ != (
                            #[trigger] self.entries@[b]).0@ by {
                            assert(self.entries@ =~= s.update(i as int, (k, v)));
                        }
                    }
                    assert(self.entries@ =~= s.update(i as int, (k, v)));
                    let m = entries_map(self.entries@);
                    let n = entries_map(s).insert(k@, v);
                    assert forall|key: Seq<char>| m.dom().contains(key) == n.dom().contains(key) by {
                        if has_key(s, key) && key != k@ {
                            let b = choose|b: int| 0 <= b < s.len() && (#[trigger] s[b]).0@ == key;
                            assert(self.entries@[b] == s[b]);
                        }
                        if has_key(self.entries@, key) {
                            let b = choose|b: int|
                                0 <= b < self.entries@.len() && (#[trigger] self.entries@[b]).0@ == key;
                            if b != i {
                                assert(self.entries@[b] == s[b]);
                            }
                        }
                        assert(self.entries@[i as int] == (k, v));
                    }
                    assert forall|key: Seq<char>| #[trigger] m.dom().contains(key) implies m[key]
                        == n[key] by {
                        let b = choose|b: int|
                            0 <= b < self.entries@.len() && (#[trigger] self.entries@[b]).0@ == key;
                        lemma_entry_value(self.entries@, b);
                        if b != i {
                            assert(self.entries@[b] == s[b]);
                            lemma_entry_value(s, b);
                        }
                    }
                    assert(m =~= n);
                }
                Some(o)
            },
            None => {
                proof {
                    lemma_push(self.entries@, k, v);
                }
                self.entries.push((k, v));
                None
            },
        }
    }

    /// Takes a key out, handing back its value.
    pub fn remove(&mut self, k: &str) -> (r: Option<V>)
        requires
            old(self).wf(),
        ensures
            final(self).wf(),
            final(self)@ == old(self)@.remove(k@),
            r is Some == old(self)@.dom().contains(k@),
            r matches Some(o) ==> o == old(self)@[k@],
    {
        match self.find(k) {
            Some(i) => {
                let ghost s = self.entries@;
                proof {
                    lemma_entry_value(s, i as int);
                    lemma_remove(s, i as int);
                }
                let (_, o) = self.entries.remove(i);
                Some(o)
            },
            None => {
                proof {
                    assert(self@.remove(k@) =~= self@);
                }
                None
            },
        }
    }

    /// Takes every entry out, in order; the map is left empty.
    pub fn drain(&mut self) -> (r: Vec<(String, V)>)
        requires
            old(self).wf(),
        ensures
            final(self).wf(),
            final(self)@ == Map::<Seq<char>, V>::empty(),
            r@ == old(self).entry_seq(),
            keys_distinct(r@),
            entries_map(r@) == old(self)@,
    {
        let mut r: Vec<(String, V)> = Vec::new();
        std::mem::swap(&mut r, &mut self.entries);
        assert(self@ =~= Map::<Seq<char>, V>::empty());
        r
    }

    /// The value of the entry at `i`, to change in place; keys and order stay.
    pub fn value_mut(&mut self, i: usize) -> (r: &mut V)
        requires
            old(self).wf(),
            i < old(self).entry_seq().len(),
        ensures
            *r == old(self).entry_seq()[i as int].1,
            final(self).entry_seq() == old(self).entry_seq().update(
                i as int,
                (old(self).entry_seq()[i as int].0, *final(r)),
            ),
            final(self).wf(),
    {
        &mut self.entries[i].1
    }

    /// The entries, in order.
    pub fn entries(&self) -> (r: &Vec<(String, V)>)
        ensures
            r@ == self.entry_seq(),
    {
        &self.entries
    }
}

impl<V: Clone> AddrMap<V> {
    /// The keys, in order.
    pub fn keys(&self) -> (r: Vec<String>)
        requires
            self.wf(),
        ensures
            r@.len() == self.entry_seq().len(),
            forall|i: int| 0 <= i < r@.len() ==> (#[trigger] r@[i])@ == self.entry_seq()[i].0@,
            forall|k: Seq<char>| self@.dom().contains(k) <==> exists|i: int| 0 <= i < r@.len() && (#[trigger] r@[i])@ == k,
    {
        let mut out: Vec<String> = Vec::new();
        let mut i: usize = 0;
        while i < self.entries.len()
            invariant
                i <= self.entries.len(),
                out@.len() == i,
                forall|j: int| 0 <= j < i ==> (#[trigger] out@[j])@ == self.entries@[j].0@,
            decreases self.entries.len() - i,
        {
            out.push(self.entries[i].0.clone());
            i = i + 1;
        }
        proof {
            assert forall|k: Seq<char>| self@.dom().contains(k) implies exists|i: int| 0 <= i < out@.len() && (#[trigger] out@[i])@ == k by {
                let b = choose|b: int| 0 <= b < self.entries@.len() && (#[trigger] self.entries@[b]).0@ == k;
                assert(out@[b]@ == k);
            }
            assert forall|k: Seq<char>| (exists|i: int| 0 <= i < out@.len() && (#[trigger] out@[i])@ == k) implies self@.dom().contains(k) by {
                let b = choose|b: int| 0 <= b < out@.len() && (#[trigger] out@[b])@ == k;
                assert(self.entries@[b].0@ == k);
            }
        }
        out
    }
}

} // verus!
