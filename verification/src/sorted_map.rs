//! A map keyed by name whose entries are kept in increasing order of their
//! keys: the order in which the placement of a job lists its hosts and the
//! job controller walks its nodes.
use vstd::prelude::*;
use crate::addr_map::{entries_map, has_key, keys_distinct, lemma_entry_value, lemma_remove};

verus! {

/// `a` comes before `b` when both are compared character by character from
/// position `k` on; a proper prefix comes first. This is the order of Rust's
/// `str`.
pub open spec fn text_lt_from(a: Seq<char>, b: Seq<char>, k: int) -> bool
    decreases a.len() - k,
{
    if k >= a.len() {
        k < b.len()
    } else if k >= b.len() {
        false
    } else if a[k] != b[k] {
        a[k] < b[k]
    } else {
        text_lt_from(a, b, k + 1)
    }
}

/// `a` comes before `b` in the order of text.
pub open spec fn text_lt(a: Seq<char>, b: Seq<char>) -> bool {
    text_lt_from(a, b, 0)
}

pub proof fn lemma_text_lt_irreflexive(a: Seq<char>, k: int)
    requires
        0 <= k,
    ensures
        !text_lt_from(a, a, k),
    decreases a.len() - k,
{
    if k < a.len() {
        lemma_text_lt_irreflexive(a, k + 1);
    }
}

pub proof fn lemma_text_lt_transitive(a: Seq<char>, b: Seq<char>, c: Seq<char>, k: int)
    requires
        0 <= k,
        text_lt_from(a, b, k),
        text_lt_from(b, c, k),
    ensures
        text_lt_from(a, c, k),
    decreases a.len() - k,
{
    if k < a.len() && k < b.len() && k < c.len() && a[k] == b[k] && b[k] == c[k] {
        lemma_text_lt_transitive(a, b, c, k + 1);
    }
}

/// Two texts that neither comes before the other agree from `k` on.
pub proof fn lemma_text_lt_total(a: Seq<char>, b: Seq<char>, k: int)
    requires
        0 <= k <= a.len(),
        k <= b.len(),
        !text_lt_from(a, b, k),
        !text_lt_from(b, a, k),
    ensures
        a.len() == b.len(),
        forall|j: int| k <= j < a.len() ==> a[j] == b[j],
    decreases a.len() - k,
{
    if k < a.len() && k < b.len() {
        lemma_text_lt_total(a, b, k + 1);
    }
}

/// Different texts: one of them comes first.
pub proof fn lemma_text_lt_connected(a: Seq<char>, b: Seq<char>)
    requires
        a != b,
    ensures
        text_lt(a, b) || text_lt(b, a),
{
    if !text_lt(a, b) && !text_lt(b, a) {
        lemma_text_lt_total(a, b, 0);
        assert(a =~= b);
    }
}

/// Whether `a` comes before `b` (see [`text_lt`]).
pub fn text_less(a: &str, b: &str) -> (r: bool)
    ensures
        r == text_lt(a@, b@),
{
    let n = a.unicode_len();
    let m = b.unicode_len();
    let mut k: usize = 0;
    loop
        invariant
            n == a@.len(),
            m == b@.len(),
            k <= n,
            k <= m,
            text_lt(a@, b@) == text_lt_from(a@, b@, k as int),
        decreases n - k,
    {
        if k >= n {
            return k < m;
        }
        if k >= m {
            return false;
        }
        let x = a.get_char(k);
        let y = b.get_char(k);
        if x != y {
            return x < y;
        }
        k = k + 1;
    }
}

/// The keys of the entries increase.
pub open spec fn sorted<V>(s: Seq<(String, V)>) -> bool {
    forall|i: int, j: int| 0 <= i < j < s.len() ==> text_lt((#[trigger] s[i]).0@, (#[trigger] s[j]).0@)
}

pub proof fn lemma_sorted_distinct<V>(s: Seq<(String, V)>)
    requires
        sorted(s),
    ensures
        keys_distinct(s),
{
    assert forall|i: int, j: int|
        0 <= i < s.len() && 0 <= j < s.len() && i != j implies (#[trigger] s[i]).0@ != (
        #[trigger] s[j]).0@ by {
        if s[i].0@ == s[j].0@ {
            lemma_text_lt_irreflexive(s[i].0@, 0);
            if i < j {
                assert(text_lt(s[i].0@, s[j].0@));
            } else {
                assert(text_lt(s[j].0@, s[i].0@));
            }
        }
    }
}

/// Putting an entry with a new key at position `p` adds it to the map.
pub proof fn lemma_insert_at<V>(s: Seq<(String, V)>, p: int, k: String, v: V)
    requires
        keys_distinct(s),
        !has_key(s, k@),
        0 <= p <= s.len(),
    ensures
        keys_distinct(s.insert(p, (k, v))),
        entries_map(s.insert(p, (k, v))) == entries_map(s).insert(k@, v),
{
    let t = s.insert(p, (k, v));
    assert forall|a: int| 0 <= a < t.len() && a != p implies #[trigger] t[a] == s[if a < p {
        a
    } else {
        a - 1
    }] by {}
    assert(keys_distinct(t)) by {
        assert forall|a: int, b: int|
            0 <= a < t.len() && 0 <= b < t.len() && a != b implies (#[trigger] t[a]).0@ != (
            #[trigger] t[b]).0@ by {
            let a2 = if a < p {
                a
            } else {
                a - 1
            };
            let b2 = if b < p {
                b
            } else {
                b - 1
            };
            if a != p && b != p {
                assert(t[a] == s[a2] && t[b] == s[b2]);
            } else if a == p {
                assert(t[b] == s[b2]);
            } else {
                assert(t[a] == s[a2]);
            }
        }
    }
    let m = entries_map(t);
    let n = entries_map(s).insert(k@, v);
    assert forall|key: Seq<char>| m.dom().contains(key) == n.dom().contains(key) by {
        if has_key(s, key) {
            let i = choose|i: int| 0 <= i < s.len() && (#[trigger] s[i]).0@ == key;
            let i2 = if i < p {
                i
            } else {
                i + 1
            };
            assert(t[i2] == s[i]);
        }
        if has_key(t, key) && key != k@ {
            let i = choose|i: int| 0 <= i < t.len() && (#[trigger] t[i]).0@ == key;
            let i2 = if i < p {
                i
            } else {
                i - 1
            };
            assert(t[i] == s[i2]);
        }
        assert(t[p] == (k, v));
    }
    assert forall|key: Seq<char>| #[trigger] m.dom().contains(key) implies m[key] == n[key] by {
        let i = choose|i: int| 0 <= i < t.len() && (#[trigger] t[i]).0@ == key;
        lemma_entry_value(t, i);
        if i != p {
            let i2 = if i < p {
                i
            } else {
                i - 1
            };
            assert(t[i] == s[i2]);
            lemma_entry_value(s, i2);
        }
    }
    assert(m =~= n);
}

/// A map from names to values, its entries in increasing order of name.
pub struct SortedMap<V> {
    entries: Vec<(String, V)>,
}

impl<V> SortedMap<V> {
    /// The entries, by increasing name.
    pub closed spec fn entry_seq(&self) -> Seq<(String, V)> {
        self.entries@
    }

    pub closed spec fn wf(&self) -> bool {
        sorted(self.entries@)
    }

    pub open spec fn view(&self) -> Map<Seq<char>, V> {
        entries_map(self.entry_seq())
    }

    pub proof fn lemma_wf(&self)
        requires
            self.wf(),
        ensures
            keys_distinct(self.entry_seq()),
            sorted(self.entry_seq()),
    {
        lemma_sorted_distinct(self.entries@);
    }

    /// The empty map.
    pub fn new() -> (r: Self)
        ensures
            r.wf(),
            r.entry_seq() == Seq::<(String, V)>::empty(),
            r@ == Map::<Seq<char>, V>::empty(),
    {
        let r = SortedMap { entries: Vec::new() };
        assert(r@ =~= Map::<Seq<char>, V>::empty());
        r
    }

    /// Number of keys.
    pub fn len(&self) -> (r: usize)
        ensures
            r == self.entry_seq().len(),
    {
        self.entries.len()
    }

    /// Where the key sits among the entries, if present.
    pub fn position(&self, k: &str) -> (r: Option<usize>)
        requires
            self.wf(),
        ensures
            match r {
                Some(i) => i < self.entry_seq().len() && self.entry_seq()[i as int].0@ == k@,
                None => !has_key(self.entry_seq(), k@),
            },
    {
        let key = String::from_str(k);
        let mut i: usize = 0;
        while i < self.entries.len()
            invariant
                i <= self.entries.len(),
                key@ == k@,
                forall|j: int| 0 <= j < i ==> (#[trigger] self.entries@[j]).0@ != k@,
            decreases self.entries.len() - i,
        {
            if self.entries[i].0 == key {
                return Some(i);
            }
            i = i + 1;
        }
        None
    }

    /// Whether the key is present.
    pub fn contains_key(&self, k: &str) -> (r: bool)
        requires
            self.wf(),
        ensures
            r == self@.dom().contains(k@),
    {
        self.position(k).is_some()
    }

    /// The value of a key.
    pub fn get(&self, k: &str) -> (r: Option<&V>)
        requires
            self.wf(),
        ensures
            r is Some == self@.dom().contains(k@),
            r matches Some(v) ==> *v == self@[k@],
    {
        proof {
            lemma_sorted_distinct(self.entries@);
        }
        match self.position(k) {
            Some(i) => {
                proof {
                    lemma_entry_value(self.entries@, i as int);
                }
                Some(&self.entries[i].1)
            },
            None => None,
        }
    }

    /// Sets the value of a key, handing back the value it replaces; a new key
    /// takes its place in the order.
    pub fn insert(&mut self, k: String, v: V) -> (r: Option<V>)
        requires
            old(self).wf(),
        ensures
            final(self).wf(),
            final(self)@ == old(self)@.insert(k@, v),
            r is Some == old(self)@.dom().contains(k@),
            r matches Some(o) ==> o == old(self)@[k@],
    {
        let ghost s = self.entries@;
        proof {
            lemma_sorted_distinct(s);
        }
        let mut p: usize = 0;
        while p < self.entries.len() && text_less(self.entries[p].0.as_str(), k.as_str())
            invariant
                self.entries@ == s,
                p <= s.len(),
                forall|i: int| 0 <= i < p ==> text_lt((#[trigger] s[i]).0@, k@),
            decreases s.len() - p,
        {
            p = p + 1;
        }
        if p < self.entries.len() && self.entries[p].0 == k {
            proof {
                lemma_entry_value(s, p as int);
            }
            let (_, o) = self.entries.remove(p);
            self.entries.insert(p, (k, v));
            proof {
                let t = self.entries@;
                assert(t =~= s.update(p as int, (k, v)));
                assert(sorted(t)) by {
                    assert forall|i: int, j: int| 0 <= i < j < t.len() implies text_lt(
                        (#[trigger] t[i]).0@,
                        (#[trigger] t[j]).0@,
                    ) by {
                        assert(s[i].0@ == t[i].0@ || i == p);
                        assert(s[j].0@ == t[j].0@ || j == p);
                        assert(text_lt(s[i].0@, s[j].0@));
                    }
                }
                lemma_remove(s, p as int);
                lemma_sorted_distinct(t);
                assert(t =~= s.remove(p as int).insert(p as int, (k, v)));
                assert(!has_key(s.remove(p as int), k@)) by {
                    if has_key(s.remove(p as int), k@) {
                        let b = choose|b: int|
                            0 <= b < s.remove(p as int).len() && (#[trigger] s.remove(
                                p as int,
                            )[b]).0@ == k@;
                        let b2 = if b < p {
                            b
                        } else {
                            b + 1
                        };
                        assert(s.remove(p as int)[b] == s[b2]);
                    }
                }
                lemma_insert_at(s.remove(p as int), p as int, k, v);
                assert(entries_map(s).remove(k@).insert(k@, v) =~= entries_map(s).insert(k@, v));
            }
            Some(o)
        } else {
            proof {
                if p < s.len() {
                    lemma_text_lt_connected(s[p as int].0@, k@);
                }
                assert forall|j: int| p <= j < s.len() implies text_lt(k@, (#[trigger] s[j]).0@) by {
                    if j > p {
                        lemma_text_lt_transitive(k@, s[p as int].0@, s[j].0@, 0);
                    }
                }
                assert(!has_key(s, k@)) by {
                    if has_key(s, k@) {
                        let b = choose|b: int| 0 <= b < s.len() && (#[trigger] s[b]).0@ == k@;
                        lemma_text_lt_irreflexive(k@, 0);
                        if b < p {
                            assert(text_lt(s[b].0@, k@));
                        } else {
                            assert(text_lt(k@, s[b].0@));
                        }
                    }
                }
                lemma_insert_at(s, p as int, k, v);
            }
            self.entries.insert(p, (k, v));
            proof {
                let t = self.entries@;
                assert(t =~= s.insert(p as int, (k, v)));
                assert(sorted(t)) by {
                    assert forall|i: int, j: int| 0 <= i < j < t.len() implies text_lt(
                        (#[trigger] t[i]).0@,
                        (#[trigger] t[j]).0@,
                    ) by {
                        if i < p && j < p {
                            assert(t[i] == s[i] && t[j] == s[j]);
                        } else if i < p && j == p {
                            assert(t[i] == s[i]);
                        } else if i < p {
                            assert(t[i] == s[i] && t[j] == s[j - 1]);
                            lemma_text_lt_transitive(s[i].0@, k@, s[j - 1].0@, 0);
                        } else if i == p {
                            assert(t[j] == s[j - 1]);
                        } else {
                            assert(t[i] == s[i - 1] && t[j] == s[j - 1]);
                        }
                    }
                }
            }
            None
        }
    }

    /// The value of the entry at `i`, to change in place; keys and order stay.
    pub fn value_mut(&mut self, i: usize) -> (r: &mut V)
        requires
            old(self).wf(),
            i < old(self).entry_seq().len(),
        ensures
            *r == old(self).entry_seq()[i as int].1,
            final(self).entry_seq() == old(self).entry_seq().update(
                i as int,
                (old(self).entry_seq()[i as int].0, *final(r)),
            ),
            final(self).wf(),
    {
        &mut self.entries[i].1
    }

    /// The entries, by increasing name.
    pub fn entries(&self) -> (r: &Vec<(String, V)>)
        ensures
            r@ == self.entry_seq(),
    {
        &self.entries
    }

    /// Takes every entry out, by increasing name; the map is left empty.
    pub fn drain(&mut self) -> (r: Vec<(String, V)>)
        requires
            old(self).wf(),
        ensures
            final(self).wf(),
            final(self)@ == Map::<Seq<char>, V>::empty(),
            r@ == old(self).entry_seq(),
            sorted(r@),
            keys_distinct(r@),
            entries_map(r@) == old(self)@,
    {
        proof {
            lemma_sorted_distinct(self.entries@);
        }
        let mut r: Vec<(String, V)> = Vec::new();
        std::mem::swap(&mut r, &mut self.entries);
        assert(self@ =~= Map::<Seq<char>, V>::empty());
        r
    }
}

} // verus!
