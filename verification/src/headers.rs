//! The header block of a message: keys with their values, in the order in
//! which the keys first came, each key once. Keys are compared as they were
//! received, case included.

use vstd::prelude::*;
use crate::text::same_text;

verus! {

/// A header: key and value.
pub type Entry = (Seq<char>, Seq<char>);

/// The first index at or after `from` whose entry has the key `key`, or the
/// length of `s`.
pub open spec fn key_from(s: Seq<Entry>, key: Seq<char>, from: int) -> int
    decreases s.len() - from,
{
    if from < 0 || from >= s.len() {
        s.len() as int
    } else if s[from].0 == key {
        from
    } else {
        key_from(s, key, from + 1)
    }
}

/// The value that `s` holds for `key`.
pub open spec fn lookup(s: Seq<Entry>, key: Seq<char>) -> Option<Seq<char>> {
    let i = key_from(s, key, 0);
    if 0 <= i < s.len() {
        Some(s[i].1)
    } else {
        None
    }
}

/// `s` with `key` set to `value`: in place where the key is present, at the
/// end where it is new.
pub open spec fn put(s: Seq<Entry>, key: Seq<char>, value: Seq<char>) -> Seq<Entry> {
    let i = key_from(s, key, 0);
    if 0 <= i < s.len() {
        s.update(i, (key, value))
    } else {
        s.push((key, value))
    }
}

/// `s` without the entries for `key`.
pub open spec fn without(s: Seq<Entry>, key: Seq<char>) -> Seq<Entry>
    decreases s.len(),
{
    if s.len() == 0 {
        s
    } else if s.last().0 == key {
        without(s.drop_last(), key)
    } else {
        without(s.drop_last(), key).push(s.last())
    }
}

/// No key occurs twice.
pub open spec fn distinct_keys(s: Seq<Entry>) -> bool {
    forall|i: int, j: int| 0 <= i < j < s.len() ==> (#[trigger] s[i]).0 != (#[trigger] s[j]).0
}

/// The mapping from keys to values that the entries stand for.
pub open spec fn to_map(s: Seq<Entry>) -> Map<Seq<char>, Seq<char>> {
    Map::new(|k: Seq<char>| lookup(s, k) is Some, |k: Seq<char>| lookup(s, k).unwrap())
}

/// `key_from` returns the first entry with the key, and no entry before it
/// has the key.
pub proof fn lemma_key_from(s: Seq<Entry>, key: Seq<char>, from: int)
    requires
        0 <= from <= s.len(),
    ensures
        from <= key_from(s, key, from) <= s.len(),
        key_from(s, key, from) < s.len() ==> s[key_from(s, key, from)].0 == key,
        forall|j: int| from <= j < key_from(s, key, from) ==> (#[trigger] s[j]).0 != key,
    decreases s.len() - from,
{
    if from < s.len() && s[from].0 != key {
        lemma_key_from(s, key, from + 1);
    }
}

/// An index that holds the key, with no earlier one from `from` on, is what
/// `key_from` returns.
pub proof fn lemma_key_from_unique(s: Seq<Entry>, key: Seq<char>, from: int, at: int)
    requires
        0 <= from <= at <= s.len(),
        at < s.len() ==> s[at].0 == key,
        forall|j: int| from <= j < at ==> (#[trigger] s[j]).0 != key,
    ensures
        key_from(s, key, from) == at,
    decreases at - from,
{
    if from < at {
        lemma_key_from_unique(s, key, from + 1, at);
    }
}

/// After `put`, the key has the new value and every other key the value it
/// had; keys stay distinct.
pub proof fn lemma_put(s: Seq<Entry>, key: Seq<char>, value: Seq<char>)
    ensures
        lookup(put(s, key, value), key) == Some(value),
        forall|k: Seq<char>| k != key
            ==> lookup(put(s, key, value), k) == #[trigger] lookup(s, k),
        to_map(put(s, key, value)) == to_map(s).insert(key, value),
        distinct_keys(s) ==> distinct_keys(put(s, key, value)),
{
    let t = put(s, key, value);
    let i = key_from(s, key, 0);
    lemma_key_from(s, key, 0);
    lemma_key_from_unique(t, key, 0, i);
    assert forall|k: Seq<char>| k != key implies lookup(t, k) == #[trigger] lookup(s, k) by {
        let a = key_from(s, k, 0);
        lemma_key_from(s, k, 0);
        assert forall|j: int| 0 <= j < a implies (#[trigger] t[j]).0 != k by {
            assert(s[j].0 != k);
        }
        if a < s.len() {
            assert(t[a] == s[a]);
        }
        lemma_key_from_unique(t, k, 0, if a < s.len() {
            a
        } else {
            t.len() as int
        });
    }
    assert(to_map(t) =~= to_map(s).insert(key, value));
    if distinct_keys(s) {
        assert forall|a: int, b: int| 0 <= a < b < t.len() implies (#[trigger] t[a]).0 != (
        #[trigger] t[b]).0 by {
            if i < s.len() {
                if a == i {
                    assert(s[a].0 == key);
                    assert(s[a].0 != s[b].0);
                } else if b == i {
                    assert(s[b].0 == key);
                    assert(s[a].0 != s[b].0);
                } else {
                    assert(s[a].0 != s[b].0);
                }
            } else {
                if b == s.len() {
                    assert(s[a].0 != key);
                } else {
                    assert(s[a].0 != s[b].0);
                }
            }
        }
    }
}

/// What `without` keeps: every entry with another key, in order.
pub proof fn lemma_without(s: Seq<Entry>, key: Seq<char>)
    ensures
        without(s, key).len() <= s.len(),
        forall|j: int| 0 <= j < without(s, key).len()
            ==> (#[trigger] without(s, key)[j]).0 != key,
        forall|k: Seq<char>| k != key ==> lookup(without(s, key), k) == #[trigger] lookup(s, k),
        lookup(without(s, key), key) is None,
        to_map(without(s, key)) == to_map(s).remove(key),
        distinct_keys(s) ==> distinct_keys(without(s, key)),
    decreases s.len(),
{
    let t = without(s, key);
    if s.len() > 0 {
        let r = s.drop_last();
        let u = without(r, key);
        lemma_without(r, key);
        lemma_contained(r, key);
        assert forall|k: Seq<char>| k != key implies lookup(t, k) == #[trigger] lookup(s, k) by {
            lemma_lookup_push(r, s.last(), k);
            assert(s =~= r.push(s.last()));
            if s.last().0 != key {
                lemma_lookup_push(u, s.last(), k);
            }
        }
        if s.last().0 != key {
            lemma_lookup_push(u, s.last(), key);
        }
        if distinct_keys(s) {
            assert(distinct_keys(r)) by {
                assert forall|a: int,
                    b: int| 0 <= a < b < r.len() implies (#[trigger] r[a]).0 != (
                #[trigger] r[b]).0 by {
                    assert(s[a].0 != s[b].0);
                }
            }
            if s.last().0 != key {
                assert forall|a: int, b: int| 0 <= a < b < t.len() implies (#[trigger] t[a]).0
                    != (#[trigger] t[b]).0 by {
                    if b == u.len() {
                        let k = u[a].0;
                        let w = choose|w: int| 0 <= w < r.len() && r[w] == u[a];
                        assert(s[w].0 != s[s.len() - 1].0);
                    } else {
                        assert(u[a].0 != u[b].0);
                    }
                }
            }
        }
    }
    lemma_key_from(t, key, 0);
    assert(to_map(t) =~= to_map(s).remove(key));
}

/// Every entry that `without` keeps is an entry of `s`.
pub proof fn lemma_contained(s: Seq<Entry>, key: Seq<char>)
    ensures
        forall|j: int|
            0 <= j < without(s, key).len() ==> exists|w: int|
                0 <= w < s.len() && s[w] == #[trigger] without(s, key)[j],
    decreases s.len(),
{
    let t = without(s, key);
    if s.len() > 0 {
        let r = s.drop_last();
        let u = without(r, key);
        lemma_contained(r, key);
        assert forall|j: int| 0 <= j < t.len() implies exists|w: int|
            0 <= w < s.len() && s[w] == #[trigger] t[j] by {
            if j < u.len() {
                assert(t[j] == u[j]);
                let w = choose|w: int| 0 <= w < r.len() && r[w] == u[j];
                assert(s[w] == t[j]);
            } else {
                assert(s[s.len() - 1] == t[j]);
            }
        }
    }
}

/// Looking a key up after one more entry was appended.
pub proof fn lemma_lookup_push(s: Seq<Entry>, e: Entry, key: Seq<char>)
    ensures
        lookup(s.push(e), key) == if lookup(s, key) is Some {
            lookup(s, key)
        } else if e.0 == key {
            Some(e.1)
        } else {
            None
        },
{
    let t = s.push(e);
    let a = key_from(s, key, 0);
    lemma_key_from(s, key, 0);
    assert forall|j: int| 0 <= j < a implies (#[trigger] t[j]).0 != key by {
        assert(s[j].0 != key);
    }
    if a < s.len() {
        assert(t[a] == s[a]);
        lemma_key_from_unique(t, key, 0, a);
    } else if e.0 == key {
        lemma_key_from_unique(t, key, 0, a);
    } else {
        lemma_key_from_unique(t, key, 0, a + 1);
    }
}

/// The headers of a message.
#[derive(Debug, Clone, PartialEq)]
pub struct Headers {
    entries: Vec<(String, String)>,
}

impl View for Headers {
    type V = Seq<Entry>;

    /// The entries, in the order in which their keys first came.
    closed spec fn view(&self) -> Seq<Entry> {
        Seq::new(self.entries@.len(), |i: int| (self.entries@[i].0@, self.entries@[i].1@))
    }
}

impl Headers {
    /// The value for `key`, if there is one.
    pub open spec fn value(&self, key: Seq<char>) -> Option<Seq<char>> {
        lookup(self@, key)
    }

    /// No headers.
    pub fn new() -> (h: Headers)
        ensures
            h@ == Seq::<Entry>::empty(),
            distinct_keys(h@),
    {
        let h = Headers { entries: Vec::new() };
        assert(h@ =~= Seq::<Entry>::empty());
        h
    }

    /// How many headers there are.
    pub fn len(&self) -> (n: usize)
        ensures
            n == self@.len(),
    {
        self.entries.len()
    }

    /// The key and the value of the header at `index`.
    pub fn entry(&self, index: usize) -> (e: (&String, &String))
        requires
            index < self@.len(),
        ensures
            e.0@ == self@[index as int].0,
            e.1@ == self@[index as int].1,
    {
        (&self.entries[index].0, &self.entries[index].1)
    }

    /// The index of the header with the given key, or the number of headers.
    fn position(&self, key: &str) -> (i: usize)
        ensures
            i == key_from(self@, key@, 0),
            i <= self@.len(),
    {
        let mut i: usize = 0;
        while i < self.entries.len() && !same_text(self.entries[i].0.as_str(), key)
            invariant
                0 <= i <= self.entries.len(),
                key_from(self@, key@, 0) == key_from(self@, key@, i as int),
            decreases self.entries.len() - i,
        {
            i += 1;
        }
        i
    }

    /// The value for `key`, if there is one.
    pub fn get(&self, key: &str) -> (r: Option<&String>)
        ensures
            r is Some <==> self.value(key@) is Some,
            r matches Some(v) ==> self.value(key@) == Some(v@),
    {
        let i = self.position(key);
        if i < self.entries.len() {
            Some(&self.entries[i].1)
        } else {
            None
        }
    }

    /// Sets `key` to `value`; a value that the key had is replaced.
    pub fn insert(&mut self, key: String, value: String)
        ensures
            final(self)@ == put(old(self)@, key@, value@),
            distinct_keys(old(self)@) ==> distinct_keys(final(self)@),
    {
        proof {
            lemma_put(self@, key@, value@);
        }
        let i = self.position(key.as_str());
        if i < self.entries.len() {
            self.entries.set(i, (key, value));
        } else {
            self.entries.push((key, value));
        }
        assert(self@ =~= put(old(self)@, key@, value@));
    }

    /// Removes `key` and its value.
    pub fn remove(&mut self, key: &str)
        ensures
            final(self)@ == without(old(self)@, key@),
            distinct_keys(old(self)@) ==> distinct_keys(final(self)@),
    {
        proof {
            lemma_without(self@, key@);
        }
        let mut kept: Vec<(String, String)> = Vec::new();
        let ghost all = self@;
        let n = self.entries.len();
        let mut i: usize = 0;
        while i < n
            invariant
                n == self.entries.len(),
                self@ == all,
                0 <= i <= n,
                Seq::new(kept@.len(), |j: int| (kept@[j].0@, kept@[j].1@)) == without(
                    all.take(i as int),
                    key@,
                ),
            decreases n - i,
        {
            let ghost was = Seq::new(kept@.len(), |j: int| (kept@[j].0@, kept@[j].1@));
            proof {
                assert(all.take(i + 1).drop_last() =~= all.take(i as int));
                assert(all.take(i + 1).last() == all[i as int]);
            }
            if !same_text(self.entries[i].0.as_str(), key) {
                kept.push((self.entries[i].0.clone(), self.entries[i].1.clone()));
                assert(Seq::new(kept@.len(), |j: int| (kept@[j].0@, kept@[j].1@)) =~= was.push(
                    all[i as int],
                ));
            }
            i += 1;
        }
        assert(all.take(n as int) =~= all);
        self.entries = kept;
        assert(self@ =~= without(all, key@));
    }
}

} // verus!
