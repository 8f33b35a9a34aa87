//! Laws of the message framer: which value a key ends up with, and that the
//! order of the header lines does not matter.

use vstd::prelude::*;
use crate::framer::{header_line, headers_of};
use crate::headers::{distinct_keys, lemma_put, lookup, to_map};

verus! {

/// The value that the last line about `key` gives it; `None` when no line is
/// about that key.
pub open spec fn last_value(lines: Seq<Seq<u8>>, key: Seq<char>) -> Option<Seq<char>>
    decreases lines.len(),
{
    if lines.len() == 0 {
        None
    } else {
        match header_line(lines.last()) {
            Some((k, v)) if k == key => Some(v),
            _ => last_value(lines.drop_last(), key),
        }
    }
}

/// No key is given two different values.
pub open spec fn single_valued(lines: Seq<Seq<u8>>) -> bool {
    forall|i: int, j: int|
        0 <= i < lines.len() && 0 <= j < lines.len() ==> match (
            header_line(#[trigger] lines[i]),
            header_line(#[trigger] lines[j]),
        ) {
            (Some(a), Some(b)) => a.0 == b.0 ==> a.1 == b.1,
            _ => true,
        }
}

/// Duplicate keys resolve to the last occurrence: the value that the parsed
/// headers hold for a key is the one of the last line about that key.
pub proof fn lemma_last_wins(lines: Seq<Seq<u8>>, key: Seq<char>)
    ensures
        lookup(headers_of(lines), key) == last_value(lines, key),
    decreases lines.len(),
{
    if lines.len() > 0 {
        lemma_last_wins(lines.drop_last(), key);
        match header_line(lines.last()) {
            Some((k, v)) => {
                lemma_put(headers_of(lines.drop_last()), k, v);
            },
            None => {},
        }
    }
}

/// The parsed headers hold each key once.
pub proof fn lemma_keys_once(lines: Seq<Seq<u8>>)
    ensures
        distinct_keys(headers_of(lines)),
    decreases lines.len(),
{
    if lines.len() > 0 {
        lemma_keys_once(lines.drop_last());
        match header_line(lines.last()) {
            Some((k, v)) => {
                lemma_put(headers_of(lines.drop_last()), k, v);
            },
            None => {},
        }
    }
}

/// Where the last value of a key comes from: some line says so, and when no
/// line is about the key there is no value.
pub proof fn lemma_last_value(lines: Seq<Seq<u8>>, key: Seq<char>)
    ensures
        last_value(lines, key) matches Some(v) ==> exists|i: int|
            0 <= i < lines.len() && header_line(#[trigger] lines[i]) == Some((key, v)),
        last_value(lines, key) is None ==> forall|i: int|
            0 <= i < lines.len() ==> !(header_line(#[trigger] lines[i]) matches Some(h) && h.0
                == key),
    decreases lines.len(),
{
    if lines.len() > 0 {
        let rest = lines.drop_last();
        lemma_last_value(rest, key);
        match header_line(lines.last()) {
            Some((k, v)) if k == key => {
                assert(header_line(lines[lines.len() - 1]) == Some((key, v)));
            },
            _ => {
                match last_value(rest, key) {
                    Some(v) => {
                        let i = choose|i: int|
                            0 <= i < rest.len() && header_line(#[trigger] rest[i]) == Some(
                                (key, v),
                            );
                        assert(lines[i] == rest[i]);
                    },
                    None => {
                        assert forall|i: int| 0 <= i < lines.len() implies !(header_line(
                            #[trigger] lines[i],
                        ) matches Some(h) && h.0 == key) by {
                            if i < rest.len() {
                                assert(lines[i] == rest[i]);
                            }
                        }
                    },
                }
            },
        }
    }
}

/// The same header lines in another order give the same mapping, as long as
/// no key is given two different values.
pub proof fn lemma_order_irrelevant(a: Seq<Seq<u8>>, b: Seq<Seq<u8>>)
    requires
        a.to_multiset() == b.to_multiset(),
        single_valued(a),
    ensures
        to_map(headers_of(a)) == to_map(headers_of(b)),
{
    a.to_multiset_ensures();
    b.to_multiset_ensures();
    assert forall|key: Seq<char>| lookup(headers_of(a), key) == lookup(headers_of(b), key) by {
        lemma_last_wins(a, key);
        lemma_last_wins(b, key);
        lemma_last_value(a, key);
        lemma_last_value(b, key);
        match last_value(a, key) {
            Some(v) => {
                let i = choose|i: int|
                    0 <= i < a.len() && header_line(#[trigger] a[i]) == Some((key, v));
                assert(a.contains(a[i]));
                assert(b.to_multiset().count(a[i]) > 0);
                assert(b.contains(a[i]));
                let j = choose|j: int| 0 <= j < b.len() && b[j] == a[i];
                assert(header_line(b[j]) == Some((key, v)));
                match last_value(b, key) {
                    Some(w) => {
                        let jj = choose|jj: int|
                            0 <= jj < b.len() && header_line(#[trigger] b[jj]) == Some((key, w));
                        assert(b.contains(b[jj]));
                        assert(a.to_multiset().count(b[jj]) > 0);
                        assert(a.contains(b[jj]));
                        let ii = choose|ii: int| 0 <= ii < a.len() && a[ii] == b[jj];
                        assert(header_line(a[ii]) == Some((key, w)));
                        assert(header_line(a[i]) == Some((key, v)));
                    },
                    None => {},
                }
            },
            None => {
                match last_value(b, key) {
                    Some(w) => {
                        let jj = choose|jj: int|
                            0 <= jj < b.len() && header_line(#[trigger] b[jj]) == Some((key, w));
                        assert(b.contains(b[jj]));
                        assert(a.to_multiset().count(b[jj]) > 0);
                        assert(a.contains(b[jj]));
                        let ii = choose|ii: int| 0 <= ii < a.len() && a[ii] == b[jj];
                        assert(header_line(a[ii]) == Some((key, w)));
                    },
                    None => {},
                }
            },
        }
    }
    assert(to_map(headers_of(a)) =~= to_map(headers_of(b)));
}

} // verus!
