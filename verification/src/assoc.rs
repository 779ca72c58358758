//! Association lists: a map kept as a sequence of key-value pairs, in the order of the keys.
//!
//! The store keeps its two maps in this form. The functions here say which mathematical map a
//! sequence of pairs stands for, how inserting, replacing and removing a pair changes it, and
//! that a map has one such sequence only.

use vstd::prelude::*;
use crate::order::{key_lt, key_order, lemma_key_lt_asymmetric, lemma_key_lt_irreflexive, lemma_key_lt_transitive, KeyOrder};

verus! {

/// A key of the store, as the characters of its text.
pub type Key = Seq<char>;

/// The keys of the pairs of `s`, in order.
pub open spec fn keys_of<D>(s: Seq<(Key, D)>) -> Seq<Key> {
    Seq::new(s.len(), |i: int| s[i].0)
}

/// No key occurs in two pairs of `s`.
pub open spec fn distinct_keys<D>(s: Seq<(Key, D)>) -> bool {
    forall|i: int, j: int| 0 <= i < j < s.len() ==> (#[trigger] s[i]).0 != (#[trigger] s[j]).0
}

/// Some pair of `s` has the key `k`.
pub open spec fn has_key<D>(s: Seq<(Key, D)>, k: Key) -> bool {
    exists|i: int| 0 <= i < s.len() && (#[trigger] s[i]).0 == k
}

/// The position of a pair of `s` with the key `k`.
pub open spec fn index_of<D>(s: Seq<(Key, D)>, k: Key) -> int {
    choose|i: int| 0 <= i < s.len() && (#[trigger] s[i]).0 == k
}

/// The map that the pairs of `s` stand for.
pub open spec fn as_map<D>(s: Seq<(Key, D)>) -> Map<Key, D> {
    Map::new(|k: Key| has_key(s, k), |k: Key| s[index_of(s, k)].1)
}

/// With distinct keys, the pair at position `i` is the map's entry for its key.
pub proof fn lemma_entry<D>(s: Seq<(Key, D)>, i: int)
    requires
        distinct_keys(s),
        0 <= i < s.len(),
    ensures
        has_key(s, s[i].0),
        index_of(s, s[i].0) == i,
        as_map(s).contains_key(s[i].0),
        as_map(s)[s[i].0] == s[i].1,
{
    assert(has_key(s, s[i].0));
    let j = index_of(s, s[i].0);
    assert(s[j].0 == s[i].0);
    if j < i {
        assert(s[j].0 != s[i].0);
    }
    if i < j {
        assert(s[i].0 != s[j].0);
    }
}

/// The empty sequence stands for the empty map.
pub proof fn lemma_empty<D>()
    ensures
        distinct_keys(Seq::<(Key, D)>::empty()),
        as_map(Seq::<(Key, D)>::empty()) == Map::<Key, D>::empty(),
{
    assert(as_map(Seq::<(Key, D)>::empty()) =~= Map::<Key, D>::empty());
}

/// Replacing the value of the pair at position `i` replaces the map's entry for its key.
pub proof fn lemma_replace<D>(s: Seq<(Key, D)>, i: int, d: D)
    requires
        distinct_keys(s),
        0 <= i < s.len(),
    ensures
        distinct_keys(s.update(i, (s[i].0, d))),
        as_map(s.update(i, (s[i].0, d))) == as_map(s).insert(s[i].0, d),
{
    let k = s[i].0;
    let t = s.update(i, (k, d));
    assert forall|a: int, b: int| 0 <= a < b < t.len() implies (#[trigger] t[a]).0 != (
    #[trigger] t[b]).0 by {
        assert(t[a].0 == s[a].0);
        assert(t[b].0 == s[b].0);
    }
    assert forall|q: Key| #[trigger] has_key(t, q) <==> has_key(s, q) by {
        if has_key(t, q) {
            let j = index_of(t, q);
            assert(s[j].0 == q);
        }
        if has_key(s, q) {
            let j = index_of(s, q);
            assert(t[j].0 == q);
        }
    }
    lemma_entry(s, i);
    assert forall|q: Key| has_key(t, q) implies #[trigger] as_map(t)[q] == as_map(s).insert(
        k,
        d,
    )[q] by {
        let j = index_of(t, q);
        lemma_entry(t, j);
        if j != i {
            assert(t[j] == s[j]);
            lemma_entry(s, j);
        }
    }
    assert(as_map(t) =~= as_map(s).insert(k, d));
}

/// Removing the pair at position `i` removes its key from the map.
pub proof fn lemma_remove<D>(s: Seq<(Key, D)>, i: int)
    requires
        distinct_keys(s),
        0 <= i < s.len(),
    ensures
        distinct_keys(s.remove(i)),
        !has_key(s.remove(i), s[i].0),
        as_map(s.remove(i)) == as_map(s).remove(s[i].0),
{
    let k = s[i].0;
    let t = s.remove(i);
    assert forall|a: int| 0 <= a < t.len() implies #[trigger] t[a] == s[if a < i {
        a
    } else {
        a + 1
    }] by {}
    assert forall|a: int, b: int| 0 <= a < b < t.len() implies (#[trigger] t[a]).0 != (
    #[trigger] t[b]).0 by {
        let a2 = if a < i { a } else { a + 1 };
        let b2 = if b < i { b } else { b + 1 };
        assert(t[a] == s[a2]);
        assert(t[b] == s[b2]);
        assert(s[a2].0 != s[b2].0);
    }
    assert forall|q: Key| #[trigger] has_key(t, q) <==> (q != k && has_key(s, q)) by {
        if has_key(t, q) {
            let j = index_of(t, q);
            let j2 = if j < i { j } else { j + 1 };
            assert(t[j] == s[j2]);
            assert(s[j2].0 == q);
            if j2 < i {
                assert(s[j2].0 != s[i].0);
            } else {
                assert(s[i].0 != s[j2].0);
            }
        }
        if q != k && has_key(s, q) {
            let j = index_of(s, q);
            let j2 = if j < i { j } else { j - 1 };
            assert(t[j2] == s[j]);
            assert(t[j2].0 == q);
        }
    }
    assert forall|q: Key| has_key(t, q) implies #[trigger] as_map(t)[q] == as_map(s).remove(k)[q] by {
        let j = index_of(t, q);
        let j2 = if j < i { j } else { j + 1 };
        lemma_entry(t, j);
        assert(t[j] == s[j2]);
        lemma_entry(s, j2);
    }
    assert(as_map(t) =~= as_map(s).remove(k));
}

/// With distinct keys, the map has one entry for each pair.
pub proof fn lemma_size<D>(s: Seq<(Key, D)>)
    requires
        distinct_keys(s),
    ensures
        as_map(s).dom().finite(),
        as_map(s).dom().len() == s.len(),
        as_map(s).dom() == keys_of(s).to_set(),
        keys_of(s).no_duplicates(),
{
    let keys = keys_of(s);
    assert forall|i: int, j: int| 0 <= i < keys.len() && 0 <= j < keys.len() && i != j implies keys[i]
        != keys[j] by {
        if i < j {
            assert(s[i].0 != s[j].0);
        } else {
            assert(s[j].0 != s[i].0);
        }
    }
    assert forall|q: Key| #[trigger] as_map(s).dom().contains(q) <==> keys.to_set().contains(q) by {
        if has_key(s, q) {
            let i = index_of(s, q);
            assert(keys[i] == q);
        }
        if keys.contains(q) {
            let i = choose|i: int| 0 <= i < keys.len() && keys[i] == q;
            assert(s[i].0 == q);
        }
    }
    assert(as_map(s).dom() =~= keys.to_set());
    keys.unique_seq_to_set();
}

/// The keys of `s` are in ascending order.
pub open spec fn sorted<D>(s: Seq<(Key, D)>) -> bool {
    forall|i: int, j: int| 0 <= i < j < s.len() ==> key_lt((#[trigger] s[i]).0, (#[trigger] s[j]).0)
}

/// Every key before position `p` of `s` comes before `k`, and `k` comes before every key
/// from `p` on: `p` is where a pair with the key `k` belongs.
pub open spec fn belongs_at<D>(s: Seq<(Key, D)>, k: Key, p: int) -> bool {
    &&& 0 <= p <= s.len()
    &&& forall|j: int| 0 <= j < p ==> key_lt((#[trigger] s[j]).0, k)
    &&& forall|j: int| p <= j < s.len() ==> key_lt(k, (#[trigger] s[j]).0)
}

/// Keys in ascending order are distinct.
pub proof fn lemma_sorted_distinct<D>(s: Seq<(Key, D)>)
    requires
        sorted(s),
    ensures
        distinct_keys(s),
{
    assert forall|i: int, j: int| 0 <= i < j < s.len() implies (#[trigger] s[i]).0 != (
    #[trigger] s[j]).0 by {
        lemma_key_lt_asymmetric(s[i].0, s[j].0);
    }
}

/// A key that belongs at some position of `s` is not among the keys of `s`.
pub proof fn lemma_belongs_absent<D>(s: Seq<(Key, D)>, k: Key, p: int)
    requires
        belongs_at(s, k, p),
    ensures
        !has_key(s, k),
{
    if has_key(s, k) {
        let i = index_of(s, k);
        lemma_key_lt_irreflexive(k);
    }
}

/// Inserting a pair where its key belongs keeps the order and inserts it into the map.
pub proof fn lemma_insert<D>(s: Seq<(Key, D)>, p: int, k: Key, d: D)
    requires
        sorted(s),
        belongs_at(s, k, p),
    ensures
        sorted(s.insert(p, (k, d))),
        as_map(s.insert(p, (k, d))) == as_map(s).insert(k, d),
{
    let t = s.insert(p, (k, d));
    lemma_sorted_distinct(s);
    assert forall|i: int| 0 <= i < t.len() implies #[trigger] t[i] == (if i < p {
        s[i]
    } else if i == p {
        (k, d)
    } else {
        s[i - 1]
    }) by {}
    assert forall|i: int, j: int| 0 <= i < j < t.len() implies key_lt(
        (#[trigger] t[i]).0,
        (#[trigger] t[j]).0,
    ) by {
        if i < p && j < p {
            assert(key_lt(s[i].0, s[j].0));
        } else if i < p && j == p {
            assert(key_lt(s[i].0, k));
        } else if i < p && j > p {
            assert(key_lt(s[i].0, s[j - 1].0));
        } else if i == p {
            assert(key_lt(k, s[j - 1].0));
        } else {
            assert(key_lt(s[i - 1].0, s[j - 1].0));
        }
    }
    lemma_sorted_distinct(t);
    assert forall|q: Key| #[trigger] has_key(t, q) <==> (q == k || has_key(s, q)) by {
        if has_key(t, q) {
            let i = index_of(t, q);
            if i < p {
                assert(s[i].0 == q);
            } else if i > p {
                assert(s[i - 1].0 == q);
            }
        }
        if has_key(s, q) {
            let i = index_of(s, q);
            if i < p {
                assert(t[i].0 == q);
            } else {
                assert(t[i + 1].0 == q);
            }
        }
        if q == k {
            assert(t[p].0 == q);
        }
    }
    assert forall|q: Key| has_key(t, q) implies #[trigger] as_map(t)[q] == as_map(s).insert(
        k,
        d,
    )[q] by {
        let i = index_of(t, q);
        lemma_entry(t, i);
        if i < p {
            lemma_entry(s, i);
        } else if i > p {
            lemma_entry(s, i - 1);
        }
    }
    assert(as_map(t) =~= as_map(s).insert(k, d));
}

/// Replacing the value of a pair keeps the order of the keys.
pub proof fn lemma_sorted_replace<D>(s: Seq<(Key, D)>, i: int, d: D)
    requires
        sorted(s),
        0 <= i < s.len(),
    ensures
        sorted(s.update(i, (s[i].0, d))),
{
    let t = s.update(i, (s[i].0, d));
    assert forall|a: int, b: int| 0 <= a < b < t.len() implies key_lt(
        (#[trigger] t[a]).0,
        (#[trigger] t[b]).0,
    ) by {
        assert(t[a].0 == s[a].0);
        assert(t[b].0 == s[b].0);
        assert(key_lt(s[a].0, s[b].0));
    }
}

/// Removing a pair keeps the order of the keys.
pub proof fn lemma_sorted_remove<D>(s: Seq<(Key, D)>, i: int)
    requires
        sorted(s),
        0 <= i < s.len(),
    ensures
        sorted(s.remove(i)),
{
    let t = s.remove(i);
    assert forall|a: int, b: int| 0 <= a < b < t.len() implies key_lt(
        (#[trigger] t[a]).0,
        (#[trigger] t[b]).0,
    ) by {
        let a2 = if a < i { a } else { a + 1 };
        let b2 = if b < i { b } else { b + 1 };
        assert(t[a] == s[a2]);
        assert(t[b] == s[b2]);
        assert(key_lt(s[a2].0, s[b2].0));
    }
}

/// Two sequences in the order of their keys that stand for one map are one sequence.
pub proof fn lemma_sorted_unique<D>(s: Seq<(Key, D)>, t: Seq<(Key, D)>)
    requires
        sorted(s),
        sorted(t),
        as_map(s) == as_map(t),
    ensures
        s == t,
    decreases s.len(),
{
    lemma_sorted_distinct(s);
    lemma_sorted_distinct(t);
    lemma_size(s);
    lemma_size(t);
    if s.len() > 0 {
        let n = s.len() - 1;
        lemma_entry(s, n);
        lemma_entry(t, n);
        assert(as_map(t).contains_key(s[n].0));
        assert(as_map(s).contains_key(t[n].0));
        let q = index_of(t, s[n].0);
        let p = index_of(s, t[n].0);
        if q < n && p < n {
            assert(key_lt(t[q].0, t[n].0));
            assert(key_lt(s[p].0, s[n].0));
            lemma_key_lt_asymmetric(s[n].0, t[n].0);
        }
        if q < n && p == n {
            assert(key_lt(t[q].0, t[n].0));
            lemma_key_lt_irreflexive(t[n].0);
        }
        if p < n && q == n {
            assert(key_lt(s[p].0, s[n].0));
            lemma_key_lt_irreflexive(s[n].0);
        }
        assert(s[n].0 == t[n].0);
        assert(s[n].1 == t[n].1);
        lemma_remove(s, n);
        lemma_remove(t, n);
        lemma_sorted_remove(s, n);
        lemma_sorted_remove(t, n);
        lemma_sorted_unique(s.remove(n), t.remove(n));
        assert(s =~= s.remove(n).push(s[n]));
        assert(t =~= t.remove(n).push(t[n]));
    } else {
        assert(s =~= t);
    }
}

/// The sequence of the pairs of a map in the order of their keys.
pub open spec fn canonical<D>(m: Map<Key, D>) -> Seq<(Key, D)> {
    choose|s: Seq<(Key, D)>| sorted(s) && as_map(s) == m
}

/// A sequence in the order of its keys is the one that its map has.
pub proof fn lemma_canonical<D>(s: Seq<(Key, D)>)
    requires
        sorted(s),
    ensures
        canonical(as_map(s)) == s,
{
    let c = canonical(as_map(s));
    assert(sorted(c) && as_map(c) == as_map(s));
    lemma_sorted_unique(c, s);
}

/// The map that pairs in any order stand for, where a later pair replaces an earlier one
/// with its key.
pub open spec fn pairs_map<D>(s: Seq<(Key, D)>) -> Map<Key, D>
    decreases s.len(),
{
    if s.len() == 0 {
        Map::empty()
    } else {
        pairs_map(s.drop_last()).insert(s.last().0, s.last().1)
    }
}

/// For pairs with distinct keys the order does not matter: they stand for the same map
/// whether or not a later pair may replace an earlier one.
pub proof fn lemma_pairs_map<D>(s: Seq<(Key, D)>)
    requires
        distinct_keys(s),
    ensures
        pairs_map(s) == as_map(s),
    decreases s.len(),
{
    if s.len() == 0 {
        lemma_empty::<D>();
        assert(s =~= Seq::empty());
    } else {
        let n = s.len() - 1;
        lemma_remove(s, n);
        lemma_entry(s, n);
        assert(s.remove(n) =~= s.drop_last());
        lemma_pairs_map(s.drop_last());
        assert(as_map(s).remove(s[n].0).insert(s[n].0, s[n].1) =~= as_map(s));
    }
}

/// Where the pair with the key `key` stands in `entries`, or where it belongs.
pub(crate) fn search<V: DeepView>(entries: &Vec<(String, V)>, key: &str) -> (at: Result<usize, usize>)
    requires
        sorted(entries.deep_view()),
    ensures
        match at {
            Ok(i) => i < entries.len() && entries.deep_view()[i as int].0 == key@,
            Err(p) => belongs_at(entries.deep_view(), key@, p as int) && !has_key(
                entries.deep_view(),
                key@,
            ),
        },
{
    let ghost s = entries.deep_view();
    let mut lo: usize = 0;
    let mut hi: usize = entries.len();
    while lo < hi
        invariant
            lo <= hi <= entries.len(),
            s == entries.deep_view(),
            s.len() == entries.len(),
            sorted(s),
            forall|j: int| 0 <= j < lo ==> key_lt((#[trigger] s[j]).0, key@),
            forall|j: int| hi <= j < s.len() ==> key_lt(key@, (#[trigger] s[j]).0),
        decreases hi - lo,
    {
        let mid = lo + (hi - lo) / 2;
        assert(s[mid as int].0 == entries[mid as int].0@);
        match key_order(entries[mid].0.as_str(), key) {
            KeyOrder::Same => {
                return Ok(mid);
            },
            KeyOrder::Before => {
                assert forall|j: int| 0 <= j < mid + 1 implies key_lt((#[trigger] s[j]).0, key@) by {
                    if j < mid {
                        assert(key_lt(s[j].0, s[mid as int].0));
                        lemma_key_lt_transitive(s[j].0, s[mid as int].0, key@);
                    }
                }
                lo = mid + 1;
            },
            KeyOrder::After => {
                assert forall|j: int| mid <= j < s.len() implies key_lt(key@, (#[trigger] s[j]).0) by {
                    if j > mid {
                        assert(key_lt(s[mid as int].0, s[j].0));
                        lemma_key_lt_transitive(key@, s[mid as int].0, s[j].0);
                    }
                }
                hi = mid;
            },
        }
    }
    proof {
        lemma_belongs_absent(s, key@, lo as int);
    }
    Err(lo)
}

/// The position of the pair of `entries` whose key is `key`, if there is one.
pub(crate) fn find<V: DeepView>(entries: &Vec<(String, V)>, key: &str) -> (found: Option<usize>)
    requires
        sorted(entries.deep_view()),
    ensures
        match found {
            Some(i) => i < entries.len() && entries.deep_view()[i as int].0 == key@,
            None => !has_key(entries.deep_view(), key@),
        },
{
    match search(entries, key) {
        Ok(i) => Some(i),
        Err(_) => None,
    }
}

/// Takes the pair at position `i` out of `entries`.
pub(crate) fn remove_at<V: DeepView>(entries: &mut Vec<(String, V)>, i: usize) -> (pair: (String, V))
    requires
        sorted(old(entries).deep_view()),
        i < old(entries).len(),
    ensures
        pair.deep_view() == old(entries).deep_view()[i as int],
        final(entries).deep_view() == old(entries).deep_view().remove(i as int),
        sorted(final(entries).deep_view()),
        !has_key(final(entries).deep_view(), pair.0@),
        as_map(final(entries).deep_view()) == as_map(old(entries).deep_view()).remove(pair.0@),
{
    let pair = entries.remove(i);
    proof {
        assert(entries.deep_view() =~= old(entries).deep_view().remove(i as int));
        lemma_sorted_distinct(old(entries).deep_view());
        lemma_remove(old(entries).deep_view(), i as int);
        lemma_sorted_remove(old(entries).deep_view(), i as int);
    }
    pair
}

/// Puts a pair into `entries` at the position where its key belongs.
pub(crate) fn insert_at<V: DeepView>(entries: &mut Vec<(String, V)>, p: usize, key: String, value: V)
    requires
        sorted(old(entries).deep_view()),
        belongs_at(old(entries).deep_view(), key@, p as int),
    ensures
        final(entries).deep_view() == old(entries).deep_view().insert(
            p as int,
            (key@, value.deep_view()),
        ),
        sorted(final(entries).deep_view()),
        as_map(final(entries).deep_view()) == as_map(old(entries).deep_view()).insert(
            key@,
            value.deep_view(),
        ),
{
    proof {
        lemma_insert(old(entries).deep_view(), p as int, key@, value.deep_view());
    }
    entries.insert(p, (key, value));
    assert(entries.deep_view() =~= old(entries).deep_view().insert(
        p as int,
        (key@, value.deep_view()),
    ));
}

/// The pairs in the order of their keys, a later pair replacing an earlier one with its
/// key.
pub fn sorted_from<V: DeepView>(pairs: Vec<(String, V)>) -> (entries: Vec<(String, V)>)
    ensures
        sorted(entries.deep_view()),
        as_map(entries.deep_view()) == pairs_map(pairs.deep_view()),
{
    let ghost all = pairs.deep_view();
    let mut entries: Vec<(String, V)> = Vec::new();
    proof {
        assert(entries.deep_view() =~= Seq::empty());
        lemma_empty::<V::V>();
        assert(all.take(0) =~= Seq::empty());
    }
    let mut done: Ghost<int> = Ghost(0);
    for pair in it: pairs
        invariant
            it.seq() == pairs@,
            all == pairs.deep_view(),
            done@ == it.index(),
            sorted(entries.deep_view()),
            as_map(entries.deep_view()) == pairs_map(all.take(done@)),
    {
        let ghost before = entries.deep_view();
        proof {
            let n = done@;
            assert(all[n] == pair.deep_view());
            assert(all.take(n + 1).drop_last() =~= all.take(n));
            assert(all.take(n + 1).last() == all[n]);
        }
        match search(&entries, pair.0.as_str()) {
            Ok(i) => {
                proof {
                    lemma_sorted_distinct(before);
                    lemma_replace(before, i as int, pair.1.deep_view());
                    lemma_sorted_replace(before, i as int, pair.1.deep_view());
                }
                entries[i] = pair;
                assert(entries.deep_view() =~= before.update(
                    i as int,
                    (before[i as int].0, pair.1.deep_view()),
                ));
            },
            Err(p) => {
                insert_at(&mut entries, p, pair.0, pair.1);
            },
        }
        proof {
            done@ = done@ + 1;
        }
    }
    proof {
        assert(all.take(all.len() as int) =~= all);
    }
    entries
}

} // verus!
