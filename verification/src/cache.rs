//! The result cache: a bounded least-recently-used store from memo
//! identities to their most recently produced values.
//!
//! The store itself is `lru::LruCache`; this module declares it to the
//! verifier, names its contents (`cache_entries`, most recently used
//! first) and its bound (`cache_cap`), and wraps the operations the
//! engine uses with contracts that say what the crate's source shows:
//! `get` promotes a hit to the front, `put` inserts at the front and
//! evicts the least recently used entry when full, `pop` removes.

use vstd::prelude::*;

use crate::value::{ValV, Value, clone_value};

verus! {

#[verifier::external_type_specification]
#[verifier::external_body]
#[verifier::reject_recursive_types(K)]
#[verifier::reject_recursive_types(V)]
#[verifier::reject_recursive_types(S)]
pub struct ExLruCache<K, V, S>(lru::LruCache<K, V, S>);

/// The entries of the cache, most recently used first, as pairs of key
/// and value view.
pub uninterp spec fn cache_entries(c: lru::LruCache<usize, Value>) -> Seq<(usize, ValV)>;

/// The fixed bound the cache was created with.
pub uninterp spec fn cache_cap(c: lru::LruCache<usize, Value>) -> nat;

/// The value stored under a key: the first entry with that key, scanning
/// from the most recently used end.
pub open spec fn entries_lookup(es: Seq<(usize, ValV)>, k: usize) -> Option<ValV>
    decreases es.len(),
{
    if es.len() == 0 {
        None
    } else if es[0].0 == k {
        Some(es[0].1)
    } else {
        entries_lookup(es.drop_first(), k)
    }
}

/// The entries with every entry under `k` removed, order kept.
pub open spec fn entries_remove(es: Seq<(usize, ValV)>, k: usize) -> Seq<(usize, ValV)>
    decreases es.len(),
{
    if es.len() == 0 {
        Seq::empty()
    } else if es[0].0 == k {
        entries_remove(es.drop_first(), k)
    } else {
        seq![es[0]] + entries_remove(es.drop_first(), k)
    }
}

/// The entries after a hit on `k`: the entry moves to the front.
pub open spec fn entries_promote(es: Seq<(usize, ValV)>, k: usize) -> Seq<(usize, ValV)> {
    match entries_lookup(es, k) {
        Some(v) => seq![(k, v)] + entries_remove(es, k),
        None => es,
    }
}

/// The entries after storing `v` under `k`: an existing entry is updated
/// and moved to the front; otherwise the pair is inserted at the front,
/// evicting the least recently used entry when the cache is full.
pub open spec fn entries_put(es: Seq<(usize, ValV)>, k: usize, v: ValV, cap: nat) -> Seq<
    (usize, ValV),
> {
    if entries_lookup(es, k) is Some {
        seq![(k, v)] + entries_remove(es, k)
    } else if es.len() >= cap {
        seq![(k, v)] + es.drop_last()
    } else {
        seq![(k, v)] + es
    }
}

/// Relies on lru::LruCache::new: a fresh cache is empty and later holds at
/// most `cap` entries.
#[verifier::external_body]
pub(crate) fn cache_new(cap: usize) -> (c: lru::LruCache<usize, Value>)
    requires
        1 <= cap,
    ensures
        cache_entries(c) == Seq::<(usize, ValV)>::empty(),
        cache_cap(c) == cap as nat,
{
    lru::LruCache::new(std::num::NonZeroUsize::new(cap).unwrap())
}

/// Relies on lru::LruCache::get: a hit returns the stored value and moves
/// the entry to the most-recently-used position; a miss changes nothing.
#[verifier::external_body]
pub(crate) fn cache_get(c: &mut lru::LruCache<usize, Value>, k: usize) -> (r: Option<Value>)
    ensures
        cache_cap(*final(c)) == cache_cap(*old(c)),
        cache_entries(*final(c)) == entries_promote(cache_entries(*old(c)), k),
        match entries_lookup(cache_entries(*old(c)), k) {
            Some(v) => r matches Some(rv) && rv@ == v,
            None => r matches None,
        },
{
    match c.get(&k) {
        Some(v) => Some(clone_value(v)),
        None => None,
    }
}

/// Relies on lru::LruCache::put: stores the value under the key, evicting
/// the least recently used entry when a new key does not fit.
#[verifier::external_body]
pub(crate) fn cache_put(c: &mut lru::LruCache<usize, Value>, k: usize, v: Value)
    ensures
        cache_cap(*final(c)) == cache_cap(*old(c)),
        cache_entries(*final(c)) == entries_put(
            cache_entries(*old(c)),
            k,
            v@,
            cache_cap(*old(c)),
        ),
{
    let _ = c.put(k, v);
}

/// Relies on lru::LruCache::pop: removes the entry under the key and says
/// whether one was there.
#[verifier::external_body]
pub(crate) fn cache_pop(c: &mut lru::LruCache<usize, Value>, k: usize) -> (r: bool)
    ensures
        cache_cap(*final(c)) == cache_cap(*old(c)),
        cache_entries(*final(c)) == entries_remove(cache_entries(*old(c)), k),
        r == (entries_lookup(cache_entries(*old(c)), k) is Some),
{
    c.pop(&k).is_some()
}

/// Relies on lru::LruCache::contains: a sole membership test, promoting
/// nothing.
#[verifier::external_body]
pub(crate) fn cache_contains(c: &lru::LruCache<usize, Value>, k: usize) -> (r: bool)
    ensures
        r == (entries_lookup(cache_entries(*c), k) is Some),
{
    c.contains(&k)
}

/// Relies on lru::LruCache::len: the number of entries.
#[verifier::external_body]
pub(crate) fn cache_len(c: &lru::LruCache<usize, Value>) -> (r: usize)
    ensures
        r == cache_entries(*c).len(),
{
    c.len()
}

/// Removing a key removes at most everything and never grows the entries.
pub proof fn lemma_remove_len(es: Seq<(usize, ValV)>, k: usize)
    ensures
        entries_remove(es, k).len() <= es.len(),
        entries_lookup(es, k) is Some ==> entries_remove(es, k).len() < es.len(),
    decreases es.len(),
{
    if es.len() > 0 {
        lemma_remove_len(es.drop_first(), k);
    }
}

/// After removing a key it can no longer be looked up.
pub proof fn lemma_lookup_remove_same(es: Seq<(usize, ValV)>, k: usize)
    ensures
        entries_lookup(entries_remove(es, k), k) is None,
    decreases es.len(),
{
    if es.len() > 0 {
        lemma_lookup_remove_same(es.drop_first(), k);
        if es[0].0 != k {
            let rest = entries_remove(es.drop_first(), k);
            assert((seq![es[0]] + rest).drop_first() =~= rest);
        }
    }
}

/// Removing one key leaves every other key's lookup unchanged.
pub proof fn lemma_lookup_remove_other(es: Seq<(usize, ValV)>, k: usize, k2: usize)
    requires
        k2 != k,
    ensures
        entries_lookup(entries_remove(es, k), k2) == entries_lookup(es, k2),
    decreases es.len(),
{
    if es.len() > 0 {
        lemma_lookup_remove_other(es.drop_first(), k, k2);
        if es[0].0 != k {
            let rest = entries_remove(es.drop_first(), k);
            assert((seq![es[0]] + rest).drop_first() =~= rest);
        }
    }
}

/// Every key present after a removal was present before.
pub proof fn lemma_remove_keys(es: Seq<(usize, ValV)>, k: usize, i: int)
    requires
        0 <= i < entries_remove(es, k).len(),
    ensures
        exists|j: int|
            0 <= j < es.len() && es[j] == entries_remove(es, k)[i],
    decreases es.len(),
{
    if es.len() > 0 {
        if es[0].0 == k {
            lemma_remove_keys(es.drop_first(), k, i);
            let e = entries_remove(es, k)[i];
            let j = choose|j: int| 0 <= j < es.drop_first().len() && es.drop_first()[j] == e;
            assert(es[j + 1] == e);
        } else {
            if i == 0 {
                assert(es[0] == entries_remove(es, k)[0]);
            } else {
                let rest = entries_remove(es.drop_first(), k);
                assert((seq![es[0]] + rest)[i] == rest[i - 1]);
                lemma_remove_keys(es.drop_first(), k, i - 1);
                let e = rest[i - 1];
                let j = choose|j: int| 0 <= j < es.drop_first().len() && es.drop_first()[j] == e;
                assert(es[j + 1] == e);
            }
        }
    }
}

/// All keys below a bound stay below it under removal, promotion and
/// storing a key below the bound.
pub open spec fn entries_keys_below(es: Seq<(usize, ValV)>, n: nat) -> bool {
    forall|i: int| 0 <= i < es.len() ==> (#[trigger] es[i]).0 < n
}

pub proof fn lemma_remove_keys_below(es: Seq<(usize, ValV)>, k: usize, n: nat)
    requires
        entries_keys_below(es, n),
    ensures
        entries_keys_below(entries_remove(es, k), n),
{
    assert forall|i: int| 0 <= i < entries_remove(es, k).len() implies (#[trigger] entries_remove(
        es,
        k,
    )[i]).0 < n by {
        lemma_remove_keys(es, k, i);
    }
}

/// A lookup that succeeds finds a key that is in the entries.
pub proof fn lemma_lookup_in_keys(es: Seq<(usize, ValV)>, k: usize)
    requires
        entries_lookup(es, k) is Some,
    ensures
        exists|i: int| 0 <= i < es.len() && (#[trigger] es[i]).0 == k,
    decreases es.len(),
{
    if es.len() > 0 {
        if es[0].0 == k {
        } else {
            lemma_lookup_in_keys(es.drop_first(), k);
            let i = choose|i: int|
                0 <= i < es.drop_first().len() && (#[trigger] es.drop_first()[i]).0 == k;
            assert(es[i + 1].0 == k);
        }
    }
}

} // verus!
