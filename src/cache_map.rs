//! A memo of divisor counts, shared across one sweep of the classifier.
//!
//! The cache is an owned value: shared borrows (`&FactorCache`) read it
//! together, and a write takes the one exclusive borrow (`&mut FactorCache`),
//! so reads and writes never overlap. Every entry it holds is the exact
//! divisor count of its key (each operation that writes requires and keeps
//! `holds_exact_counts`); an entry that is evicted is simply computed
//! again when next needed.
use std::collections::HashMap;
use vstd::prelude::*;
use vstd::std_specs::hash::spec_keys_iter;
use vstd::std_specs::iter::IteratorSpec;

use crate::constants::MAX_TABLE_SIZE;
use crate::divisors::{divisor_count, lemma_prime_iff_no_small_divisor, lemma_small_counts};

verus! {

/// Every entry of `m` is the exact divisor count of its key.
pub open spec fn holds_exact_counts(m: Map<u64, u64>) -> bool {
    forall|k: u64| #[trigger] m.contains_key(k) ==> k >= 1 && m[k] == divisor_count(k)
}

/// Divisor counts already computed, keyed by number.
pub struct FactorCache {
    table: HashMap<u64, u64>,
}

impl View for FactorCache {
    type V = Map<u64, u64>;

    closed spec fn view(&self) -> Map<u64, u64> {
        self.table@
    }
}

impl FactorCache {
    /// An empty cache.
    pub fn new() -> (cache: FactorCache)
        ensures
            cache@ == Map::<u64, u64>::empty(),
            holds_exact_counts(cache@),
    {
        FactorCache { table: HashMap::new() }
    }
}

/// Empties the cache, then seeds it with the counts of 1, 2 and 3.
pub fn init(cache: &mut FactorCache)
    ensures
        final(cache)@ == map![1u64 => 1u64, 2u64 => 2u64, 3u64 => 2u64],
        holds_exact_counts(final(cache)@),
{
    proof {
        lemma_small_counts();
        lemma_prime_iff_no_small_divisor(3);
        assert(divisor_count(3) == 2);
    }
    cache.table.clear();
    cache.table.insert(1, 1);
    cache.table.insert(2, 2);
    cache.table.insert(3, 2);
}

/// The numbers that have a count in the cache, each once, in no set order.
pub fn keys(cache: &FactorCache) -> (r: Vec<u64>)
    ensures
        r@.no_duplicates(),
        r@.to_set() == cache@.dom(),
{
    let mut r: Vec<u64> = Vec::new();
    for k in it: cache.table.keys()
        invariant
            r@ == it.seq().unref().take(it.index()),
            it.seq() == spec_keys_iter(&cache.table).remaining(),
    {
        r.push(*k);
    }
    assert(r@ == spec_keys_iter(&cache.table).remaining().unref());
    r
}

/// Records `value` as the divisor count of `key`, replacing any earlier entry.
pub fn insert(cache: &mut FactorCache, key: u64, value: u64)
    requires
        holds_exact_counts(old(cache)@),
        key >= 1,
        value == divisor_count(key),
    ensures
        final(cache)@ == old(cache)@.insert(key, value),
        holds_exact_counts(final(cache)@),
{
    cache.table.insert(key, value);
}

/// The cached divisor count of `key`, which must be present.
pub fn retrieve(cache: &FactorCache, key: &u64) -> (r: u64)
    requires
        holds_exact_counts(cache@),
        cache@.contains_key(*key),
    ensures
        r == cache@[*key],
        r == divisor_count(*key),
{
    *cache.table.get(key).unwrap()
}

/// Whether `key` has a count in the cache.
pub fn contains_key(cache: &FactorCache, key: &u64) -> (r: bool)
    ensures
        r == cache@.contains_key(*key),
{
    cache.table.contains_key(key)
}

/// Removes every entry.
pub fn clear(cache: &mut FactorCache)
    ensures
        final(cache)@ == Map::<u64, u64>::empty(),
        holds_exact_counts(final(cache)@),
{
    cache.table.clear();
}

/// The number of entries.
pub fn get_size(cache: &FactorCache) -> (r: usize)
    ensures
        r == cache@.len(),
{
    cache.table.len()
}

/// Empties the cache once it holds more than `MAX_TABLE_SIZE` entries;
/// otherwise leaves it as it is.
pub fn clean(cache: &mut FactorCache)
    requires
        holds_exact_counts(old(cache)@),
    ensures
        old(cache)@.len() > MAX_TABLE_SIZE ==> final(cache)@ == Map::<u64, u64>::empty(),
        old(cache)@.len() <= MAX_TABLE_SIZE ==> final(cache)@ == old(cache)@,
        holds_exact_counts(final(cache)@),
{
    if get_size(cache) > MAX_TABLE_SIZE {
        clear(cache);
    }
}

} // verus!
