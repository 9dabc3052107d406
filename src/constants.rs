//! Fixed reference tables: the smallest primes and the smallest highly
//! composite numbers, used to answer small inputs without computing.
use vstd::prelude::*;

use crate::divisors::strictly_increasing;

verus! {

/// A one-line description of the library.
pub const DESCRIPTION: &'static str =
    "Rust library crate to hold simple functions to check the prime-ness of a given unsigned, 64-bit integer.";

/// The primes up to 47, ascending.
pub const KNOWN_PRIMES: [u64; 15] = [2, 3, 5, 7, 11, 13, 17, 19, 23, 29, 31, 37, 41, 43, 47];

/// The highly composite numbers up to 10080, ascending.
pub const KNOWN_ANTIPRIMES: [u64; 21] = [
    1,
    2,
    4,
    6,
    12,
    24,
    36,
    48,
    60,
    120,
    180,
    240,
    360,
    720,
    840,
    1_260,
    1_680,
    2_520,
    5_040,
    7_560,
    10_080,
];

/// The largest entry of the highly composite table.
pub const LAST_KNOWN_ANTIPRIME: u64 = 10_080;

/// The cache is emptied once it holds more entries than this.
pub const MAX_TABLE_SIZE: usize = 100_000_000;

/// Each entry of `s` is smaller than the next; spelled out pair by pair.
spec fn ascending_pairs(s: Seq<u64>) -> bool
    decreases s.len(),
{
    s.len() < 2 || (s[0] < s[1] && ascending_pairs(s.drop_first()))
}

proof fn lemma_ascending_pairs(s: Seq<u64>)
    requires
        ascending_pairs(s),
    ensures
        strictly_increasing(s),
    decreases s.len(),
{
    if s.len() >= 2 {
        let t = s.drop_first();
        lemma_ascending_pairs(t);
        assert forall|i: int, j: int| 0 <= i < j < s.len() implies s[i] < s[j] by {
            if i > 0 {
                assert(s[i] == t[i - 1] && s[j] == t[j - 1]);
            } else if j > 1 {
                assert(s[1] == t[0] && s[j] == t[j - 1]);
            }
        }
    }
}

/// The highly composite table is ascending and ends at `LAST_KNOWN_ANTIPRIME`.
pub proof fn lemma_known_antiprimes_ascending()
    ensures
        strictly_increasing(KNOWN_ANTIPRIMES@),
        KNOWN_ANTIPRIMES@.len() == 21,
        KNOWN_ANTIPRIMES@.last() == LAST_KNOWN_ANTIPRIME,
        forall|i: int|
            0 <= i < KNOWN_ANTIPRIMES@.len() ==> #[trigger] KNOWN_ANTIPRIMES@[i]
                <= LAST_KNOWN_ANTIPRIME,
{
    reveal_with_fuel(ascending_pairs, 21);
    assert(ascending_pairs(KNOWN_ANTIPRIMES@));
    lemma_ascending_pairs(KNOWN_ANTIPRIMES@);
}

} // verus!
