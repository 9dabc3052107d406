//! Classifies natural numbers by their divisors: primality, divisor lists,
//! highly composite numbers (anti-primes), and enumeration of primes and of
//! highly composite numbers up to a bound.
//!
//! `divisors` holds the mathematical model that every contract is stated in;
//! `primes` the algorithms; `cache_map` the memo of divisor counts that one
//! sweep of the classifier shares; `constants` the reference tables.
use vstd::prelude::*;

pub mod cache_map;
pub mod constants;
pub mod divisors;
pub mod primes;
pub mod utils;

use crate::constants::{KNOWN_ANTIPRIMES, LAST_KNOWN_ANTIPRIME};
use crate::divisors::{
    divisor_of, divisors, highly_composite_above, is_highly_composite, is_prime_number,
    primes_upto, strictly_increasing,
};

verus! {

/// Whether `num` is prime, with the ascending list of its divisors.
/// 0 has no divisor list and is not accepted.
pub fn is_prime(num: u64) -> (r: (bool, Vec<u64>))
    requires
        num >= 1,
    ensures
        r.1@ == divisors(num),
        r.0 == is_prime_number(num),
        num >= 2 ==> (r.1@ == seq![1u64, num] <==> forall|d: u64|
            2 <= d <= num / 2 ==> !#[trigger] divisor_of(num)(d)),
{
    primes::check_if_prime(num)
}

/// Whether `num` is highly composite, with the ascending list of its
/// divisors. By convention 0 counts as highly composite, with the list `[0]`.
pub fn is_hcn(num: u64) -> (r: (bool, Vec<u64>))
    ensures
        num == 0 ==> r.0 && r.1@ == seq![0u64],
        num >= 1 ==> r.0 == is_highly_composite(num) && r.1@ == divisors(num),
{
    primes::check_if_anti_prime(num)
}

/// The highly composite numbers up to `num`, ascending.
pub fn get_hcn(num: u64) -> (r: Vec<u64>)
    requires
        num < usize::MAX,
    ensures
        num <= LAST_KNOWN_ANTIPRIME ==> r@ == KNOWN_ANTIPRIMES@.filter(|x: u64| x <= num),
        num > LAST_KNOWN_ANTIPRIME ==> r@ == KNOWN_ANTIPRIMES@ + highly_composite_above(
            LAST_KNOWN_ANTIPRIME,
            num,
        ),
        strictly_increasing(r@),
{
    primes::find_anti_primes_till(num)
}

/// The primes up to `num`, ascending.
pub fn get_primes(num: u64) -> (r: Vec<u64>)
    requires
        num < usize::MAX,
    ensures
        r@ == primes_upto(num),
{
    primes::find_primes_till(num)
}

} // verus!
