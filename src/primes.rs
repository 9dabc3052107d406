//! Divisor counting, primality, the highly composite classifier, and the
//! enumeration of primes and highly composite numbers up to a bound.
use vstd::prelude::*;

use crate::cache_map::{
    clean, clear, contains_key, holds_exact_counts, init, insert, retrieve, FactorCache,
};
use crate::constants::{
    lemma_known_antiprimes_ascending, KNOWN_ANTIPRIMES, KNOWN_PRIMES, LAST_KNOWN_ANTIPRIME,
};
use crate::divisors::{
    divisor_count, divisor_of, divisors, divisors_upto, highly_composite_above, is_highly_composite,
    is_prime_number, lemma_divides_transitive, lemma_filter_keeps_all,
    lemma_highly_composite_sequence, lemma_next_multiple, lemma_no_divisor_between,
    lemma_no_divisor_in_upper_half, lemma_numbers_upto, lemma_numbers_upto_skip,
    lemma_prime_iff_no_proper_divisor, lemma_prime_iff_no_small_divisor, lemma_small_counts,
    lemma_trivial_divisors, no_divisor_between, primes_upto, strictly_increasing,
};

verus! {

/// Why a divisor count could not be given.
#[derive(Debug, Clone, Copy, PartialEq, Eq, Structural)]
pub enum DivisorError {
    /// Every number divides 0, so it has no finite divisor count.
    InvalidInput,
}

/// Every entry of the prime table is prime, with divisors `[1, p]`.
pub proof fn lemma_known_primes_are_prime()
    ensures
        forall|i: int|
            0 <= i < KNOWN_PRIMES@.len() ==> {
                &&& is_prime_number(#[trigger] KNOWN_PRIMES@[i])
                &&& divisors(KNOWN_PRIMES@[i]) == seq![1u64, KNOWN_PRIMES@[i]]
            },
{
    reveal_with_fuel(no_divisor_between, 23);
    assert(no_divisor_between(2, 2, 1));
    assert(no_divisor_between(3, 2, 1));
    assert(no_divisor_between(5, 2, 2));
    assert(no_divisor_between(7, 2, 3));
    assert(no_divisor_between(11, 2, 5));
    assert(no_divisor_between(13, 2, 6));
    assert(no_divisor_between(17, 2, 8));
    assert(no_divisor_between(19, 2, 9));
    assert(no_divisor_between(23, 2, 11));
    assert(no_divisor_between(29, 2, 14));
    assert(no_divisor_between(31, 2, 15));
    assert(no_divisor_between(37, 2, 18));
    assert(no_divisor_between(41, 2, 20));
    assert(no_divisor_between(43, 2, 21));
    assert(no_divisor_between(47, 2, 23));
    assert forall|i: int| 0 <= i < KNOWN_PRIMES@.len() implies {
        &&& is_prime_number(#[trigger] KNOWN_PRIMES@[i])
        &&& divisors(KNOWN_PRIMES@[i]) == seq![1u64, KNOWN_PRIMES@[i]]
    } by {
        let p = KNOWN_PRIMES@[i];
        lemma_no_divisor_between(p, 2, p / 2);
        lemma_prime_iff_no_small_divisor(p);
    }
}

/// Whether `x` occurs in `table`.
fn table_contains(table: &[u64], x: u64) -> (r: bool)
    ensures
        r == table@.contains(x),
{
    let mut i: usize = 0;
    while i < table.len()
        invariant
            i <= table@.len(),
            forall|j: int| 0 <= j < i ==> table@[j] != x,
        decreases table@.len() - i,
    {
        if table[i] == x {
            return true;
        }
        i = i + 1;
    }
    false
}

/// The number of divisors of `num`, counted without listing them.
/// Fails with `InvalidInput` on 0.
pub fn count_factors(num: u64) -> (r: Result<u64, DivisorError>)
    ensures
        r is Ok <==> num >= 1,
        r matches Ok(c) ==> c == divisor_count(num),
        r matches Err(e) ==> e == DivisorError::InvalidInput,
{
    if num == 0 {
        return Err(DivisorError::InvalidInput);
    }
    if num == 1 {
        proof {
            lemma_small_counts();
        }
        return Ok(1);
    }
    proof {
        lemma_trivial_divisors(num);
        lemma_prime_iff_no_small_divisor(num);
    }
    // 1 and `num` itself; the loop adds the divisors in between.
    let mut factors: u64 = 2;
    let mut divisor: u64 = 2;
    let half = num / 2;
    while divisor <= half
        invariant
            2 <= divisor <= half + 1,
            half == num / 2,
            factors == divisors_upto(num, (divisor - 1) as u64).len() + 1,
        decreases half + 1 - divisor,
    {
        proof {
            lemma_numbers_upto((divisor - 1) as u64, divisor_of(num));
        }
        if num % divisor == 0 {
            factors = factors + 1;
        }
        divisor = divisor + 1;
    }
    Ok(factors)
}

/// Whether `num` is prime, with the ascending list of its divisors.
/// Numbers in the prime table are answered without a scan.
pub fn check_if_prime(num: u64) -> (r: (bool, Vec<u64>))
    requires
        num >= 1,
    ensures
        r.1@ == divisors(num),
        r.0 == is_prime_number(num),
        num >= 2 ==> (r.1@ == seq![1u64, num] <==> forall|d: u64|
            2 <= d <= num / 2 ==> !#[trigger] divisor_of(num)(d)),
{
    if num == 1 {
        proof {
            lemma_small_counts();
        }
        return (false, vec![1]);
    }
    proof {
        lemma_trivial_divisors(num);
        lemma_prime_iff_no_small_divisor(num);
    }
    if table_contains(&KNOWN_PRIMES, num) {
        proof {
            lemma_known_primes_are_prime();
        }
        return (true, vec![1, num]);
    }
    let mut factors: Vec<u64> = vec![1];
    let mut divisor: u64 = 2;
    let half = num / 2;
    while divisor <= half
        invariant
            2 <= divisor <= half + 1,
            half == num / 2,
            factors@ == divisors_upto(num, (divisor - 1) as u64),
        decreases half + 1 - divisor,
    {
        if num % divisor == 0 {
            factors.push(divisor);
        }
        divisor = divisor + 1;
    }
    factors.push(num);
    let flag = factors.len() == 2;
    (flag, factors)
}


/// Whether `num` is highly composite, with its divisor list. The counts of
/// the smaller numbers come from `cache` where present, and are computed and
/// added to it where not; the cache is emptied afterwards if it has grown
/// past its bound. By convention 0 counts as highly composite, with the list
/// `[0]`.
pub fn check_if_anti_prime_with(num: u64, cache: &mut FactorCache) -> (r: (bool, Vec<u64>))
    requires
        holds_exact_counts(old(cache)@),
    ensures
        holds_exact_counts(final(cache)@),
        num == 0 ==> r.0 && r.1@ == seq![0u64],
        num >= 1 ==> r.0 == is_highly_composite(num) && r.1@ == divisors(num),
{
    if num == 0 {
        return (true, vec![0]);
    }
    proof {
        lemma_small_counts();
    }
    if num == 1 {
        return (true, vec![1]);
    }
    if num == 2 {
        return (true, vec![1, 2]);
    }
    let (prime_check, factors) = check_if_prime(num);
    proof {
        lemma_prime_iff_no_small_divisor(num);
        lemma_numbers_upto(num, divisor_of(num));
    }
    if prime_check {
        // 2 has as many divisors.
        assert(divisor_count(2) >= divisor_count(num));
        return (false, factors);
    }
    let n_factors = factors.len() as u64;
    // Smaller numbers with at least as many divisors as `num`.
    let mut n_previous_highers: u64 = 0;
    let mut item: u64 = 3;
    while item < num
        invariant
            3 <= item <= num,
            holds_exact_counts(cache@),
            n_factors == divisor_count(num),
            n_previous_highers <= item - 3,
            n_previous_highers == 0 <==> forall|m: u64|
                3 <= m < item ==> #[trigger] divisor_count(m) < divisor_count(num),
        decreases num - item,
    {
        let n_previous_factors: u64;
        if !contains_key(cache, &item) {
            n_previous_factors = match count_factors(item) {
                Ok(c) => c,
                Err(_) => {
                    proof {
                        assert(false);
                    }
                    0
                },
            };
            insert(cache, item, n_previous_factors);
        } else {
            n_previous_factors = retrieve(cache, &item);
        }
        if n_previous_factors >= n_factors {
            n_previous_highers = n_previous_highers + 1;
        }
        item = item + 1;
    }
    clean(cache);
    proof {
        // 1 and 2 have fewer divisors than any number that is not prime.
        assert forall|m: u64| 1 <= m < 3 implies #[trigger] divisor_count(m) < divisor_count(
            num,
        ) by {
            if m == 2 {
                assert(divisor_count(2) == 2);
            }
        }
    }
    (n_previous_highers == 0, factors)
}

/// Whether `num` is highly composite, with its divisor list, on a cache of
/// its own. By convention 0 counts as highly composite, with the list `[0]`.
pub fn check_if_anti_prime(num: u64) -> (r: (bool, Vec<u64>))
    ensures
        num == 0 ==> r.0 && r.1@ == seq![0u64],
        num >= 1 ==> r.0 == is_highly_composite(num) && r.1@ == divisors(num),
{
    let mut cache = FactorCache::new();
    check_if_anti_prime_with(num, &mut cache)
}


/// Some number in `2..i`, other than `x` itself, divides `x`.
spec fn has_proper_divisor_below(x: u64, i: u64) -> bool {
    exists|d: u64| 2 <= d < i && d < x && #[trigger] divisor_of(x)(d)
}

/// Crossing off the multiples of `i` from `2 * i` on turns "no proper
/// divisor below `i`" into "no proper divisor below `i + 1`"; when `i` itself
/// has a proper divisor, there is nothing new to cross off.
proof fn lemma_sieve_step(x: u64, i: u64)
    requires
        2 <= i < u64::MAX,
        2 <= x,
    ensures
        has_proper_divisor_below(x, (i + 1) as u64) <==> has_proper_divisor_below(x, i) || (i + i
            <= x && x % i == 0),
        has_proper_divisor_below(i, i) && i + i <= x && x % i == 0 ==> has_proper_divisor_below(
            x,
            i,
        ),
{
    if i < x && x < i + i {
        lemma_no_divisor_in_upper_half(x, i);
    }
    if has_proper_divisor_below(x, i) {
        let d = choose|d: u64| 2 <= d < i && d < x && #[trigger] divisor_of(x)(d);
        assert(2 <= d < i + 1 && d < x && divisor_of(x)(d));
    }
    if has_proper_divisor_below(x, (i + 1) as u64) && !has_proper_divisor_below(x, i) {
        let d = choose|d: u64| 2 <= d < i + 1 && d < x && #[trigger] divisor_of(x)(d);
        assert(d == i);
    }
    if i + i <= x && x % i == 0 {
        assert(divisor_of(x)(i));
    }
    if has_proper_divisor_below(i, i) && i + i <= x && x % i == 0 {
        let d = choose|d: u64| 2 <= d < i && d < i && #[trigger] divisor_of(i)(d);
        assert(divisor_of(x)(i));
        lemma_divides_transitive(d, i, x);
    }
}

/// The primes up to `num`, ascending, found by crossing off the multiples
/// of each prime in turn.
pub fn find_primes_till(num: u64) -> (r: Vec<u64>)
    requires
        num < usize::MAX,
    ensures
        r@ == primes_upto(num),
{
    proof {
        lemma_small_counts();
    }
    if num < 2 {
        assert(primes_upto(1) == primes_upto(0));
        return Vec::new();
    }
    let n = num as usize;
    let mut checked_primes: Vec<bool> = vec![true; n + 1];
    let mut i: usize = 2;
    while i <= n
        invariant
            2 <= i <= n + 1,
            n == num,
            n < usize::MAX,
            checked_primes@.len() == n + 1,
            forall|x: int|
                2 <= x <= n ==> #[trigger] checked_primes@[x] == !has_proper_divisor_below(
                    x as u64,
                    i as u64,
                ),
        decreases n + 1 - i,
    {
        let ghost before = checked_primes@;
        if checked_primes[i] && i <= n / 2 {
            proof {
                vstd::arithmetic::div_mod::lemma_fundamental_div_mod_converse(i as int, i as int, 1, 0);
                lemma_next_multiple(i as int, i as int);
            }
            let mut j: usize = i + i;
            while j <= n
                invariant
                    2 <= i <= n / 2,
                    i + i <= j <= n + 1,
                    n < usize::MAX,
                    j <= n ==> j % i == 0,
                    checked_primes@.len() == n + 1,
                    forall|x: int|
                        2 <= x <= n ==> #[trigger] checked_primes@[x] == (before[x] && !(i + i <= x
                            < j && x % (i as int) == 0)),
                decreases n + 1 - j,
            {
                checked_primes.set(j, false);
                proof {
                    lemma_next_multiple(j as int, i as int);
                }
                if j > n - i {
                    j = n + 1;
                } else {
                    j = j + i;
                }
            }
        }
        proof {
            assert forall|x: int| 2 <= x <= n implies #[trigger] checked_primes@[x]
                == !has_proper_divisor_below(x as u64, (i + 1) as u64) by {
                lemma_sieve_step(x as u64, i as u64);
                if i + i <= x && x % (i as int) == 0 && i > n / 2 {
                    assert(false);
                }
            }
        }
        i = i + 1;
    }
    let mut results: Vec<u64> = Vec::new();
    let mut x: usize = 2;
    assert(primes_upto(1) == primes_upto(0));
    while x <= n
        invariant
            2 <= x <= n + 1,
            n == num,
            n < usize::MAX,
            checked_primes@.len() == n + 1,
            forall|y: int|
                2 <= y <= n ==> #[trigger] checked_primes@[y] == !has_proper_divisor_below(
                    y as u64,
                    (n + 1) as u64,
                ),
            results@ == primes_upto((x - 1) as u64),
        decreases n + 1 - x,
    {
        proof {
            lemma_prime_iff_no_proper_divisor(x as u64);
            assert(checked_primes@[x as int] == is_prime_number(x as u64));
        }
        if checked_primes[x] {
            results.push(x as u64);
        }
        x = x + 1;
    }
    results
}


/// The highly composite numbers up to `num`, ascending. Up to the last
/// entry of the highly composite table the answer is read from the table;
/// beyond it, every number past the table that is not prime is classified,
/// on one cache for the whole sweep.
pub fn find_anti_primes_till(num: u64) -> (r: Vec<u64>)
    requires
        num < usize::MAX,
    ensures
        num <= LAST_KNOWN_ANTIPRIME ==> r@ == KNOWN_ANTIPRIMES@.filter(|x: u64| x <= num),
        num > LAST_KNOWN_ANTIPRIME ==> r@ == KNOWN_ANTIPRIMES@ + highly_composite_above(
            LAST_KNOWN_ANTIPRIME,
            num,
        ),
        strictly_increasing(r@),
{
    let knowns = KNOWN_ANTIPRIMES;
    let ghost keep = |x: u64| x <= num;
    let mut anti_primes: Vec<u64> = Vec::new();
    let mut i: usize = 0;
    proof {
        lemma_known_antiprimes_ascending();
        reveal(Seq::filter);
    }
    while i < knowns.len()
        invariant
            knowns@ == KNOWN_ANTIPRIMES@,
            strictly_increasing(knowns@),
            i <= knowns@.len(),
            forall|x: u64| #[trigger] keep(x) == (x <= num),
            anti_primes@ == knowns@.take(i as int).filter(keep),
            strictly_increasing(anti_primes@),
            anti_primes@.len() > 0 ==> i > 0 && anti_primes@.last() <= knowns@[i - 1],
        decreases knowns@.len() - i,
    {
        proof {
            reveal(Seq::filter);
            assert(knowns@.take(i + 1).drop_last() == knowns@.take(i as int));
            assert(knowns@.take(i + 1).last() == knowns@[i as int]);
            assert(keep(knowns@[i as int]) == (knowns@[i as int] <= num));
        }
        if knowns[i] <= num {
            anti_primes.push(knowns[i]);
        }
        i = i + 1;
    }
    assert(knowns@.take(knowns@.len() as int) == knowns@);
    let last = knowns[knowns.len() - 1];
    if num <= last {
        return anti_primes;
    }
    proof {
        lemma_filter_keeps_all(knowns@, keep);
        lemma_highly_composite_sequence(LAST_KNOWN_ANTIPRIME, num);
    }
    let known_primes = find_primes_till(num);
    proof {
        lemma_numbers_upto(num, |p: u64| is_prime_number(p));
        lemma_small_counts();
    }
    proof {
        let above = |m: u64| last < m && is_highly_composite(m);
        lemma_numbers_upto_skip(0, last, above);
        assert(anti_primes@ == KNOWN_ANTIPRIMES@ + highly_composite_above(last, last));
    }
    let mut cache = FactorCache::new();
    init(&mut cache);
    let mut item: u64 = last + 1;
    while item <= num
        invariant
            last == LAST_KNOWN_ANTIPRIME,
            last < item <= num + 1,
            num < usize::MAX,
            known_primes@ == primes_upto(num),
            forall|p: u64| #[trigger]
                known_primes@.contains(p) <==> 1 <= p <= num && is_prime_number(p),
            divisor_count(2) == 2,
            holds_exact_counts(cache@),
            anti_primes@ == KNOWN_ANTIPRIMES@ + highly_composite_above(last, (item - 1) as u64),
        decreases num + 1 - item,
    {
        if !table_contains(known_primes.as_slice(), item) {
            let (result, _) = check_if_anti_prime_with(item, &mut cache);
            if result {
                anti_primes.push(item);
            }
        } else {
            // A prime past 2 has no more divisors than 2.
            assert(!is_highly_composite(item) && divisor_count(2) == divisor_count(item));
        }
        assert(anti_primes@ == KNOWN_ANTIPRIMES@ + highly_composite_above(last, item));
        item = item + 1;
    }
    clear(&mut cache);
    proof {
        let s = anti_primes@;
        let tail = highly_composite_above(last, num);
        lemma_numbers_upto(num, |m: u64| last < m && is_highly_composite(m));
        assert forall|a: int, b: int| 0 <= a < b < s.len() implies s[a] < s[b] by {
            if b >= knowns@.len() && a < knowns@.len() {
                assert(tail.contains(s[b]));
            }
        }
    }
    anti_primes
}

} // verus!
