//! The mathematical model: divisor lists, divisor counts, primes and
//! highly composite numbers, with the facts about them that the
//! executable code relies on.
use vstd::prelude::*;

verus! {

/// The numbers `x` in `1..=k` with `pred(x)`, in ascending order.
pub open spec fn numbers_upto(k: u64, pred: spec_fn(u64) -> bool) -> Seq<u64>
    decreases k,
{
    if k == 0 {
        Seq::empty()
    } else if pred(k) {
        numbers_upto((k - 1) as u64, pred).push(k)
    } else {
        numbers_upto((k - 1) as u64, pred)
    }
}

/// Every element of `s` is smaller than every element after it.
pub open spec fn strictly_increasing(s: Seq<u64>) -> bool {
    forall|i: int, j: int| 0 <= i < j < s.len() ==> s[i] < s[j]
}

/// What `numbers_upto` holds: exactly the matching numbers of `1..=k`,
/// ascending, and no more of them than `k`.
pub proof fn lemma_numbers_upto(k: u64, pred: spec_fn(u64) -> bool)
    ensures
        forall|x: u64| #[trigger] numbers_upto(k, pred).contains(x) <==> 1 <= x <= k && pred(x),
        strictly_increasing(numbers_upto(k, pred)),
        forall|i: int| 0 <= i < numbers_upto(k, pred).len() ==> 1 <= #[trigger] numbers_upto(k, pred)[i] <= k,
        numbers_upto(k, pred).len() <= k,
    decreases k,
{
    if k > 0 {
        let prev = numbers_upto((k - 1) as u64, pred);
        lemma_numbers_upto((k - 1) as u64, pred);
        if pred(k) {
            let s = prev.push(k);
            assert forall|x: u64| #[trigger] s.contains(x) <==> 1 <= x <= k && pred(x) by {
                if x == k {
                    assert(s[s.len() - 1] == k);
                } else {
                    if s.contains(x) {
                        let i = choose|i: int| 0 <= i < s.len() && s[i] == x;
                        assert(prev[i] == x);
                        assert(prev.contains(x));
                    }
                    if 1 <= x <= k && pred(x) {
                        assert(prev.contains(x));
                        let i = choose|i: int| 0 <= i < prev.len() && prev[i] == x;
                        assert(s[i] == x);
                    }
                }
            }
        }
    }
}


/// Raising the bound past numbers that do not match leaves the list as it is.
pub proof fn lemma_numbers_upto_skip(k1: u64, k2: u64, pred: spec_fn(u64) -> bool)
    requires
        k1 <= k2,
        forall|x: u64| k1 < x <= k2 ==> !#[trigger] pred(x),
    ensures
        numbers_upto(k2, pred) == numbers_upto(k1, pred),
    decreases k2 - k1,
{
    if k2 > k1 {
        lemma_numbers_upto_skip(k1, (k2 - 1) as u64, pred);
    }
}

/// The predicate "is a divisor of `n`".
pub open spec fn divisor_of(n: u64) -> spec_fn(u64) -> bool {
    |d: u64| n % d == 0
}

/// The divisors of `n` that lie in `1..=k`, ascending.
pub open spec fn divisors_upto(n: u64, k: u64) -> Seq<u64> {
    numbers_upto(k, divisor_of(n))
}

/// All divisors of `n`, ascending and without repetition.
pub open spec fn divisors(n: u64) -> Seq<u64> {
    divisors_upto(n, n)
}

/// The number of divisors of `n`.
pub open spec fn divisor_count(n: u64) -> nat {
    divisors(n).len()
}

/// A prime has exactly two divisors, 1 and itself.
pub open spec fn is_prime_number(n: u64) -> bool {
    divisor_count(n) == 2
}

/// A number is highly composite when it has more divisors than every
/// smaller positive number.
pub open spec fn is_highly_composite(n: u64) -> bool {
    forall|m: u64| 1 <= m < n ==> #[trigger] divisor_count(m) < divisor_count(n)
}

/// The primes in `1..=k`, ascending.
pub open spec fn primes_upto(k: u64) -> Seq<u64> {
    numbers_upto(k, |p: u64| is_prime_number(p))
}

/// The highly composite numbers in `lo + 1..=k`, ascending.
pub open spec fn highly_composite_above(lo: u64, k: u64) -> Seq<u64> {
    numbers_upto(k, |m: u64| lo < m && is_highly_composite(m))
}

/// No number in `lo..=hi` divides `n`; spelled out one candidate at a time.
pub open spec fn no_divisor_between(n: u64, lo: u64, hi: u64) -> bool
    decreases hi - lo,
{
    if lo > hi {
        true
    } else {
        n % lo != 0 && (lo == hi || no_divisor_between(n, (lo + 1) as u64, hi))
    }
}

/// What `no_divisor_between` spells out, as one statement.
pub proof fn lemma_no_divisor_between(n: u64, lo: u64, hi: u64)
    requires
        no_divisor_between(n, lo, hi),
    ensures
        forall|d: u64| lo <= d <= hi ==> !#[trigger] divisor_of(n)(d),
    decreases hi - lo,
{
    if lo < hi {
        lemma_no_divisor_between(n, (lo + 1) as u64, hi);
    }
}

/// 1 and `n` divide `n`.
pub proof fn lemma_trivial_divisors(n: u64)
    requires
        n >= 1,
    ensures
        divisor_of(n)(1),
        divisor_of(n)(n),
        divisors_upto(n, 1) == seq![1u64],
{
    vstd::arithmetic::div_mod::lemma_fundamental_div_mod_converse(n as int, 1, n as int, 0);
    vstd::arithmetic::div_mod::lemma_fundamental_div_mod_converse(n as int, n as int, 1, 0);
    assert(divisors_upto(n, 1) == numbers_upto(0, divisor_of(n)).push(1));
}

/// No number strictly between `n / 2` and `n` divides `n`.
pub proof fn lemma_no_divisor_in_upper_half(n: u64, d: u64)
    requires
        n / 2 < d < n,
    ensures
        !divisor_of(n)(d),
{
    vstd::arithmetic::div_mod::lemma_fundamental_div_mod_converse(n as int, d as int, 1, n - d);
}

/// So the divisors of `n` below `n` are those up to `n / 2`.
pub proof fn lemma_no_divisor_above_half(n: u64)
    requires
        n >= 2,
    ensures
        divisors_upto(n, (n - 1) as u64) == divisors_upto(n, n / 2),
{
    assert forall|x: u64| n / 2 < x <= n - 1 implies !#[trigger] divisor_of(n)(x) by {
        lemma_no_divisor_in_upper_half(n, x);
    }
    lemma_numbers_upto_skip(n / 2, (n - 1) as u64, divisor_of(n));
}

/// A divisor of a divisor of `c` divides `c`.
pub proof fn lemma_divides_transitive(a: u64, b: u64, c: u64)
    requires
        a >= 1,
        b >= 1,
        divisor_of(b)(a),
        divisor_of(c)(b),
    ensures
        divisor_of(c)(a),
{
    let p = (b / a) as int;
    let q = (c / b) as int;
    vstd::arithmetic::div_mod::lemma_fundamental_div_mod(b as int, a as int);
    vstd::arithmetic::div_mod::lemma_fundamental_div_mod(c as int, b as int);
    assert(c == a * (p * q)) by (nonlinear_arith)
        requires
            b == a * p,
            c == b * q,
    ;
    assert(c >= 0 && a >= 1 && p * q >= 0) by (nonlinear_arith)
        requires
            c == a * (p * q),
            a >= 1,
            c >= 0,
    ;
    vstd::arithmetic::div_mod::lemma_fundamental_div_mod_converse(c as int, a as int, p * q, 0);
}

/// After a multiple `j` of `i`, the next one is `j + i`.
pub proof fn lemma_next_multiple(j: int, i: int)
    requires
        i >= 1,
        j >= 0,
        j % i == 0,
    ensures
        (j + i) % i == 0,
        forall|x: int| j < x < j + i ==> #[trigger] (x % i) != 0,
{
    let q = j / i;
    vstd::arithmetic::div_mod::lemma_fundamental_div_mod(j, i);
    assert(j + i == (q + 1) * i) by (nonlinear_arith)
        requires
            j == i * q,
    ;
    vstd::arithmetic::div_mod::lemma_fundamental_div_mod_converse(j + i, i, q + 1, 0);
    assert forall|x: int| j < x < j + i implies #[trigger] (x % i) != 0 by {
        assert(x == q * i + (x - j)) by (nonlinear_arith)
            requires
                j == i * q,
        ;
        vstd::arithmetic::div_mod::lemma_fundamental_div_mod_converse(x, i, q, x - j);
    }
}

/// A number `n >= 2` is prime exactly when nothing in `2..n` divides it.
pub proof fn lemma_prime_iff_no_proper_divisor(n: u64)
    requires
        n >= 2,
    ensures
        is_prime_number(n) <==> forall|d: u64| 2 <= d < n ==> !#[trigger] divisor_of(n)(d),
{
    lemma_prime_iff_no_small_divisor(n);
    if forall|d: u64| 2 <= d <= n / 2 ==> !#[trigger] divisor_of(n)(d) {
        assert forall|d: u64| 2 <= d < n implies !#[trigger] divisor_of(n)(d) by {
            if d > n / 2 {
                lemma_no_divisor_in_upper_half(n, d);
            }
        }
    }
}

/// The shape of the divisor list of `n >= 2`: the divisors up to `n / 2`,
/// then `n`; and `n` is prime exactly when nothing in `2..=n / 2` divides it,
/// which is when its divisors are `[1, n]`.
pub proof fn lemma_prime_iff_no_small_divisor(n: u64)
    requires
        n >= 2,
    ensures
        divisors(n) == divisors_upto(n, n / 2).push(n),
        divisor_count(n) >= 2,
        is_prime_number(n) <==> divisors(n) == seq![1u64, n],
        divisors(n) == seq![1u64, n] <==> forall|d: u64| 2 <= d <= n / 2 ==> !#[trigger] divisor_of(n)(d),
{
    let low = divisors_upto(n, n / 2);
    lemma_trivial_divisors(n);
    lemma_no_divisor_above_half(n);
    assert(divisors(n) == divisors_upto(n, (n - 1) as u64).push(n));
    lemma_numbers_upto(n / 2, divisor_of(n));
    assert(low.contains(1));
    if forall|d: u64| 2 <= d <= n / 2 ==> !#[trigger] divisor_of(n)(d) {
        assert forall|x: u64| 1 < x <= n / 2 implies !#[trigger] divisor_of(n)(x) by {}
        lemma_numbers_upto_skip(1, n / 2, divisor_of(n));
        assert(divisors(n) == seq![1u64, n]);
    } else {
        let d = choose|d: u64| 2 <= d <= n / 2 && #[trigger] divisor_of(n)(d);
        assert(divisor_of(n)(d));
        assert(low.contains(d));
        if low.len() <= 1 {
            assert(low[0] == 1);
            assert(low[0] == d);
        }
        assert(divisors(n).len() >= 3);
    }
    if is_prime_number(n) {
        assert(low.len() == 1);
        assert(low[0] == 1);
        assert(low == seq![1u64]);
    }
}

/// 1 has one divisor and 2 has two.
pub proof fn lemma_small_counts()
    ensures
        divisor_count(1) == 1,
        divisor_count(2) == 2,
        divisors(1) == seq![1u64],
        divisors(2) == seq![1u64, 2],
{
    lemma_trivial_divisors(1);
    lemma_prime_iff_no_small_divisor(2);
}

/// The divisor count rises along the highly composite numbers: a highly
/// composite number has more divisors than any smaller positive number, and
/// so more than any highly composite number before it.
pub proof fn lemma_highly_composite_counts_increase(a: u64, b: u64)
    requires
        1 <= a < b,
        is_highly_composite(b),
    ensures
        divisor_count(a) < divisor_count(b),
{
}

/// The highly composite numbers above `lo` and up to `k` ascend, and each
/// has more divisors than every one before it.
pub proof fn lemma_highly_composite_sequence(lo: u64, k: u64)
    ensures
        strictly_increasing(highly_composite_above(lo, k)),
        forall|i: int, j: int|
            0 <= i < j < highly_composite_above(lo, k).len() ==> divisor_count(
                #[trigger] highly_composite_above(lo, k)[i],
            ) < divisor_count(#[trigger] highly_composite_above(lo, k)[j]),
{
    let s = highly_composite_above(lo, k);
    let pred = |m: u64| lo < m && is_highly_composite(m);
    lemma_numbers_upto(k, pred);
    assert forall|i: int, j: int| 0 <= i < j < s.len() implies divisor_count(#[trigger] s[i])
        < divisor_count(#[trigger] s[j]) by {
        assert(s.contains(s[j]));
        assert(pred(s[j]));
        lemma_highly_composite_counts_increase(s[i], s[j]);
    }
}

/// Keeping the elements that all pass `pred` keeps the whole sequence.
pub proof fn lemma_filter_keeps_all(s: Seq<u64>, pred: spec_fn(u64) -> bool)
    requires
        forall|i: int| 0 <= i < s.len() ==> pred(#[trigger] s[i]),
    ensures
        s.filter(pred) == s,
    decreases s.len(),
{
    reveal(Seq::filter);
    if s.len() > 0 {
        lemma_filter_keeps_all(s.drop_last(), pred);
        assert(s.drop_last().push(s.last()) == s);
    }
}

} // verus!
