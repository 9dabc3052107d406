use prime_checker::cache_map::{
    clean, clear, contains_key, get_size, init, insert, keys, retrieve, FactorCache,
};
use prime_checker::constants::{DESCRIPTION, KNOWN_ANTIPRIMES};
use prime_checker::primes::{
    check_if_anti_prime, check_if_anti_prime_with, check_if_prime, count_factors,
    find_anti_primes_till, find_primes_till, DivisorError,
};
use prime_checker::{get_hcn, get_primes, is_hcn, is_prime};

#[test]
fn prime_exactly_when_no_divisor_up_to_half() {
    for n in 2u64..200 {
        let (check, factors) = is_prime(n);
        let no_small_divisor = (2..=n / 2).all(|d| n % d != 0);
        assert_eq!(factors == vec![1, n], no_small_divisor, "n = {}", n);
        assert_eq!(check, no_small_divisor, "n = {}", n);
    }
}

#[test]
fn prime_check_past_the_table() {
    assert_eq!(is_prime(53), (true, vec![1, 53]));
    assert_eq!(is_prime(49), (false, vec![1, 7, 49]));
    assert_eq!(is_prime(9), (false, vec![1, 3, 9]));
    assert_eq!(is_prime(2), (true, vec![1, 2]));
}

#[test]
fn one_is_not_prime() {
    assert_eq!(check_if_prime(1), (false, vec![1]));
}

#[test]
fn count_factors_of_zero_is_invalid() {
    assert_eq!(count_factors(0), Err(DivisorError::InvalidInput));
}

#[test]
fn count_factors_exact_values() {
    assert_eq!(count_factors(1), Ok(1));
    assert_eq!(count_factors(2), Ok(2));
    assert_eq!(count_factors(3), Ok(2));
    assert_eq!(count_factors(4), Ok(3));
    assert_eq!(count_factors(12), Ok(6));
    assert_eq!(count_factors(10_080), Ok(72));
}

#[test]
fn count_factors_agrees_with_divisor_list() {
    for n in 1u64..300 {
        let (_, factors) = check_if_prime(n);
        assert_eq!(count_factors(n), Ok(factors.len() as u64), "n = {}", n);
    }
}

#[test]
fn primes_of_small_bounds() {
    assert_eq!(get_primes(0), Vec::<u64>::new());
    assert_eq!(get_primes(1), Vec::<u64>::new());
    assert_eq!(get_primes(2), vec![2]);
    assert_eq!(find_primes_till(30), vec![2, 3, 5, 7, 11, 13, 17, 19, 23, 29]);
}

#[test]
fn sieve_agrees_with_divisor_count() {
    let sieve = find_primes_till(500);
    let by_count: Vec<u64> = (1u64..=500).filter(|&n| count_factors(n) == Ok(2)).collect();
    assert_eq!(sieve, by_count);
}

#[test]
fn highly_composite_conventions_for_small_numbers() {
    assert_eq!(is_hcn(0), (true, vec![0]));
    assert_eq!(is_hcn(1), (true, vec![1]));
    assert_eq!(is_hcn(2), (true, vec![1, 2]));
    assert_eq!(is_hcn(3), (false, vec![1, 3]));
    assert_eq!(is_hcn(4), (true, vec![1, 2, 4]));
}

#[test]
fn classifier_matches_table_below_last_entry() {
    for n in 1u64..=400 {
        let (check, _) = check_if_anti_prime(n);
        assert_eq!(check, KNOWN_ANTIPRIMES.contains(&n), "n = {}", n);
    }
}

#[test]
fn highly_composite_of_small_bounds() {
    assert_eq!(get_hcn(0), Vec::<u64>::new());
    assert_eq!(get_hcn(1), vec![1]);
    assert_eq!(get_hcn(100), vec![1, 2, 4, 6, 12, 24, 36, 48, 60]);
}

#[test]
fn sweep_past_the_table_finds_nothing_before_15120() {
    assert_eq!(find_anti_primes_till(10_200), KNOWN_ANTIPRIMES);
}

#[test]
fn repeated_sweeps_agree() {
    let first = get_hcn(10_150);
    let second = get_hcn(10_150);
    assert_eq!(first, second);
    assert_eq!(get_hcn(500), get_hcn(500));
}

#[test]
fn classification_does_not_depend_on_cache_contents() {
    let mut warm = FactorCache::new();
    init(&mut warm);
    for n in 4u64..100 {
        insert(&mut warm, n, count_factors(n).unwrap());
    }
    for n in [12u64, 16, 36, 48, 50, 60, 97] {
        let mut cold = FactorCache::new();
        assert_eq!(
            check_if_anti_prime_with(n, &mut warm),
            check_if_anti_prime_with(n, &mut cold),
            "n = {}",
            n
        );
        assert_eq!(check_if_anti_prime_with(n, &mut warm), check_if_anti_prime(n));
    }
}

#[test]
fn cached_counts_are_exact_after_a_classification() {
    let mut cache = FactorCache::new();
    init(&mut cache);
    let (check, _) = check_if_anti_prime_with(60, &mut cache);
    assert!(check);
    let cached = keys(&cache);
    assert_eq!(cached.len(), 59);
    for key in cached {
        assert!(contains_key(&cache, &key));
        assert_eq!(Ok(retrieve(&cache, &key)), count_factors(key), "key = {}", key);
    }
}

#[test]
fn counts_rise_along_highly_composite_numbers() {
    let sequence = get_hcn(10_080);
    for pair in sequence.windows(2) {
        assert!(pair[0] < pair[1]);
        assert!(count_factors(pair[0]).unwrap() < count_factors(pair[1]).unwrap());
    }
}

#[test]
fn cache_operations() {
    let mut cache = FactorCache::new();
    assert_eq!(get_size(&cache), 0);
    init(&mut cache);
    let mut seeded = keys(&cache);
    seeded.sort();
    assert_eq!(seeded, vec![1, 2, 3]);
    assert_eq!(retrieve(&cache, &1), 1);
    assert_eq!(retrieve(&cache, &2), 2);
    assert_eq!(retrieve(&cache, &3), 2);
    assert!(!contains_key(&cache, &12));
    insert(&mut cache, 12, 6);
    assert!(contains_key(&cache, &12));
    assert_eq!(retrieve(&cache, &12), 6);
    assert_eq!(get_size(&cache), 4);
    clean(&mut cache);
    assert_eq!(get_size(&cache), 4);
    init(&mut cache);
    assert_eq!(get_size(&cache), 3);
    clear(&mut cache);
    assert_eq!(get_size(&cache), 0);
    assert!(keys(&cache).is_empty());
}

#[test]
fn description_text() {
    assert!(DESCRIPTION.starts_with("Rust library crate"));
}
