use prime_checker::constants;
use prime_checker::{get_hcn, get_primes, is_hcn, is_prime};

#[test]
fn test_lib_test_is_prime() {
    let num: u64 = 7;
    let (check, factors) = is_prime(num);
    assert_eq!(check, true);
    assert_eq!(factors, vec![1, 7]);
}

#[test]
fn test_lib_test_is_not_prime() {
    let num: u64 = 8;
    let (check, factors) = is_hcn(num);
    assert_eq!(check, false);
    assert_eq!(factors, vec![1, 2, 4, 8]);
}

#[test]
fn test_lib_test_is_prime_2() {
    let num: u64 = 11;
    let (check, factors) = is_prime(num);
    assert_eq!(check, true);
    assert_eq!(factors, vec![1, 11]);
}

#[test]
fn test_lib_test_composite_number() {
    let num: u64 = 10;
    let (check, factors) = is_prime(num);
    assert_eq!(check, false);
    assert_eq!(factors, vec![1, 2, 5, 10]);
}

#[test]
fn test_get_primes() {
    let num: u64 = 10;
    let primes = get_primes(num);
    assert_eq!(primes, vec![2, 3, 5, 7]);
}

#[test]
fn test_get_primes_2() {
    let num: u64 = 50;
    let primes = get_primes(num);
    assert_eq!(primes, constants::KNOWN_PRIMES);
}

#[test]
fn test_is_hcn() {
    let num: u64 = 16;
    let (check, factors) = is_hcn(num);
    assert_eq!(check, false);
    assert_eq!(factors, vec![1, 2, 4, 8, 16]);
}

#[test]
fn test_is_hcn_2() {
    let num: u64 = 12;
    let (check, factors) = is_hcn(num);
    assert_eq!(check, true);
    assert_eq!(factors, vec![1, 2, 3, 4, 6, 12]);
}

#[test]
fn test_get_hcn() {
    let num: u64 = 10_080;
    let anti_primes = get_hcn(num);
    assert_eq!(anti_primes, constants::KNOWN_ANTIPRIMES);
}

#[test]
fn test_get_hcn_2() {
    let num: u64 = 16;
    let anti_primes = get_hcn(num);
    assert_eq!(anti_primes, vec![1, 2, 4, 6, 12]);
}
