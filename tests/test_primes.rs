use prime_checker::constants;
use prime_checker::primes;

#[test]
fn test_primes_test_is_prime() {
    let num: u64 = 7;
    let (check, factors) = primes::check_if_prime(num);
    assert_eq!(check, true);
    assert_eq!(factors, vec![1, 7]);
}

#[test]
fn test_primes_test_is_not_prime() {
    let num: u64 = 8;
    let (check, factors) = primes::check_if_prime(num);
    assert_eq!(check, false);
    assert_eq!(factors, vec![1, 2, 4, 8]);
}

#[test]
fn test_primes_test_is_prime_2() {
    let num: u64 = 11;
    let (check, factors) = primes::check_if_prime(num);
    assert_eq!(check, true);
    assert_eq!(factors, vec![1, 11]);
}

#[test]
fn test_primes_test_composite_number() {
    let num: u64 = 10;
    let (check, factors) = primes::check_if_prime(num);
    assert_eq!(check, false);
    assert_eq!(factors, vec![1, 2, 5, 10]);
}

#[test]
fn test_find_primes() {
    let num: u64 = 10;
    let primes = primes::find_primes_till(num);
    assert_eq!(primes, vec![2, 3, 5, 7]);
}

#[test]
fn test_find_primes_2() {
    let num: u64 = 50;
    let primes = primes::find_primes_till(num);
    assert_eq!(primes, constants::KNOWN_PRIMES);
}

#[test]
fn test_check_if_anti_prime() {
    let num: u64 = 16;
    let (check, factors) = primes::check_if_anti_prime(num);
    assert_eq!(check, false);
    assert_eq!(factors, vec![1, 2, 4, 8, 16]);
}

#[test]
fn test_check_if_anti_prime_2() {
    let num: u64 = 12;
    let (check, factors) = primes::check_if_anti_prime(num);
    assert_eq!(check, true);
    assert_eq!(factors, vec![1, 2, 3, 4, 6, 12]);
}

#[test]
fn test_find_anti_primes_till() {
    let num: u64 = 10_080;
    let anti_primes = primes::find_anti_primes_till(num);
    assert_eq!(anti_primes, constants::KNOWN_ANTIPRIMES);
}

#[test]
fn test_find_anti_primes_till_2() {
    let num: u64 = 16;
    let anti_primes = primes::find_anti_primes_till(num);
    assert_eq!(anti_primes, vec![1, 2, 4, 6, 12]);
}
