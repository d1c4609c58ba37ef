use math_core::prime::{gcd, get_divisors, is_prime, lcm, prime_factorize};
use math_core::errors::MathError;

#[test]
fn test_prime_factorize() {
    let factors = prime_factorize(12).unwrap();
    assert_eq!(factors.get(&2), Some(&2));
    assert_eq!(factors.get(&3), Some(&1));
}

#[test]
fn test_prime_factorize_prime() {
    let factors = prime_factorize(7).unwrap();
    assert_eq!(factors.get(&7), Some(&1));
    assert_eq!(factors.len(), 1);
}

#[test]
fn test_is_prime() {
    assert!(is_prime(2));
    assert!(is_prime(3));
    assert!(is_prime(17));
    assert!(!is_prime(1));
    assert!(!is_prime(4));
    assert!(!is_prime(15));
}

#[test]
fn test_get_divisors() {
    let divisors = get_divisors(12);
    assert_eq!(divisors, vec![1, 2, 3, 4, 6, 12]);
}

#[test]
fn test_gcd() {
    assert_eq!(gcd(12, 18), 6);
    assert_eq!(gcd(17, 19), 1);
    assert_eq!(gcd(100, 50), 50);
}

#[test]
fn test_lcm() {
    assert_eq!(lcm(12, 18), 36);
    assert_eq!(lcm(5, 7), 35);
}

#[test]
fn prime_factorize_rejects_below_two() {
    assert!(matches!(prime_factorize(0), Err(MathError::InvalidInput(_))));
    assert!(matches!(prime_factorize(1), Err(MathError::InvalidInput(_))));
}

#[test]
fn prime_factorize_reconstructs_input() {
    for n in 2u64..2000 {
        let factors = prime_factorize(n).unwrap();
        let mut product: u64 = 1;
        for (p, e) in factors.iter() {
            assert!(is_prime(*p));
            assert!(*e >= 1);
            product *= p.pow(*e);
        }
        assert_eq!(product, n);
    }
}

#[test]
fn prime_factorize_large_prime_and_power() {
    let factors = prime_factorize(1_000_000_007).unwrap();
    assert_eq!(factors.get(&1_000_000_007), Some(&1));
    let factors = prime_factorize(1u64 << 63).unwrap();
    assert_eq!(factors.get(&2), Some(&63));
    assert_eq!(factors.len(), 1);
    let factors = prime_factorize(360).unwrap();
    assert_eq!(factors.get(&2), Some(&3));
    assert_eq!(factors.get(&3), Some(&2));
    assert_eq!(factors.get(&5), Some(&1));
}

#[test]
fn is_prime_agrees_with_sieve() {
    let limit = 1000usize;
    let mut sieve = vec![true; limit + 1];
    sieve[0] = false;
    sieve[1] = false;
    for i in 2..=limit {
        if sieve[i] {
            let mut j = i * i;
            while j <= limit {
                sieve[j] = false;
                j += i;
            }
        }
    }
    for n in 0..=limit {
        assert_eq!(is_prime(n as u64), sieve[n], "n = {}", n);
    }
}

#[test]
fn is_prime_large_values() {
    assert!(is_prime(1_000_000_007));
    assert!(!is_prime(1_000_000_007 * 3));
    assert!(is_prime(18_446_744_073_709_551_557));
    assert!(!is_prime(u64::MAX));
}

#[test]
fn divisors_edge_cases() {
    assert_eq!(get_divisors(0), Vec::<u64>::new());
    assert_eq!(get_divisors(1), vec![1]);
    assert_eq!(get_divisors(16), vec![1, 2, 4, 8, 16]);
    assert_eq!(get_divisors(13), vec![1, 13]);
}

#[test]
fn gcd_lcm_with_zero() {
    assert_eq!(gcd(0, 0), 0);
    assert_eq!(gcd(0, 9), 9);
    assert_eq!(gcd(9, 0), 9);
    assert_eq!(lcm(0, 5), 0);
    assert_eq!(lcm(5, 0), 0);
    assert_eq!(lcm(4, 6), 12);
}
