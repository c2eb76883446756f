use deet::farm::{factor_list, is_prime, isqrt};

#[test]
fn integer_square_roots() {
    assert_eq!(isqrt(0), 0);
    assert_eq!(isqrt(1), 1);
    assert_eq!(isqrt(8), 2);
    assert_eq!(isqrt(9), 3);
    assert_eq!(isqrt(10), 3);
    assert_eq!(isqrt(u32::MAX), 65535);
}

#[test]
fn primality_by_trial_division() {
    assert!(!is_prime(0));
    assert!(!is_prime(1));
    assert!(is_prime(2));
    assert!(is_prime(3));
    assert!(is_prime(13));
    assert!(is_prime(65521));
    assert!(!is_prime(16));
    assert!(!is_prime(100));
    // Perfect squares and small composites are composite: the trial
    // range includes the integer square root itself.
    assert!(!is_prime(4));
    assert!(!is_prime(9));
    assert!(!is_prime(25));
    assert!(!is_prime(6));
    assert!(!is_prime(15));
}

#[test]
fn factorization_multiplies_back() {
    let (factors, rest) = factor_list(12);
    assert_eq!(factors, vec![2, 2, 3]);
    assert_eq!(rest, 1);

    let (factors, rest) = factor_list(360);
    assert_eq!(factors, vec![2, 2, 2, 3, 3, 5]);
    assert_eq!(rest, 1);

    // A prime is never divided, so it survives as the residue.
    let (factors, rest) = factor_list(7);
    assert!(factors.is_empty());
    assert_eq!(rest, 7);

    let (factors, rest) = factor_list(1);
    assert!(factors.is_empty());
    assert_eq!(rest, 1);

    let (factors, rest) = factor_list(0);
    assert!(factors.is_empty());
    assert_eq!(rest, 0);
}
