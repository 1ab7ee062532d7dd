use arith_core::util::{get_alpha, get_inverse, relatively_prime_u64, shake256_hash};

#[test]
fn coprimality() {
    assert!(relatively_prime_u64(3, 10));
    assert!(!relatively_prime_u64(3, 6));
    assert!(relatively_prime_u64(1, 1));
    assert!(!relatively_prime_u64(4, 6));
}

#[test]
fn alpha_small_primes() {
    // p = 5: p - 1 = 4, and gcd(3, 4) = 1.
    assert_eq!(get_alpha(5), 3);
    // p = 7: p - 1 = 6 rules out 3 and 4; gcd(5, 6) = 1.
    assert_eq!(get_alpha(7), 5);
    // p = 11: p - 1 = 10, and gcd(3, 10) = 1.
    assert_eq!(get_alpha(11), 3);
    // p = 13: p - 1 = 12 rules out 3 and 4; gcd(5, 12) = 1.
    assert_eq!(get_alpha(13), 5);
}

#[test]
fn alpha_goldilocks() {
    // The 64-bit field of order 2^64 - 2^32 + 1: the smallest valid
    // exponent is 7.
    let p: u64 = 18446744069414584321;
    assert_eq!(get_alpha(p), 7);
}

fn gcd(a: u64, b: u64) -> u64 {
    if b == 0 { a } else { gcd(b, a % b) }
}

#[test]
fn alpha_is_smallest_coprime() {
    for p in [5u64, 7, 11, 13, 17, 101, 257, 65537] {
        let alpha = get_alpha(p);
        assert_eq!(gcd(alpha, p - 1), 1);
        for b in 3..alpha {
            assert_ne!(gcd(b, p - 1), 1);
        }
    }
}

#[test]
fn inverse_small() {
    // The inverse of 3 modulo 10 is 7.
    assert_eq!(get_inverse(3, 11), 7);
}

#[test]
fn inverse_times_alpha_is_one() {
    for p in [5u64, 7, 11, 13, 17, 101, 257, 65537, 18446744069414584321] {
        let alpha = get_alpha(p);
        let inv = get_inverse(alpha, p);
        assert!(0 < inv && inv < p - 1);
        assert_eq!((alpha as u128 * inv as u128) % ((p - 1) as u128), 1);
    }
}

#[test]
fn shake256_deterministic() {
    let a = shake256_hash(b"rescue parameters", 64);
    let b = shake256_hash(b"rescue parameters", 64);
    assert_eq!(a, b);
    assert_eq!(a.len(), 64);
}

#[test]
fn shake256_prefix_stable() {
    let long = shake256_hash(b"seed material", 500);
    assert_eq!(long.len(), 500);
    for k in [0usize, 1, 17, 100, 136, 137, 300, 500] {
        let short = shake256_hash(b"seed material", k);
        assert_eq!(short, long[..k]);
    }
}

#[test]
fn shake256_empty_count() {
    assert!(shake256_hash(b"anything", 0).is_empty());
}

#[test]
fn shake256_known_vector() {
    // The first bytes of SHAKE256 on the empty input.
    let out = shake256_hash(b"", 8);
    assert_eq!(out, vec![0x46, 0xb9, 0xdd, 0x2b, 0x0b, 0xa8, 0x8d, 0x13]);
}

#[test]
fn shake256_is_not_identity() {
    let out = shake256_hash(b"seed", 4);
    assert_ne!(out, b"seed".to_vec());
}

#[test]
fn shake256_distinct_seeds() {
    assert_ne!(shake256_hash(b"a", 32), shake256_hash(b"b", 32));
}
