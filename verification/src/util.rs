//! Derivation of permutation parameters: the exponent alpha, its inverse
//! modulo the order of the multiplicative group, and deterministic byte
//! expansion from a seed.

use sha3::digest::{ExtendableOutput, Update, XofReader};
use vstd::arithmetic::div_mod::{lemma_mod_add_multiples_vanish, lemma_small_mod};
use vstd::prelude::*;

verus! {

/// Greatest common divisor, by Euclid's recurrence.
pub open spec fn gcd(a: nat, b: nat) -> nat
    decreases b,
{
    if b == 0 {
        a
    } else {
        gcd(b, a % b)
    }
}

/// Whether `a` and `b` share no common factor, i.e. their gcd is 1.
pub fn relatively_prime_u64(a: u64, b: u64) -> (r: bool)
    ensures
        r == (gcd(a as nat, b as nat) == 1),
{
    let mut x = a;
    let mut y = b;
    while y != 0
        invariant
            gcd(x as nat, y as nat) == gcd(a as nat, b as nat),
        decreases y,
    {
        let t = x % y;
        x = y;
        y = t;
    }
    x == 1
}

/// Two consecutive positive integers are coprime.
proof fn lemma_gcd_of_consecutive(n: nat)
    requires
        n >= 1,
    ensures
        gcd((n + 1) as nat, n) == 1,
{
    if n == 1 {
        assert(gcd(2nat, 1nat) == gcd(1nat, 0nat));
    } else {
        lemma_mod_add_multiples_vanish(1int, n as int);
        lemma_small_mod(1nat, n);
        assert((n + 1) % n == 1nat);
        assert(gcd((n + 1) as nat, n) == gcd(n, 1nat));
        assert(gcd(n, 1nat) == gcd(1nat, 0nat));
    }
}

/// The exponent alpha of the permutation x |-> x^alpha: the smallest integer
/// of at least 3 that is coprime to `p - 1`, so that the map is a bijection
/// on the multiplicative group of a field of order `p`. Orders 2 and 3 admit
/// no such exponent and are unsupported.
pub fn get_alpha(p: u64) -> (alpha: u64)
    requires
        p >= 5,
    ensures
        3 <= alpha < p,
        gcd(alpha as nat, (p - 1) as nat) == 1,
        forall|b: u64| 3 <= b < alpha ==> #[trigger] gcd(b as nat, (p - 1) as nat) != 1,
{
    let mut a: u64 = 3;
    loop
        invariant
            p >= 5,
            3 <= a <= p - 2,
            forall|b: u64| 3 <= b < a ==> #[trigger] gcd(b as nat, (p - 1) as nat) != 1,
        decreases p - a,
    {
        if relatively_prime_u64(a, p - 1) {
            return a;
        }
        proof {
            if a == p - 2 {
                lemma_gcd_of_consecutive((p - 2) as nat);
                assert(gcd((p - 2) as nat, (p - 1) as nat) == gcd(
                    (p - 1) as nat,
                    ((p - 2) as nat) % ((p - 1) as nat),
                ));
                lemma_small_mod((p - 2) as nat, (p - 1) as nat);
                assert(gcd((p - 1) as nat, (p - 2) as nat) == 1);
                assert(false);
            }
        }
        a += 1;
    }
}

/// Relies on modinverse::modinverse over i128: extended Euclid returns
/// `Some(x)` with `x` the inverse of `a` modulo `m`, reduced to `[0, m)`,
/// exactly when `gcd(a, m) == 1`, and `None` otherwise. The bound on `m`
/// keeps the crate's reduction of the Bezout coefficient, `(x % m + m) % m`,
/// far from the edge of `i128`.
#[verifier::external_body]
fn modinverse_i128(a: i128, m: i128) -> (r: Option<i128>)
    requires
        1 <= a,
        2 <= m < 0x10000000000000000,
    ensures
        r is Some <==> gcd(a as nat, m as nat) == 1,
        r matches Some(x) ==> 0 <= x < m && (a as int * x as int) % (m as int) == 1int,
{
    modinverse::modinverse(a, m)
}

/// The multiplicative inverse of `alpha` in `Z/(p - 1)`: the unique `inv` in
/// `(0, p - 1)` with `alpha * inv = 1 (mod p - 1)`. A non-invertible `alpha`
/// would break the bijectivity invariant established by `get_alpha`, so such
/// inputs are ruled out.
pub fn get_inverse(alpha: u64, p: u64) -> (inv: u64)
    requires
        p >= 5,
        1 <= alpha,
        gcd(alpha as nat, (p - 1) as nat) == 1,
    ensures
        0 < inv < p - 1,
        (alpha as int * inv as int) % ((p - 1) as int) == 1int,
{
    let m: i128 = (p as i128) - 1;
    let r = modinverse_i128(alpha as i128, m);
    match r {
        Some(x) => {
            proof {
                if x == 0 {
                    lemma_small_mod(0nat, (p - 1) as nat);
                    assert(alpha as int * 0int == 0int);
                }
            }
            x as u64
        },
        None => unreached(),
    }
}

/// The byte at offset `i` of the stream that the SHAKE256 extendable-output
/// function squeezes after absorbing `seed`; a pure function of the seed.
pub uninterp spec fn shake256_byte(seed: Seq<u8>, i: int) -> u8;

/// The first `n` bytes of the SHAKE256 output stream for `seed`.
pub open spec fn shake256_stream(seed: Seq<u8>, n: int) -> Seq<u8> {
    Seq::new(n as nat, |i: int| shake256_byte(seed, i))
}

/// Relies on sha3's Shake256: absorbing `seed` once and squeezing `num_bytes`
/// bytes yields a prefix of a byte stream determined by the seed alone.
#[verifier::external_body]
fn shake256_xof(seed: &[u8], num_bytes: usize) -> (r: Vec<u8>)
    ensures
        r@.len() == num_bytes,
        forall|i: int| 0 <= i < num_bytes ==> r@[i] == shake256_byte(seed@, i),
{
    let mut hasher = sha3::Shake256::default();
    hasher.update(seed);
    let mut reader = hasher.finalize_xof();
    let mut result = vec![0u8; num_bytes];
    reader.read(&mut result);
    result
}

/// The SHAKE256 variant of SHA-3, squeezed to exactly `num_bytes` bytes.
/// Used to expand a seed string into round-constant material; deterministic,
/// so interoperating implementations derive identical constants.
pub fn shake256_hash(seed_bytes: &[u8], num_bytes: usize) -> (r: Vec<u8>)
    ensures
        r@ == shake256_stream(seed_bytes@, num_bytes as int),
        r@.len() == num_bytes,
{
    let r = shake256_xof(seed_bytes, num_bytes);
    proof {
        assert(r@ =~= shake256_stream(seed_bytes@, num_bytes as int));
    }
    r
}

/// Prefix stability of seed expansion: the first `k` bytes of an `n`-byte
/// expansion equal the `k`-byte expansion of the same seed, for any `k <= n`.
pub proof fn lemma_shake256_prefix_stable(seed: Seq<u8>, k: int, n: int)
    requires
        0 <= k <= n,
    ensures
        shake256_stream(seed, k) == shake256_stream(seed, n).take(k),
{
    assert(shake256_stream(seed, k) =~= shake256_stream(seed, n).take(k));
}

} // verus!
