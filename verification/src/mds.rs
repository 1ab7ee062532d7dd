//! A diffusion-matrix permutation over a 3-element state of BN254 scalar
//! field elements: a placeholder diffusion layer for exercising a
//! Poseidon2-style permutation network over this field, not a true
//! maximum-distance-separable matrix.

use crate::bn254::{bn254_modulus, Bn254Fr};
use vstd::arithmetic::div_mod::{
    lemma_add_mod_noop, lemma_add_mod_noop_right, lemma_mul_mod_noop_right,
};
use vstd::prelude::*;

verus! {

/// The matrix used as a placeholder MDS/diffusion layer over the BN254
/// scalar field: diagonal plus rank one, with diagonal `[1, 1, 2]`.
#[derive(Clone, Debug, Default)]
pub struct MdsMatrixBn254Fr;

/// One entry of the diffusion transform: the state sum plus
/// `(diagonal - 1)` times the entry itself, in the field.
pub open spec fn diffusion_entry(x0: int, x1: int, x2: int, d: int, x: int) -> int {
    (x0 + x1 + x2 + (d - 1) * x) % bn254_modulus()
}

/// An entry of the elementwise combination `a * x + b * y` of two states,
/// in the field.
pub open spec fn lin_comb(a: int, x: int, b: int, y: int) -> int {
    (a * x + b * y) % bn254_modulus()
}

/// The diagonal `[1, 1, 2]` of the diffusion matrix.
pub fn get_diffusion_matrix_3() -> (m: [Bn254Fr; 3])
    ensures
        m[0].inv() && m[0].value() == 1,
        m[1].inv() && m[1].value() == 1,
        m[2].inv() && m[2].value() == 2,
{
    [Bn254Fr::from_u64(1), Bn254Fr::from_u64(1), Bn254Fr::from_u64(2)]
}

impl MdsMatrixBn254Fr {
    /// Applies the diffusion matrix to the state in place: with `S` the sum
    /// of the entries, entry `i` becomes `S + (diagonal[i] - 1) * entry[i]`,
    /// for the diagonal `[1, 1, 2]`.
    pub fn permute_mut(&self, state: &mut [Bn254Fr; 3])
        requires
            old(state)[0].inv(),
            old(state)[1].inv(),
            old(state)[2].inv(),
        ensures
            final(state)[0].inv() && final(state)[1].inv() && final(state)[2].inv(),
            final(state)[0].value() == diffusion_entry(
                old(state)[0].value(),
                old(state)[1].value(),
                old(state)[2].value(),
                1,
                old(state)[0].value(),
            ),
            final(state)[1].value() == diffusion_entry(
                old(state)[0].value(),
                old(state)[1].value(),
                old(state)[2].value(),
                1,
                old(state)[1].value(),
            ),
            final(state)[2].value() == diffusion_entry(
                old(state)[0].value(),
                old(state)[1].value(),
                old(state)[2].value(),
                2,
                old(state)[2].value(),
            ),
    {
        let ghost v0 = state[0].value();
        let ghost v1 = state[1].value();
        let ghost v2 = state[2].value();
        let s01 = state[0].add(&state[1]);
        let sum = s01.add(&state[2]);
        let out2 = sum.add(&state[2]);
        proof {
            lemma_add_mod_noop_right(v2, v0 + v1, bn254_modulus());
            assert(sum.value() == (v0 + v1 + v2) % bn254_modulus());
            lemma_add_mod_noop_right(v2, v0 + v1 + v2, bn254_modulus());
            assert(out2.value() == (v0 + v1 + v2 + v2) % bn254_modulus());
        }
        *state = [sum, sum, out2];
    }
}

/// One entry of the diffusion transform is linear in the state: applied to
/// the elementwise field combination `a * x + b * y`, with `c` the diagonal
/// entry minus one, it equals the combination of the transformed entries.
proof fn lemma_entry_linear(
    a: int,
    b: int,
    x0: int,
    x1: int,
    x2: int,
    y0: int,
    y1: int,
    y2: int,
    xs: int,
    ys: int,
    c: int,
)
    ensures
        (lin_comb(a, x0, b, y0) + lin_comb(a, x1, b, y1) + lin_comb(a, x2, b, y2) + c * lin_comb(
            a,
            xs,
            b,
            ys,
        )) % bn254_modulus() == lin_comb(
            a,
            (x0 + x1 + x2 + c * xs) % bn254_modulus(),
            b,
            (y0 + y1 + y2 + c * ys) % bn254_modulus(),
        ),
{
    let m = bn254_modulus();
    let u = a * x0 + b * y0;
    let v = a * x1 + b * y1;
    let w = a * x2 + b * y2;
    let t = a * xs + b * ys;
    // Pull every reduced term out of the outer reduction on the left.
    lemma_mul_mod_noop_right(c, t, m);
    lemma_add_mod_noop(u % m + v % m + w % m, c * (t % m), m);
    lemma_add_mod_noop(u % m + v % m + w % m, c * t, m);
    assert((u % m + v % m + w % m + c * (t % m)) % m == (u % m + v % m + w % m + c * t) % m);
    lemma_add_mod_noop_right(u % m + v % m + c * t, w, m);
    lemma_add_mod_noop_right(u % m + w + c * t, v, m);
    lemma_add_mod_noop_right(v + w + c * t, u, m);
    assert((u % m + v % m + w % m + c * t) % m == (u + v + w + c * t) % m);
    // The same for the right-hand side.
    let x = x0 + x1 + x2 + c * xs;
    let y = y0 + y1 + y2 + c * ys;
    lemma_mul_mod_noop_right(a, x, m);
    lemma_mul_mod_noop_right(b, y, m);
    lemma_add_mod_noop(a * (x % m), b * (y % m), m);
    lemma_add_mod_noop(a * x, b * y, m);
    assert((a * (x % m) + b * (y % m)) % m == (a * x + b * y) % m);
    // Both sides are now the reduction of the same ring expression.
    assert((a * x0 + b * y0) + (a * x1 + b * y1) + (a * x2 + b * y2) + c * (a * xs + b * ys) == a
        * (x0 + x1 + x2 + c * xs) + b * (y0 + y1 + y2 + c * ys)) by (nonlinear_arith);
    assert(u + v + w + c * t == a * x + b * y);
}

/// The diffusion permutation is linear: applying it to the elementwise field
/// combination `a * x + b * y` of two states gives, entry by entry, the same
/// combination of the permuted states.
pub proof fn lemma_permute_linear(
    a: int,
    b: int,
    x0: int,
    x1: int,
    x2: int,
    y0: int,
    y1: int,
    y2: int,
)
    ensures
        diffusion_entry(
            lin_comb(a, x0, b, y0),
            lin_comb(a, x1, b, y1),
            lin_comb(a, x2, b, y2),
            1,
            lin_comb(a, x0, b, y0),
        ) == lin_comb(a, diffusion_entry(x0, x1, x2, 1, x0), b, diffusion_entry(y0, y1, y2, 1, y0)),
        diffusion_entry(
            lin_comb(a, x0, b, y0),
            lin_comb(a, x1, b, y1),
            lin_comb(a, x2, b, y2),
            1,
            lin_comb(a, x1, b, y1),
        ) == lin_comb(a, diffusion_entry(x0, x1, x2, 1, x1), b, diffusion_entry(y0, y1, y2, 1, y1)),
        diffusion_entry(
            lin_comb(a, x0, b, y0),
            lin_comb(a, x1, b, y1),
            lin_comb(a, x2, b, y2),
            2,
            lin_comb(a, x2, b, y2),
        ) == lin_comb(a, diffusion_entry(x0, x1, x2, 2, x2), b, diffusion_entry(y0, y1, y2, 2, y2)),
{
    lemma_entry_linear(a, b, x0, x1, x2, y0, y1, y2, x0, y0, 0);
    lemma_entry_linear(a, b, x0, x1, x2, y0, y1, y2, x1, y1, 0);
    lemma_entry_linear(a, b, x0, x1, x2, y0, y1, y2, x2, y2, 1);
}

} // verus!
