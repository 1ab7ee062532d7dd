use arith_core::bn254::Bn254Fr;
use arith_core::mds::{get_diffusion_matrix_3, MdsMatrixBn254Fr};

#[test]
fn diagonal_is_one_one_two() {
    let diag = get_diffusion_matrix_3();
    assert_eq!(
        diag,
        [Bn254Fr::from_u64(1), Bn254Fr::from_u64(1), Bn254Fr::from_u64(2)]
    );
}

#[test]
fn permute_small_state() {
    // With S = 1 + 2 + 3 = 6 the state becomes [S, S, S + 3].
    let mds = MdsMatrixBn254Fr;
    let mut state = [
        Bn254Fr::from_u64(1),
        Bn254Fr::from_u64(2),
        Bn254Fr::from_u64(3),
    ];
    mds.permute_mut(&mut state);
    assert_eq!(
        state,
        [Bn254Fr::from_u64(6), Bn254Fr::from_u64(6), Bn254Fr::from_u64(9)]
    );
}

#[test]
fn permute_is_additive() {
    let mds = MdsMatrixBn254Fr;
    let x = [
        Bn254Fr::from_u64(17),
        Bn254Fr::from_u64(0),
        Bn254Fr::from_u64(999999937),
    ];
    let y = [
        Bn254Fr::from_u64(5),
        Bn254Fr::from_u64(123456789),
        Bn254Fr::from_u64(42),
    ];
    let mut z = [x[0].add(&y[0]), x[1].add(&y[1]), x[2].add(&y[2])];
    let mut px = x;
    let mut py = y;
    mds.permute_mut(&mut z);
    mds.permute_mut(&mut px);
    mds.permute_mut(&mut py);
    let combined = [px[0].add(&py[0]), px[1].add(&py[1]), px[2].add(&py[2])];
    assert_eq!(z, combined);
}

#[test]
fn add_reduces_at_the_order() {
    // The largest canonical representative: the field order minus one.
    let max = Bn254Fr::from_limbs(
        0x43e1f593f0000000,
        0x2833e84879b97091,
        0xb85045b68181585d,
        0x30644e72e131a029,
    )
    .unwrap();
    let one = Bn254Fr::from_u64(1);
    assert_eq!(max.add(&one), Bn254Fr::from_u64(0));
    assert_eq!(one.add(&max), Bn254Fr::from_u64(0));
}

#[test]
fn from_limbs_rejects_the_order() {
    // The field order itself is not a canonical representative.
    assert!(Bn254Fr::from_limbs(
        0x43e1f593f0000001,
        0x2833e84879b97091,
        0xb85045b68181585d,
        0x30644e72e131a029,
    )
    .is_none());
    assert!(Bn254Fr::from_limbs(u64::MAX, u64::MAX, u64::MAX, u64::MAX).is_none());
    assert!(Bn254Fr::from_limbs(7, 0, 0, 0).is_some());
}

#[test]
fn permute_wraps_modularly() {
    // A state holding the largest element: its entries reduce modulo the
    // field order, so the result stays canonical and matches the formula
    // computed in the field.
    let max = Bn254Fr::from_limbs(
        0x43e1f593f0000000,
        0x2833e84879b97091,
        0xb85045b68181585d,
        0x30644e72e131a029,
    )
    .unwrap();
    let one = Bn254Fr::from_u64(1);
    let two = Bn254Fr::from_u64(2);
    let mut state = [max, one, two];
    let mds = MdsMatrixBn254Fr;
    mds.permute_mut(&mut state);
    // S = (p - 1) + 1 + 2 = p + 2, which is 2 in the field.
    assert_eq!(state[0], two);
    assert_eq!(state[1], two);
    assert_eq!(state[2], two.add(&two));
}
