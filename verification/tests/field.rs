use plonk_evaluation::field::Field;
use plonk_evaluation::goldilocks::{Goldilocks, DELTA, MODULUS, ZETA};

const A: u64 = 18364758544493064720;
const B: u64 = 81985529216486895;

#[test]
fn new_reduces_modulo_the_order() {
    assert_eq!(Goldilocks::new(MODULUS).to_u64(), 0);
    assert_eq!(Goldilocks::new(MODULUS + 5).to_u64(), 5);
    assert_eq!(Goldilocks::new(u64::MAX).to_u64(), 4294967294);
    assert_eq!(Goldilocks::from_u64(MODULUS - 1).to_u64(), MODULUS - 1);
}

#[test]
fn zero_and_one_have_their_residues() {
    assert_eq!(Goldilocks::zero().to_u64(), 0);
    assert_eq!(Goldilocks::one().to_u64(), 1);
}

#[test]
fn addition_wraps_at_the_order() {
    let a = Goldilocks::new(MODULUS - 1);
    let b = Goldilocks::new(5);
    assert_eq!(a.add(&b).to_u64(), 4);
    assert_eq!(Goldilocks::new(A).add(&Goldilocks::new(B)).to_u64(), 4294967294);
}

#[test]
fn subtraction_wraps_below_zero() {
    assert_eq!(Goldilocks::new(3).sub(&Goldilocks::new(5)).to_u64(), MODULUS - 2);
    assert_eq!(Goldilocks::new(B).sub(&Goldilocks::new(A)).to_u64(), 163971054138006496);
    assert_eq!(Goldilocks::new(7).sub(&Goldilocks::new(7)).to_u64(), 0);
}

#[test]
fn multiplication_reduces_the_wide_product() {
    assert_eq!(Goldilocks::new(A).mul(&Goldilocks::new(B)).to_u64(), 14965091924900821934);
    assert_eq!(
        Goldilocks::new(MODULUS - 1).mul(&Goldilocks::new(MODULUS - 1)).to_u64(),
        1
    );
    assert_eq!(Goldilocks::new(A).mul(&Goldilocks::zero()).to_u64(), 0);
}

#[test]
fn negation_is_the_additive_inverse() {
    assert_eq!(Goldilocks::new(A).neg().to_u64(), 81985524921519601);
    assert_eq!(Goldilocks::zero().neg().to_u64(), 0);
    let a = Goldilocks::new(A);
    assert_eq!(a.add(&a.neg()).to_u64(), 0);
}

#[test]
fn square_and_double_agree_with_mul_and_add() {
    let a = Goldilocks::new(A);
    assert_eq!(a.square().to_u64(), 12090132701994231196);
    assert_eq!(a.double().to_u64(), 18282773019571545119);
    assert_eq!(a.square(), a.mul(&a));
    assert_eq!(a.double(), a.add(&a));
}

#[test]
fn pow_vartime_raises_to_the_exponent() {
    let a = Goldilocks::new(A);
    assert_eq!(a.pow_vartime(0).to_u64(), 1);
    assert_eq!(a.pow_vartime(1).to_u64(), A);
    assert_eq!(a.pow_vartime(2), a.square());
    assert_eq!(a.pow_vartime(1000003).to_u64(), 3919587484816930013);
    assert_eq!(Goldilocks::zero().pow_vartime(0).to_u64(), 1);
    assert_eq!(Goldilocks::zero().pow_vartime(5).to_u64(), 0);
}

#[test]
fn zeta_is_a_cube_root_of_unity_other_than_one() {
    let zeta = Goldilocks::zeta();
    assert_eq!(zeta.to_u64(), ZETA);
    assert_ne!(zeta.to_u64(), 1);
    assert_eq!(zeta.pow_vartime(3).to_u64(), 1);
}

#[test]
fn delta_is_the_generator_of_the_odd_subgroup() {
    let delta = Goldilocks::delta();
    assert_eq!(delta.to_u64(), DELTA);
    // The odd part of the order of the multiplicative group is 2^32 - 1.
    assert_eq!(delta.pow_vartime(4294967295).to_u64(), 1);
    assert_ne!(delta.pow_vartime(4294967295 / 3).to_u64(), 1);
    assert_ne!(delta.pow_vartime(4294967295 / 5).to_u64(), 1);
}

#[test]
fn is_equal_compares_residues() {
    assert!(Goldilocks::new(5).is_equal(&Goldilocks::new(MODULUS + 5)));
    assert!(!Goldilocks::new(5).is_equal(&Goldilocks::new(6)));
}
