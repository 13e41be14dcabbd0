use crate::field::{
    fmul, fpow, lemma_fmul_assoc, lemma_fmul_comm, lemma_fmul_one_left, lemma_fmul_one_right,
    lemma_fpow_residue, lemma_fpow_square, Field,
};
use vstd::arithmetic::div_mod::*;
use vstd::prelude::*;

verus! {

/// The order of the field: `2^64 - 2^32 + 1`.
pub const MODULUS: u64 = 0xffff_ffff_0000_0001;

/// A cube root of unity other than one.
pub const ZETA: u64 = 0xffff_fffe_0000_0001;

/// A generator of the subgroup of odd order.
pub const DELTA: u64 = 0xaa5b_2509_f86b_b4d4;

/// An element of the prime field of order `2^64 - 2^32 + 1`.
///
/// Any `u64` stands for its residue modulo the order, so every bit pattern is
/// a valid element; the functions of this module only ever produce the
/// canonical one.
#[derive(Clone, Copy, Debug, PartialEq, Eq)]
pub struct Goldilocks {
    repr: u64,
}

impl Goldilocks {
    /// The element with residue `v mod MODULUS`.
    pub fn new(v: u64) -> (r: Self)
        ensures
            r.value() == (v as int) % (MODULUS as int),
    {
        Goldilocks { repr: v % MODULUS }
    }

    /// The canonical residue of this element.
    pub fn to_u64(&self) -> (r: u64)
        ensures
            r == self.value(),
    {
        self.repr % MODULUS
    }

    fn reduce(wide: u128) -> (r: Self)
        ensures
            r.value() == (wide as int) % (MODULUS as int),
    {
        let m: u128 = MODULUS as u128;
        let low: u128 = wide % m;
        proof {
            lemma_mod_twice(wide as int, MODULUS as int);
        }
        Goldilocks { repr: low as u64 }
    }
}

impl Field for Goldilocks {
    open spec fn modulus() -> int {
        MODULUS as int
    }

    closed spec fn value(&self) -> int {
        (self.repr as int) % (MODULUS as int)
    }

    open spec fn zeta_value() -> int {
        ZETA as int
    }

    open spec fn delta_value() -> int {
        DELTA as int
    }

    proof fn lemma_modulus() {
        let p = MODULUS as int;
        let z = ZETA as int;
        reveal_with_fuel(fpow, 4);
        assert(1int % p == 1);
        assert((1 * z) % p == z);
        assert((z * z) % p == 0xffff_ffff);
        assert((0xffff_ffff * z) % p == 1);
    }

    proof fn lemma_value(&self) {
    }

    fn zero() -> (r: Self) {
        Goldilocks { repr: 0 }
    }

    fn one() -> (r: Self) {
        Goldilocks { repr: 1 }
    }

    fn from_u64(v: u64) -> (r: Self) {
        Goldilocks::new(v)
    }

    fn zeta() -> (r: Self) {
        Goldilocks { repr: ZETA }
    }

    fn delta() -> (r: Self) {
        Goldilocks { repr: DELTA }
    }

    fn add(&self, rhs: &Self) -> (r: Self) {
        proof {
            lemma_add_mod_noop(self.repr as int, rhs.repr as int, MODULUS as int);
        }
        Goldilocks::reduce(self.repr as u128 + rhs.repr as u128)
    }

    fn sub(&self, rhs: &Self) -> (r: Self) {
        let m: u128 = MODULUS as u128;
        let b: u128 = (rhs.repr % MODULUS) as u128;
        proof {
            lemma_sub_mod_noop(self.repr as int, rhs.repr as int, MODULUS as int);
            lemma_sub_mod_noop_right(self.repr as int, rhs.repr as int, MODULUS as int);
            lemma_mod_add_multiples_vanish(self.repr as int - b as int, MODULUS as int);
        }
        Goldilocks::reduce(self.repr as u128 + m - b)
    }

    fn mul(&self, rhs: &Self) -> (r: Self) {
        proof {
            lemma_mul_mod_noop(self.repr as int, rhs.repr as int, MODULUS as int);
            assert(0 <= (self.repr as int) * (rhs.repr as int) <= 0xffff_ffff_ffff_ffff
                * 0xffff_ffff_ffff_ffff) by (nonlinear_arith)
                requires
                    0 <= self.repr <= 0xffff_ffff_ffff_ffff,
                    0 <= rhs.repr <= 0xffff_ffff_ffff_ffff,
            ;
        }
        Goldilocks::reduce((self.repr as u128) * (rhs.repr as u128))
    }

    fn neg(&self) -> (r: Self) {
        let m: u128 = MODULUS as u128;
        let a: u128 = (self.repr % MODULUS) as u128;
        proof {
            lemma_sub_mod_noop_right(0, self.repr as int, MODULUS as int);
            lemma_mod_add_multiples_vanish(-(a as int), MODULUS as int);
        }
        Goldilocks::reduce(m - a)
    }

    fn square(&self) -> (r: Self) {
        self.mul(self)
    }

    fn double(&self) -> (r: Self) {
        self.add(self)
    }

    fn pow_vartime(&self, exp: u64) -> (r: Self) {
        let mut result = Goldilocks::one();
        let mut base = *self;
        let mut e: u64 = exp;
        proof {
            lemma_fmul_one_left(MODULUS as int, fpow(MODULUS as int, self.value(), exp as nat));
            lemma_fpow_residue(MODULUS as int, self.value(), exp as nat);
        }
        while e > 0
            invariant
                fmul(MODULUS as int, result.value(), fpow(MODULUS as int, base.value(), e as nat))
                    == fpow(MODULUS as int, self.value(), exp as nat),
            decreases e,
        {
            let ghost p = MODULUS as int;
            let ghost b = base.value();
            let ghost acc = result.value();
            if e % 2 == 1 {
                result = result.mul(&base);
            }
            proof {
                let h = (e / 2) as nat;
                lemma_fpow_square(p, b, h);
                if e % 2 == 1 {
                    // acc * b^(2h+1) = (acc * b) * (b*b)^h
                    assert(fpow(p, b, e as nat) == fmul(p, fpow(p, b, (2 * h) as nat), b));
                    lemma_fmul_comm(p, fpow(p, b, (2 * h) as nat), b);
                    lemma_fmul_assoc(p, acc, b, fpow(p, b, (2 * h) as nat));
                } else {
                    assert(e as nat == 2 * h);
                }
            }
            base = base.mul(&base);
            e = e / 2;
        }
        proof {
            lemma_fmul_one_right(MODULUS as int, result.value());
        }
        result
    }

    fn is_equal(&self, rhs: &Self) -> (r: bool) {
        self.repr % MODULUS == rhs.repr % MODULUS
    }
}

} // verus!
