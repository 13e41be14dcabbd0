use vstd::arithmetic::div_mod::*;
use vstd::prelude::*;

verus! {

/// Sum of two residues modulo `p`.
pub open spec fn fadd(p: int, a: int, b: int) -> int {
    (a + b) % p
}

/// Difference of two residues modulo `p`.
pub open spec fn fsub(p: int, a: int, b: int) -> int {
    (a - b) % p
}

/// Product of two residues modulo `p`.
pub open spec fn fmul(p: int, a: int, b: int) -> int {
    (a * b) % p
}

/// Additive inverse of a residue modulo `p`.
pub open spec fn fneg(p: int, a: int) -> int {
    (-a) % p
}

/// `base` raised to `exp` modulo `p`.
pub open spec fn fpow(p: int, base: int, exp: nat) -> int
    decreases exp,
{
    if exp == 0 {
        1int % p
    } else {
        fmul(p, fpow(p, base, (exp - 1) as nat), base)
    }
}

/// Whether `a` is the canonical representative of a residue modulo `p`.
pub open spec fn is_residue(p: int, a: int) -> bool {
    0 <= a < p
}

/// Whether every entry of `s` is a canonical residue modulo `p`.
pub open spec fn all_residues(p: int, s: Seq<int>) -> bool {
    forall|i: int| 0 <= i < s.len() ==> is_residue(p, #[trigger] s[i])
}

/// The integers that residues are stated over. Implementations of `Field`
/// name this type in the members that only specifications read.
pub type Int = int;

/// A prime field with more than two elements.
///
/// Every element stands for exactly one residue `value()` in `[0, modulus())`;
/// the arithmetic of the field is the arithmetic of those residues.
pub trait Field: Sized + Copy {
    /// The number of elements of the field.
    spec fn modulus() -> int;

    /// The residue this element stands for.
    spec fn value(&self) -> int;

    /// The residue of the distinguished cube root of unity.
    spec fn zeta_value() -> int;

    /// The residue of the distinguished generator used to separate the
    /// columns of a permutation argument.
    spec fn delta_value() -> int;

    /// The field has more than two elements, its two distinguished
    /// constants are canonical residues other than zero, and the cube of the
    /// first is one.
    proof fn lemma_modulus()
        ensures
            Self::modulus() > 2,
            0 < Self::zeta_value() < Self::modulus(),
            0 < Self::delta_value() < Self::modulus(),
            fpow(Self::modulus(), Self::zeta_value(), 3) == 1,
    ;

    /// The residue of an element is canonical.
    proof fn lemma_value(&self)
        ensures
            is_residue(Self::modulus(), self.value()),
    ;

    /// The additive identity.
    fn zero() -> (r: Self)
        ensures
            r.value() == 0,
    ;

    /// The multiplicative identity.
    fn one() -> (r: Self)
        ensures
            r.value() == 1,
    ;

    /// The element that the integer `v` stands for.
    fn from_u64(v: u64) -> (r: Self)
        ensures
            r.value() == (v as int) % Self::modulus(),
    ;

    /// The distinguished cube root of unity.
    fn zeta() -> (r: Self)
        ensures
            r.value() == Self::zeta_value(),
    ;

    /// The distinguished generator that separates the columns of a
    /// permutation argument.
    fn delta() -> (r: Self)
        ensures
            r.value() == Self::delta_value(),
    ;

    /// The sum of two elements.
    fn add(&self, rhs: &Self) -> (r: Self)
        ensures
            r.value() == fadd(Self::modulus(), self.value(), rhs.value()),
    ;

    /// The difference of two elements.
    fn sub(&self, rhs: &Self) -> (r: Self)
        ensures
            r.value() == fsub(Self::modulus(), self.value(), rhs.value()),
    ;

    /// The product of two elements.
    fn mul(&self, rhs: &Self) -> (r: Self)
        ensures
            r.value() == fmul(Self::modulus(), self.value(), rhs.value()),
    ;

    /// The additive inverse of an element.
    fn neg(&self) -> (r: Self)
        ensures
            r.value() == fneg(Self::modulus(), self.value()),
    ;

    /// The square of an element.
    fn square(&self) -> (r: Self)
        ensures
            r.value() == fmul(Self::modulus(), self.value(), self.value()),
    ;

    /// Twice an element.
    fn double(&self) -> (r: Self)
        ensures
            r.value() == fadd(Self::modulus(), self.value(), self.value()),
    ;

    /// An element raised to `exp`, in time that depends on `exp`.
    fn pow_vartime(&self, exp: u64) -> (r: Self)
        ensures
            r.value() == fpow(Self::modulus(), self.value(), exp as nat),
    ;

    /// Whether two elements stand for the same residue.
    fn is_equal(&self, rhs: &Self) -> (r: bool)
        ensures
            r == (self.value() == rhs.value()),
    ;
}

/// The residues that a sequence of field elements stands for.
pub open spec fn field_values<F: Field>(s: Seq<F>) -> Seq<int> {
    Seq::new(s.len(), |i: int| s[i].value())
}

/// The residues of field elements are canonical.
pub proof fn lemma_field_values<F: Field>(s: Seq<F>)
    ensures
        all_residues(F::modulus(), field_values(s)),
{
    assert forall|i: int| 0 <= i < s.len() implies is_residue(
        F::modulus(),
        #[trigger] field_values(s)[i],
    ) by {
        s[i].lemma_value();
    }
}

/// The product is commutative.
pub proof fn lemma_fmul_comm(p: int, a: int, b: int)
    ensures
        fmul(p, a, b) == fmul(p, b, a),
{
    assert(a * b == b * a) by (nonlinear_arith);
}

/// The product is associative.
pub proof fn lemma_fmul_assoc(p: int, a: int, b: int, c: int)
    requires
        p > 0,
    ensures
        fmul(p, fmul(p, a, b), c) == fmul(p, a, fmul(p, b, c)),
{
    lemma_mul_mod_noop_left(a * b, c, p);
    lemma_mul_mod_noop_right(a, b * c, p);
    assert((a * b) * c == a * (b * c)) by (nonlinear_arith);
}

/// One is neutral for the product, on the left.
pub proof fn lemma_fmul_one_left(p: int, a: int)
    requires
        is_residue(p, a),
        p > 1,
    ensures
        fmul(p, 1, a) == a,
{
    lemma_small_mod(a as nat, p as nat);
}

/// One is neutral for the product, on the right.
pub proof fn lemma_fmul_one_right(p: int, a: int)
    requires
        is_residue(p, a),
    ensures
        fmul(p, a, 1int % p) == a,
        fmul(p, a, 1) == a,
{
    lemma_small_mod(a as nat, p as nat);
    if p == 1 {
        assert(a == 0);
    } else {
        lemma_small_mod(1, p as nat);
    }
}

/// A power is a canonical residue.
pub proof fn lemma_fpow_residue(p: int, base: int, exp: nat)
    requires
        p > 0,
    ensures
        is_residue(p, fpow(p, base, exp)),
    decreases exp,
{
    if exp == 0 {
        lemma_mod_bound(1, p);
    } else {
        lemma_mod_bound(fpow(p, base, (exp - 1) as nat) * base, p);
    }
}

/// Powers add their exponents.
pub proof fn lemma_fpow_add(p: int, base: int, m: nat, n: nat)
    requires
        p > 0,
    ensures
        fpow(p, base, m + n) == fmul(p, fpow(p, base, m), fpow(p, base, n)),
    decreases n,
{
    if n == 0 {
        lemma_fpow_residue(p, base, m);
        lemma_fmul_one_right(p, fpow(p, base, m));
    } else {
        lemma_fpow_add(p, base, m, (n - 1) as nat);
        assert(m + n - 1 == m + (n - 1) as nat);
        lemma_fmul_assoc(p, fpow(p, base, m), fpow(p, base, (n - 1) as nat), base);
    }
}

/// Squaring the base doubles the exponent.
pub proof fn lemma_fpow_square(p: int, base: int, n: nat)
    requires
        p > 0,
    ensures
        fpow(p, fmul(p, base, base), n) == fpow(p, base, 2 * n),
    decreases n,
{
    if n > 0 {
        lemma_fpow_square(p, base, (n - 1) as nat);
        let k = (2 * (n - 1)) as nat;
        assert(fpow(p, base, 2 * n) == fmul(p, fmul(p, fpow(p, base, k), base), base)) by {
            assert((2 * n - 1) as nat == k + 1);
            assert(fpow(p, base, (2 * n - 1) as nat) == fmul(p, fpow(p, base, k), base));
        }
        lemma_fmul_assoc(p, fpow(p, base, k), base, base);
    }
}

/// Sums, differences, products and negations are canonical residues.
pub proof fn lemma_results_are_residues(p: int, a: int, b: int)
    requires
        p > 0,
    ensures
        is_residue(p, fadd(p, a, b)),
        is_residue(p, fsub(p, a, b)),
        is_residue(p, fmul(p, a, b)),
        is_residue(p, fneg(p, a)),
{
    lemma_mod_bound(a + b, p);
    lemma_mod_bound(a - b, p);
    lemma_mod_bound(a * b, p);
    lemma_mod_bound(-a, p);
}

/// Zero is neutral for the sum, and its own negation.
pub proof fn lemma_fadd_zero(p: int, a: int)
    requires
        is_residue(p, a),
    ensures
        fadd(p, a, 0) == a,
        fadd(p, 0, a) == a,
        fneg(p, 0) == 0,
{
    lemma_small_mod(a as nat, p as nat);
    lemma_small_mod(0, p as nat);
}

/// Adding a negation is subtracting.
pub proof fn lemma_fadd_neg_is_fsub(p: int, a: int, b: int)
    requires
        p > 0,
    ensures
        fadd(p, a, fneg(p, b)) == fsub(p, a, b),
{
    lemma_add_mod_noop_right(a, -b, p);
}

/// A product with zero is zero.
pub proof fn lemma_fmul_zero(p: int, a: int)
    requires
        p > 0,
    ensures
        fmul(p, a, 0) == 0,
        fmul(p, 0, a) == 0,
{
    assert(a * 0 == 0 && 0 * a == 0) by (nonlinear_arith);
    lemma_small_mod(0, p as nat);
}

/// A product with two is a doubling.
pub proof fn lemma_fmul_two(p: int, a: int)
    ensures
        fmul(p, a, 2) == fadd(p, a, a),
        fmul(p, 2, a) == fadd(p, a, a),
{
    assert(a * 2 == a + a && 2 * a == a + a) by (nonlinear_arith);
}

} // verus!
