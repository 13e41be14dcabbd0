use crate::circuit::{Any, Column, ConstraintSystem};
use crate::field::Field;
use crate::polynomial::{table_values, ExtendedLagrangeCoeff, Polynomial};
use vstd::prelude::*;

verus! {

/// The largest logarithm of an extended domain whose rows an `i32` can
/// count.
pub const MAX_EXTENDED_K: u32 = 30;

/// What the evaluator reads of the evaluation domain: the logarithm `k` of
/// the size of the evaluation subgroup, the logarithm `extended_k` of the
/// size of the extended coset, and a generator of the extended domain.
#[derive(Debug)]
pub struct EvaluationDomain<F> {
    pub k: u32,
    pub extended_k: u32,
    pub extended_omega: F,
}

/// Two to the power `k`.
pub open spec fn pow2(k: nat) -> int
    decreases k,
{
    if k == 0 {
        1
    } else {
        2 * pow2((k - 1) as nat)
    }
}

/// Powers of two grow with the exponent.
pub proof fn lemma_pow2_monotone(a: nat, b: nat)
    requires
        a <= b,
    ensures
        0 < pow2(a) <= pow2(b),
    decreases b,
{
    if b > a {
        lemma_pow2_monotone(a, (b - 1) as nat);
    } else if a > 0 {
        lemma_pow2_monotone((a - 1) as nat, (a - 1) as nat);
    }
}

/// Two to the power thirty.
pub proof fn lemma_pow2_30()
    ensures
        pow2(30) == 0x4000_0000,
{
    reveal_with_fuel(pow2, 31);
}

/// Two to the power `k`, for `k` up to thirty.
fn power_of_two(k: u32) -> (r: u32)
    requires
        k <= MAX_EXTENDED_K,
    ensures
        r == pow2(k as nat),
        0 < r <= 0x4000_0000,
{
    let mut r: u32 = 1;
    let mut i: u32 = 0;
    while i < k
        invariant
            i <= k <= MAX_EXTENDED_K,
            r == pow2(i as nat),
        decreases k - i,
    {
        proof {
            lemma_pow2_monotone((i + 1) as nat, 30);
            lemma_pow2_30();
        }
        r = r * 2;
        i += 1;
    }
    proof {
        lemma_pow2_monotone(k as nat, 30);
        lemma_pow2_30();
    }
    r
}

impl<F: Field> EvaluationDomain<F> {
    /// The extended domain is larger than the evaluation subgroup, and an
    /// `i32` can count its rows.
    pub open spec fn wf(&self) -> bool {
        self.k < self.extended_k <= MAX_EXTENDED_K
    }

    /// The number of rows of the extended domain.
    pub open spec fn size(&self) -> int {
        pow2(self.extended_k as nat)
    }

    /// The number of rows of the extended domain that one step of the
    /// evaluation subgroup spans.
    pub open spec fn rot_scale(&self) -> int {
        pow2((self.extended_k - self.k) as nat)
    }

    /// Get the size of the domain
    pub fn k(&self) -> (r: u32)
        ensures
            r == self.k,
    {
        self.k
    }

    /// Get the size of the extended domain
    pub fn extended_k(&self) -> (r: u32)
        ensures
            r == self.extended_k,
    {
        self.extended_k
    }

    /// Get the size of the extended domain
    pub fn extended_len(&self) -> (r: usize)
        requires
            self.wf(),
        ensures
            r == self.size(),
            0 < r <= 0x4000_0000,
    {
        power_of_two(self.extended_k) as usize
    }

    /// The number of rows of the extended domain that one step of the
    /// evaluation subgroup spans.
    pub fn rotation_scale(&self) -> (r: i32)
        requires
            self.wf(),
        ensures
            r == self.rot_scale(),
            0 < r <= 0x4000_0000,
    {
        power_of_two(self.extended_k - self.k) as i32
    }

    /// Get the generator of the extended domain's multiplicative subgroup
    pub fn get_extended_omega(&self) -> (r: F)
        ensures
            r == self.extended_omega,
    {
        self.extended_omega
    }

    /// Returns an empty (zero) polynomial in the extended Lagrange
    /// coefficient basis
    pub fn empty_extended(&self) -> (r: Polynomial<F, ExtendedLagrangeCoeff>)
        requires
            self.wf(),
        ensures
            r@.len() == self.size(),
            forall|i: int| 0 <= i < r@.len() ==> r@[i] == 0,
    {
        let size = self.extended_len();
        let mut values: Vec<F> = Vec::new();
        let mut i: usize = 0;
        while i < size
            invariant
                i <= size,
                values@.len() == i,
                forall|j: int| 0 <= j < i ==> (#[trigger] values@[j]).value() == 0,
            decreases size - i,
        {
            values.push(F::zero());
            i += 1;
        }
        Polynomial::from_values(values)
    }
}

/// What the evaluator reads of the verifying key.
#[derive(Debug)]
pub struct VerifyingKey<F> {
    pub domain: EvaluationDomain<F>,
    pub cs: ConstraintSystem<F>,
}

/// The cosets of the permutation polynomials, one for each column of the
/// permutation argument.
#[derive(Debug)]
pub struct PermutationProvingKey<F> {
    pub cosets: Vec<Polynomial<F, ExtendedLagrangeCoeff>>,
}

/// What the evaluator reads of the proving key. All polynomials are given
/// by their values on the extended coset.
#[derive(Debug)]
pub struct ProvingKey<F> {
    pub vk: VerifyingKey<F>,
    /// The Lagrange polynomial of the first row.
    pub l0: Polynomial<F, ExtendedLagrangeCoeff>,
    /// The Lagrange polynomial of the last row that is not left to blinding.
    pub l_last: Polynomial<F, ExtendedLagrangeCoeff>,
    /// One minus the Lagrange polynomials of the last row and of the rows
    /// left to blinding.
    pub l_active_row: Polynomial<F, ExtendedLagrangeCoeff>,
    pub fixed_cosets: Vec<Polynomial<F, ExtendedLagrangeCoeff>>,
    pub permutation: PermutationProvingKey<F>,
}

/// Whether every polynomial of `table` has exactly `size` entries.
pub open spec fn all_of_size<F: Field>(
    table: Seq<Polynomial<F, ExtendedLagrangeCoeff>>,
    size: int,
) -> bool {
    forall|c: int| 0 <= c < table.len() ==> (#[trigger] table[c])@.len() == size
}

/// Whether `column` is one of `fixed` fixed, `advice` advice or `instance`
/// instance columns.
pub open spec fn column_exists(column: Column, fixed: int, advice: int, instance: int) -> bool {
    match column.column_type {
        Any::Advice => column.index < advice,
        Any::Fixed => column.index < fixed,
        Any::Instance => column.index < instance,
    }
}

impl<F: Field> ProvingKey<F> {
    /// The number of rows of the extended domain.
    pub open spec fn size(&self) -> int {
        self.vk.domain.size()
    }

    /// The preconditions on the domain and the shape of the key: the
    /// extended domain is larger than the evaluation subgroup; the blinded
    /// rows and the row before them fit the domain; every polynomial of the
    /// key has one value for each row of the extended domain; and the
    /// permutation argument has a coset for each of its columns.
    pub open spec fn wf(&self) -> bool {
        &&& self.vk.domain.wf()
        &&& self.vk.cs.blinding_factors + 1 <= self.size()
        &&& self.l0@.len() == self.size()
        &&& self.l_last@.len() == self.size()
        &&& self.l_active_row@.len() == self.size()
        &&& all_of_size(self.fixed_cosets@, self.size())
        &&& all_of_size(self.permutation.cosets@, self.size())
        &&& self.permutation.cosets@.len() == self.vk.cs.permutation.columns@.len()
    }

    /// Whether the advice and instance columns of one proof have one value
    /// for each row of the extended domain, and every column of the
    /// permutation argument exists.
    pub open spec fn fits_witness(
        &self,
        advice: Seq<Polynomial<F, ExtendedLagrangeCoeff>>,
        instance: Seq<Polynomial<F, ExtendedLagrangeCoeff>>,
    ) -> bool {
        &&& all_of_size(advice, self.size())
        &&& all_of_size(instance, self.size())
        &&& forall|j: int|
            0 <= j < self.vk.cs.permutation.columns@.len() ==> column_exists(
                #[trigger] self.vk.cs.permutation.columns@[j],
                self.fixed_cosets@.len() as int,
                advice.len() as int,
                instance.len() as int,
            )
    }
}

/// The values of `column` on the extended coset.
pub open spec fn column_values(
    column: Column,
    fixed: Seq<Seq<int>>,
    advice: Seq<Seq<int>>,
    instance: Seq<Seq<int>>,
) -> Seq<int> {
    match column.column_type {
        Any::Advice => advice[column.index as int],
        Any::Fixed => fixed[column.index as int],
        Any::Instance => instance[column.index as int],
    }
}

/// The polynomial of `column` among the columns of its kind.
pub fn column_polynomial<'a, F: Field>(
    column: &Column,
    fixed: &'a [Polynomial<F, ExtendedLagrangeCoeff>],
    advice: &'a [Polynomial<F, ExtendedLagrangeCoeff>],
    instance: &'a [Polynomial<F, ExtendedLagrangeCoeff>],
) -> (r: &'a Polynomial<F, ExtendedLagrangeCoeff>)
    requires
        column_exists(*column, fixed@.len() as int, advice@.len() as int, instance@.len() as int),
    ensures
        r@ == column_values(
            *column,
            table_values(fixed@),
            table_values(advice@),
            table_values(instance@),
        ),
        *r == match column.column_type {
            Any::Advice => advice@[column.index as int],
            Any::Fixed => fixed@[column.index as int],
            Any::Instance => instance@[column.index as int],
        },
{
    match column.column_type() {
        Any::Advice => &advice[column.index()],
        Any::Fixed => &fixed[column.index()],
        Any::Instance => &instance[column.index()],
    }
}

} // verus!
