use crate::calculation::{horner, lemma_horner_push};
use crate::field::{fadd, fmul, fsub, Field};
use crate::keys::ProvingKey;
use crate::polynomial::{ExtendedLagrangeCoeff, Polynomial};
use crate::rotation::{get_rotation_idx, rot_idx};
use vstd::prelude::*;

verus! {

/// A committed lookup argument: the running product and the permuted input
/// and table, on the extended coset.
#[derive(Debug)]
pub struct Committed<F> {
    pub product_coset: Polynomial<F, ExtendedLagrangeCoeff>,
    pub permuted_input_coset: Polynomial<F, ExtendedLagrangeCoeff>,
    pub permuted_table_coset: Polynomial<F, ExtendedLagrangeCoeff>,
}

/// What the lookup identities of one row need besides the cosets: the value
/// of the lookup's graph at the row, the difference of the permuted input
/// and the permuted table at the row, and the rows one step after and one
/// step before it.
#[derive(Clone, Copy, Debug)]
pub struct RowData<F> {
    pub table_value: F,
    pub a_minus_s: F,
    pub r_next: usize,
    pub r_prev: usize,
}

/// The residues that the identities of one lookup argument read.
pub struct LookupView {
    /// The order of the field.
    pub modulus: int,
    /// The number of rows of the extended domain.
    pub size: int,
    /// The rows that one step of the evaluation subgroup spans.
    pub rot_scale: int,
    pub product: Seq<int>,
    pub permuted_input: Seq<int>,
    pub permuted_table: Seq<int>,
    pub l0: Seq<int>,
    pub l_last: Seq<int>,
    pub l_active_row: Seq<int>,
    pub beta: int,
    pub gamma: int,
}

impl LookupView {
    /// The row one step after `idx`.
    pub open spec fn r_next(self, idx: int) -> int {
        rot_idx(idx, 1, self.rot_scale, self.size)
    }

    /// The row one step before `idx`.
    pub open spec fn r_prev(self, idx: int) -> int {
        rot_idx(idx, -1, self.rot_scale, self.size)
    }

    /// The difference of the permuted input and the permuted table at `idx`.
    pub open spec fn a_minus_s(self, idx: int) -> int {
        fsub(self.modulus, self.permuted_input[idx], self.permuted_table[idx])
    }

    /// The five residuals at row `idx`, computed from the given row data, in
    /// the order in which they are accumulated:
    /// `(1 - z) * l_0`,
    /// `(z^2 - z) * l_last`,
    /// `(z(omega X) * (a' + beta) * (s' + gamma) - z * table_value) * l_active`,
    /// `(a' - s') * l_0`, and
    /// `(a' - s') * (a' - a'(omega^-1 X)) * l_active`.
    pub open spec fn terms_from(
        self,
        idx: int,
        table_value: int,
        a_minus_s: int,
        r_next: int,
        r_prev: int,
    ) -> Seq<int> {
        let p = self.modulus;
        let z = self.product[idx];
        let a = self.permuted_input[idx];
        let s = self.permuted_table[idx];
        seq![
            fmul(p, fsub(p, 1, z), self.l0[idx]),
            fmul(p, fsub(p, fmul(p, z, z), z), self.l_last[idx]),
            fmul(
                p,
                fsub(
                    p,
                    fmul(
                        p,
                        fmul(p, self.product[r_next], fadd(p, a, self.beta)),
                        fadd(p, s, self.gamma),
                    ),
                    fmul(p, z, table_value),
                ),
                self.l_active_row[idx],
            ),
            fmul(p, a_minus_s, self.l0[idx]),
            fmul(
                p,
                fmul(p, a_minus_s, fsub(p, a, self.permuted_input[r_prev])),
                self.l_active_row[idx],
            ),
        ]
    }

    /// The residuals of the lookup identities at row `idx`, where the
    /// lookup's graph has the value `table_value`.
    pub open spec fn terms(self, idx: int, table_value: int) -> Seq<int> {
        self.terms_from(
            idx,
            table_value,
            self.a_minus_s(idx),
            self.r_next(idx),
            self.r_prev(idx),
        )
    }
}

/// What the identities of one lookup argument read, as residues.
pub open spec fn lookup_view<F: Field>(
    pk: &ProvingKey<F>,
    lookup: &Committed<F>,
    beta: F,
    gamma: F,
) -> LookupView {
    LookupView {
        modulus: F::modulus(),
        size: pk.size(),
        rot_scale: pk.vk.domain.rot_scale(),
        product: lookup.product_coset@,
        permuted_input: lookup.permuted_input_coset@,
        permuted_table: lookup.permuted_table_coset@,
        l0: pk.l0@,
        l_last: pk.l_last@,
        l_active_row: pk.l_active_row@,
        beta: beta.value(),
        gamma: gamma.value(),
    }
}

impl<F: Field> Committed<F> {
    /// Whether each of the three polynomials has one value for each row of
    /// the extended domain of `pk`.
    pub open spec fn fits(&self, pk: &ProvingKey<F>) -> bool {
        &&& self.product_coset@.len() == pk.size()
        &&& self.permuted_input_coset@.len() == pk.size()
        &&& self.permuted_table_coset@.len() == pk.size()
    }
}

/// The row data of the lookup identities at row `idx`, where the lookup's
/// graph has the value `table_value`.
pub fn lookup_row_data<F: Field>(
    idx: usize,
    table_value: F,
    pk: &ProvingKey<F>,
    lookup: &Committed<F>,
) -> (r: RowData<F>)
    requires
        pk.wf(),
        lookup.fits(pk),
        idx < pk.size(),
    ensures
        r.table_value == table_value,
        r.a_minus_s.value() == fsub(
            F::modulus(),
            lookup.permuted_input_coset@[idx as int],
            lookup.permuted_table_coset@[idx as int],
        ),
        r.r_next == rot_idx(idx as int, 1, pk.vk.domain.rot_scale(), pk.size()),
        r.r_prev == rot_idx(idx as int, -1, pk.vk.domain.rot_scale(), pk.size()),
        r.r_next < pk.size(),
        r.r_prev < pk.size(),
{
    let size = pk.vk.domain.extended_len();
    let isize: i32 = size as i32;
    let rot_scale = pk.vk.domain.rotation_scale();
    let r_next = get_rotation_idx(idx, 1, rot_scale, isize);
    let r_prev = get_rotation_idx(idx, -1, rot_scale, isize);
    let a_minus_s = lookup.permuted_input_coset.get(idx).sub(&lookup.permuted_table_coset.get(idx));
    RowData { table_value, a_minus_s, r_next, r_prev }
}

/// Accumulates the five residuals of the lookup identities at row `idx`,
/// computed from the row data, into `value`: each residual in turn is added
/// to y times what was accumulated before it.
pub fn lookup_fold<F: Field>(
    value: &F,
    idx: usize,
    data: &RowData<F>,
    pk: &ProvingKey<F>,
    lookup: &Committed<F>,
    y: &F,
    beta: &F,
    gamma: &F,
) -> (r: F)
    requires
        pk.wf(),
        lookup.fits(pk),
        idx < pk.size(),
        data.r_next < pk.size(),
        data.r_prev < pk.size(),
    ensures
        r.value() == horner(
            F::modulus(),
            value.value(),
            lookup_view(pk, lookup, *beta, *gamma).terms_from(
                idx as int,
                data.table_value.value(),
                data.a_minus_s.value(),
                data.r_next as int,
                data.r_prev as int,
            ),
            y.value(),
        ),
{
    let ghost p = F::modulus();
    let ghost view = lookup_view(pk, lookup, *beta, *gamma);
    let ghost terms = view.terms_from(
        idx as int,
        data.table_value.value(),
        data.a_minus_s.value(),
        data.r_next as int,
        data.r_prev as int,
    );
    let one = F::one();
    let l0 = pk.l0.get(idx);
    let l_last = pk.l_last.get(idx);
    let l_active_row = pk.l_active_row.get(idx);
    let product = lookup.product_coset.get(idx);
    let permuted_input = lookup.permuted_input_coset.get(idx);
    let permuted_table = lookup.permuted_table_coset.get(idx);
    let a_minus_s = data.a_minus_s;

    // l_0(X) * (1 - z(X)) = 0
    let v1 = value.mul(y).add(&one.sub(&product).mul(&l0));
    // l_last(X) * (z(X)^2 - z(X)) = 0
    let v2 = v1.mul(y).add(&product.mul(&product).sub(&product).mul(&l_last));
    // (1 - (l_last(X) + l_blind(X))) * (
    //   z(\omega X) (a'(X) + \beta) (s'(X) + \gamma)
    //   - z(X) (\theta^{m-1} a_0(X) + ... + a_{m-1}(X) + \beta)
    //          (\theta^{m-1} s_0(X) + ... + s_{m-1}(X) + \gamma)
    // ) = 0
    let v3 = v2.mul(y).add(
        &lookup.product_coset.get(data.r_next).mul(&permuted_input.add(beta)).mul(
            &permuted_table.add(gamma),
        ).sub(&product.mul(&data.table_value)).mul(&l_active_row),
    );
    // Check that the first values in the permuted input expression and permuted
    // fixed expression are the same.
    // l_0(X) * (a'(X) - s'(X)) = 0
    let v4 = v3.mul(y).add(&a_minus_s.mul(&l0));
    // Check that each value in the permuted lookup input expression is either
    // equal to the value above it, or the value at the same index in the
    // permuted table expression.
    // (1 - (l_last + l_blind)) * (a′(X) − s′(X))⋅(a′(X) − a′(\omega^{-1} X)) = 0
    let v5 = v4.mul(y).add(
        &a_minus_s.mul(&permuted_input.sub(&lookup.permuted_input_coset.get(data.r_prev))).mul(
            &l_active_row,
        ),
    );
    proof {
        let s0 = Seq::<int>::empty();
        let s1 = s0.push(terms[0]);
        let s2 = s1.push(terms[1]);
        let s3 = s2.push(terms[2]);
        let s4 = s3.push(terms[3]);
        let s5 = s4.push(terms[4]);
        lemma_horner_push(p, value.value(), s0, terms[0], y.value());
        lemma_horner_push(p, value.value(), s1, terms[1], y.value());
        lemma_horner_push(p, value.value(), s2, terms[2], y.value());
        lemma_horner_push(p, value.value(), s3, terms[3], y.value());
        lemma_horner_push(p, value.value(), s4, terms[4], y.value());
        assert(s5 =~= terms);
    }
    v5
}

/// Accumulates the five residuals of the lookup identities at row `idx`
/// into `value`, where the lookup's graph has the value `table_value`.
pub fn lookup_row<F: Field>(
    value: &F,
    idx: usize,
    table_value: F,
    pk: &ProvingKey<F>,
    lookup: &Committed<F>,
    y: &F,
    beta: &F,
    gamma: &F,
) -> (r: F)
    requires
        pk.wf(),
        lookup.fits(pk),
        idx < pk.size(),
    ensures
        r.value() == horner(
            F::modulus(),
            value.value(),
            lookup_view(pk, lookup, *beta, *gamma).terms(idx as int, table_value.value()),
            y.value(),
        ),
{
    let data = lookup_row_data(idx, table_value, pk, lookup);
    lookup_fold(value, idx, &data, pk, lookup, y, beta, gamma)
}

} // verus!
