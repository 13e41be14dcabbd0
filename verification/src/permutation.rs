use crate::calculation::horner;
use crate::field::{fadd, fmul, fpow, fsub, Field};
use crate::keys::{column_polynomial, column_values, ProvingKey};
use crate::polynomial::{table_values, ExtendedLagrangeCoeff, Polynomial};
use crate::rotation::{get_rotation_idx, rot_idx};
use vstd::prelude::*;

verus! {

/// One set of a committed permutation argument: the running product of a
/// chunk of columns, on the extended coset.
#[derive(Debug)]
pub struct CommittedSet<F> {
    pub permutation_product_coset: Polynomial<F, ExtendedLagrangeCoeff>,
}

/// A committed permutation argument.
#[derive(Debug)]
pub struct Committed<F> {
    pub sets: Vec<CommittedSet<F>>,
}

/// The number of chunks of up to `chunk_len` columns that `columns` columns
/// make.
pub open spec fn chunk_count(columns: int, chunk_len: int) -> int {
    columns / chunk_len + if columns % chunk_len == 0 {
        0int
    } else {
        1int
    }
}

/// The residues that the permutation identities of one proof read.
pub struct PermutationView {
    /// The order of the field.
    pub modulus: int,
    /// The number of rows of the extended domain.
    pub size: int,
    /// The rows that one step of the evaluation subgroup spans.
    pub rot_scale: int,
    /// The rotation to the last row that is not left to blinding.
    pub last_rotation: int,
    /// The number of columns of a set.
    pub chunk_len: int,
    /// The running products, one for each set.
    pub sets: Seq<Seq<int>>,
    /// The values of the permuted columns.
    pub columns: Seq<Seq<int>>,
    /// The permutation polynomials, one for each column.
    pub cosets: Seq<Seq<int>>,
    pub l0: Seq<int>,
    pub l_last: Seq<int>,
    pub l_active_row: Seq<int>,
    pub beta: int,
    pub gamma: int,
    /// The generator of the extended domain.
    pub omega: int,
    /// The distinguished cube root of unity.
    pub zeta: int,
    /// The generator that separates the columns.
    pub delta: int,
}

impl PermutationView {
    /// The row one step after `idx`.
    pub open spec fn r_next(self, idx: int) -> int {
        rot_idx(idx, 1, self.rot_scale, self.size)
    }

    /// The last row that is not left to blinding, seen from `idx`.
    pub open spec fn r_last(self, idx: int) -> int {
        rot_idx(idx, self.last_rotation, self.rot_scale, self.size)
    }

    /// `(1 - z_0) * l_0`: the first product starts at one.
    pub open spec fn first_term(self, idx: int) -> int {
        let p = self.modulus;
        fmul(p, fsub(p, 1, self.sets[0][idx]), self.l0[idx])
    }

    /// `(z_l^2 - z_l) * l_last`: the last product ends at zero or one.
    pub open spec fn last_term(self, idx: int) -> int {
        let p = self.modulus;
        let z = self.sets.last()[idx];
        fmul(p, fsub(p, fmul(p, z, z), z), self.l_last[idx])
    }

    /// `(z_i - z_{i-1}(omega^last X)) * l_0`: each product starts where the
    /// one before it ended.
    pub open spec fn stitch_term(self, i: int, idx: int) -> int {
        let p = self.modulus;
        fmul(p, fsub(p, self.sets[i][idx], self.sets[i - 1][self.r_last(idx)]), self.l0[idx])
    }

    /// `p_j + beta * s_j + gamma`.
    pub open spec fn left_factor(self, j: int, idx: int) -> int {
        let p = self.modulus;
        fadd(
            p,
            fadd(p, self.columns[j][idx], fmul(p, self.beta, self.cosets[j][idx])),
            self.gamma,
        )
    }

    /// `beta * zeta * omega^idx * delta^j`: the ladder starts anew at each
    /// row and climbs one power of delta with each column, across the sets.
    pub open spec fn delta_at(self, j: int, idx: int) -> int
        decreases j,
    {
        let p = self.modulus;
        if j <= 0 {
            fmul(p, fmul(p, self.beta, self.zeta), fpow(p, self.omega, idx as nat))
        } else {
            fmul(p, self.delta_at(j - 1, idx), self.delta)
        }
    }

    /// `p_j + delta^j * beta * X + gamma`.
    pub open spec fn right_factor(self, j: int, idx: int) -> int {
        let p = self.modulus;
        fadd(p, fadd(p, self.columns[j][idx], self.delta_at(j, idx)), self.gamma)
    }

    /// `start` times the left factors of the columns from `lo` up to `hi`.
    pub open spec fn left_product(self, start: int, lo: int, hi: int, idx: int) -> int
        decreases hi - lo,
    {
        if hi <= lo {
            start
        } else {
            fmul(
                self.modulus,
                self.left_product(start, lo, hi - 1, idx),
                self.left_factor(hi - 1, idx),
            )
        }
    }

    /// `start` times the right factors of the columns from `lo` up to `hi`.
    pub open spec fn right_product(self, start: int, lo: int, hi: int, idx: int) -> int
        decreases hi - lo,
    {
        if hi <= lo {
            start
        } else {
            fmul(
                self.modulus,
                self.right_product(start, lo, hi - 1, idx),
                self.right_factor(hi - 1, idx),
            )
        }
    }

    /// The first column of chunk `i`.
    pub open spec fn chunk_start(self, i: int) -> int {
        if i * self.chunk_len <= self.columns.len() {
            i * self.chunk_len
        } else {
            self.columns.len() as int
        }
    }

    /// `(z_i(omega X) * prod_j left_j - z_i * prod_j right_j) * l_active`:
    /// the product of set `i` advances by the quotient of the two products
    /// over the columns of its chunk.
    pub open spec fn chunk_term(self, i: int, idx: int) -> int {
        let p = self.modulus;
        let lo = self.chunk_start(i);
        let hi = self.chunk_start(i + 1);
        fmul(
            p,
            fsub(
                p,
                self.left_product(self.sets[i][self.r_next(idx)], lo, hi, idx),
                self.right_product(self.sets[i][idx], lo, hi, idx),
            ),
            self.l_active_row[idx],
        )
    }

    /// The boundary terms of the first and of the last set, in this order.
    pub open spec fn boundary_terms(self, idx: int) -> Seq<int> {
        seq![self.first_term(idx), self.last_term(idx)]
    }

    /// The stitching terms of the sets after the first, in order.
    pub open spec fn stitch_terms(self, idx: int) -> Seq<int> {
        Seq::new((self.sets.len() - 1) as nat, |i: int| self.stitch_term(i + 1, idx))
    }

    /// The terms of the chunks, one for each set, in order.
    pub open spec fn chunk_terms(self, idx: int) -> Seq<int> {
        Seq::new(self.sets.len(), |i: int| self.chunk_term(i, idx))
    }

    /// The residuals of the permutation identities at row `idx`, in the
    /// order in which they are accumulated: the two boundary terms, the
    /// stitching terms, and the terms of the chunks.
    pub open spec fn terms(self, idx: int) -> Seq<int> {
        self.boundary_terms(idx) + self.stitch_terms(idx) + self.chunk_terms(idx)
    }
}

/// The residues of the running products of the sets.
pub open spec fn set_values<F: Field>(sets: Seq<CommittedSet<F>>) -> Seq<Seq<int>> {
    Seq::new(sets.len(), |i: int| sets[i].permutation_product_coset@)
}

/// What the permutation identities of one proof read, as residues.
pub open spec fn permutation_view<F: Field>(
    pk: &ProvingKey<F>,
    advice: Seq<Polynomial<F, ExtendedLagrangeCoeff>>,
    instance: Seq<Polynomial<F, ExtendedLagrangeCoeff>>,
    permutation: &Committed<F>,
    beta: F,
    gamma: F,
) -> PermutationView {
    PermutationView {
        modulus: F::modulus(),
        size: pk.size(),
        rot_scale: pk.vk.domain.rot_scale(),
        last_rotation: -(pk.vk.cs.blinding_factors + 1),
        chunk_len: pk.vk.cs.degree - 2,
        sets: set_values(permutation.sets@),
        columns: Seq::new(
            pk.vk.cs.permutation.columns@.len(),
            |j: int|
                column_values(
                    pk.vk.cs.permutation.columns@[j],
                    table_values(pk.fixed_cosets@),
                    table_values(advice),
                    table_values(instance),
                ),
        ),
        cosets: table_values(pk.permutation.cosets@),
        l0: pk.l0@,
        l_last: pk.l_last@,
        l_active_row: pk.l_active_row@,
        beta: beta.value(),
        gamma: gamma.value(),
        omega: pk.vk.domain.extended_omega.value(),
        zeta: F::zeta_value(),
        delta: F::delta_value(),
    }
}

impl<F: Field> Committed<F> {
    /// Whether the argument was committed for the key `pk`: every set has
    /// one value for each row of the extended domain, and there is one set
    /// for each chunk of `degree - 2` columns.
    pub open spec fn fits(&self, pk: &ProvingKey<F>) -> bool {
        &&& forall|i: int|
            0 <= i < self.sets@.len() ==> (#[trigger] self.sets@[i]).permutation_product_coset@.len()
                == pk.size()
        &&& self.sets@.len() == 0 || (pk.vk.cs.degree >= 3 && self.sets@.len() == chunk_count(
            pk.vk.cs.permutation.columns@.len() as int,
            pk.vk.cs.degree - 2,
        ))
    }
}

/// Accumulates the residuals of the permutation identities at row `idx`
/// into `value`: each residual in turn is added to y times what was
/// accumulated before it. `beta_term` is the generator of the extended
/// domain raised to `idx`.
pub fn permutation_row<F: Field>(
    value: &F,
    idx: usize,
    beta_term: &F,
    pk: &ProvingKey<F>,
    advice: &[Polynomial<F, ExtendedLagrangeCoeff>],
    instance: &[Polynomial<F, ExtendedLagrangeCoeff>],
    permutation: &Committed<F>,
    y: &F,
    beta: &F,
    gamma: &F,
) -> (r: F)
    requires
        pk.wf(),
        pk.fits_witness(advice@, instance@),
        permutation.fits(pk),
        permutation.sets@.len() > 0,
        idx < pk.size(),
        beta_term.value() == fpow(
            F::modulus(),
            pk.vk.domain.extended_omega.value(),
            idx as nat,
        ),
    ensures
        r.value() == horner(
            F::modulus(),
            value.value(),
            permutation_view(pk, advice@, instance@, permutation, *beta, *gamma).terms(idx as int),
            y.value(),
        ),
{
    let ghost p = F::modulus();
    let ghost view = permutation_view(pk, advice@, instance@, permutation, *beta, *gamma);
    let ghost terms = view.terms(idx as int);
    let ghost row = idx as int;
    let size = pk.vk.domain.extended_len();
    let isize: i32 = size as i32;
    let rot_scale = pk.vk.domain.rotation_scale();
    let sets = &permutation.sets;
    let columns = &pk.vk.cs.permutation.columns;
    let blinding_factors = pk.vk.cs.blinding_factors();
    let last_rotation: i32 = -((blinding_factors + 1) as i32);
    let chunk_len = pk.vk.cs.degree() - 2;
    let delta_start = beta.mul(&F::zeta());
    let one = F::one();

    let first_set = &sets[0];
    let last_set = &sets[sets.len() - 1];
    let r_next = get_rotation_idx(idx, 1, rot_scale, isize);
    let r_last = get_rotation_idx(idx, last_rotation, rot_scale, isize);
    let l0 = pk.l0.get(idx);

    proof {
        assert(view.sets.last() == last_set.permutation_product_coset@);
        assert(view.sets[0] == first_set.permutation_product_coset@);
    }
    // Enforce only for the first set.
    // l_0(X) * (1 - z_0(X)) = 0
    let mut acc = value.mul(y).add(
        &one.sub(&first_set.permutation_product_coset.get(idx)).mul(&l0),
    );
    // Enforce only for the last set.
    // l_last(X) * (z_l(X)^2 - z_l(X)) = 0
    let z_last = last_set.permutation_product_coset.get(idx);
    acc = acc.mul(y).add(&z_last.mul(&z_last).sub(&z_last).mul(&pk.l_last.get(idx)));
    proof {
        let two = view.boundary_terms(row);
        assert(two.drop_last() =~= seq![view.first_term(row)]);
        assert(seq![view.first_term(row)].drop_last() =~= Seq::<int>::empty());
        assert(horner(p, value.value(), seq![view.first_term(row)], y.value()) == fadd(
            p,
            fmul(p, horner(p, value.value(), Seq::<int>::empty(), y.value()), y.value()),
            view.first_term(row),
        ));
        assert(acc.value() == horner(p, value.value(), two, y.value()));
    }
    // Except for the first set, enforce.
    // l_0(X) * (z_i(X) - z_{i-1}(\omega^(last) X)) = 0
    let mut set_idx: usize = 1;
    proof {
        assert(view.boundary_terms(row) + view.stitch_terms(row).take(0) =~= view.boundary_terms(
            row,
        ));
    }
    while set_idx < sets.len()
        invariant
            1 <= set_idx <= sets@.len(),
            sets == &permutation.sets,
            view == permutation_view(pk, advice@, instance@, permutation, *beta, *gamma),
            p == F::modulus(),
            row == idx as int,
            pk.wf(),
            permutation.fits(pk),
            idx < pk.size(),
            r_last < pk.size(),
            r_last == view.r_last(row),
            l0.value() == pk.l0@[row],
            acc.value() == horner(
                p,
                value.value(),
                view.boundary_terms(row) + view.stitch_terms(row).take(set_idx - 1),
                y.value(),
            ),
        decreases sets@.len() - set_idx,
    {
        let set = &sets[set_idx];
        let before = &sets[set_idx - 1];
        proof {
            assert(view.sets[set_idx as int] == set.permutation_product_coset@);
            assert(view.sets[set_idx - 1] == before.permutation_product_coset@);
        }
        acc = acc.mul(y).add(
            &set.permutation_product_coset.get(idx).sub(
                &before.permutation_product_coset.get(r_last),
            ).mul(&l0),
        );
        proof {
            let done = view.boundary_terms(row) + view.stitch_terms(row).take(set_idx - 1);
            let next = view.boundary_terms(row) + view.stitch_terms(row).take(set_idx as int);
            assert(next.drop_last() =~= done);
            assert(next.last() == view.stitch_term(set_idx as int, row));
        }
        set_idx += 1;
    }
    proof {
        assert(view.stitch_terms(row).take(sets@.len() - 1) =~= view.stitch_terms(row));
        assert(view.boundary_terms(row) + view.stitch_terms(row) + view.chunk_terms(row).take(0)
            =~= view.boundary_terms(row) + view.stitch_terms(row));
    }
    // And for all the sets we enforce:
    // (1 - (l_last(X) + l_blind(X))) * (
    //   z_i(\omega X) \prod_j (p(X) + \beta s_j(X) + \gamma)
    // - z_i(X) \prod_j (p(X) + \delta^j \beta X + \gamma)
    // )
    let mut current_delta = delta_start.mul(beta_term);
    let l_active = pk.l_active_row.get(idx);
    let n_columns = columns.len();
    let mut lo: usize = 0;
    let mut i: usize = 0;
    proof {
        assert(0 * view.chunk_len == 0) by (nonlinear_arith);
    }
    while i < sets.len()
        invariant
            i <= sets@.len(),
            sets == &permutation.sets,
            columns == &pk.vk.cs.permutation.columns,
            n_columns == columns@.len(),
            view == permutation_view(pk, advice@, instance@, permutation, *beta, *gamma),
            p == F::modulus(),
            row == idx as int,
            pk.wf(),
            pk.fits_witness(advice@, instance@),
            permutation.fits(pk),
            idx < pk.size(),
            r_next < pk.size(),
            r_next == view.r_next(row),
            chunk_len == view.chunk_len,
            chunk_len >= 1,
            l_active.value() == pk.l_active_row@[row],
            lo == view.chunk_start(i as int),
            lo <= n_columns,
            current_delta.value() == view.delta_at(lo as int, row),
            acc.value() == horner(
                p,
                value.value(),
                view.boundary_terms(row) + view.stitch_terms(row) + view.chunk_terms(row).take(
                    i as int,
                ),
                y.value(),
            ),
        decreases sets@.len() - i,
    {
        let set = &sets[i];
        let hi: usize = if n_columns - lo < chunk_len {
            n_columns
        } else {
            lo + chunk_len
        };
        proof {
            assert((i + 1) * view.chunk_len == i * view.chunk_len + view.chunk_len)
                by (nonlinear_arith);
            assert(hi == view.chunk_start(i + 1));
            assert(view.sets[i as int] == set.permutation_product_coset@);
        }
        let mut left = set.permutation_product_coset.get(r_next);
        let ghost left_start = left.value();
        let mut j: usize = lo;
        while j < hi
            invariant
                lo <= j <= hi <= n_columns,
                columns == &pk.vk.cs.permutation.columns,
                n_columns == columns@.len(),
                view == permutation_view(pk, advice@, instance@, permutation, *beta, *gamma),
                p == F::modulus(),
                row == idx as int,
                pk.wf(),
                pk.fits_witness(advice@, instance@),
                idx < pk.size(),
                left.value() == view.left_product(left_start, lo as int, j as int, row),
            decreases hi - j,
        {
            let values = column_polynomial(&columns[j], pk.fixed_cosets.as_slice(), advice, instance);
            let coset = &pk.permutation.cosets[j];
            proof {
                assert(view.cosets[j as int] == coset@);
                assert(view.columns[j as int] == values@);
                let column = pk.vk.cs.permutation.columns@[j as int];
                match column.column_type {
                    crate::circuit::Any::Advice => {
                        assert(advice@[column.index as int]@.len() == pk.size());
                    },
                    crate::circuit::Any::Fixed => {
                        assert(pk.fixed_cosets@[column.index as int]@.len() == pk.size());
                    },
                    crate::circuit::Any::Instance => {
                        assert(instance@[column.index as int]@.len() == pk.size());
                    },
                }
            }
            left = left.mul(&values.get(idx).add(&beta.mul(&coset.get(idx))).add(gamma));
            j += 1;
        }

        let mut right = set.permutation_product_coset.get(idx);
        let ghost right_start = right.value();
        let mut j: usize = lo;
        while j < hi
            invariant
                lo <= j <= hi <= n_columns,
                columns == &pk.vk.cs.permutation.columns,
                n_columns == columns@.len(),
                view == permutation_view(pk, advice@, instance@, permutation, *beta, *gamma),
                p == F::modulus(),
                row == idx as int,
                pk.wf(),
                pk.fits_witness(advice@, instance@),
                idx < pk.size(),
                right.value() == view.right_product(right_start, lo as int, j as int, row),
                current_delta.value() == view.delta_at(j as int, row),
            decreases hi - j,
        {
            let values = column_polynomial(&columns[j], pk.fixed_cosets.as_slice(), advice, instance);
            proof {
                assert(view.columns[j as int] == values@);
                let column = pk.vk.cs.permutation.columns@[j as int];
                match column.column_type {
                    crate::circuit::Any::Advice => {
                        assert(advice@[column.index as int]@.len() == pk.size());
                    },
                    crate::circuit::Any::Fixed => {
                        assert(pk.fixed_cosets@[column.index as int]@.len() == pk.size());
                    },
                    crate::circuit::Any::Instance => {
                        assert(instance@[column.index as int]@.len() == pk.size());
                    },
                }
            }
            right = right.mul(&values.get(idx).add(&current_delta).add(gamma));
            current_delta = current_delta.mul(&F::delta());
            j += 1;
        }

        acc = acc.mul(y).add(&left.sub(&right).mul(&l_active));
        proof {
            let head = view.boundary_terms(row) + view.stitch_terms(row);
            let done = head + view.chunk_terms(row).take(i as int);
            let next = head + view.chunk_terms(row).take(i + 1);
            assert(next.drop_last() =~= done);
            assert(next.last() == view.chunk_term(i as int, row));
        }
        lo = hi;
        i += 1;
    }
    proof {
        assert(view.chunk_terms(row).take(sets@.len() as int) =~= view.chunk_terms(row));
    }
    acc
}

} // verus!
