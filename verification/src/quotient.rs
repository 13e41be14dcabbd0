use crate::calculation::horner;
use crate::evaluator::{Evaluator, EvaluatorView};
use crate::field::{field_values, fpow, Field};
use crate::keys::ProvingKey;
use crate::lookup::{lookup_fold, lookup_row, lookup_row_data, lookup_view, LookupView, RowData};
use crate::permutation::{permutation_row, permutation_view, PermutationView};
use crate::polynomial::{table_values, ExtendedLagrangeCoeff, Polynomial};
use crate::rotation::Position;
use crate::value_source::{inputs_of, Inputs};
use vstd::prelude::*;

verus! {

/// The residues that the identities of one proof read.
pub struct ProofView {
    /// The columns, the challenges and beta, gamma, theta and y.
    pub inputs: Inputs,
    /// The committed permutation argument.
    pub permutation: PermutationView,
    /// The committed lookup arguments, in the order they were declared.
    pub lookups: Seq<LookupView>,
}

impl ProofView {
    /// The row after the pass of the custom gates: the value of their graph,
    /// evaluated with `v` as the previous value.
    pub open spec fn gates_value(self, ev: EvaluatorView, at: Position, v: int) -> int {
        ev.custom_gates.value(self.inputs.with_previous(v), at)
    }

    /// The row after the pass of the permutation identities: their residuals
    /// accumulated into `v` by Horner's rule with the factor y. A
    /// permutation argument without sets leaves the row as it is.
    pub open spec fn permutation_value(self, at: Position, v: int) -> int {
        if self.permutation.sets.len() == 0 {
            v
        } else {
            horner(self.inputs.modulus, v, self.permutation.terms(at.idx), self.inputs.y)
        }
    }

    /// The value of the graph of lookup `n` at the row.
    pub open spec fn table_value(self, ev: EvaluatorView, at: Position, n: int) -> int {
        ev.lookups[n].value(self.inputs.with_previous(0), at)
    }

    /// The row after the identities of the first `n` lookup arguments: the
    /// residuals of each in turn accumulated into `v` by Horner's rule with
    /// the factor y.
    pub open spec fn lookups_value(self, ev: EvaluatorView, at: Position, v: int, n: nat) -> int
        decreases n,
    {
        if n == 0 {
            v
        } else {
            horner(
                self.inputs.modulus,
                self.lookups_value(ev, at, v, (n - 1) as nat),
                self.lookups[n - 1].terms(at.idx, self.table_value(ev, at, n - 1)),
                self.inputs.y,
            )
        }
    }

    /// The row after the three passes of this proof, started from `v`.
    pub open spec fn row_value(self, ev: EvaluatorView, at: Position, v: int) -> int {
        self.lookups_value(
            ev,
            at,
            self.permutation_value(at, self.gates_value(ev, at, v)),
            self.lookups.len(),
        )
    }
}

/// The row of the quotient after the first `b` proofs: zero before the
/// first, and after each proof what its three passes make of the row.
pub open spec fn quotient_row(ev: EvaluatorView, proofs: Seq<ProofView>, at: Position, b: nat) -> int
    decreases b,
{
    if b == 0 {
        0
    } else {
        proofs[b - 1].row_value(ev, at, quotient_row(ev, proofs, at, (b - 1) as nat))
    }
}

/// The columns, challenges and scalars of one proof as residues.
pub open spec fn session_inputs<F: Field>(
    pk: &ProvingKey<F>,
    advice: Seq<Polynomial<F, ExtendedLagrangeCoeff>>,
    instance: Seq<Polynomial<F, ExtendedLagrangeCoeff>>,
    challenges: Seq<F>,
    y: F,
    beta: F,
    gamma: F,
    theta: F,
) -> Inputs {
    Inputs {
        modulus: F::modulus(),
        fixed: table_values(pk.fixed_cosets@),
        advice: table_values(advice),
        instance: table_values(instance),
        challenges: field_values(challenges),
        beta: beta.value(),
        gamma: gamma.value(),
        theta: theta.value(),
        y: y.value(),
        previous_value: 0,
    }
}

/// The lookup arguments of one proof as residues.
pub open spec fn lookup_views<F: Field>(
    pk: &ProvingKey<F>,
    lookups: Seq<crate::lookup::Committed<F>>,
    beta: F,
    gamma: F,
) -> Seq<LookupView> {
    Seq::new(lookups.len(), |n: int| lookup_view(pk, &lookups[n], beta, gamma))
}

/// One proof as residues.
pub open spec fn proof_view<F: Field>(
    pk: &ProvingKey<F>,
    advice: Seq<Polynomial<F, ExtendedLagrangeCoeff>>,
    instance: Seq<Polynomial<F, ExtendedLagrangeCoeff>>,
    challenges: Seq<F>,
    y: F,
    beta: F,
    gamma: F,
    theta: F,
    lookups: Seq<crate::lookup::Committed<F>>,
    permutation: &crate::permutation::Committed<F>,
) -> ProofView {
    ProofView {
        inputs: session_inputs(pk, advice, instance, challenges, y, beta, gamma, theta),
        permutation: permutation_view(pk, advice, instance, permutation, beta, gamma),
        lookups: lookup_views(pk, lookups, beta, gamma),
    }
}

/// The proofs of a batch as residues.
pub open spec fn proof_views<F: Field>(
    pk: &ProvingKey<F>,
    advice: Seq<Vec<Polynomial<F, ExtendedLagrangeCoeff>>>,
    instance: Seq<Vec<Polynomial<F, ExtendedLagrangeCoeff>>>,
    challenges: Seq<F>,
    y: F,
    beta: F,
    gamma: F,
    theta: F,
    lookups: Seq<Vec<crate::lookup::Committed<F>>>,
    permutations: Seq<crate::permutation::Committed<F>>,
) -> Seq<ProofView> {
    Seq::new(
        advice.len(),
        |b: int|
            proof_view(
                pk,
                advice[b]@,
                instance[b]@,
                challenges,
                y,
                beta,
                gamma,
                theta,
                lookups[b]@,
                &permutations[b],
            ),
    )
}

/// The row `idx` of the extended domain of `pk`.
pub open spec fn row_of<F: Field>(pk: &ProvingKey<F>, idx: int) -> Position {
    Position { idx, rot_scale: pk.vk.domain.rot_scale(), size: pk.size() }
}

/// Whether the lookup arguments committed for one proof fit the key.
pub open spec fn lookups_fit<F: Field>(
    pk: &ProvingKey<F>,
    lookups: Seq<crate::lookup::Committed<F>>,
) -> bool {
    forall|n: int| 0 <= n < lookups.len() ==> (#[trigger] lookups[n]).fits(pk)
}

impl<F: Field> Evaluator<F> {
    /// The pass of the custom gates over the rows from `start` up to `end`:
    /// each row becomes the value of the graph of the custom gates,
    /// evaluated with the row's value as the previous value.
    pub fn evaluate_gates(
        &self,
        values: &mut Polynomial<F, ExtendedLagrangeCoeff>,
        start: usize,
        end: usize,
        pk: &ProvingKey<F>,
        advice: &[Polynomial<F, ExtendedLagrangeCoeff>],
        instance: &[Polynomial<F, ExtendedLagrangeCoeff>],
        challenges: &[F],
        y: &F,
        beta: &F,
        gamma: &F,
        theta: &F,
    )
        requires
            pk.wf(),
            pk.fits_witness(advice@, instance@),
            self.reads_within(
                pk.fixed_cosets@.len() as int,
                advice@.len() as int,
                instance@.len() as int,
                challenges@.len() as int,
            ),
            old(values)@.len() == pk.size(),
            start <= end <= pk.size(),
        ensures
            final(values)@.len() == pk.size(),
            forall|idx: int|
                start <= idx < end ==> (#[trigger] final(values)@[idx]) == self.custom_gates@.value(
                    session_inputs(
                        pk,
                        advice@,
                        instance@,
                        challenges@,
                        *y,
                        *beta,
                        *gamma,
                        *theta,
                    ).with_previous(old(values)@[idx]),
                    row_of(pk, idx),
                ),
            forall|idx: int|
                0 <= idx < start || end <= idx < pk.size() ==> (#[trigger] final(values)@[idx])
                    == old(values)@[idx],
    {
        let size = pk.vk.domain.extended_len();
        let isize: i32 = size as i32;
        let rot_scale = pk.vk.domain.rotation_scale();
        let mut eval_data = self.custom_gates.instance();
        let ghost session = session_inputs(
            pk,
            advice@,
            instance@,
            challenges@,
            *y,
            *beta,
            *gamma,
            *theta,
        );
        let mut idx: usize = start;
        while idx < end
            invariant
                start <= idx <= end <= pk.size(),
                size == pk.size(),
                isize == size,
                rot_scale == pk.vk.domain.rot_scale(),
                pk.wf(),
                pk.fits_witness(advice@, instance@),
                self.reads_within(
                    pk.fixed_cosets@.len() as int,
                    advice@.len() as int,
                    instance@.len() as int,
                    challenges@.len() as int,
                ),
                session == session_inputs(
                    pk,
                    advice@,
                    instance@,
                    challenges@,
                    *y,
                    *beta,
                    *gamma,
                    *theta,
                ),
                eval_data.intermediates@.len() == self.custom_gates.num_intermediates,
                eval_data.rotations@.len() == self.custom_gates.rotations@.len(),
                values@.len() == pk.size(),
                old(values)@.len() == pk.size(),
                forall|i: int|
                    start <= i < idx ==> (#[trigger] values@[i]) == self.custom_gates@.value(
                        session.with_previous(old(values)@[i]),
                        row_of(pk, i),
                    ),
                forall|i: int|
                    0 <= i < start || idx <= i < pk.size() ==> (#[trigger] values@[i]) == old(
                        values,
                    )@[i],
            decreases end - idx,
        {
            let previous = values.get(idx);
            proof {
                let inputs = inputs_of(
                    pk.fixed_cosets@,
                    advice@,
                    instance@,
                    challenges@,
                    *beta,
                    *gamma,
                    *theta,
                    *y,
                    previous,
                );
                assert(inputs == session.with_previous(previous.value()));
                lemma_tables_cover(pk, advice@, instance@, inputs);
            }
            let value = self.custom_gates.evaluate(
                &mut eval_data,
                pk.fixed_cosets.as_slice(),
                advice,
                instance,
                challenges,
                beta,
                gamma,
                theta,
                y,
                &previous,
                idx,
                rot_scale,
                isize,
            );
            let ghost before = values@;
            values.values.set(idx, value);
            proof {
                assert forall|i: int| 0 <= i < values@.len() && i != idx implies (
                #[trigger] values@[i]) == before[i] by {}
                assert(values@[idx as int] == value.value());
            }
            idx += 1;
        }
    }

    /// The pass of lookup argument `n` over the rows from `start` up to
    /// `end`: the five residuals of its identities are accumulated into
    /// each row by Horner's rule with the factor y.
    pub fn evaluate_lookup(
        &self,
        n: usize,
        values: &mut Polynomial<F, ExtendedLagrangeCoeff>,
        start: usize,
        end: usize,
        pk: &ProvingKey<F>,
        advice: &[Polynomial<F, ExtendedLagrangeCoeff>],
        instance: &[Polynomial<F, ExtendedLagrangeCoeff>],
        challenges: &[F],
        lookup: &crate::lookup::Committed<F>,
        y: &F,
        beta: &F,
        gamma: &F,
        theta: &F,
    )
        requires
            pk.wf(),
            pk.fits_witness(advice@, instance@),
            self.reads_within(
                pk.fixed_cosets@.len() as int,
                advice@.len() as int,
                instance@.len() as int,
                challenges@.len() as int,
            ),
            n < self.lookups@.len(),
            lookup.fits(pk),
            old(values)@.len() == pk.size(),
            start <= end <= pk.size(),
        ensures
            final(values)@.len() == pk.size(),
            forall|idx: int|
                start <= idx < end ==> (#[trigger] final(values)@[idx]) == horner(
                    F::modulus(),
                    old(values)@[idx],
                    lookup_view(pk, lookup, *beta, *gamma).terms(
                        idx,
                        self.lookups@[n as int]@.value(
                            session_inputs(
                                pk,
                                advice@,
                                instance@,
                                challenges@,
                                *y,
                                *beta,
                                *gamma,
                                *theta,
                            ),
                            row_of(pk, idx),
                        ),
                    ),
                    y.value(),
                ),
            forall|idx: int|
                0 <= idx < start || end <= idx < pk.size() ==> (#[trigger] final(values)@[idx])
                    == old(values)@[idx],
    {
        let size = pk.vk.domain.extended_len();
        let isize: i32 = size as i32;
        let rot_scale = pk.vk.domain.rotation_scale();
        let lookup_evaluator = &self.lookups[n];
        let mut eval_data = lookup_evaluator.instance();
        let zero = F::zero();
        let ghost session = session_inputs(
            pk,
            advice@,
            instance@,
            challenges@,
            *y,
            *beta,
            *gamma,
            *theta,
        );
        let ghost view = lookup_view(pk, lookup, *beta, *gamma);
        let mut idx: usize = start;
        while idx < end
            invariant
                start <= idx <= end <= pk.size(),
                size == pk.size(),
                isize == size,
                rot_scale == pk.vk.domain.rot_scale(),
                pk.wf(),
                pk.fits_witness(advice@, instance@),
                lookup.fits(pk),
                n < self.lookups@.len(),
                lookup_evaluator == &self.lookups@[n as int],
                zero.value() == 0,
                self.reads_within(
                    pk.fixed_cosets@.len() as int,
                    advice@.len() as int,
                    instance@.len() as int,
                    challenges@.len() as int,
                ),
                session == session_inputs(
                    pk,
                    advice@,
                    instance@,
                    challenges@,
                    *y,
                    *beta,
                    *gamma,
                    *theta,
                ),
                view == lookup_view(pk, lookup, *beta, *gamma),
                eval_data.intermediates@.len() == lookup_evaluator.num_intermediates,
                eval_data.rotations@.len() == lookup_evaluator.rotations@.len(),
                values@.len() == pk.size(),
                old(values)@.len() == pk.size(),
                forall|i: int|
                    start <= i < idx ==> (#[trigger] values@[i]) == horner(
                        F::modulus(),
                        old(values)@[i],
                        view.terms(i, lookup_evaluator@.value(session, row_of(pk, i))),
                        y.value(),
                    ),
                forall|i: int|
                    0 <= i < start || idx <= i < pk.size() ==> (#[trigger] values@[i]) == old(
                        values,
                    )@[i],
            decreases end - idx,
        {
            proof {
                let inputs = inputs_of(
                    pk.fixed_cosets@,
                    advice@,
                    instance@,
                    challenges@,
                    *beta,
                    *gamma,
                    *theta,
                    *y,
                    zero,
                );
                assert(inputs == session);
                lemma_tables_cover(pk, advice@, instance@, inputs);
            }
            let table_value = lookup_evaluator.evaluate(
                &mut eval_data,
                pk.fixed_cosets.as_slice(),
                advice,
                instance,
                challenges,
                beta,
                gamma,
                theta,
                y,
                &zero,
                idx,
                rot_scale,
                isize,
            );
            let previous = values.get(idx);
            let value = lookup_row(&previous, idx, table_value, pk, lookup, y, beta, gamma);
            let ghost before = values@;
            values.values.set(idx, value);
            proof {
                assert forall|i: int| 0 <= i < values@.len() && i != idx implies (
                #[trigger] values@[i]) == before[i] by {}
                assert(values@[idx as int] == value.value());
            }
            idx += 1;
        }
    }
}

/// The tables of a proof that fits the key cover the extended domain.
pub proof fn lemma_tables_cover<F: Field>(
    pk: &ProvingKey<F>,
    advice: Seq<Polynomial<F, ExtendedLagrangeCoeff>>,
    instance: Seq<Polynomial<F, ExtendedLagrangeCoeff>>,
    inputs: Inputs,
)
    requires
        pk.wf(),
        pk.fits_witness(advice, instance),
        inputs.fixed == table_values(pk.fixed_cosets@),
        inputs.advice == table_values(advice),
        inputs.instance == table_values(instance),
    ensures
        inputs.covers(pk.size()),
{
    assert forall|c: int| 0 <= c < inputs.fixed.len() implies pk.size() <= (
    #[trigger] inputs.fixed[c]).len() by {
        assert(pk.fixed_cosets@[c]@.len() == pk.size());
    }
    assert forall|c: int| 0 <= c < inputs.advice.len() implies pk.size() <= (
    #[trigger] inputs.advice[c]).len() by {
        assert(advice[c]@.len() == pk.size());
    }
    assert forall|c: int| 0 <= c < inputs.instance.len() implies pk.size() <= (
    #[trigger] inputs.instance[c]).len() by {
        assert(instance[c]@.len() == pk.size());
    }
}

/// The pass of the permutation identities over the rows from `start` up to
/// `end`: their residuals are accumulated into each row by Horner's rule
/// with the factor y. A permutation argument without sets leaves the rows as
/// they are.
pub fn evaluate_permutation<F: Field>(
    values: &mut Polynomial<F, ExtendedLagrangeCoeff>,
    start: usize,
    end: usize,
    pk: &ProvingKey<F>,
    advice: &[Polynomial<F, ExtendedLagrangeCoeff>],
    instance: &[Polynomial<F, ExtendedLagrangeCoeff>],
    permutation: &crate::permutation::Committed<F>,
    y: &F,
    beta: &F,
    gamma: &F,
)
    requires
        pk.wf(),
        pk.fits_witness(advice@, instance@),
        permutation.fits(pk),
        old(values)@.len() == pk.size(),
        start <= end <= pk.size(),
    ensures
        final(values)@.len() == pk.size(),
        forall|idx: int|
            start <= idx < end ==> (#[trigger] final(values)@[idx]) == (if permutation.sets@.len()
                == 0 {
                old(values)@[idx]
            } else {
                horner(
                    F::modulus(),
                    old(values)@[idx],
                    permutation_view(pk, advice@, instance@, permutation, *beta, *gamma).terms(idx),
                    y.value(),
                )
            }),
        forall|idx: int|
            0 <= idx < start || end <= idx < pk.size() ==> (#[trigger] final(values)@[idx]) == old(
                values,
            )@[idx],
{
    if permutation.sets.len() == 0 {
        return ;
    }
    let extended_omega = pk.vk.domain.get_extended_omega();
    let mut beta_term = extended_omega.pow_vartime(start as u64);
    let ghost view = permutation_view(pk, advice@, instance@, permutation, *beta, *gamma);
    let mut idx: usize = start;
    while idx < end
        invariant
            start <= idx <= end <= pk.size(),
            pk.wf(),
            pk.fits_witness(advice@, instance@),
            permutation.fits(pk),
            permutation.sets@.len() > 0,
            extended_omega == pk.vk.domain.extended_omega,
            beta_term.value() == fpow(F::modulus(), extended_omega.value(), idx as nat),
            view == permutation_view(pk, advice@, instance@, permutation, *beta, *gamma),
            values@.len() == pk.size(),
            old(values)@.len() == pk.size(),
            forall|i: int|
                start <= i < idx ==> (#[trigger] values@[i]) == horner(
                    F::modulus(),
                    old(values)@[i],
                    view.terms(i),
                    y.value(),
                ),
            forall|i: int|
                0 <= i < start || idx <= i < pk.size() ==> (#[trigger] values@[i]) == old(
                    values,
                )@[i],
        decreases end - idx,
    {
        let previous = values.get(idx);
        let value = permutation_row(
            &previous,
            idx,
            &beta_term,
            pk,
            advice,
            instance,
            permutation,
            y,
            beta,
            gamma,
        );
        let ghost before = values@;
        values.values.set(idx, value);
        proof {
            assert forall|i: int| 0 <= i < values@.len() && i != idx implies (
            #[trigger] values@[i]) == before[i] by {}
            assert(values@[idx as int] == value.value());
        }
        beta_term = beta_term.mul(&extended_omega);
        idx += 1;
    }
}

impl<F: Field> Evaluator<F> {
    /// Whether a batch of proofs fits the key and this evaluator: there is
    /// one entry for each proof in each of the four lists; the columns and
    /// the committed arguments of each proof fit the key; the graphs read
    /// only columns and challenges that exist; and no proof commits to more
    /// lookup arguments than this evaluator has graphs for.
    pub open spec fn fits_batch(
        &self,
        pk: &ProvingKey<F>,
        advice: Seq<Vec<Polynomial<F, ExtendedLagrangeCoeff>>>,
        instance: Seq<Vec<Polynomial<F, ExtendedLagrangeCoeff>>>,
        challenges: Seq<F>,
        lookups: Seq<Vec<crate::lookup::Committed<F>>>,
        permutations: Seq<crate::permutation::Committed<F>>,
    ) -> bool {
        &&& self.wf()
        &&& pk.wf()
        &&& instance.len() == advice.len()
        &&& lookups.len() == advice.len()
        &&& permutations.len() == advice.len()
        &&& forall|b: int|
            0 <= b < advice.len() ==> {
                &&& pk.fits_witness((#[trigger] advice[b])@, instance[b]@)
                &&& self.reads_within(
                    pk.fixed_cosets@.len() as int,
                    advice[b]@.len() as int,
                    instance[b]@.len() as int,
                    challenges.len() as int,
                )
                &&& permutations[b].fits(pk)
                &&& lookups_fit(pk, lookups[b]@)
                &&& lookups[b]@.len() <= self.lookups@.len()
            }
    }

    /// Evaluate h poly
    ///
    /// For each proof in turn, each row of the quotient is taken through the
    /// pass of the custom gates, the pass of the permutation identities and
    /// the passes of the lookup arguments, starting from zero.
    pub fn evaluate_h(
        &self,
        pk: &ProvingKey<F>,
        advice_polys: &[Vec<Polynomial<F, ExtendedLagrangeCoeff>>],
        instance_polys: &[Vec<Polynomial<F, ExtendedLagrangeCoeff>>],
        challenges: &[F],
        y: F,
        beta: F,
        gamma: F,
        theta: F,
        lookups: &[Vec<crate::lookup::Committed<F>>],
        permutations: &[crate::permutation::Committed<F>],
    ) -> (values: Polynomial<F, ExtendedLagrangeCoeff>)
        requires
            self.fits_batch(
                pk,
                advice_polys@,
                instance_polys@,
                challenges@,
                lookups@,
                permutations@,
            ),
        ensures
            values@.len() == pk.size(),
            forall|idx: int|
                0 <= idx < pk.size() ==> (#[trigger] values@[idx]) == quotient_row(
                    self@,
                    proof_views(
                        pk,
                        advice_polys@,
                        instance_polys@,
                        challenges@,
                        y,
                        beta,
                        gamma,
                        theta,
                        lookups@,
                        permutations@,
                    ),
                    row_of(pk, idx),
                    advice_polys@.len(),
                ),
            self.compiled_for(pk, advice_polys@, instance_polys@, challenges@) ==> forall|
                idx: int,
            |
                0 <= idx < pk.size() ==> (#[trigger] values@[idx]) == horner(
                    F::modulus(),
                    0,
                    crate::residuals::batch_residuals(
                        &pk.vk.cs,
                        proof_views(
                            pk,
                            advice_polys@,
                            instance_polys@,
                            challenges@,
                            y,
                            beta,
                            gamma,
                            theta,
                            lookups@,
                            permutations@,
                        ),
                        row_of(pk, idx),
                        advice_polys@.len(),
                    ),
                    y.value(),
                ),
    {
        let size = pk.vk.domain.extended_len();
        let mut values = pk.vk.domain.empty_extended();
        let ghost ev = self@;
        let ghost proofs = proof_views(
            pk,
            advice_polys@,
            instance_polys@,
            challenges@,
            y,
            beta,
            gamma,
            theta,
            lookups@,
            permutations@,
        );
        let mut b: usize = 0;
        while b < advice_polys.len()
            invariant
                b <= advice_polys@.len(),
                size == pk.size(),
                self.fits_batch(
                    pk,
                    advice_polys@,
                    instance_polys@,
                    challenges@,
                    lookups@,
                    permutations@,
                ),
                ev == self@,
                proofs == proof_views(
                    pk,
                    advice_polys@,
                    instance_polys@,
                    challenges@,
                    y,
                    beta,
                    gamma,
                    theta,
                    lookups@,
                    permutations@,
                ),
                values@.len() == pk.size(),
                forall|idx: int|
                    0 <= idx < pk.size() ==> (#[trigger] values@[idx]) == quotient_row(
                        ev,
                        proofs,
                        row_of(pk, idx),
                        b as nat,
                    ),
            decreases advice_polys@.len() - b,
        {
            let advice = advice_polys[b].as_slice();
            let instance = instance_polys[b].as_slice();
            let committed = &lookups[b];
            let permutation = &permutations[b];
            let ghost pv = proofs[b as int];
            let ghost started = values@;
            proof {
                assert(pk.fits_witness(advice_polys@[b as int]@, instance_polys@[b as int]@));
            }

            // Custom gates
            self.evaluate_gates(
                &mut values,
                0,
                size,
                pk,
                advice,
                instance,
                challenges,
                &y,
                &beta,
                &gamma,
                &theta,
            );
            let ghost gated = values@;
            proof {
                assert forall|idx: int| 0 <= idx < pk.size() implies (#[trigger] gated[idx])
                    == pv.gates_value(ev, row_of(pk, idx), started[idx]) by {}
            }

            // Permutations
            evaluate_permutation(
                &mut values,
                0,
                size,
                pk,
                advice,
                instance,
                permutation,
                &y,
                &beta,
                &gamma,
            );
            let ghost permuted = values@;
            proof {
                assert(pv.permutation.sets.len() == permutation.sets@.len());
                assert forall|idx: int| 0 <= idx < pk.size() implies (#[trigger] permuted[idx])
                    == pv.permutation_value(row_of(pk, idx), gated[idx]) by {}
            }

            // Lookups
            let mut n: usize = 0;
            while n < committed.len()
                invariant
                    n <= committed@.len(),
                    b < advice_polys@.len(),
                    size == pk.size(),
                    self.fits_batch(
                        pk,
                        advice_polys@,
                        instance_polys@,
                        challenges@,
                        lookups@,
                        permutations@,
                    ),
                    advice@ == advice_polys@[b as int]@,
                    instance@ == instance_polys@[b as int]@,
                    committed == &lookups@[b as int],
                    ev == self@,
                    pv == proof_view(
                        pk,
                        advice@,
                        instance@,
                        challenges@,
                        y,
                        beta,
                        gamma,
                        theta,
                        committed@,
                        &permutations@[b as int],
                    ),
                    values@.len() == pk.size(),
                    forall|idx: int|
                        0 <= idx < pk.size() ==> (#[trigger] values@[idx]) == pv.lookups_value(
                            ev,
                            row_of(pk, idx),
                            permuted[idx],
                            n as nat,
                        ),
                decreases committed@.len() - n,
            {
                let ghost before = values@;
                proof {
                    assert(pk.fits_witness(advice_polys@[b as int]@, instance_polys@[b as int]@));
                    assert(committed@[n as int].fits(pk));
                }
                self.evaluate_lookup(
                    n,
                    &mut values,
                    0,
                    size,
                    pk,
                    advice,
                    instance,
                    challenges,
                    &committed[n],
                    &y,
                    &beta,
                    &gamma,
                    &theta,
                );
                proof {
                    assert forall|idx: int| 0 <= idx < pk.size() implies (#[trigger] values@[idx])
                        == pv.lookups_value(ev, row_of(pk, idx), permuted[idx], (n + 1) as nat) by {
                        let at = row_of(pk, idx);
                        assert(before[idx] == pv.lookups_value(ev, at, permuted[idx], n as nat));
                        assert(pv.inputs.with_previous(0) == pv.inputs);
                        assert(ev.lookups[n as int] == self.lookups@[n as int]@);
                        assert(pv.lookups[n as int] == lookup_view(
                            pk,
                            &committed@[n as int],
                            beta,
                            gamma,
                        ));
                    }
                }
                n += 1;
            }
            proof {
                assert forall|idx: int| 0 <= idx < pk.size() implies (#[trigger] values@[idx])
                    == quotient_row(ev, proofs, row_of(pk, idx), (b + 1) as nat) by {
                    let at = row_of(pk, idx);
                    assert(started[idx] == quotient_row(ev, proofs, at, b as nat));
                    assert(gated[idx] == pv.gates_value(ev, at, started[idx]));
                    assert(permuted[idx] == pv.permutation_value(at, gated[idx]));
                    assert(pv.lookups.len() == committed@.len());
                }
            }
            b += 1;
        }
        proof {
            if self.compiled_for(pk, advice_polys@, instance_polys@, challenges@) {
                assert forall|idx: int| 0 <= idx < pk.size() implies (#[trigger] values@[idx])
                    == horner(
                    F::modulus(),
                    0,
                    crate::residuals::batch_residuals(
                        &pk.vk.cs,
                        proofs,
                        row_of(pk, idx),
                        advice_polys@.len(),
                    ),
                    y.value(),
                ) by {
                    crate::residuals::lemma_h_is_horner_combination(
                        self,
                        pk,
                        advice_polys@,
                        instance_polys@,
                        challenges@,
                        y,
                        beta,
                        gamma,
                        theta,
                        lookups@,
                        permutations@,
                        idx,
                    );
                }
            }
        }
        values
    }
}

impl<F: Field> Evaluator<F> {
    /// The row data of lookup argument `n` for the rows from `start` up to
    /// `end`: what a backend that accumulates the lookup identities itself
    /// needs besides the cosets.
    pub fn lookup_rows_data(
        &self,
        n: usize,
        start: usize,
        end: usize,
        pk: &ProvingKey<F>,
        advice: &[Polynomial<F, ExtendedLagrangeCoeff>],
        instance: &[Polynomial<F, ExtendedLagrangeCoeff>],
        challenges: &[F],
        lookup: &crate::lookup::Committed<F>,
        y: &F,
        beta: &F,
        gamma: &F,
        theta: &F,
    ) -> (rows: Vec<RowData<F>>)
        requires
            pk.wf(),
            pk.fits_witness(advice@, instance@),
            self.reads_within(
                pk.fixed_cosets@.len() as int,
                advice@.len() as int,
                instance@.len() as int,
                challenges@.len() as int,
            ),
            n < self.lookups@.len(),
            lookup.fits(pk),
            start <= end <= pk.size(),
        ensures
            rows@.len() == end - start,
            forall|i: int|
                0 <= i < end - start ==> {
                    let row = #[trigger] rows@[i];
                    let view = lookup_view(pk, lookup, *beta, *gamma);
                    &&& row.table_value.value() == self.lookups@[n as int]@.value(
                        session_inputs(
                            pk,
                            advice@,
                            instance@,
                            challenges@,
                            *y,
                            *beta,
                            *gamma,
                            *theta,
                        ),
                        row_of(pk, start + i),
                    )
                    &&& row.a_minus_s.value() == view.a_minus_s(start + i)
                    &&& row.r_next == view.r_next(start + i)
                    &&& row.r_prev == view.r_prev(start + i)
                },
    {
        let size = pk.vk.domain.extended_len();
        let isize: i32 = size as i32;
        let rot_scale = pk.vk.domain.rotation_scale();
        let lookup_evaluator = &self.lookups[n];
        let mut eval_data = lookup_evaluator.instance();
        let zero = F::zero();
        let ghost session = session_inputs(
            pk,
            advice@,
            instance@,
            challenges@,
            *y,
            *beta,
            *gamma,
            *theta,
        );
        let ghost view = lookup_view(pk, lookup, *beta, *gamma);
        let mut rows: Vec<RowData<F>> = Vec::new();
        let mut idx: usize = start;
        while idx < end
            invariant
                start <= idx <= end <= pk.size(),
                size == pk.size(),
                isize == size,
                rot_scale == pk.vk.domain.rot_scale(),
                pk.wf(),
                pk.fits_witness(advice@, instance@),
                lookup.fits(pk),
                n < self.lookups@.len(),
                lookup_evaluator == &self.lookups@[n as int],
                zero.value() == 0,
                self.reads_within(
                    pk.fixed_cosets@.len() as int,
                    advice@.len() as int,
                    instance@.len() as int,
                    challenges@.len() as int,
                ),
                session == session_inputs(
                    pk,
                    advice@,
                    instance@,
                    challenges@,
                    *y,
                    *beta,
                    *gamma,
                    *theta,
                ),
                view == lookup_view(pk, lookup, *beta, *gamma),
                eval_data.intermediates@.len() == lookup_evaluator.num_intermediates,
                eval_data.rotations@.len() == lookup_evaluator.rotations@.len(),
                rows@.len() == idx - start,
                forall|i: int|
                    0 <= i < idx - start ==> {
                        let row = #[trigger] rows@[i];
                        &&& row.table_value.value() == lookup_evaluator@.value(
                            session,
                            row_of(pk, start + i),
                        )
                        &&& row.a_minus_s.value() == view.a_minus_s(start + i)
                        &&& row.r_next == view.r_next(start + i)
                        &&& row.r_prev == view.r_prev(start + i)
                    },
            decreases end - idx,
        {
            proof {
                let inputs = inputs_of(
                    pk.fixed_cosets@,
                    advice@,
                    instance@,
                    challenges@,
                    *beta,
                    *gamma,
                    *theta,
                    *y,
                    zero,
                );
                assert(inputs == session);
                lemma_tables_cover(pk, advice@, instance@, inputs);
            }
            let table_value = lookup_evaluator.evaluate(
                &mut eval_data,
                pk.fixed_cosets.as_slice(),
                advice,
                instance,
                challenges,
                beta,
                gamma,
                theta,
                y,
                &zero,
                idx,
                rot_scale,
                isize,
            );
            let row = lookup_row_data(idx, table_value, pk, lookup);
            let ghost before = rows@;
            rows.push(row);
            proof {
                assert forall|i: int| 0 <= i < idx - start implies (#[trigger] rows@[i])
                    == before[i] by {}
            }
            idx += 1;
        }
        rows
    }
}

/// Accumulates the residuals of the identities of one lookup argument,
/// computed from the given row data, into the rows from `start` up to
/// `end`.
pub fn fold_lookup_rows<F: Field>(
    values: &mut Polynomial<F, ExtendedLagrangeCoeff>,
    start: usize,
    end: usize,
    rows: &Vec<RowData<F>>,
    pk: &ProvingKey<F>,
    lookup: &crate::lookup::Committed<F>,
    y: &F,
    beta: &F,
    gamma: &F,
)
    requires
        pk.wf(),
        lookup.fits(pk),
        old(values)@.len() == pk.size(),
        start <= end <= pk.size(),
        rows@.len() == end - start,
        forall|i: int|
            0 <= i < rows@.len() ==> (#[trigger] rows@[i]).r_next < pk.size() && rows@[i].r_prev
                < pk.size(),
    ensures
        final(values)@.len() == pk.size(),
        forall|idx: int|
            start <= idx < end ==> (#[trigger] final(values)@[idx]) == horner(
                F::modulus(),
                old(values)@[idx],
                lookup_view(pk, lookup, *beta, *gamma).terms_from(
                    idx,
                    rows@[idx - start].table_value.value(),
                    rows@[idx - start].a_minus_s.value(),
                    rows@[idx - start].r_next as int,
                    rows@[idx - start].r_prev as int,
                ),
                y.value(),
            ),
        forall|idx: int|
            0 <= idx < start || end <= idx < pk.size() ==> (#[trigger] final(values)@[idx]) == old(
                values,
            )@[idx],
{
    let ghost view = lookup_view(pk, lookup, *beta, *gamma);
    let mut idx: usize = start;
    while idx < end
        invariant
            start <= idx <= end <= pk.size(),
            pk.wf(),
            lookup.fits(pk),
            rows@.len() == end - start,
            forall|i: int|
                0 <= i < rows@.len() ==> (#[trigger] rows@[i]).r_next < pk.size()
                    && rows@[i].r_prev < pk.size(),
            view == lookup_view(pk, lookup, *beta, *gamma),
            values@.len() == pk.size(),
            old(values)@.len() == pk.size(),
            forall|i: int|
                start <= i < idx ==> (#[trigger] values@[i]) == horner(
                    F::modulus(),
                    old(values)@[i],
                    view.terms_from(
                        i,
                        rows@[i - start].table_value.value(),
                        rows@[i - start].a_minus_s.value(),
                        rows@[i - start].r_next as int,
                        rows@[i - start].r_prev as int,
                    ),
                    y.value(),
                ),
            forall|i: int|
                0 <= i < start || idx <= i < pk.size() ==> (#[trigger] values@[i]) == old(
                    values,
                )@[i],
        decreases end - idx,
    {
        let previous = values.get(idx);
        let value = lookup_fold(&previous, idx, &rows[idx - start], pk, lookup, y, beta, gamma);
        let ghost before = values@;
        values.values.set(idx, value);
        proof {
            assert forall|i: int| 0 <= i < values@.len() && i != idx implies (
            #[trigger] values@[i]) == before[i] by {}
            assert(values@[idx as int] == value.value());
        }
        idx += 1;
    }
}

} // verus!
