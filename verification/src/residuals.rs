use crate::calculation::{
    horner, lemma_horner_concat, lemma_horner_is_power_sum, lemma_horner_is_residue, power_sum,
};
use crate::circuit::{gate_polynomials, ConstraintSystem, LookupArgument};
use crate::evaluator::{
    all_readable, evaluable, expression_values, lemma_gates_graph_value,
    lemma_lookup_graph_value, Evaluator, EvaluatorView,
};
use crate::expression::Expression;
use crate::field::{fadd, fmul, is_residue, Field};
use crate::keys::ProvingKey;
use crate::polynomial::{ExtendedLagrangeCoeff, Polynomial};
use crate::quotient::{
    lemma_tables_cover, proof_views, quotient_row, row_of, session_inputs, ProofView,
};
use crate::rotation::Position;
use crate::value_source::Inputs;
use vstd::prelude::*;

verus! {

/// The value of an expression does not depend on the previous value of the
/// row.
pub proof fn lemma_value_ignores_previous<F: Field>(
    e: Expression<F>,
    inputs: Inputs,
    at: Position,
    v: int,
)
    ensures
        e.value(inputs.with_previous(v), at) == e.value(inputs, at),
        e.readable(inputs.with_previous(v)) == e.readable(inputs),
    decreases e,
{
    match e {
        Expression::Negated(a) => {
            lemma_value_ignores_previous(*a, inputs, at, v);
        },
        Expression::Sum(a, b) => {
            lemma_value_ignores_previous(*a, inputs, at, v);
            lemma_value_ignores_previous(*b, inputs, at, v);
        },
        Expression::Product(a, b) => {
            lemma_value_ignores_previous(*a, inputs, at, v);
            lemma_value_ignores_previous(*b, inputs, at, v);
        },
        Expression::Scaled(a, _) => {
            lemma_value_ignores_previous(*a, inputs, at, v);
        },
        _ => {},
    }
}

/// The values of expressions do not depend on the previous value of the
/// row.
pub proof fn lemma_values_ignore_previous<F: Field>(
    es: Seq<Expression<F>>,
    inputs: Inputs,
    at: Position,
    v: int,
)
    ensures
        expression_values(es, inputs.with_previous(v), at) == expression_values(es, inputs, at),
        all_readable(es, inputs.with_previous(v)) == all_readable(es, inputs),
{
    assert forall|i: int| 0 <= i < es.len() implies (#[trigger] es[i]).value(
        inputs.with_previous(v),
        at,
    ) == es[i].value(inputs, at) && es[i].readable(inputs.with_previous(v)) == es[i].readable(
        inputs,
    ) by {
        lemma_value_ignores_previous(es[i], inputs, at, v);
    }
    assert(expression_values(es, inputs.with_previous(v), at) =~= expression_values(
        es,
        inputs,
        at,
    ));
}

/// The compression of expressions: Horner's rule from zero with the factor
/// theta over their values.
pub open spec fn compression<F: Field>(es: Seq<Expression<F>>, inputs: Inputs, at: Position) -> int {
    horner(inputs.modulus, 0, expression_values(es, inputs, at), inputs.theta)
}

/// The value that a lookup argument has at a row: its compressed input plus
/// beta, times its compressed table plus gamma.
pub open spec fn lookup_value<F: Field>(
    lookup: LookupArgument<F>,
    inputs: Inputs,
    at: Position,
) -> int {
    let p = inputs.modulus;
    fmul(
        p,
        fadd(p, compression(lookup.input_expressions@, inputs, at), inputs.beta),
        fadd(p, compression(lookup.table_expressions@, inputs, at), inputs.gamma),
    )
}

impl ProofView {
    /// The residuals of the permutation identities at the row; none for a
    /// permutation argument without sets.
    pub open spec fn permutation_residuals(self, at: Position) -> Seq<int> {
        if self.permutation.sets.len() == 0 {
            Seq::empty()
        } else {
            self.permutation.terms(at.idx)
        }
    }

    /// The residuals of the identities of the first `n` lookup arguments
    /// at the row, in order.
    pub open spec fn lookup_residuals<F: Field>(
        self,
        lookups: Seq<LookupArgument<F>>,
        at: Position,
        n: nat,
    ) -> Seq<int>
        decreases n,
    {
        if n == 0 {
            Seq::empty()
        } else {
            self.lookup_residuals(lookups, at, (n - 1) as nat) + self.lookups[n - 1].terms(
                at.idx,
                lookup_value(lookups[n - 1], self.inputs, at),
            )
        }
    }

    /// The residuals of all identities of this proof at the row, in the
    /// order of assembly: all gate polynomials, the permutation identities,
    /// and the identities of each lookup argument.
    pub open spec fn residuals<F: Field>(self, cs: &ConstraintSystem<F>, at: Position) -> Seq<int> {
        expression_values(gate_polynomials(cs.gates@), self.inputs, at)
            + self.permutation_residuals(at) + self.lookup_residuals(
            cs.lookups@,
            at,
            self.lookups.len(),
        )
    }

    /// Whether the constraints of `cs` can be evaluated on this proof at
    /// `at`, with the combining challenge `y`.
    pub open spec fn admits<F: Field>(self, cs: &ConstraintSystem<F>, at: Position, y: int) -> bool {
        &&& evaluable::<F>(self.inputs, at)
        &&& self.inputs.y == y
        &&& self.lookups.len() <= cs.lookups@.len()
        &&& all_readable(gate_polynomials(cs.gates@), self.inputs)
        &&& forall|n: int|
            0 <= n < cs.lookups@.len() ==> all_readable(
                (#[trigger] cs.lookups@[n]).input_expressions@,
                self.inputs,
            ) && all_readable(cs.lookups@[n].table_expressions@, self.inputs)
    }
}

/// The residuals of all identities of the first `b` proofs at the row, in
/// the order of assembly.
pub open spec fn batch_residuals<F: Field>(
    cs: &ConstraintSystem<F>,
    proofs: Seq<ProofView>,
    at: Position,
    b: nat,
) -> Seq<int>
    decreases b,
{
    if b == 0 {
        Seq::empty()
    } else {
        batch_residuals(cs, proofs, at, (b - 1) as nat) + proofs[b - 1].residuals(cs, at)
    }
}

/// The graphs of a constraint system are determined by the constraint
/// system: two evaluators compiled from it hold the same graphs, and so
/// take every row of every batch to the same value.
pub proof fn lemma_compilation_is_deterministic<F: Field>(
    first: &Evaluator<F>,
    second: &Evaluator<F>,
    cs: &ConstraintSystem<F>,
    proofs: Seq<ProofView>,
    at: Position,
    b: nat,
)
    requires
        first@.compiled_from(cs),
        second@.compiled_from(cs),
    ensures
        first@ == second@,
        quotient_row(first@, proofs, at, b) == quotient_row(second@, proofs, at, b),
{
    assert(first@.lookups =~= second@.lookups);
}

/// The pass of the custom gates is Horner's rule over the values of the
/// gate polynomials.
proof fn lemma_gates_pass<F: Field>(
    ev: EvaluatorView,
    cs: &ConstraintSystem<F>,
    pv: ProofView,
    at: Position,
    y: int,
    v: int,
)
    requires
        ev.compiled_from(cs),
        cs.selector_free(),
        pv.admits(cs, at, y),
        is_residue(pv.inputs.modulus, v),
    ensures
        pv.gates_value(ev, at, v) == horner(
            pv.inputs.modulus,
            v,
            expression_values(gate_polynomials(cs.gates@), pv.inputs, at),
            y,
        ),
{
    let polys = gate_polynomials(cs.gates@);
    let inputs = pv.inputs.with_previous(v);
    lemma_values_ignore_previous(polys, pv.inputs, at, v);
    lemma_gates_graph_value(polys, inputs, at);
}

/// The graph of lookup argument `n` has the value of the argument.
proof fn lemma_table_value<F: Field>(
    ev: EvaluatorView,
    cs: &ConstraintSystem<F>,
    pv: ProofView,
    at: Position,
    y: int,
    n: int,
)
    requires
        ev.compiled_from(cs),
        cs.selector_free(),
        pv.admits(cs, at, y),
        0 <= n < cs.lookups@.len(),
    ensures
        pv.table_value(ev, at, n) == lookup_value(cs.lookups@[n], pv.inputs, at),
{
    let lookup = cs.lookups@[n];
    let inputs = pv.inputs.with_previous(0);
    assert(ev.lookups[n].fits());
    lemma_values_ignore_previous(lookup.input_expressions@, pv.inputs, at, 0);
    lemma_values_ignore_previous(lookup.table_expressions@, pv.inputs, at, 0);
    lemma_lookup_graph_value(lookup.input_expressions@, lookup.table_expressions@, inputs, at);
}

/// The passes of the first `n` lookup arguments are Horner's rule over
/// their residuals.
proof fn lemma_lookup_passes<F: Field>(
    ev: EvaluatorView,
    cs: &ConstraintSystem<F>,
    pv: ProofView,
    at: Position,
    y: int,
    v: int,
    n: nat,
)
    requires
        ev.compiled_from(cs),
        cs.selector_free(),
        pv.admits(cs, at, y),
        n <= pv.lookups.len(),
    ensures
        pv.lookups_value(ev, at, v, n) == horner(
            pv.inputs.modulus,
            v,
            pv.lookup_residuals(cs.lookups@, at, n),
            y,
        ),
    decreases n,
{
    if n > 0 {
        lemma_lookup_passes(ev, cs, pv, at, y, v, (n - 1) as nat);
        lemma_table_value(ev, cs, pv, at, y, n - 1);
        lemma_horner_concat(
            pv.inputs.modulus,
            v,
            pv.lookup_residuals(cs.lookups@, at, (n - 1) as nat),
            pv.lookups[n - 1].terms(at.idx, lookup_value(cs.lookups@[n - 1], pv.inputs, at)),
            y,
        );
    }
}

/// The three passes of a proof are Horner's rule over its residuals.
pub proof fn lemma_row_is_horner_combination<F: Field>(
    ev: EvaluatorView,
    cs: &ConstraintSystem<F>,
    pv: ProofView,
    at: Position,
    y: int,
    v: int,
)
    requires
        ev.compiled_from(cs),
        cs.selector_free(),
        pv.admits(cs, at, y),
        is_residue(pv.inputs.modulus, v),
    ensures
        pv.row_value(ev, at, v) == horner(pv.inputs.modulus, v, pv.residuals(cs, at), y),
{
    let p = pv.inputs.modulus;
    let gates = expression_values(gate_polynomials(cs.gates@), pv.inputs, at);
    let permutation = pv.permutation_residuals(at);
    let lookups = pv.lookup_residuals(cs.lookups@, at, pv.lookups.len());
    lemma_gates_pass(ev, cs, pv, at, y, v);
    let gated = pv.gates_value(ev, at, v);
    assert(pv.permutation_value(at, gated) == horner(p, gated, permutation, y));
    lemma_horner_concat(p, v, gates, permutation, y);
    let permuted = pv.permutation_value(at, gated);
    lemma_lookup_passes(ev, cs, pv, at, y, permuted, pv.lookups.len());
    lemma_horner_concat(p, v, gates + permutation, lookups, y);
}

/// The quotient is the Horner combination of the residuals: each row of the
/// quotient of a batch of proofs is Horner's rule from zero, with the
/// factor y, over the residuals of all gate polynomials, the permutation
/// identities and the lookup identities of each proof in turn. That is the
/// sum of the residuals, each weighted with the power of y that counts the
/// residuals after it.
pub proof fn lemma_quotient_is_horner_combination<F: Field>(
    ev: EvaluatorView,
    cs: &ConstraintSystem<F>,
    proofs: Seq<ProofView>,
    at: Position,
    y: int,
    b: nat,
)
    requires
        ev.compiled_from(cs),
        cs.selector_free(),
        b <= proofs.len(),
        forall|i: int| 0 <= i < b ==> (#[trigger] proofs[i]).admits(cs, at, y),
    ensures
        quotient_row(ev, proofs, at, b) == horner(
            F::modulus(),
            0,
            batch_residuals(cs, proofs, at, b),
            y,
        ),
        quotient_row(ev, proofs, at, b) == power_sum(
            batch_residuals(cs, proofs, at, b),
            y,
            batch_residuals(cs, proofs, at, b).len(),
        ) % F::modulus(),
        is_residue(F::modulus(), quotient_row(ev, proofs, at, b)),
    decreases b,
{
    let p = F::modulus();
    F::lemma_modulus();
    if b > 0 {
        lemma_quotient_is_horner_combination(ev, cs, proofs, at, y, (b - 1) as nat);
        let before = quotient_row(ev, proofs, at, (b - 1) as nat);
        let pv = proofs[b - 1];
        lemma_row_is_horner_combination(ev, cs, pv, at, y, before);
        lemma_horner_concat(
            p,
            0,
            batch_residuals(cs, proofs, at, (b - 1) as nat),
            pv.residuals(cs, at),
            y,
        );
    }
    lemma_horner_is_residue(p, 0, batch_residuals(cs, proofs, at, b), y);
    lemma_horner_is_power_sum(p, batch_residuals(cs, proofs, at, b), y);
}

/// Where every residual vanishes, the quotient vanishes: a row of the
/// quotient at which the residuals of all identities of all proofs are zero
/// is zero.
pub proof fn lemma_quotient_vanishes_with_residuals<F: Field>(
    ev: EvaluatorView,
    cs: &ConstraintSystem<F>,
    proofs: Seq<ProofView>,
    at: Position,
    y: int,
    b: nat,
)
    requires
        ev.compiled_from(cs),
        cs.selector_free(),
        b <= proofs.len(),
        forall|i: int| 0 <= i < b ==> (#[trigger] proofs[i]).admits(cs, at, y),
        forall|k: int|
            0 <= k < batch_residuals(cs, proofs, at, b).len() ==> batch_residuals(
                cs,
                proofs,
                at,
                b,
            )[k] == 0,
    ensures
        quotient_row(ev, proofs, at, b) == 0,
{
    F::lemma_modulus();
    lemma_quotient_is_horner_combination(ev, cs, proofs, at, y, b);
    crate::calculation::lemma_horner_of_zeros(
        F::modulus(),
        batch_residuals(cs, proofs, at, b),
        y,
    );
}

/// The inputs of a proof that fits the key are canonical residues of the
/// field and cover the extended domain.
pub proof fn lemma_session_inputs<F: Field>(
    pk: &ProvingKey<F>,
    advice: Seq<Polynomial<F, ExtendedLagrangeCoeff>>,
    instance: Seq<Polynomial<F, ExtendedLagrangeCoeff>>,
    challenges: Seq<F>,
    y: F,
    beta: F,
    gamma: F,
    theta: F,
    idx: int,
)
    requires
        pk.wf(),
        pk.fits_witness(advice, instance),
    ensures
        evaluable::<F>(
            session_inputs(pk, advice, instance, challenges, y, beta, gamma, theta),
            row_of(pk, idx),
        ),
{
    let inputs = session_inputs(pk, advice, instance, challenges, y, beta, gamma, theta);
    F::lemma_modulus();
    crate::polynomial::lemma_table_values(pk.fixed_cosets@);
    crate::polynomial::lemma_table_values(advice);
    crate::polynomial::lemma_table_values(instance);
    crate::field::lemma_field_values(challenges);
    y.lemma_value();
    beta.lemma_value();
    gamma.lemma_value();
    theta.lemma_value();
    lemma_tables_cover(pk, advice, instance, inputs);
    crate::keys::lemma_pow2_monotone(0, pk.vk.domain.extended_k as nat);
}

impl<F: Field> Evaluator<F> {
    /// Whether this evaluator holds the graphs of the constraint system of
    /// `pk`, from which the selectors were eliminated, and every proof of
    /// the batch has the columns and challenges that the constraints query.
    pub open spec fn compiled_for(
        &self,
        pk: &ProvingKey<F>,
        advice: Seq<Vec<Polynomial<F, ExtendedLagrangeCoeff>>>,
        instance: Seq<Vec<Polynomial<F, ExtendedLagrangeCoeff>>>,
        challenges: Seq<F>,
    ) -> bool {
        &&& self@.compiled_from(&pk.vk.cs)
        &&& pk.vk.cs.selector_free()
        &&& forall|b: int|
            0 <= b < advice.len() ==> pk.vk.cs.columns_within(
                pk.fixed_cosets@.len() as int,
                (#[trigger] advice[b])@.len() as int,
                instance[b]@.len() as int,
                challenges.len() as int,
            )
    }
}

/// The quotient of a batch of proofs that fits the key, assembled by the
/// evaluator of the key's constraint system: each row is Horner's rule from
/// zero, with the factor y, over the residuals of all identities of all
/// proofs, in the order of assembly.
pub proof fn lemma_h_is_horner_combination<F: Field>(
    ev: &Evaluator<F>,
    pk: &ProvingKey<F>,
    advice: Seq<Vec<Polynomial<F, ExtendedLagrangeCoeff>>>,
    instance: Seq<Vec<Polynomial<F, ExtendedLagrangeCoeff>>>,
    challenges: Seq<F>,
    y: F,
    beta: F,
    gamma: F,
    theta: F,
    lookups: Seq<Vec<crate::lookup::Committed<F>>>,
    permutations: Seq<crate::permutation::Committed<F>>,
    idx: int,
)
    requires
        ev.fits_batch(pk, advice, instance, challenges, lookups, permutations),
        ev.compiled_for(pk, advice, instance, challenges),
    ensures
        ({
            let proofs = proof_views(
                pk,
                advice,
                instance,
                challenges,
                y,
                beta,
                gamma,
                theta,
                lookups,
                permutations,
            );
            quotient_row(ev@, proofs, row_of(pk, idx), advice.len()) == horner(
                F::modulus(),
                0,
                batch_residuals(&pk.vk.cs, proofs, row_of(pk, idx), advice.len()),
                y.value(),
            )
        }),
{
    let cs = &pk.vk.cs;
    let at = row_of(pk, idx);
    let proofs = proof_views(
        pk,
        advice,
        instance,
        challenges,
        y,
        beta,
        gamma,
        theta,
        lookups,
        permutations,
    );
    assert forall|b: int| 0 <= b < advice.len() implies (#[trigger] proofs[b]).admits(
        cs,
        at,
        y.value(),
    ) by {
        let inputs = proofs[b].inputs;
        assert(pk.fits_witness(advice[b]@, instance[b]@));
        lemma_session_inputs(pk, advice[b]@, instance[b]@, challenges, y, beta, gamma, theta, idx);
        assert(cs.columns_within(
            pk.fixed_cosets@.len() as int,
            advice[b]@.len() as int,
            instance[b]@.len() as int,
            challenges.len() as int,
        ));
        let polys = gate_polynomials(cs.gates@);
        assert forall|i: int| 0 <= i < polys.len() implies (#[trigger] polys[i]).readable(
            inputs,
        ) by {
            assert(polys[i].columns_within(
                pk.fixed_cosets@.len() as int,
                advice[b]@.len() as int,
                instance[b]@.len() as int,
                challenges.len() as int,
            ));
        }
        assert forall|n: int| 0 <= n < cs.lookups@.len() implies all_readable(
            (#[trigger] cs.lookups@[n]).input_expressions@,
            inputs,
        ) && all_readable(cs.lookups@[n].table_expressions@, inputs) by {
            let lookup = cs.lookups@[n];
            assert forall|i: int| 0 <= i < lookup.input_expressions@.len() implies (
            #[trigger] lookup.input_expressions@[i]).readable(inputs) by {
                assert(lookup.input_expressions@[i].columns_within(
                    pk.fixed_cosets@.len() as int,
                    advice[b]@.len() as int,
                    instance[b]@.len() as int,
                    challenges.len() as int,
                ));
            }
            assert forall|i: int| 0 <= i < lookup.table_expressions@.len() implies (
            #[trigger] lookup.table_expressions@[i]).readable(inputs) by {
                assert(lookup.table_expressions@[i].columns_within(
                    pk.fixed_cosets@.len() as int,
                    advice[b]@.len() as int,
                    instance[b]@.len() as int,
                    challenges.len() as int,
                ));
            }
        }
    }
    lemma_quotient_is_horner_combination(ev@, cs, proofs, at, y.value(), advice.len());
}

} // verus!
