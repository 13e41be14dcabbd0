use plonk_evaluation::calculation::Calculation;
use plonk_evaluation::circuit::{
    Any, Column, ConstraintSystem, Gate, LookupArgument, PermutationArgument,
};
use plonk_evaluation::evaluator::Evaluator;
use plonk_evaluation::expression::{AdviceQuery, Expression, FixedQuery, InstanceQuery, Selector};
use plonk_evaluation::field::Field;
use plonk_evaluation::goldilocks::{Goldilocks, MODULUS};
use plonk_evaluation::keys::{EvaluationDomain, PermutationProvingKey, ProvingKey, VerifyingKey};
use plonk_evaluation::lookup::{lookup_fold, lookup_row, lookup_row_data};
use plonk_evaluation::permutation::{permutation_row, CommittedSet};
use plonk_evaluation::polynomial::{ExtendedLagrangeCoeff, Polynomial};
use plonk_evaluation::quotient::{evaluate_permutation, fold_lookup_rows};
use plonk_evaluation::rotation::Rotation;
use plonk_evaluation::value_source::ValueSource;

type Poly = Polynomial<Goldilocks, ExtendedLagrangeCoeff>;
type Expr = Expression<Goldilocks>;
type LookupCommitted = plonk_evaluation::lookup::Committed<Goldilocks>;
type PermutationCommitted = plonk_evaluation::permutation::Committed<Goldilocks>;

/// A generator of the subgroup of order eight.
const OMEGA: u64 = 18446744069397807105;
const Y: u64 = 11;
const BETA: u64 = 13;
const GAMMA: u64 = 17;
const THETA: u64 = 19;

fn fe(v: u64) -> Goldilocks {
    Goldilocks::new(v)
}

fn poly(values: &[u64]) -> Poly {
    Polynomial::from_values(values.iter().map(|v| fe(*v)).collect())
}

fn residues(p: &Poly) -> Vec<u64> {
    p.values.iter().map(|v| v.to_u64()).collect()
}

fn advice_query(column_index: usize, rotation: i32) -> Expr {
    Expression::Advice(AdviceQuery { column_index, rotation: Rotation(rotation) })
}

fn fixed_query(column_index: usize, rotation: i32) -> Expr {
    Expression::Fixed(FixedQuery { column_index, rotation: Rotation(rotation) })
}

fn instance_query(column_index: usize, rotation: i32) -> Expr {
    Expression::Instance(InstanceQuery { column_index, rotation: Rotation(rotation) })
}

fn constraint_system() -> ConstraintSystem<Goldilocks> {
    // advice_0(X) * fixed_0(X) - instance_0(omega X)
    let first = Expression::Sum(
        Box::new(Expression::Product(
            Box::new(advice_query(0, 0)),
            Box::new(fixed_query(0, 0)),
        )),
        Box::new(Expression::Negated(Box::new(instance_query(0, 1)))),
    );
    // 3 * advice_0(omega^-1 X)
    let second = Expression::Scaled(Box::new(advice_query(0, -1)), fe(3));
    ConstraintSystem {
        gates: vec![Gate { polys: vec![first] }, Gate { polys: vec![second] }],
        lookups: vec![LookupArgument {
            input_expressions: vec![advice_query(0, 0), fixed_query(0, 1)],
            table_expressions: vec![instance_query(0, 0)],
        }],
        permutation: PermutationArgument {
            columns: vec![
                Column::new(0, Any::Advice),
                Column::new(0, Any::Fixed),
                Column::new(0, Any::Instance),
            ],
        },
        degree: 4,
        blinding_factors: 1,
    }
}

fn proving_key(cs: ConstraintSystem<Goldilocks>) -> ProvingKey<Goldilocks> {
    ProvingKey {
        vk: VerifyingKey {
            domain: EvaluationDomain { k: 2, extended_k: 3, extended_omega: fe(OMEGA) },
            cs,
        },
        l0: poly(&[1, 0, 2, 0, 0, 3, 1, 0]),
        l_last: poly(&[0, 3, 0, 1, 2, 0, 0, 1]),
        l_active_row: poly(&[1, 1, 0, 2, 1, 3, 0, 1]),
        fixed_cosets: vec![poly(&[3, 1, 4, 1, 5, 9, 2, 6])],
        permutation: PermutationProvingKey {
            cosets: vec![
                poly(&[7, 1, 8, 2, 8, 1, 8, 2]),
                poly(&[8, 1, 8, 2, 8, 4, 5, 9]),
                poly(&[8, 4, 5, 9, 0, 4, 5, 2]),
            ],
        },
    }
}

fn advice() -> Vec<Poly> {
    vec![poly(&[5, 9, 2, 6, 5, 3, 5, 8])]
}

fn instance() -> Vec<Poly> {
    vec![poly(&[5, 3, 5, 8, 9, 7, 9, 3])]
}

fn lookup() -> LookupCommitted {
    LookupCommitted {
        product_coset: poly(&[1, 4, 1, 5, 9, 2, 6, 5]),
        permuted_input_coset: poly(&[9, 2, 6, 5, 3, 5, 8, 9]),
        permuted_table_coset: poly(&[3, 5, 8, 9, 7, 9, 3, 2]),
    }
}

fn permutation() -> PermutationCommitted {
    PermutationCommitted {
        sets: vec![
            CommittedSet { permutation_product_coset: poly(&[1, 2, 3, 4, 5, 6, 7, 8]) },
            CommittedSet { permutation_product_coset: poly(&[2, 7, 1, 8, 2, 8, 1, 8]) },
        ],
    }
}

const AFTER_GATES: [u64; 8] = [125, 35, 4, 16, 182, 282, 70, 504];
const AFTER_PERMUTATION: [u64; 8] = [
    14490322080796949359,
    7262062461763547656,
    584188,
    560185101232367982,
    17534113596126682684,
    584135262273600881,
    11185482,
    10567359289965048474,
];
const AFTER_ONE_PROOF: [u64; 8] = [
    1715956859843106088,
    1954040457636883201,
    94084061544,
    13792239136774678500,
    3606391605558685161,
    15620114480729514293,
    1801432988432,
    5619908040885135395,
];
const AFTER_TWO_PROOFS: [u64; 8] = [
    3771197905601046788,
    8409037983445289088,
    17502971898828336842,
    14010684051963204334,
    14029501262071018926,
    12580748910350137636,
    18053543574288458219,
    15691327155466723861,
];
const TABLE_VALUES: [u64; 8] = [2464, 3700, 1232, 3400, 2860, 1824, 2886, 3320];

#[test]
fn the_graph_of_the_custom_gates_ends_in_horner_over_the_polynomials() {
    let ev = Evaluator::new(&constraint_system());
    assert!(ev.is_well_formed());
    let graph = &ev.custom_gates;
    assert_eq!(graph.rotations, vec![0, 1, -1]);
    assert_eq!(graph.constants, vec![fe(0), fe(1), fe(2), fe(3)]);
    let last = &graph.calculations[graph.calculations.len() - 1];
    assert_eq!(
        last.calculation,
        Calculation::Horner(
            ValueSource::PreviousValue(),
            vec![ValueSource::Intermediate(4), ValueSource::Intermediate(6)],
            ValueSource::Y()
        )
    );
    assert_eq!(graph.calculations.len(), 8);
    assert_eq!(graph.num_intermediates, 8);
}

#[test]
fn the_graph_of_a_lookup_multiplies_the_two_shifted_compressions() {
    let ev = Evaluator::new(&constraint_system());
    assert_eq!(ev.lookups.len(), 1);
    let all: Vec<Calculation> =
        ev.lookups[0].calculations.iter().map(|info| info.calculation.clone()).collect();
    assert_eq!(
        all,
        vec![
            Calculation::Store(ValueSource::Advice(0, 0)),
            Calculation::Store(ValueSource::Fixed(0, 1)),
            Calculation::Horner(
                ValueSource::Constant(0),
                vec![ValueSource::Intermediate(0), ValueSource::Intermediate(1)],
                ValueSource::Theta()
            ),
            Calculation::Store(ValueSource::Instance(0, 0)),
            Calculation::Horner(
                ValueSource::Constant(0),
                vec![ValueSource::Intermediate(3)],
                ValueSource::Theta()
            ),
            Calculation::Add(ValueSource::Intermediate(4), ValueSource::Gamma()),
            Calculation::Add(ValueSource::Intermediate(2), ValueSource::Beta()),
            Calculation::Mul(ValueSource::Intermediate(6), ValueSource::Intermediate(5)),
        ]
    );
}

#[test]
fn the_graph_of_a_lookup_evaluates_to_the_product_of_the_shifted_compressions() {
    let ev = Evaluator::new(&constraint_system());
    let pk = proving_key(constraint_system());
    let graph = &ev.lookups[0];
    let mut data = graph.instance();
    for idx in 0..8 {
        let value = graph.evaluate(
            &mut data,
            &pk.fixed_cosets,
            &advice(),
            &instance(),
            &[],
            &fe(BETA),
            &fe(GAMMA),
            &fe(THETA),
            &fe(Y),
            &fe(0),
            idx,
            2,
            8,
        );
        assert_eq!(value.to_u64(), TABLE_VALUES[idx]);
    }
}

#[test]
fn a_lookup_with_the_same_input_and_table_compresses_once() {
    let cs = ConstraintSystem {
        gates: vec![],
        lookups: vec![LookupArgument {
            input_expressions: vec![advice_query(0, 0)],
            table_expressions: vec![advice_query(0, 0)],
        }],
        permutation: PermutationArgument { columns: vec![] },
        degree: 3,
        blinding_factors: 0,
    };
    let ev = Evaluator::new(&cs);
    let all: Vec<Calculation> =
        ev.lookups[0].calculations.iter().map(|info| info.calculation.clone()).collect();
    assert_eq!(
        all,
        vec![
            Calculation::Store(ValueSource::Advice(0, 0)),
            Calculation::Horner(
                ValueSource::Constant(0),
                vec![ValueSource::Intermediate(0)],
                ValueSource::Theta()
            ),
            Calculation::Add(ValueSource::Intermediate(1), ValueSource::Gamma()),
            Calculation::Add(ValueSource::Intermediate(1), ValueSource::Beta()),
            Calculation::Mul(ValueSource::Intermediate(3), ValueSource::Intermediate(2)),
        ]
    );
}

#[test]
fn the_pass_of_the_custom_gates_folds_the_polynomials_into_each_row() {
    let ev = Evaluator::new(&constraint_system());
    let pk = proving_key(constraint_system());
    let mut values = pk.vk.domain.empty_extended();
    ev.evaluate_gates(
        &mut values,
        0,
        8,
        &pk,
        &advice(),
        &instance(),
        &[],
        &fe(Y),
        &fe(BETA),
        &fe(GAMMA),
        &fe(THETA),
    );
    assert_eq!(residues(&values), AFTER_GATES);
    // Over a part of the rows the other rows stay as they are.
    let mut values = poly(&[1, 1, 1, 1, 1, 1, 1, 1]);
    ev.evaluate_gates(
        &mut values,
        2,
        4,
        &pk,
        &advice(),
        &instance(),
        &[],
        &fe(Y),
        &fe(BETA),
        &fe(GAMMA),
        &fe(THETA),
    );
    // ((1 * 11 + first) * 11 + second) at rows 2 and 3.
    assert_eq!(residues(&values), [1, 1, 125, 137, 1, 1, 1, 1]);
}

#[test]
fn the_pass_of_the_permutation_accumulates_its_residuals() {
    let pk = proving_key(constraint_system());
    let mut values = poly(&AFTER_GATES);
    evaluate_permutation(
        &mut values,
        0,
        8,
        &pk,
        &advice(),
        &instance(),
        &permutation(),
        &fe(Y),
        &fe(BETA),
        &fe(GAMMA),
    );
    assert_eq!(residues(&values), AFTER_PERMUTATION);
    // Started in the middle, the power of omega is that of the first row.
    let mut values = poly(&AFTER_GATES);
    evaluate_permutation(
        &mut values,
        3,
        6,
        &pk,
        &advice(),
        &instance(),
        &permutation(),
        &fe(Y),
        &fe(BETA),
        &fe(GAMMA),
    );
    let mut expected = AFTER_GATES;
    expected[3..6].copy_from_slice(&AFTER_PERMUTATION[3..6]);
    assert_eq!(residues(&values), expected);
}

#[test]
fn a_permutation_without_sets_leaves_the_rows_as_they_are() {
    let pk = proving_key(constraint_system());
    let mut values = poly(&AFTER_GATES);
    evaluate_permutation(
        &mut values,
        0,
        8,
        &pk,
        &advice(),
        &instance(),
        &PermutationCommitted { sets: vec![] },
        &fe(Y),
        &fe(BETA),
        &fe(GAMMA),
    );
    assert_eq!(residues(&values), AFTER_GATES);
}

#[test]
fn the_permutation_identities_of_a_row() {
    let pk = proving_key(constraint_system());
    let expected: [u64; 8] = [
        14490322080777623239,
        7262062461758716126,
        745239,
        560185101230596421,
        17534113596098176657,
        584135262228989754,
        717167,
        10567359289884684025,
    ];
    for idx in 0..8 {
        let value = permutation_row(
            &fe(5),
            idx,
            &fe(OMEGA).pow_vartime(idx as u64),
            &pk,
            &advice(),
            &instance(),
            &permutation(),
            &fe(Y),
            &fe(BETA),
            &fe(GAMMA),
        );
        assert_eq!(value.to_u64(), expected[idx]);
    }
}

#[test]
fn the_delta_ladder_climbs_across_the_sets() {
    // With y = 0 only the residual of the last set is left. Its columns are
    // the third of the ladder, so its right product holds delta squared.
    let pk = proving_key(constraint_system());
    let value = permutation_row(
        &fe(5),
        0,
        &fe(1),
        &pk,
        &advice(),
        &instance(),
        &permutation(),
        &fe(0),
        &fe(BETA),
        &fe(GAMMA),
    );
    assert_eq!(value.to_u64(), 6883933266441777448);
    let delta = Goldilocks::delta();
    let ladder = fe(BETA).mul(&Goldilocks::zeta()).mul(&delta).mul(&delta);
    // left = z_1(omega X) * (instance + beta * s_2 + gamma),
    // right = z_1 * (instance + ladder + gamma), at row 0 where l_active is 1.
    let left = fe(1).mul(&fe(5 + 13 * 8 + 17));
    let right = fe(2).mul(&fe(5).add(&ladder).add(&fe(17)));
    assert_eq!(value, left.sub(&right));
}

fn single_set_key() -> ProvingKey<Goldilocks> {
    ProvingKey {
        vk: VerifyingKey {
            domain: EvaluationDomain { k: 1, extended_k: 2, extended_omega: fe(1) },
            cs: ConstraintSystem {
                gates: vec![],
                lookups: vec![],
                permutation: PermutationArgument { columns: vec![Column::new(0, Any::Advice)] },
                degree: 3,
                blinding_factors: 0,
            },
        },
        l0: poly(&[6, 0, 0, 0]),
        l_last: poly(&[0, 0, 0, 0]),
        l_active_row: poly(&[0, 0, 0, 0]),
        fixed_cosets: vec![],
        permutation: PermutationProvingKey { cosets: vec![poly(&[1, 2, 3, 4])] },
    }
}

#[test]
fn the_first_set_starts_at_one() {
    let pk = single_set_key();
    let advice = vec![poly(&[4, 3, 2, 1])];
    let ones =
        PermutationCommitted { sets: vec![CommittedSet { permutation_product_coset: poly(&[1, 1, 1, 1]) }] };
    for idx in 0..4 {
        let value = permutation_row(
            &fe(0),
            idx,
            &fe(1),
            &pk,
            &advice,
            &[],
            &ones,
            &fe(Y),
            &fe(BETA),
            &fe(GAMMA),
        );
        assert_eq!(value.to_u64(), 0);
    }
    let two = PermutationCommitted {
        sets: vec![CommittedSet { permutation_product_coset: poly(&[2, 1, 1, 1]) }],
    };
    // The residual is l_0 * (1 - 2); with y = 1 no power of y weighs it.
    let value =
        permutation_row(&fe(0), 0, &fe(1), &pk, &advice, &[], &two, &fe(1), &fe(BETA), &fe(GAMMA));
    assert_eq!(value.to_u64(), MODULUS - 6);
    // Two residuals follow it, so it is weighted with y squared.
    let value =
        permutation_row(&fe(0), 0, &fe(1), &pk, &advice, &[], &two, &fe(3), &fe(BETA), &fe(GAMMA));
    assert_eq!(value.to_u64(), MODULUS - 54);
    let value =
        permutation_row(&fe(0), 1, &fe(1), &pk, &advice, &[], &two, &fe(3), &fe(BETA), &fe(GAMMA));
    assert_eq!(value.to_u64(), 0);
}

#[test]
fn the_lookup_identities_of_a_row() {
    let pk = proving_key(constraint_system());
    let expected: [u64; 8] = [
        882525,
        18446744069414168465,
        1127313,
        18446744069411850786,
        18446744069413067598,
        608498,
        1054207,
        18446744069413932038,
    ];
    for idx in 0..8 {
        let value = lookup_row(
            &fe(7),
            idx,
            fe(TABLE_VALUES[idx]),
            &pk,
            &lookup(),
            &fe(Y),
            &fe(BETA),
            &fe(GAMMA),
        );
        assert_eq!(value.to_u64(), expected[idx]);
    }
}

#[test]
fn the_row_data_of_a_lookup() {
    let pk = proving_key(constraint_system());
    let expected: [(u64, usize, usize); 8] = [
        (6, 2, 6),
        (MODULUS - 3, 3, 7),
        (MODULUS - 2, 4, 0),
        (MODULUS - 4, 5, 1),
        (MODULUS - 4, 6, 2),
        (MODULUS - 4, 7, 3),
        (5, 0, 4),
        (7, 1, 5),
    ];
    for idx in 0..8 {
        let data = lookup_row_data(idx, fe(TABLE_VALUES[idx]), &pk, &lookup());
        assert_eq!(data.table_value.to_u64(), TABLE_VALUES[idx]);
        assert_eq!((data.a_minus_s.to_u64(), data.r_next, data.r_prev), expected[idx]);
        let folded = lookup_fold(&fe(7), idx, &data, &pk, &lookup(), &fe(Y), &fe(BETA), &fe(GAMMA));
        let direct =
            lookup_row(&fe(7), idx, fe(TABLE_VALUES[idx]), &pk, &lookup(), &fe(Y), &fe(BETA), &fe(GAMMA));
        assert_eq!(folded, direct);
    }
}

#[test]
fn row_data_and_fold_together_are_the_pass_of_the_lookup() {
    let ev = Evaluator::new(&constraint_system());
    let pk = proving_key(constraint_system());
    let rows = ev.lookup_rows_data(
        0,
        0,
        8,
        &pk,
        &advice(),
        &instance(),
        &[],
        &lookup(),
        &fe(Y),
        &fe(BETA),
        &fe(GAMMA),
        &fe(THETA),
    );
    assert_eq!(rows.len(), 8);
    for idx in 0..8 {
        assert_eq!(rows[idx].table_value.to_u64(), TABLE_VALUES[idx]);
    }
    let mut folded = poly(&AFTER_PERMUTATION);
    fold_lookup_rows(&mut folded, 0, 8, &rows, &pk, &lookup(), &fe(Y), &fe(BETA), &fe(GAMMA));
    let mut direct = poly(&AFTER_PERMUTATION);
    ev.evaluate_lookup(
        0,
        &mut direct,
        0,
        8,
        &pk,
        &advice(),
        &instance(),
        &[],
        &lookup(),
        &fe(Y),
        &fe(BETA),
        &fe(GAMMA),
        &fe(THETA),
    );
    assert_eq!(residues(&folded), AFTER_ONE_PROOF);
    assert_eq!(residues(&direct), AFTER_ONE_PROOF);
    // A part of the rows.
    let rows = ev.lookup_rows_data(
        0,
        5,
        7,
        &pk,
        &advice(),
        &instance(),
        &[],
        &lookup(),
        &fe(Y),
        &fe(BETA),
        &fe(GAMMA),
        &fe(THETA),
    );
    assert_eq!(rows.len(), 2);
    assert_eq!((rows[0].r_next, rows[0].r_prev), (7, 3));
    let mut folded = poly(&AFTER_PERMUTATION);
    fold_lookup_rows(&mut folded, 5, 7, &rows, &pk, &lookup(), &fe(Y), &fe(BETA), &fe(GAMMA));
    let mut expected = AFTER_PERMUTATION;
    expected[5..7].copy_from_slice(&AFTER_ONE_PROOF[5..7]);
    assert_eq!(residues(&folded), expected);
}

#[test]
fn a_lookup_whose_identities_hold_adds_nothing() {
    let cs = || ConstraintSystem {
        gates: vec![],
        lookups: vec![LookupArgument { input_expressions: vec![], table_expressions: vec![] }],
        permutation: PermutationArgument { columns: vec![] },
        degree: 3,
        blinding_factors: 0,
    };
    let ev = Evaluator::new(&cs());
    let mut pk = proving_key(cs());
    pk.permutation.cosets = vec![];
    let ones = LookupCommitted {
        product_coset: poly(&[1; 8]),
        permuted_input_coset: poly(&[0; 8]),
        permuted_table_coset: poly(&[0; 8]),
    };
    // From zero, every row stays zero.
    let mut values = pk.vk.domain.empty_extended();
    ev.evaluate_lookup(
        0,
        &mut values,
        0,
        8,
        &pk,
        &[],
        &[],
        &[],
        &ones,
        &fe(Y),
        &fe(BETA),
        &fe(GAMMA),
        &fe(THETA),
    );
    assert_eq!(residues(&values), [0; 8]);
    // From another value only the five multiplications by y are left.
    let mut values = poly(&[1, 2, 3, 4, 5, 6, 7, 8]);
    ev.evaluate_lookup(
        0,
        &mut values,
        0,
        8,
        &pk,
        &[],
        &[],
        &[],
        &ones,
        &fe(Y),
        &fe(BETA),
        &fe(GAMMA),
        &fe(THETA),
    );
    let y5 = 11u64.pow(5);
    assert_eq!(
        residues(&values),
        [y5, 2 * y5, 3 * y5, 4 * y5, 5 * y5, 6 * y5, 7 * y5, 8 * y5]
    );
    // With y = 1 the rows are unchanged.
    let mut values = poly(&[1, 2, 3, 4, 5, 6, 7, 8]);
    ev.evaluate_lookup(
        0,
        &mut values,
        0,
        8,
        &pk,
        &[],
        &[],
        &[],
        &ones,
        &fe(1),
        &fe(BETA),
        &fe(GAMMA),
        &fe(THETA),
    );
    assert_eq!(residues(&values), [1, 2, 3, 4, 5, 6, 7, 8]);
}

#[test]
fn the_quotient_of_one_proof() {
    let ev = Evaluator::new(&constraint_system());
    let pk = proving_key(constraint_system());
    let h = ev.evaluate_h(
        &pk,
        &[advice()],
        &[instance()],
        &[],
        fe(Y),
        fe(BETA),
        fe(GAMMA),
        fe(THETA),
        &[vec![lookup()]],
        &[permutation()],
    );
    assert_eq!(h.len(), 8);
    assert_eq!(residues(&h), AFTER_ONE_PROOF);
}

#[test]
fn the_quotient_of_two_proofs_continues_the_accumulation() {
    let ev = Evaluator::new(&constraint_system());
    let pk = proving_key(constraint_system());
    let h = ev.evaluate_h(
        &pk,
        &[advice(), advice()],
        &[instance(), instance()],
        &[],
        fe(Y),
        fe(BETA),
        fe(GAMMA),
        fe(THETA),
        &[vec![lookup()], vec![lookup()]],
        &[permutation(), permutation()],
    );
    assert_eq!(residues(&h), AFTER_TWO_PROOFS);
}

#[test]
fn the_quotient_is_the_weighted_sum_of_the_residuals() {
    // Row 1 of one proof: the residuals of the two gate polynomials, of the
    // five permutation identities and of the five lookup identities.
    let residuals: [u64; 12] = [
        1,
        24,
        0,
        126,
        0,
        17297905102297512502,
        1452547030630948853,
        0,
        36,
        18446744069414571171,
        0,
        21,
    ];
    let y = fe(Y);
    let mut sum = fe(0);
    for (k, residual) in residuals.iter().enumerate() {
        let weight = y.pow_vartime((residuals.len() - 1 - k) as u64);
        sum = sum.add(&fe(*residual).mul(&weight));
    }
    assert_eq!(sum.to_u64(), AFTER_ONE_PROOF[1]);
}

#[test]
fn the_quotient_of_no_proof_is_zero() {
    let ev = Evaluator::new(&constraint_system());
    let pk = proving_key(constraint_system());
    let h = ev.evaluate_h(&pk, &[], &[], &[], fe(Y), fe(BETA), fe(GAMMA), fe(THETA), &[], &[]);
    assert_eq!(residues(&h), [0; 8]);
}

fn empty_system() -> ConstraintSystem<Goldilocks> {
    ConstraintSystem {
        gates: vec![],
        lookups: vec![],
        permutation: PermutationArgument { columns: vec![] },
        degree: 3,
        blinding_factors: 0,
    }
}

fn bare_key(cs: ConstraintSystem<Goldilocks>) -> ProvingKey<Goldilocks> {
    let mut pk = proving_key(cs);
    pk.permutation.cosets = vec![];
    pk
}

#[test]
fn the_quotient_of_an_empty_system_is_zero() {
    let ev = Evaluator::new(&empty_system());
    assert_eq!(
        ev.custom_gates.calculations[0].calculation,
        Calculation::Horner(ValueSource::PreviousValue(), vec![], ValueSource::Y())
    );
    assert!(ev.lookups.is_empty());
    let pk = bare_key(empty_system());
    let h = ev.evaluate_h(
        &pk,
        &[advice()],
        &[instance()],
        &[],
        fe(Y),
        fe(BETA),
        fe(GAMMA),
        fe(THETA),
        &[vec![]],
        &[PermutationCommitted { sets: vec![] }],
    );
    assert_eq!(h.len(), 8);
    assert_eq!(residues(&h), [0; 8]);
}

#[test]
fn the_quotient_of_a_gate_that_always_holds_is_zero() {
    let trivial = || ConstraintSystem {
        gates: vec![Gate {
            polys: vec![Expression::Sum(
                Box::new(advice_query(0, 0)),
                Box::new(Expression::Negated(Box::new(advice_query(0, 0)))),
            )],
        }],
        ..empty_system()
    };
    let ev = Evaluator::new(&trivial());
    let pk = bare_key(trivial());
    let h = ev.evaluate_h(
        &pk,
        &[advice()],
        &[instance()],
        &[],
        fe(Y),
        fe(BETA),
        fe(GAMMA),
        fe(THETA),
        &[vec![]],
        &[PermutationCommitted { sets: vec![] }],
    );
    assert_eq!(residues(&h), [0; 8]);
    // The accumulator is the previous value times y.
    let mut values = poly(&[1, 2, 3, 4, 5, 6, 7, 8]);
    ev.evaluate_gates(
        &mut values,
        0,
        8,
        &pk,
        &advice(),
        &instance(),
        &[],
        &fe(Y),
        &fe(BETA),
        &fe(GAMMA),
        &fe(THETA),
    );
    assert_eq!(residues(&values), [11, 22, 33, 44, 55, 66, 77, 88]);
}

#[test]
fn two_evaluators_of_one_system_give_the_same_quotient() {
    let first = Evaluator::new(&constraint_system());
    let second = Evaluator::new(&constraint_system());
    assert_eq!(first.custom_gates.constants, second.custom_gates.constants);
    assert_eq!(first.custom_gates.rotations, second.custom_gates.rotations);
    let calculations = |ev: &Evaluator<Goldilocks>| -> Vec<Calculation> {
        ev.custom_gates.calculations.iter().map(|info| info.calculation.clone()).collect()
    };
    assert_eq!(calculations(&first), calculations(&second));
    let pk = proving_key(constraint_system());
    let run = |ev: &Evaluator<Goldilocks>| {
        residues(&ev.evaluate_h(
            &pk,
            &[advice()],
            &[instance()],
            &[],
            fe(Y),
            fe(BETA),
            fe(GAMMA),
            fe(THETA),
            &[vec![lookup()]],
            &[permutation()],
        ))
    };
    assert_eq!(run(&first), run(&second));
}

#[test]
fn a_constraint_system_with_a_selector_is_told_apart() {
    assert!(!constraint_system().contains_selector());
    let mut cs = constraint_system();
    cs.gates[1].polys.push(Expression::Product(
        Box::new(Expression::Selector(Selector(0, false))),
        Box::new(advice_query(0, 0)),
    ));
    assert!(cs.contains_selector());
    let mut cs = constraint_system();
    cs.lookups[0].table_expressions.push(Expression::Selector(Selector(1, true)));
    assert!(cs.contains_selector());
}

#[test]
fn a_batch_is_accepted_when_it_fits_the_key() {
    let ev = Evaluator::new(&constraint_system());
    let pk = proving_key(constraint_system());
    assert!(pk.is_well_formed());
    assert!(pk.holds_witness(&advice(), &instance()));
    assert!(permutation().is_for(&pk));
    assert!(lookup().is_for(&pk));
    assert!(ev.has_reads_within(1, 1, 1, 0));
    assert!(ev.accepts_batch(
        &pk,
        &[advice()],
        &[instance()],
        &[],
        &[vec![lookup()]],
        &[permutation()]
    ));
    assert!(ev.accepts_batch(&pk, &[], &[], &[], &[], &[]));
    // A proof may commit to fewer lookups than there are graphs.
    assert!(ev.accepts_batch(&pk, &[advice()], &[instance()], &[], &[vec![]], &[permutation()]));
}

#[test]
fn a_batch_with_lists_of_different_lengths_is_refused() {
    let ev = Evaluator::new(&constraint_system());
    let pk = proving_key(constraint_system());
    assert!(!ev.accepts_batch(&pk, &[advice()], &[], &[], &[vec![lookup()]], &[permutation()]));
    assert!(!ev.accepts_batch(&pk, &[advice()], &[instance()], &[], &[], &[permutation()]));
    assert!(!ev.accepts_batch(&pk, &[advice()], &[instance()], &[], &[vec![lookup()]], &[]));
    assert!(!ev.accepts_batch(
        &pk,
        &[],
        &[instance()],
        &[],
        &[vec![lookup()]],
        &[permutation()]
    ));
}

#[test]
fn a_batch_with_a_missing_column_is_refused() {
    let ev = Evaluator::new(&constraint_system());
    let pk = proving_key(constraint_system());
    assert!(!ev.accepts_batch(&pk, &[vec![]], &[instance()], &[], &[vec![lookup()]], &[permutation()]));
    assert!(!ev.accepts_batch(&pk, &[advice()], &[vec![]], &[], &[vec![lookup()]], &[permutation()]));
    assert!(!ev.has_reads_within(1, 0, 1, 0));
    assert!(!ev.has_reads_within(0, 1, 1, 0));
    assert!(!pk.holds_witness(&advice(), &[]));
}

#[test]
fn a_batch_with_a_polynomial_of_another_size_is_refused() {
    let ev = Evaluator::new(&constraint_system());
    let pk = proving_key(constraint_system());
    let short = vec![poly(&[1, 2, 3, 4])];
    assert!(!ev.accepts_batch(&pk, &[short], &[instance()], &[], &[vec![lookup()]], &[permutation()]));
    let mut bad = lookup();
    bad.permuted_table_coset = poly(&[1, 2, 3]);
    assert!(!bad.is_for(&pk));
    assert!(!ev.accepts_batch(&pk, &[advice()], &[instance()], &[], &[vec![bad]], &[permutation()]));
    let mut bad = permutation();
    bad.sets[1].permutation_product_coset = poly(&[1]);
    assert!(!bad.is_for(&pk));
    assert!(!ev.accepts_batch(&pk, &[advice()], &[instance()], &[], &[vec![lookup()]], &[bad]));
}

#[test]
fn a_batch_with_more_lookups_than_graphs_is_refused() {
    let ev = Evaluator::new(&constraint_system());
    let pk = proving_key(constraint_system());
    assert!(!ev.accepts_batch(
        &pk,
        &[advice()],
        &[instance()],
        &[],
        &[vec![lookup(), lookup()]],
        &[permutation()]
    ));
}

#[test]
fn a_permutation_with_another_number_of_sets_is_refused() {
    let pk = proving_key(constraint_system());
    // Three columns in chunks of two make two sets.
    let mut one = permutation();
    one.sets.pop();
    assert!(!one.is_for(&pk));
    let mut three = permutation();
    three.sets.push(CommittedSet { permutation_product_coset: poly(&[1; 8]) });
    assert!(!three.is_for(&pk));
    assert!(PermutationCommitted { sets: vec![] }.is_for(&pk));
    // Three columns in chunks of three make one set.
    let mut cs = constraint_system();
    cs.degree = 5;
    let pk = proving_key(cs);
    assert!(one.is_for(&pk));
    assert!(!permutation().is_for(&pk));
}

#[test]
fn a_key_that_breaks_a_precondition_is_not_well_formed() {
    let mut pk = proving_key(constraint_system());
    pk.vk.domain.extended_k = 2;
    assert!(!pk.is_well_formed());
    let mut pk = proving_key(constraint_system());
    pk.vk.domain.k = 30;
    pk.vk.domain.extended_k = 31;
    assert!(!pk.is_well_formed());
    let mut pk = proving_key(constraint_system());
    pk.vk.cs.blinding_factors = 8;
    assert!(!pk.is_well_formed());
    pk.vk.cs.blinding_factors = 7;
    assert!(pk.is_well_formed());
    // A degree below three leaves no room for a chunk of columns, so only
    // a permutation without sets fits such a key.
    let mut pk = proving_key(constraint_system());
    pk.vk.cs.degree = 2;
    assert!(pk.is_well_formed());
    assert!(!permutation().is_for(&pk));
    assert!(PermutationCommitted { sets: vec![] }.is_for(&pk));
    let mut pk = proving_key(constraint_system());
    pk.l_last = poly(&[0; 4]);
    assert!(!pk.is_well_formed());
    let mut pk = proving_key(constraint_system());
    pk.permutation.cosets.pop();
    assert!(!pk.is_well_formed());
    let mut pk = proving_key(constraint_system());
    pk.fixed_cosets.push(poly(&[0; 9]));
    assert!(!pk.is_well_formed());
}

#[test]
fn the_domain_has_two_to_the_extended_k_rows() {
    let pk = proving_key(constraint_system());
    let domain = &pk.vk.domain;
    assert_eq!(domain.k(), 2);
    assert_eq!(domain.extended_k(), 3);
    assert_eq!(domain.extended_len(), 8);
    assert_eq!(domain.rotation_scale(), 2);
    assert_eq!(domain.get_extended_omega(), fe(OMEGA));
    assert_eq!(residues(&domain.empty_extended()), [0; 8]);
    let large: EvaluationDomain<Goldilocks> =
        EvaluationDomain { k: 0, extended_k: 30, extended_omega: fe(1) };
    assert_eq!(large.extended_len(), 1 << 30);
    assert_eq!(large.rotation_scale(), 1 << 30);
}

#[test]
fn a_polynomial_is_cloned_entry_by_entry() {
    let p = poly(&[1, 2, 3]);
    let q = p.clone();
    assert_eq!(residues(&q), [1, 2, 3]);
    assert_eq!(q.get(1), fe(2));
    assert_eq!(q.len(), 3);
}
