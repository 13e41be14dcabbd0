use plonk_evaluation::calculation::Calculation;
use plonk_evaluation::expression::{
    evaluate, AdviceQuery, Challenge, Expression, FixedQuery, InstanceQuery, Selector,
};
use plonk_evaluation::field::Field;
use plonk_evaluation::goldilocks::{Goldilocks, MODULUS};
use plonk_evaluation::graph::GraphEvaluator;
use plonk_evaluation::polynomial::{ExtendedLagrangeCoeff, Polynomial};
use plonk_evaluation::rotation::Rotation;
use plonk_evaluation::value_source::ValueSource;

type Poly = Polynomial<Goldilocks, ExtendedLagrangeCoeff>;
type Expr = Expression<Goldilocks>;

const ZERO: ValueSource = ValueSource::Constant(0);
const ONE: ValueSource = ValueSource::Constant(1);
const TWO: ValueSource = ValueSource::Constant(2);

fn fe(v: u64) -> Goldilocks {
    Goldilocks::new(v)
}

fn poly(values: &[u64]) -> Poly {
    Polynomial::from_values(values.iter().map(|v| fe(*v)).collect())
}

fn constant(v: u64) -> Expr {
    Expression::Constant(fe(v))
}

fn advice(column_index: usize, rotation: i32) -> Expr {
    Expression::Advice(AdviceQuery { column_index, rotation: Rotation(rotation) })
}

fn fixed(column_index: usize, rotation: i32) -> Expr {
    Expression::Fixed(FixedQuery { column_index, rotation: Rotation(rotation) })
}

fn instance(column_index: usize, rotation: i32) -> Expr {
    Expression::Instance(InstanceQuery { column_index, rotation: Rotation(rotation) })
}

fn challenge(index: usize) -> Expr {
    Expression::Challenge(Challenge { index })
}

fn neg(a: Expr) -> Expr {
    Expression::Negated(Box::new(a))
}

fn sum(a: Expr, b: Expr) -> Expr {
    Expression::Sum(Box::new(a), Box::new(b))
}

fn product(a: Expr, b: Expr) -> Expr {
    Expression::Product(Box::new(a), Box::new(b))
}

fn scaled(a: Expr, f: u64) -> Expr {
    Expression::Scaled(Box::new(a), fe(f))
}

fn compile(e: &Expr) -> (GraphEvaluator<Goldilocks>, ValueSource) {
    let mut graph = GraphEvaluator::default();
    let source = graph.add_expression(e);
    (graph, source)
}

fn calculations(graph: &GraphEvaluator<Goldilocks>) -> Vec<Calculation> {
    graph.calculations.iter().map(|info| info.calculation.clone()).collect()
}

#[test]
fn a_constant_compiles_to_its_slot() {
    let (graph, source) = compile(&constant(1));
    assert_eq!(source, ONE);
    assert!(graph.calculations.is_empty());
    let (graph, source) = compile(&constant(42));
    assert_eq!(source, ValueSource::Constant(3));
    assert_eq!(graph.constants[3], fe(42));
}

#[test]
fn a_query_compiles_to_a_store_of_its_cell() {
    let (graph, source) = compile(&advice(3, -1));
    assert_eq!(source, ValueSource::Intermediate(0));
    assert_eq!(graph.rotations, vec![-1]);
    assert_eq!(calculations(&graph), vec![Calculation::Store(ValueSource::Advice(3, 0))]);
    let (graph, _) = compile(&fixed(1, 2));
    assert_eq!(calculations(&graph), vec![Calculation::Store(ValueSource::Fixed(1, 0))]);
    let (graph, _) = compile(&instance(0, 0));
    assert_eq!(calculations(&graph), vec![Calculation::Store(ValueSource::Instance(0, 0))]);
    let (graph, _) = compile(&challenge(4));
    assert!(graph.rotations.is_empty());
    assert_eq!(calculations(&graph), vec![Calculation::Store(ValueSource::Challenge(4))]);
}

#[test]
fn a_cell_is_stored_once_for_each_column_and_rotation() {
    let mut graph: GraphEvaluator<Goldilocks> = GraphEvaluator::default();
    let a = graph.add_expression(&advice(0, 1));
    let b = graph.add_expression(&advice(0, 0));
    let c = graph.add_expression(&advice(0, 1));
    let d = graph.add_expression(&fixed(0, 1));
    assert_eq!(a, c);
    assert_ne!(a, b);
    assert_ne!(a, d);
    assert_eq!(graph.rotations, vec![1, 0]);
    assert_eq!(graph.calculations.len(), 3);
}

#[test]
fn the_negation_of_a_constant_is_the_negated_constant() {
    let (graph, source) = compile(&neg(constant(5)));
    assert_eq!(source, ValueSource::Constant(3));
    assert_eq!(graph.constants[3].to_u64(), MODULUS - 5);
    assert!(graph.calculations.is_empty());
    let (_, source) = compile(&neg(constant(0)));
    assert_eq!(source, ZERO);
}

#[test]
fn the_negation_of_zero_is_zero() {
    let (graph, source) = compile(&neg(product(advice(0, 0), constant(0))));
    assert_eq!(source, ZERO);
    assert_eq!(calculations(&graph), vec![Calculation::Store(ValueSource::Advice(0, 0))]);
}

#[test]
fn a_negation_compiles_to_negate() {
    let (graph, source) = compile(&neg(advice(0, 0)));
    assert_eq!(source, ValueSource::Intermediate(1));
    assert_eq!(
        calculations(&graph),
        vec![
            Calculation::Store(ValueSource::Advice(0, 0)),
            Calculation::Negate(ValueSource::Intermediate(0)),
        ]
    );
}

#[test]
fn a_sum_with_a_negated_operand_compiles_to_sub() {
    let (graph, source) = compile(&sum(advice(0, 0), neg(advice(1, 0))));
    assert_eq!(source, ValueSource::Intermediate(2));
    assert_eq!(
        calculations(&graph)[2],
        Calculation::Sub(ValueSource::Intermediate(0), ValueSource::Intermediate(1))
    );
    // The operands of a subtraction keep their order.
    let (graph, _) = compile(&sum(constant(7), neg(constant(3))));
    assert_eq!(
        calculations(&graph),
        vec![Calculation::Sub(ValueSource::Constant(3), ValueSource::Constant(4))]
    );
    assert_eq!(graph.constants[4], fe(3));
}

#[test]
fn zero_minus_an_operand_compiles_to_negate() {
    let (graph, source) = compile(&sum(constant(0), neg(advice(0, 0))));
    assert_eq!(source, ValueSource::Intermediate(1));
    assert_eq!(
        calculations(&graph)[1],
        Calculation::Negate(ValueSource::Intermediate(0))
    );
}

#[test]
fn an_operand_minus_zero_is_the_operand() {
    let (graph, source) = compile(&sum(advice(0, 0), neg(constant(0))));
    assert_eq!(source, ValueSource::Intermediate(0));
    assert_eq!(graph.calculations.len(), 1);
}

#[test]
fn a_sum_with_zero_is_the_other_operand() {
    let (graph, source) = compile(&sum(constant(0), advice(0, 0)));
    assert_eq!(source, ValueSource::Intermediate(0));
    assert_eq!(graph.calculations.len(), 1);
    let (graph, source) = compile(&sum(advice(0, 0), constant(0)));
    assert_eq!(source, ValueSource::Intermediate(0));
    assert_eq!(graph.calculations.len(), 1);
}

#[test]
fn the_operands_of_a_sum_are_written_in_the_order_of_sources() {
    let (graph, _) = compile(&sum(advice(0, 0), constant(9)));
    assert_eq!(
        calculations(&graph)[1],
        Calculation::Add(ValueSource::Constant(3), ValueSource::Intermediate(0))
    );
    let (graph, _) = compile(&sum(constant(9), advice(0, 0)));
    assert_eq!(
        calculations(&graph)[0],
        Calculation::Store(ValueSource::Advice(0, 0))
    );
    assert_eq!(
        calculations(&graph)[1],
        Calculation::Add(ValueSource::Constant(3), ValueSource::Intermediate(0))
    );
    // Both ways round the same calculation is found again.
    let mut graph: GraphEvaluator<Goldilocks> = GraphEvaluator::default();
    let first = graph.add_expression(&sum(advice(0, 0), advice(1, 0)));
    let second = graph.add_expression(&sum(advice(1, 0), advice(0, 0)));
    assert_eq!(first, second);
    assert_eq!(graph.calculations.len(), 3);
}

#[test]
fn a_product_with_zero_is_zero() {
    let (_, source) = compile(&product(advice(0, 0), constant(0)));
    assert_eq!(source, ZERO);
    let (_, source) = compile(&product(constant(0), advice(0, 0)));
    assert_eq!(source, ZERO);
}

#[test]
fn a_product_with_one_is_the_other_operand() {
    let (graph, source) = compile(&product(advice(0, 0), constant(1)));
    assert_eq!(source, ValueSource::Intermediate(0));
    assert_eq!(graph.calculations.len(), 1);
    let (_, source) = compile(&product(constant(1), advice(0, 0)));
    assert_eq!(source, ValueSource::Intermediate(0));
    let (_, source) = compile(&product(constant(1), constant(2)));
    assert_eq!(source, TWO);
}

#[test]
fn a_product_with_two_compiles_to_double() {
    let (graph, source) = compile(&product(constant(2), advice(0, 0)));
    assert_eq!(source, ValueSource::Intermediate(1));
    assert_eq!(
        calculations(&graph)[1],
        Calculation::Double(ValueSource::Intermediate(0))
    );
    let (graph, _) = compile(&product(advice(0, 0), constant(2)));
    assert_eq!(
        calculations(&graph)[1],
        Calculation::Double(ValueSource::Intermediate(0))
    );
    // Two times two doubles the constant two.
    let (graph, _) = compile(&product(constant(2), constant(2)));
    assert_eq!(calculations(&graph), vec![Calculation::Double(TWO)]);
}

#[test]
fn a_product_of_a_source_with_itself_compiles_to_square() {
    let (graph, source) = compile(&product(advice(0, 0), advice(0, 0)));
    assert_eq!(source, ValueSource::Intermediate(1));
    assert_eq!(
        calculations(&graph),
        vec![
            Calculation::Store(ValueSource::Advice(0, 0)),
            Calculation::Square(ValueSource::Intermediate(0)),
        ]
    );
}

#[test]
fn the_operands_of_a_product_are_written_in_the_order_of_sources() {
    let (graph, _) = compile(&product(advice(0, 0), constant(9)));
    assert_eq!(
        calculations(&graph)[1],
        Calculation::Mul(ValueSource::Constant(3), ValueSource::Intermediate(0))
    );
    let mut graph: GraphEvaluator<Goldilocks> = GraphEvaluator::default();
    let first = graph.add_expression(&product(advice(0, 0), advice(1, 0)));
    let second = graph.add_expression(&product(advice(1, 0), advice(0, 0)));
    assert_eq!(first, second);
    assert_eq!(
        calculations(&graph)[2],
        Calculation::Mul(ValueSource::Intermediate(0), ValueSource::Intermediate(1))
    );
}

#[test]
fn a_scaling_by_zero_is_zero_and_by_one_the_scaled_expression() {
    let (graph, source) = compile(&scaled(advice(0, 0), 0));
    assert_eq!(source, ZERO);
    assert!(graph.calculations.is_empty());
    let (graph, source) = compile(&scaled(advice(0, 0), 1));
    assert_eq!(source, ValueSource::Intermediate(0));
    assert_eq!(graph.calculations.len(), 1);
}

#[test]
fn a_scaling_multiplies_with_the_constant_on_the_right() {
    let (graph, source) = compile(&scaled(advice(0, 0), 6));
    assert_eq!(source, ValueSource::Intermediate(1));
    assert_eq!(graph.constants[3], fe(6));
    assert_eq!(
        calculations(&graph)[1],
        Calculation::Mul(ValueSource::Intermediate(0), ValueSource::Constant(3))
    );
    // Scaling by two multiplies by the constant two and does not double.
    let (graph, _) = compile(&scaled(advice(0, 0), 2));
    assert_eq!(
        calculations(&graph)[1],
        Calculation::Mul(ValueSource::Intermediate(0), TWO)
    );
}

#[test]
fn a_repeated_product_is_compiled_once() {
    // (a * b) + (a * b)
    let ab = || product(advice(0, 0), advice(1, 0));
    let (graph, source) = compile(&sum(ab(), ab()));
    let all = calculations(&graph);
    assert!(all.len() <= 4);
    let muls = all.iter().filter(|c| matches!(c, Calculation::Mul(_, _))).count();
    assert_eq!(muls, 1);
    assert_eq!(
        all,
        vec![
            Calculation::Store(ValueSource::Advice(0, 0)),
            Calculation::Store(ValueSource::Advice(1, 0)),
            Calculation::Mul(ValueSource::Intermediate(0), ValueSource::Intermediate(1)),
            Calculation::Add(ValueSource::Intermediate(2), ValueSource::Intermediate(2)),
        ]
    );
    assert_eq!(source, ValueSource::Intermediate(3));
    // Written as 2 * (a * b) the sum is a doubling.
    let (graph, _) = compile(&product(constant(2), ab()));
    let all = calculations(&graph);
    assert_eq!(all.len(), 4);
    assert_eq!(all[3], Calculation::Double(ValueSource::Intermediate(2)));
    let muls = all.iter().filter(|c| matches!(c, Calculation::Mul(_, _))).count();
    assert_eq!(muls, 1);
}

#[test]
fn compiling_twice_gives_the_same_graph() {
    let build = || {
        sum(
            product(advice(0, 1), sum(fixed(0, 0), neg(instance(0, -1)))),
            scaled(product(challenge(0), advice(1, 0)), 5),
        )
    };
    let (first, a) = compile(&build());
    let (second, b) = compile(&build());
    assert_eq!(a, b);
    assert_eq!(first.constants, second.constants);
    assert_eq!(first.rotations, second.rotations);
    assert_eq!(calculations(&first), calculations(&second));
    assert_eq!(first.num_intermediates, second.num_intermediates);
}

#[test]
fn a_selector_is_found_wherever_it_stands() {
    let selector = || Expression::Selector(Selector(0, true));
    assert!(selector().contains_selector());
    assert!(neg(selector()).contains_selector());
    assert!(sum(advice(0, 0), product(constant(1), selector())).contains_selector());
    assert!(scaled(sum(selector(), constant(2)), 3).contains_selector());
    assert!(!sum(advice(0, 0), product(constant(1), fixed(0, 0))).contains_selector());
}

#[test]
fn queries_are_checked_against_the_numbers_of_columns() {
    let e = sum(product(advice(1, 0), fixed(0, 0)), sum(instance(2, 1), challenge(0)));
    assert!(e.queries_within(1, 2, 3, 1));
    assert!(!e.queries_within(0, 2, 3, 1));
    assert!(!e.queries_within(1, 1, 3, 1));
    assert!(!e.queries_within(1, 2, 2, 1));
    assert!(!e.queries_within(1, 2, 3, 0));
}

fn tables() -> (Vec<Poly>, Vec<Poly>, Vec<Poly>, Vec<Goldilocks>) {
    (
        vec![poly(&[3, 1, 4, 1, 5, 9, 2, 6]), poly(&[0, 0, 1, 0, 2, 0, 0, 7])],
        vec![poly(&[5, 9, 2, 6, 5, 3, 5, 8]), poly(&[2, 7, 1, 8, 2, 8, 1, 8])],
        vec![poly(&[5, 3, 5, 8, 9, 7, 9, 3])],
        vec![fe(1234567), fe(MODULUS - 1)],
    )
}

fn samples() -> Vec<Expr> {
    vec![
        constant(7),
        advice(0, 0),
        fixed(1, -1),
        instance(0, 3),
        challenge(1),
        neg(advice(1, 1)),
        neg(constant(5)),
        sum(advice(0, 0), neg(advice(0, 0))),
        sum(constant(0), neg(fixed(0, 1))),
        sum(advice(0, 0), neg(constant(0))),
        sum(product(advice(0, 0), advice(1, 0)), product(advice(0, 0), advice(1, 0))),
        product(constant(2), product(advice(0, 0), advice(1, 0))),
        product(advice(0, -1), advice(0, -1)),
        product(fixed(1, 0), advice(0, 0)),
        product(constant(1), instance(0, 0)),
        scaled(sum(advice(0, 1), fixed(0, -1)), 0),
        scaled(sum(advice(0, 1), fixed(0, -1)), 1),
        scaled(sum(advice(0, 1), fixed(0, -1)), MODULUS - 2),
        sum(
            product(advice(0, 1), sum(fixed(0, 0), neg(instance(0, -1)))),
            scaled(product(challenge(0), neg(advice(1, 0))), 5),
        ),
        product(
            sum(sum(advice(0, 0), constant(3)), neg(product(fixed(1, 2), challenge(1)))),
            sum(neg(neg(instance(0, 0))), scaled(constant(4), 9)),
        ),
    ]
}

#[test]
fn the_compiled_graph_computes_what_the_expression_evaluates_to() {
    let (fx, ad, ins, ch) = tables();
    for e in samples() {
        let expected = evaluate(&e, 8, 2, &fx, &ad, &ins, &ch);
        assert_eq!(expected.len(), 8);
        let (graph, source) = compile(&e);
        assert!(graph.is_well_formed());
        let mut data = graph.instance();
        for idx in 0..8 {
            graph.evaluate(
                &mut data,
                &fx,
                &ad,
                &ins,
                &ch,
                &fe(11),
                &fe(13),
                &fe(17),
                &fe(19),
                &fe(23),
                idx,
                2,
                8,
            );
            let value = source.get(
                &data.rotations,
                &graph.constants,
                &data.intermediates,
                &fx,
                &ad,
                &ins,
                &ch,
                &fe(11),
                &fe(13),
                &fe(17),
                &fe(19),
                &fe(23),
            );
            assert_eq!(value, expected[idx]);
        }
    }
}

#[test]
fn sources_keep_their_values_when_more_is_compiled() {
    let (fx, ad, ins, ch) = tables();
    let mut graph: GraphEvaluator<Goldilocks> = GraphEvaluator::default();
    let sources: Vec<ValueSource> = samples().iter().map(|e| graph.add_expression(e)).collect();
    assert!(graph.is_well_formed());
    let mut data = graph.instance();
    for idx in 0..8 {
        graph.evaluate(
            &mut data,
            &fx,
            &ad,
            &ins,
            &ch,
            &fe(0),
            &fe(0),
            &fe(0),
            &fe(0),
            &fe(0),
            idx,
            2,
            8,
        );
        for (e, source) in samples().iter().zip(sources.iter()) {
            let expected = evaluate(e, 8, 2, &fx, &ad, &ins, &ch);
            let value = source.get(
                &data.rotations,
                &graph.constants,
                &data.intermediates,
                &fx,
                &ad,
                &ins,
                &ch,
                &fe(0),
                &fe(0),
                &fe(0),
                &fe(0),
                &fe(0),
            );
            assert_eq!(value, expected[idx]);
        }
    }
}

#[test]
fn the_simple_evaluator_folds_the_expression_at_each_row() {
    let (fx, ad, ins, ch) = tables();
    // advice_0(X) * fixed_0(X) - instance_0(omega X)
    let e = sum(product(advice(0, 0), fixed(0, 0)), neg(instance(0, 1)));
    let values = evaluate(&e, 8, 2, &fx, &ad, &ins, &ch);
    let expected: Vec<Goldilocks> =
        [10, 1, MODULUS - 1, MODULUS - 1, 16, 24, 5, 45].iter().map(|v| fe(*v)).collect();
    assert_eq!(values, expected);
    // 3 * advice_0(omega^-1 X)
    let values = evaluate(&scaled(advice(0, -1), 3), 8, 2, &fx, &ad, &ins, &ch);
    let expected: Vec<Goldilocks> = [15, 24, 15, 27, 6, 18, 15, 9].iter().map(|v| fe(*v)).collect();
    assert_eq!(values, expected);
    // A challenge is the same at every row.
    let values = evaluate(&challenge(0), 8, 2, &fx, &ad, &ins, &ch);
    assert_eq!(values, vec![fe(1234567); 8]);
    // Over no rows there is nothing to evaluate.
    assert!(evaluate(&e, 0, 2, &fx, &ad, &ins, &ch).is_empty());
}

#[test]
fn a_difference_of_a_cell_with_itself_evaluates_to_zero() {
    let (fx, ad, ins, ch) = tables();
    let e = sum(advice(0, 0), neg(advice(0, 0)));
    let (graph, source) = compile(&e);
    assert_eq!(
        calculations(&graph),
        vec![
            Calculation::Store(ValueSource::Advice(0, 0)),
            Calculation::Sub(ValueSource::Intermediate(0), ValueSource::Intermediate(0)),
        ]
    );
    assert_eq!(source, ValueSource::Intermediate(1));
    let mut data = graph.instance();
    for idx in 0..8 {
        let value = graph.evaluate(
            &mut data,
            &fx,
            &ad,
            &ins,
            &ch,
            &fe(0),
            &fe(0),
            &fe(0),
            &fe(0),
            &fe(0),
            idx,
            2,
            8,
        );
        assert_eq!(value.to_u64(), 0);
    }
}
