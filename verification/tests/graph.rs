use plonk_evaluation::calculation::Calculation;
use plonk_evaluation::field::Field;
use plonk_evaluation::goldilocks::{Goldilocks, MODULUS};
use plonk_evaluation::graph::{CalculationInfo, EvaluationData, GraphEvaluator};
use plonk_evaluation::polynomial::{ExtendedLagrangeCoeff, Polynomial};
use plonk_evaluation::rotation::Rotation;
use plonk_evaluation::value_source::ValueSource;

type Poly = Polynomial<Goldilocks, ExtendedLagrangeCoeff>;

fn fe(v: u64) -> Goldilocks {
    Goldilocks::new(v)
}

fn poly(values: &[u64]) -> Poly {
    Polynomial::from_values(values.iter().map(|v| fe(*v)).collect())
}

fn get(source: ValueSource) -> u64 {
    let rotations = [2usize, 0];
    let constants = [fe(10), fe(11)];
    let intermediates = [fe(20), fe(21), fe(22)];
    let fixed = [poly(&[30, 31, 32])];
    let advice = [poly(&[40, 41, 42]), poly(&[50, 51, 52])];
    let instance = [poly(&[60, 61, 62])];
    let challenges = [fe(70), fe(71)];
    source
        .get(
            &rotations,
            &constants,
            &intermediates,
            &fixed,
            &advice,
            &instance,
            &challenges,
            &fe(1),
            &fe(2),
            &fe(3),
            &fe(4),
            &fe(5),
        )
        .to_u64()
}

fn calculate(calculation: Calculation) -> u64 {
    let rotations = [1usize];
    let constants = [fe(0), fe(1), fe(2), fe(7)];
    let intermediates = [fe(20), fe(3)];
    let fixed = [poly(&[30, 31])];
    let advice = [poly(&[40, 41])];
    let instance = [poly(&[60, 61])];
    let challenges = [fe(70)];
    calculation
        .evaluate(
            &rotations,
            &constants,
            &intermediates,
            &fixed,
            &advice,
            &instance,
            &challenges,
            &fe(100),
            &fe(200),
            &fe(300),
            &fe(400),
            &fe(500),
        )
        .to_u64()
}

#[test]
fn the_default_source_is_the_constant_zero() {
    assert_eq!(ValueSource::default(), ValueSource::Constant(0));
}

#[test]
fn a_source_reads_the_slot_it_names() {
    assert_eq!(get(ValueSource::Constant(1)), 11);
    assert_eq!(get(ValueSource::Intermediate(2)), 22);
    assert_eq!(get(ValueSource::Fixed(0, 0)), 32);
    assert_eq!(get(ValueSource::Fixed(0, 1)), 30);
    assert_eq!(get(ValueSource::Advice(1, 0)), 52);
    assert_eq!(get(ValueSource::Advice(0, 1)), 40);
    assert_eq!(get(ValueSource::Instance(0, 0)), 62);
    assert_eq!(get(ValueSource::Challenge(1)), 71);
    assert_eq!(get(ValueSource::Beta()), 1);
    assert_eq!(get(ValueSource::Gamma()), 2);
    assert_eq!(get(ValueSource::Theta()), 3);
    assert_eq!(get(ValueSource::Y()), 4);
    assert_eq!(get(ValueSource::PreviousValue()), 5);
}

#[test]
fn the_order_of_sources_is_that_of_the_declaration_then_the_fields() {
    let sources = [
        ValueSource::Constant(0),
        ValueSource::Constant(3),
        ValueSource::Intermediate(0),
        ValueSource::Intermediate(9),
        ValueSource::Fixed(0, 5),
        ValueSource::Fixed(1, 0),
        ValueSource::Fixed(1, 2),
        ValueSource::Advice(0, 0),
        ValueSource::Instance(0, 0),
        ValueSource::Challenge(0),
        ValueSource::Beta(),
        ValueSource::Gamma(),
        ValueSource::Theta(),
        ValueSource::Y(),
        ValueSource::PreviousValue(),
    ];
    for (i, a) in sources.iter().enumerate() {
        for (j, b) in sources.iter().enumerate() {
            assert_eq!(a.precedes(b), i <= j);
            assert_eq!(a.precedes(b), a <= b);
        }
    }
}

#[test]
fn each_opcode_yields_its_operation() {
    let three = ValueSource::Intermediate(1);
    let seven = ValueSource::Constant(3);
    assert_eq!(calculate(Calculation::Add(three, seven)), 10);
    assert_eq!(calculate(Calculation::Sub(three, seven)), MODULUS - 4);
    assert_eq!(calculate(Calculation::Sub(seven, three)), 4);
    assert_eq!(calculate(Calculation::Mul(three, seven)), 21);
    assert_eq!(calculate(Calculation::Square(seven)), 49);
    assert_eq!(calculate(Calculation::Double(seven)), 14);
    assert_eq!(calculate(Calculation::Negate(three)), MODULUS - 3);
    assert_eq!(calculate(Calculation::Store(ValueSource::Advice(0, 0))), 41);
    assert_eq!(calculate(Calculation::Store(ValueSource::Beta())), 100);
}

#[test]
fn horner_multiplies_by_the_factor_before_each_part() {
    let three = ValueSource::Intermediate(1);
    let seven = ValueSource::Constant(3);
    let two = ValueSource::Constant(2);
    // ((3 * 2 + 7) * 2 + 3) * 2 + 2 = 60
    assert_eq!(
        calculate(Calculation::Horner(three, vec![seven, three, two], two)),
        60
    );
    // Without parts the start is returned.
    assert_eq!(calculate(Calculation::Horner(seven, vec![], two)), 7);
    // The previous value times y, plus the part: 500 * 400 + 3.
    assert_eq!(
        calculate(Calculation::Horner(
            ValueSource::PreviousValue(),
            vec![three],
            ValueSource::Y()
        )),
        200003
    );
}

#[test]
fn calculations_are_equal_when_operation_and_operands_agree_in_order() {
    let a = ValueSource::Intermediate(0);
    let b = ValueSource::Intermediate(1);
    assert_eq!(Calculation::Add(a, b), Calculation::Add(a, b));
    assert_ne!(Calculation::Add(a, b), Calculation::Add(b, a));
    assert_ne!(Calculation::Add(a, b), Calculation::Mul(a, b));
    assert_ne!(Calculation::Square(a), Calculation::Double(a));
    assert_eq!(
        Calculation::Horner(a, vec![a, b], b),
        Calculation::Horner(a, vec![a, b], b)
    );
    assert_ne!(
        Calculation::Horner(a, vec![a, b], b),
        Calculation::Horner(a, vec![b, a], b)
    );
    assert_ne!(
        Calculation::Horner(a, vec![a, b], b),
        Calculation::Horner(a, vec![a], b)
    );
    assert_eq!(
        Calculation::Horner(a, vec![a, b], b).operands(),
        vec![a, b, a, b]
    );
}

#[test]
fn a_new_graph_holds_zero_one_and_two() {
    let graph: GraphEvaluator<Goldilocks> = GraphEvaluator::default();
    assert_eq!(graph.constants, vec![fe(0), fe(1), fe(2)]);
    assert!(graph.rotations.is_empty());
    assert!(graph.calculations.is_empty());
    assert_eq!(graph.num_intermediates, 0);
    assert!(graph.is_well_formed());
}

#[test]
fn a_constant_gets_a_slot_only_once() {
    let mut graph: GraphEvaluator<Goldilocks> = GraphEvaluator::default();
    assert_eq!(graph.add_constant(&fe(1)), ValueSource::Constant(1));
    assert_eq!(graph.add_constant(&fe(9)), ValueSource::Constant(3));
    assert_eq!(graph.add_constant(&fe(8)), ValueSource::Constant(4));
    assert_eq!(graph.add_constant(&fe(9)), ValueSource::Constant(3));
    assert_eq!(graph.add_constant(&fe(0)), ValueSource::Constant(0));
    assert_eq!(graph.constants.len(), 5);
}

#[test]
fn a_rotation_gets_a_slot_only_once() {
    let mut graph: GraphEvaluator<Goldilocks> = GraphEvaluator::default();
    assert_eq!(graph.add_rotation(&Rotation(0)), 0);
    assert_eq!(graph.add_rotation(&Rotation(-1)), 1);
    assert_eq!(graph.add_rotation(&Rotation(1)), 2);
    assert_eq!(graph.add_rotation(&Rotation(-1)), 1);
    assert_eq!(graph.rotations, vec![0, -1, 1]);
}

#[test]
fn a_calculation_is_added_only_once() {
    let mut graph: GraphEvaluator<Goldilocks> = GraphEvaluator::default();
    let one = ValueSource::Constant(1);
    let two = ValueSource::Constant(2);
    let first = graph.add_calculation(Calculation::Add(one, two));
    assert_eq!(first, ValueSource::Intermediate(0));
    let second = graph.add_calculation(Calculation::Add(two, one));
    assert_eq!(second, ValueSource::Intermediate(1));
    assert_eq!(
        graph.add_calculation(Calculation::Add(one, two)),
        ValueSource::Intermediate(0)
    );
    let third = graph.add_calculation(Calculation::Mul(first, second));
    assert_eq!(third, ValueSource::Intermediate(2));
    assert_eq!(graph.num_intermediates, 3);
    assert_eq!(graph.calculations.len(), 3);
    for (i, info) in graph.calculations.iter().enumerate() {
        assert_eq!(info.target, i);
    }
    assert!(graph.is_well_formed());
}

#[test]
fn the_scratch_of_a_graph_has_one_slot_for_each_intermediate_and_rotation() {
    let mut graph: GraphEvaluator<Goldilocks> = GraphEvaluator::default();
    graph.add_rotation(&Rotation(0));
    graph.add_rotation(&Rotation(1));
    graph.add_calculation(Calculation::Store(ValueSource::Advice(0, 0)));
    graph.add_calculation(Calculation::Store(ValueSource::Advice(0, 1)));
    graph.add_calculation(Calculation::Double(ValueSource::Intermediate(0)));
    let data = graph.instance();
    assert_eq!(data.intermediates, vec![fe(0); 3]);
    assert_eq!(data.rotations, vec![0usize; 2]);
    let empty: EvaluationData<Goldilocks> = EvaluationData::default();
    assert!(empty.intermediates.is_empty());
    assert!(empty.rotations.is_empty());
}

#[test]
fn a_graph_without_calculations_evaluates_to_zero() {
    let graph: GraphEvaluator<Goldilocks> = GraphEvaluator::default();
    let mut data = graph.instance();
    let none: [Poly; 0] = [];
    let value = graph.evaluate(
        &mut data,
        &none,
        &none,
        &none,
        &[],
        &fe(1),
        &fe(2),
        &fe(3),
        &fe(4),
        &fe(5),
        0,
        1,
        4,
    );
    assert_eq!(value.to_u64(), 0);
}

#[test]
fn evaluation_resolves_rotations_and_returns_the_last_intermediate() {
    let mut graph: GraphEvaluator<Goldilocks> = GraphEvaluator::default();
    let next = graph.add_rotation(&Rotation(1));
    let prev = graph.add_rotation(&Rotation(-1));
    let a = graph.add_calculation(Calculation::Store(ValueSource::Advice(0, next)));
    let b = graph.add_calculation(Calculation::Store(ValueSource::Fixed(0, prev)));
    let c = graph.add_calculation(Calculation::Mul(a, b));
    graph.add_calculation(Calculation::Add(c, ValueSource::PreviousValue()));
    let fixed = [poly(&[1, 2, 3, 4, 5, 6, 7, 8])];
    let advice = [poly(&[10, 20, 30, 40, 50, 60, 70, 80])];
    let none: [Poly; 0] = [];
    let mut data = graph.instance();
    // Row 1 of eight rows with two rows to a step: the next row is 3 and the
    // row before is 7.
    let value = graph.evaluate(
        &mut data,
        &fixed,
        &advice,
        &none,
        &[],
        &fe(0),
        &fe(0),
        &fe(0),
        &fe(0),
        &fe(1000),
        1,
        2,
        8,
    );
    assert_eq!(value.to_u64(), 40 * 8 + 1000);
    assert_eq!(data.rotations, vec![3, 7]);
    assert_eq!(data.intermediates, vec![fe(40), fe(8), fe(320), fe(1320)]);
    // The scratch is overwritten at the next row.
    let value = graph.evaluate(
        &mut data,
        &fixed,
        &advice,
        &none,
        &[],
        &fe(0),
        &fe(0),
        &fe(0),
        &fe(0),
        &fe(0),
        7,
        2,
        8,
    );
    assert_eq!(data.rotations, vec![1, 5]);
    assert_eq!(value.to_u64(), 20 * 6);
}

#[test]
fn a_graph_out_of_order_is_not_well_formed() {
    let mut graph: GraphEvaluator<Goldilocks> = GraphEvaluator::default();
    graph.add_calculation(Calculation::Store(ValueSource::Advice(0, 0)));
    assert!(!graph.is_well_formed());
    graph.add_rotation(&Rotation(0));
    assert!(graph.is_well_formed());
    graph.calculations.push(CalculationInfo {
        calculation: Calculation::Double(ValueSource::Intermediate(1)),
        target: 1,
    });
    graph.num_intermediates = 2;
    // The calculation reads the intermediate it writes.
    assert!(!graph.is_well_formed());
    graph.calculations[1].calculation = Calculation::Double(ValueSource::Intermediate(0));
    assert!(graph.is_well_formed());
    graph.calculations[1].target = 0;
    assert!(!graph.is_well_formed());
    graph.calculations[1].target = 1;
    graph.constants.push(fe(2));
    assert!(!graph.is_well_formed());
}

#[test]
fn a_graph_reads_the_columns_of_its_cells() {
    let mut graph: GraphEvaluator<Goldilocks> = GraphEvaluator::default();
    graph.add_rotation(&Rotation(0));
    graph.add_calculation(Calculation::Store(ValueSource::Advice(2, 0)));
    graph.add_calculation(Calculation::Store(ValueSource::Challenge(1)));
    assert!(graph.has_columns_within(0, 3, 0, 2));
    assert!(!graph.has_columns_within(0, 2, 0, 2));
    assert!(!graph.has_columns_within(0, 3, 0, 1));
}
