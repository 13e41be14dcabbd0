use crate::calculation::{Calculation, CalculationView};
use crate::expression::Expression;
use crate::field::{fneg, is_residue, Field};
use crate::graph::{slot_of, Graph, GraphEvaluator};
use crate::value_source::ValueSource;
use vstd::prelude::*;

verus! {

impl Graph {
    /// The graph with a `Store` of the cell `cell`, and the intermediate that
    /// holds it.
    pub open spec fn stored(self, cell: ValueSource) -> (Graph, ValueSource) {
        self.add_calculation(CalculationView::Store(cell))
    }

    /// The negation of `a`: zero for zero, else a `Negate`.
    pub open spec fn negation_of(self, a: ValueSource) -> (Graph, ValueSource) {
        if a == ValueSource::Constant(0) {
            (self, a)
        } else {
            self.add_calculation(CalculationView::Negate(a))
        }
    }

    /// The difference of `a` and `b`: a `Negate` of `b` where `a` is zero,
    /// `a` where `b` is zero, else a `Sub`.
    pub open spec fn difference_of(self, a: ValueSource, b: ValueSource) -> (Graph, ValueSource) {
        if a == ValueSource::Constant(0) {
            self.add_calculation(CalculationView::Negate(b))
        } else if b == ValueSource::Constant(0) {
            (self, a)
        } else {
            self.add_calculation(CalculationView::Sub(a, b))
        }
    }

    /// The sum of `a` and `b`: the other operand where one is zero, else an
    /// `Add` with the operands in the order of sources.
    pub open spec fn sum_of(self, a: ValueSource, b: ValueSource) -> (Graph, ValueSource) {
        if a == ValueSource::Constant(0) {
            (self, b)
        } else if b == ValueSource::Constant(0) {
            (self, a)
        } else if a.precedes_spec(b) {
            self.add_calculation(CalculationView::Add(a, b))
        } else {
            self.add_calculation(CalculationView::Add(b, a))
        }
    }

    /// The product of `a` and `b`: zero where one operand is zero, the other
    /// operand where one is one, a `Double` of the other where one is two, a
    /// `Square` where both are the same source, else a `Mul` with the
    /// operands in the order of sources.
    pub open spec fn product_of(self, a: ValueSource, b: ValueSource) -> (Graph, ValueSource) {
        if a == ValueSource::Constant(0) || b == ValueSource::Constant(0) {
            (self, ValueSource::Constant(0))
        } else if a == ValueSource::Constant(1) {
            (self, b)
        } else if b == ValueSource::Constant(1) {
            (self, a)
        } else if a == ValueSource::Constant(2) {
            self.add_calculation(CalculationView::Double(b))
        } else if b == ValueSource::Constant(2) {
            self.add_calculation(CalculationView::Double(a))
        } else if a == b {
            self.add_calculation(CalculationView::Square(a))
        } else if a.precedes_spec(b) {
            self.add_calculation(CalculationView::Mul(a, b))
        } else {
            self.add_calculation(CalculationView::Mul(b, a))
        }
    }

    /// The graph with the calculations that yield the value of `e`, and the
    /// source that addresses that value.
    ///
    /// A constant becomes a constant slot, a query a `Store` of the queried
    /// cell, and an operator the calculation that `negation_of`,
    /// `difference_of`, `sum_of` and `product_of` choose for the sources of
    /// its operands. The negation of a constant is the constant of the
    /// negated scalar, and a sum whose right operand is a negation is a
    /// difference. A scaling by zero is zero, by one the scaled expression,
    /// and by another scalar a `Mul` with that constant on the right.
    pub open spec fn add_expression<F: Field>(self, e: Expression<F>) -> (Graph, ValueSource)
        decreases e,
    {
        match e {
            Expression::Constant(c) => self.add_constant(c.value()),
            Expression::Selector(_) => (self, ValueSource::Constant(0)),
            Expression::Fixed(q) => {
                let (g, slot) = self.add_rotation(q.rotation.0 as int);
                g.stored(ValueSource::Fixed(q.column_index, slot))
            },
            Expression::Advice(q) => {
                let (g, slot) = self.add_rotation(q.rotation.0 as int);
                g.stored(ValueSource::Advice(q.column_index, slot))
            },
            Expression::Instance(q) => {
                let (g, slot) = self.add_rotation(q.rotation.0 as int);
                g.stored(ValueSource::Instance(q.column_index, slot))
            },
            Expression::Challenge(c) => self.stored(ValueSource::Challenge(c.index)),
            Expression::Negated(a) => match *a {
                Expression::Constant(c) => self.add_constant(fneg(F::modulus(), c.value())),
                _ => {
                    let (g, ra) = self.add_expression(*a);
                    g.negation_of(ra)
                },
            },
            Expression::Sum(a, b) => match *b {
                Expression::Negated(b_int) => {
                    let (g1, ra) = self.add_expression(*a);
                    let (g2, rb) = g1.add_expression(*b_int);
                    g2.difference_of(ra, rb)
                },
                _ => {
                    let (g1, ra) = self.add_expression(*a);
                    let (g2, rb) = g1.add_expression(*b);
                    g2.sum_of(ra, rb)
                },
            },
            Expression::Product(a, b) => {
                let (g1, ra) = self.add_expression(*a);
                let (g2, rb) = g1.add_expression(*b);
                g2.product_of(ra, rb)
            },
            Expression::Scaled(a, f) => {
                if f.value() == 0 {
                    (self, ValueSource::Constant(0))
                } else if f.value() == 1 {
                    self.add_expression(*a)
                } else {
                    let (g1, cst) = self.add_constant(f.value());
                    let (g2, ra) = g1.add_expression(*a);
                    g2.add_calculation(CalculationView::Mul(ra, cst))
                }
            },
        }
    }

    /// The graph with the calculations of each of `es` in turn, and the
    /// sources that address their values, in the same order.
    pub open spec fn add_expressions<F: Field>(self, es: Seq<Expression<F>>) -> (
        Graph,
        Seq<ValueSource>,
    )
        decreases es.len(),
    {
        if es.len() == 0 {
            (self, Seq::empty())
        } else {
            let (g, parts) = self.add_expressions(es.drop_last());
            let (g2, r) = g.add_expression(es.last());
            (g2, parts.push(r))
        }
    }

    /// Whether `v` names slots of this graph.
    pub open spec fn holds(self, v: ValueSource) -> bool {
        v.slots_within(
            self.constants.len() as int,
            self.rotations.len() as int,
            self.calculations.len() as int,
        )
    }

    /// Adding a constant to a well-formed graph appends at most one
    /// constant, and the source returned addresses the constant added.
    pub proof fn lemma_add_constant(self, p: int, c: int)
        requires
            self.wf(p),
            is_residue(p, c),
            self.add_constant(c).0.fits(),
        ensures
            ({
                let (g, r) = self.add_constant(c);
                &&& g.wf(p)
                &&& g.extends(self)
                &&& g.rotations == self.rotations
                &&& g.calculations == self.calculations
                &&& r is Constant
                &&& g.holds(r)
                &&& g.constants[r->Constant_0 as int] == c
            }),
    {
        let (g, r) = self.add_constant(c);
        if self.constants.contains(c) {
            let i = slot_of(self.constants, c);
            assert(0 <= i < self.constants.len() && self.constants[i] == c);
        } else {
            assert forall|k: int| 0 <= k < g.calculations.len() implies (
            #[trigger] g.calculations[k]).slots_within(
                g.constants.len() as int,
                g.rotations.len() as int,
                k,
            ) by {
                crate::graph::lemma_slots_within_more(
                    self.calculations[k],
                    self.constants.len() as int,
                    self.rotations.len() as int,
                    k,
                    g.constants.len() as int,
                    g.rotations.len() as int,
                    k,
                );
            }
        }
    }

    /// Adding a rotation to a well-formed graph appends at most one
    /// rotation, and the slot returned holds the rotation added.
    pub proof fn lemma_add_rotation(self, p: int, rot: int)
        requires
            self.wf(p),
            self.add_rotation(rot).0.fits(),
        ensures
            ({
                let (g, slot) = self.add_rotation(rot);
                &&& g.wf(p)
                &&& g.extends(self)
                &&& g.constants == self.constants
                &&& g.calculations == self.calculations
                &&& slot < g.rotations.len()
                &&& g.rotations[slot as int] == rot
            }),
    {
        let (g, slot) = self.add_rotation(rot);
        if self.rotations.contains(rot) {
            let i = slot_of(self.rotations, rot);
            assert(0 <= i < self.rotations.len() && self.rotations[i] == rot);
        } else {
            assert forall|k: int| 0 <= k < g.calculations.len() implies (
            #[trigger] g.calculations[k]).slots_within(
                g.constants.len() as int,
                g.rotations.len() as int,
                k,
            ) by {
                crate::graph::lemma_slots_within_more(
                    self.calculations[k],
                    self.constants.len() as int,
                    self.rotations.len() as int,
                    k,
                    g.constants.len() as int,
                    g.rotations.len() as int,
                    k,
                );
            }
        }
    }

    /// Adding a calculation to a well-formed graph appends at most one
    /// calculation, and the intermediate returned is written by the
    /// calculation added.
    pub proof fn lemma_add_calculation(self, p: int, c: CalculationView)
        requires
            self.wf(p),
            c.slots_within(
                self.constants.len() as int,
                self.rotations.len() as int,
                self.calculations.len() as int,
            ),
            self.add_calculation(c).0.fits(),
        ensures
            ({
                let (g, r) = self.add_calculation(c);
                &&& g.wf(p)
                &&& g.extends(self)
                &&& g.constants == self.constants
                &&& g.rotations == self.rotations
                &&& r is Intermediate
                &&& g.holds(r)
                &&& g.calculations[r->Intermediate_0 as int] == c
            }),
    {
        let (g, r) = self.add_calculation(c);
        if self.calculations.contains(c) {
            let i = slot_of(self.calculations, c);
            assert(0 <= i < self.calculations.len() && self.calculations[i] == c);
        } else {
            assert forall|k: int| 0 <= k < g.calculations.len() implies (
            #[trigger] g.calculations[k]).slots_within(
                g.constants.len() as int,
                g.rotations.len() as int,
                k,
            ) by {
                if k < self.calculations.len() {
                    assert(g.calculations[k] == self.calculations[k]);
                }
            }
        }
    }
}

impl<F: Field> GraphEvaluator<F> {
    /// Generates an optimized evaluation for the expression
    pub fn add_expression(&mut self, expr: &Expression<F>) -> (r: ValueSource)
        requires
            old(self).wf(),
            expr.selector_free(),
        ensures
            final(self).wf(),
            (final(self)@, r) == old(self)@.add_expression(*expr),
            final(self)@.extends(old(self)@),
            final(self)@.holds(r),
        decreases expr,
    {
        let ghost p = F::modulus();
        let ghost g0 = self@;
        match expr {
            Expression::Constant(scalar) => {
                let r = self.add_constant(scalar);
                proof {
                    scalar.lemma_value();
                    g0.lemma_add_constant(p, scalar.value());
                }
                r
            },
            Expression::Selector(_selector) => ValueSource::Constant(0),
            Expression::Fixed(query) => {
                let rot_idx = self.add_rotation(&query.rotation);
                proof {
                    g0.lemma_add_rotation(p, query.rotation.0 as int);
                }
                self.add_store(ValueSource::Fixed(query.column_index, rot_idx))
            },
            Expression::Advice(query) => {
                let rot_idx = self.add_rotation(&query.rotation);
                proof {
                    g0.lemma_add_rotation(p, query.rotation.0 as int);
                }
                self.add_store(ValueSource::Advice(query.column_index, rot_idx))
            },
            Expression::Instance(query) => {
                let rot_idx = self.add_rotation(&query.rotation);
                proof {
                    g0.lemma_add_rotation(p, query.rotation.0 as int);
                }
                self.add_store(ValueSource::Instance(query.column_index, rot_idx))
            },
            Expression::Challenge(challenge) => {
                self.add_store(ValueSource::Challenge(challenge.index()))
            },
            Expression::Negated(a) => match &**a {
                Expression::Constant(scalar) => {
                    let negated = scalar.neg();
                    let r = self.add_constant(&negated);
                    proof {
                        negated.lemma_value();
                        g0.lemma_add_constant(p, negated.value());
                    }
                    r
                },
                _ => {
                    let result_a = self.add_expression(a);
                    self.add_negation(result_a)
                },
            },
            Expression::Sum(a, b) => {
                // Undo subtraction stored as a + (-b) in expressions
                match &**b {
                    Expression::Negated(b_int) => {
                        assert(b.selector_free());
                        let result_a = self.add_expression(a);
                        let result_b = self.add_expression(b_int);
                        self.add_difference(result_a, result_b)
                    },
                    _ => {
                        let result_a = self.add_expression(a);
                        let result_b = self.add_expression(b);
                        self.add_sum(result_a, result_b)
                    },
                }
            },
            Expression::Product(a, b) => {
                let result_a = self.add_expression(a);
                let result_b = self.add_expression(b);
                self.add_product(result_a, result_b)
            },
            Expression::Scaled(a, f) => {
                if f.is_equal(&F::zero()) {
                    ValueSource::Constant(0)
                } else if f.is_equal(&F::one()) {
                    self.add_expression(a)
                } else {
                    let cst = self.add_constant(f);
                    proof {
                        f.lemma_value();
                        g0.lemma_add_constant(p, f.value());
                    }
                    let result_a = self.add_expression(a);
                    self.emit(Calculation::Mul(result_a, cst))
                }
            },
        }
    }

    /// Adds a calculation whose operands this graph holds.
    fn emit(&mut self, calculation: Calculation) -> (r: ValueSource)
        requires
            old(self).wf(),
            forall|i: int|
                0 <= i < calculation@.operands().len() ==> old(self)@.holds(
                    #[trigger] calculation@.operands()[i],
                ),
        ensures
            final(self).wf(),
            (final(self)@, r) == old(self)@.add_calculation(calculation@),
            final(self)@.extends(old(self)@),
            final(self)@.holds(r),
    {
        let ghost g = self@;
        let ghost c = calculation@;
        let r = self.add_calculation(calculation);
        proof {
            g.lemma_add_calculation(F::modulus(), c);
        }
        r
    }

    /// Stores the cell `cell` in an intermediate.
    fn add_store(&mut self, cell: ValueSource) -> (r: ValueSource)
        requires
            old(self).wf(),
            old(self)@.holds(cell),
        ensures
            final(self).wf(),
            (final(self)@, r) == old(self)@.stored(cell),
            final(self)@.extends(old(self)@),
            final(self)@.holds(r),
    {
        self.emit(Calculation::Store(cell))
    }

    /// Negates `a`.
    fn add_negation(&mut self, a: ValueSource) -> (r: ValueSource)
        requires
            old(self).wf(),
            old(self)@.holds(a),
        ensures
            final(self).wf(),
            (final(self)@, r) == old(self)@.negation_of(a),
            final(self)@.extends(old(self)@),
            final(self)@.holds(r),
    {
        match a {
            ValueSource::Constant(0) => a,
            _ => self.emit(Calculation::Negate(a)),
        }
    }

    /// Subtracts `b` from `a`.
    fn add_difference(&mut self, a: ValueSource, b: ValueSource) -> (r: ValueSource)
        requires
            old(self).wf(),
            old(self)@.holds(a),
            old(self)@.holds(b),
        ensures
            final(self).wf(),
            (final(self)@, r) == old(self)@.difference_of(a, b),
            final(self)@.extends(old(self)@),
            final(self)@.holds(r),
    {
        if a == ValueSource::Constant(0) {
            self.emit(Calculation::Negate(b))
        } else if b == ValueSource::Constant(0) {
            a
        } else {
            self.emit(Calculation::Sub(a, b))
        }
    }

    /// Adds `a` and `b`.
    fn add_sum(&mut self, a: ValueSource, b: ValueSource) -> (r: ValueSource)
        requires
            old(self).wf(),
            old(self)@.holds(a),
            old(self)@.holds(b),
        ensures
            final(self).wf(),
            (final(self)@, r) == old(self)@.sum_of(a, b),
            final(self)@.extends(old(self)@),
            final(self)@.holds(r),
    {
        if a == ValueSource::Constant(0) {
            b
        } else if b == ValueSource::Constant(0) {
            a
        } else if a.precedes(&b) {
            self.emit(Calculation::Add(a, b))
        } else {
            self.emit(Calculation::Add(b, a))
        }
    }

    /// Multiplies `a` and `b`.
    fn add_product(&mut self, a: ValueSource, b: ValueSource) -> (r: ValueSource)
        requires
            old(self).wf(),
            old(self)@.holds(a),
            old(self)@.holds(b),
        ensures
            final(self).wf(),
            (final(self)@, r) == old(self)@.product_of(a, b),
            final(self)@.extends(old(self)@),
            final(self)@.holds(r),
    {
        if a == ValueSource::Constant(0) || b == ValueSource::Constant(0) {
            ValueSource::Constant(0)
        } else if a == ValueSource::Constant(1) {
            b
        } else if b == ValueSource::Constant(1) {
            a
        } else if a == ValueSource::Constant(2) {
            self.emit(Calculation::Double(b))
        } else if b == ValueSource::Constant(2) {
            self.emit(Calculation::Double(a))
        } else if a == b {
            self.emit(Calculation::Square(a))
        } else if a.precedes(&b) {
            self.emit(Calculation::Mul(a, b))
        } else {
            self.emit(Calculation::Mul(b, a))
        }
    }
}

} // verus!
