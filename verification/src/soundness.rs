use crate::calculation::CalculationView;
use crate::expression::Expression;
use crate::field::{
    all_residues, fadd, fmul, fneg, fsub, is_residue, lemma_fadd_neg_is_fsub, lemma_fadd_zero,
    lemma_fmul_comm, lemma_fmul_one_left, lemma_fmul_one_right, lemma_fmul_two, lemma_fmul_zero,
    lemma_results_are_residues, Field,
};
use crate::graph::Graph;
use crate::rotation::{lemma_rot_idx_range, Position};
use crate::value_source::{Inputs, ValueSource};
use vstd::prelude::*;

verus! {

impl Graph {
    /// The residue that `v` addresses once the whole graph was carried out
    /// at `at`.
    pub open spec fn source_value(self, v: ValueSource, inputs: Inputs, at: Position) -> int {
        v.value(self.final_scope(inputs, at))
    }

    /// Whether no slot count of `self` is below that of `base`.
    pub open spec fn grows_from(self, base: Graph) -> bool {
        &&& base.constants.len() <= self.constants.len()
        &&& base.rotations.len() <= self.rotations.len()
        &&& base.calculations.len() <= self.calculations.len()
    }

    /// Whether the graph is well formed over the field of `inputs` and reads
    /// only columns and challenges that `inputs` hold.
    pub open spec fn ready(self, inputs: Inputs) -> bool {
        &&& self.wf(inputs.modulus)
        &&& self.readable(inputs)
    }

    /// Whether `v` is a slot of this graph that holds a canonical residue at
    /// `at`.
    pub open spec fn operand(self, v: ValueSource, inputs: Inputs, at: Position) -> bool {
        &&& self.holds(v)
        &&& v.is_slot()
        &&& is_residue(inputs.modulus, self.source_value(v, inputs, at))
    }

    /// Appending to a graph changes the value of none of its sources.
    pub proof fn lemma_frame(self, base: Graph, inputs: Inputs, at: Position)
        requires
            base.wf(inputs.modulus),
            self.extends(base),
        ensures
            forall|v: ValueSource|
                base.holds(v) ==> #[trigger] self.source_value(v, inputs, at) == base.source_value(
                    v,
                    inputs,
                    at,
                ),
    {
        assert forall|v: ValueSource| base.holds(v) implies #[trigger] self.source_value(
            v,
            inputs,
            at,
        ) == base.source_value(v, inputs, at) by {
            self.lemma_extension_keeps_values(base, inputs.modulus, inputs, at, v);
        }
    }

    /// The intermediate of an added calculation holds what the calculation
    /// yields, and the graph stays ready.
    pub proof fn lemma_emit(self, c: CalculationView, inputs: Inputs, at: Position)
        requires
            self.ready(inputs),
            forall|i: int| 0 <= i < c.operands().len() ==> self.holds(#[trigger] c.operands()[i]),
            c.columns_within(
                inputs.fixed.len() as int,
                inputs.advice.len() as int,
                inputs.instance.len() as int,
                inputs.challenges.len() as int,
            ),
            self.add_calculation(c).0.fits(),
        ensures
            ({
                let (g, r) = self.add_calculation(c);
                &&& g.ready(inputs)
                &&& g.extends(self)
                &&& g.constants == self.constants
                &&& g.rotations == self.rotations
                &&& g.holds(r)
                &&& r.is_slot()
                &&& g.source_value(r, inputs, at) == c.value(g.final_scope(inputs, at))
                &&& forall|v: ValueSource|
                    self.holds(v) ==> #[trigger] g.source_value(v, inputs, at)
                        == self.source_value(v, inputs, at)
            }),
    {
        let (g, r) = self.add_calculation(c);
        self.lemma_add_calculation(inputs.modulus, c);
        g.lemma_intermediate_value(inputs.modulus, inputs, at, r->Intermediate_0 as int);
        g.lemma_frame(self, inputs, at);
        assert forall|i: int| 0 <= i < g.calculations.len() implies (
        #[trigger] g.calculations[i]).columns_within(
            inputs.fixed.len() as int,
            inputs.advice.len() as int,
            inputs.instance.len() as int,
            inputs.challenges.len() as int,
        ) by {
            if i < self.calculations.len() {
                assert(g.calculations[i] == self.calculations[i]);
            }
        }
    }

    /// A calculation without cells among its operands reads no column and
    /// no challenge.
    pub proof fn lemma_slots_read_no_columns(
        c: CalculationView,
        fixed: int,
        advice: int,
        instance: int,
        challenges: int,
    )
        requires
            forall|i: int| 0 <= i < c.operands().len() ==> !(#[trigger] c.operands()[i]).is_cell(),
        ensures
            c.columns_within(fixed, advice, instance, challenges),
    {
        assert forall|i: int| 0 <= i < c.operands().len() implies (
        #[trigger] c.operands()[i]).columns_within(fixed, advice, instance, challenges) by {
            assert(!c.operands()[i].is_cell());
        }
    }

    /// A calculation that the graph does not hold yet is carried out last,
    /// so the graph with it has the value of that calculation.
    pub proof fn lemma_fresh_is_last(self, c: CalculationView, inputs: Inputs, at: Position)
        requires
            self.ready(inputs),
            forall|i: int| 0 <= i < c.operands().len() ==> self.holds(#[trigger] c.operands()[i]),
            forall|i: int| 0 <= i < c.operands().len() ==> !(#[trigger] c.operands()[i]).is_cell(),
            !self.calculations.contains(c),
            self.add_calculation(c).0.fits(),
        ensures
            ({
                let (g, r) = self.add_calculation(c);
                &&& g.ready(inputs)
                &&& g.extends(self)
                &&& r == ValueSource::Intermediate(self.calculations.len() as usize)
                &&& g.calculations == self.calculations.push(c)
                &&& g.value(inputs, at) == c.value(g.final_scope(inputs, at))
                &&& g.source_value(r, inputs, at) == g.value(inputs, at)
                &&& forall|v: ValueSource|
                    self.holds(v) ==> #[trigger] g.source_value(v, inputs, at)
                        == self.source_value(v, inputs, at)
            }),
    {
        Self::lemma_slots_read_no_columns(
            c,
            inputs.fixed.len() as int,
            inputs.advice.len() as int,
            inputs.instance.len() as int,
            inputs.challenges.len() as int,
        );
        self.lemma_emit(c, inputs, at);
        let g = self.add_calculation(c).0;
        g.lemma_run_prefix(inputs, at, g.calculations.len(), g.calculations.len());
    }

    /// The source that `negation_of` returns holds the negation.
    pub proof fn lemma_negation_of(self, a: ValueSource, inputs: Inputs, at: Position)
        requires
            self.ready(inputs),
            self.operand(a, inputs, at),
            self.negation_of(a).0.fits(),
        ensures
            ({
                let (g, r) = self.negation_of(a);
                &&& g.ready(inputs)
                &&& g.extends(self)
                &&& g.operand(r, inputs, at)
                &&& g.source_value(r, inputs, at) == fneg(
                    inputs.modulus,
                    self.source_value(a, inputs, at),
                )
            }),
    {
        let p = inputs.modulus;
        let va = self.source_value(a, inputs, at);
        lemma_results_are_residues(p, va, va);
        if a == ValueSource::Constant(0) {
            lemma_fadd_zero(p, 0);
            assert(va == self.constants[0]);
        } else {
            let c = CalculationView::Negate(a);
            assert(c.operands()[0] == a);
            Self::lemma_slots_read_no_columns(
                c,
                inputs.fixed.len() as int,
                inputs.advice.len() as int,
                inputs.instance.len() as int,
                inputs.challenges.len() as int,
            );
            self.lemma_emit(c, inputs, at);
            let g = self.add_calculation(c).0;
            assert(g.source_value(a, inputs, at) == va);
        }
    }

    /// The source that `difference_of` returns holds the difference.
    pub proof fn lemma_difference_of(
        self,
        a: ValueSource,
        b: ValueSource,
        inputs: Inputs,
        at: Position,
    )
        requires
            self.ready(inputs),
            self.operand(a, inputs, at),
            self.operand(b, inputs, at),
            self.difference_of(a, b).0.fits(),
        ensures
            ({
                let (g, r) = self.difference_of(a, b);
                &&& g.ready(inputs)
                &&& g.extends(self)
                &&& g.operand(r, inputs, at)
                &&& g.source_value(r, inputs, at) == fsub(
                    inputs.modulus,
                    self.source_value(a, inputs, at),
                    self.source_value(b, inputs, at),
                )
            }),
    {
        let p = inputs.modulus;
        let va = self.source_value(a, inputs, at);
        let vb = self.source_value(b, inputs, at);
        lemma_results_are_residues(p, va, vb);
        lemma_results_are_residues(p, vb, vb);
        let c = if a == ValueSource::Constant(0) {
            CalculationView::Negate(b)
        } else {
            CalculationView::Sub(a, b)
        };
        if a == ValueSource::Constant(0) {
            assert(va == self.constants[0]);
            lemma_fadd_neg_is_fsub(p, 0, vb);
            lemma_fadd_zero(p, fneg(p, vb));
        }
        if a != ValueSource::Constant(0) && b == ValueSource::Constant(0) {
            assert(vb == self.constants[0]);
            vstd::arithmetic::div_mod::lemma_small_mod(va as nat, p as nat);
        } else {
            if a == ValueSource::Constant(0) {
                assert(c.operands()[0] == b);
            } else {
                assert(c.operands()[0] == a && c.operands()[1] == b);
            }
            Self::lemma_slots_read_no_columns(
                c,
                inputs.fixed.len() as int,
                inputs.advice.len() as int,
                inputs.instance.len() as int,
                inputs.challenges.len() as int,
            );
            self.lemma_emit(c, inputs, at);
            let g = self.add_calculation(c).0;
            assert(g.source_value(a, inputs, at) == va);
            assert(g.source_value(b, inputs, at) == vb);
        }
    }

    /// The source that `sum_of` returns holds the sum.
    pub proof fn lemma_sum_of(self, a: ValueSource, b: ValueSource, inputs: Inputs, at: Position)
        requires
            self.ready(inputs),
            self.operand(a, inputs, at),
            self.operand(b, inputs, at),
            self.sum_of(a, b).0.fits(),
        ensures
            ({
                let (g, r) = self.sum_of(a, b);
                &&& g.ready(inputs)
                &&& g.extends(self)
                &&& g.operand(r, inputs, at)
                &&& g.source_value(r, inputs, at) == fadd(
                    inputs.modulus,
                    self.source_value(a, inputs, at),
                    self.source_value(b, inputs, at),
                )
            }),
    {
        let p = inputs.modulus;
        let va = self.source_value(a, inputs, at);
        let vb = self.source_value(b, inputs, at);
        lemma_results_are_residues(p, va, vb);
        lemma_fadd_zero(p, va);
        lemma_fadd_zero(p, vb);
        if a == ValueSource::Constant(0) {
            assert(va == self.constants[0]);
        }
        if b == ValueSource::Constant(0) {
            assert(vb == self.constants[0]);
        }
        if a != ValueSource::Constant(0) && b != ValueSource::Constant(0) {
            let c = if a.precedes_spec(b) {
                CalculationView::Add(a, b)
            } else {
                CalculationView::Add(b, a)
            };
            assert(c.operands()[0].is_slot() && c.operands()[1].is_slot());
            assert(self.holds(c.operands()[0]) && self.holds(c.operands()[1]));
            Self::lemma_slots_read_no_columns(
                c,
                inputs.fixed.len() as int,
                inputs.advice.len() as int,
                inputs.instance.len() as int,
                inputs.challenges.len() as int,
            );
            self.lemma_emit(c, inputs, at);
            let g = self.add_calculation(c).0;
            assert(g.source_value(a, inputs, at) == va);
            assert(g.source_value(b, inputs, at) == vb);
        }
    }

    /// The source that `product_of` returns holds the product.
    pub proof fn lemma_product_of(
        self,
        a: ValueSource,
        b: ValueSource,
        inputs: Inputs,
        at: Position,
    )
        requires
            self.ready(inputs),
            self.operand(a, inputs, at),
            self.operand(b, inputs, at),
            self.product_of(a, b).0.fits(),
        ensures
            ({
                let (g, r) = self.product_of(a, b);
                &&& g.ready(inputs)
                &&& g.extends(self)
                &&& g.operand(r, inputs, at)
                &&& g.source_value(r, inputs, at) == fmul(
                    inputs.modulus,
                    self.source_value(a, inputs, at),
                    self.source_value(b, inputs, at),
                )
            }),
    {
        let p = inputs.modulus;
        let va = self.source_value(a, inputs, at);
        let vb = self.source_value(b, inputs, at);
        let zero = ValueSource::Constant(0);
        let one = ValueSource::Constant(1);
        let two = ValueSource::Constant(2);
        lemma_results_are_residues(p, va, vb);
        lemma_results_are_residues(p, va, va);
        lemma_results_are_residues(p, vb, vb);
        lemma_fmul_zero(p, va);
        lemma_fmul_zero(p, vb);
        lemma_fmul_one_left(p, vb);
        lemma_fmul_one_right(p, va);
        lemma_fmul_two(p, va);
        lemma_fmul_two(p, vb);
        lemma_fmul_comm(p, va, vb);
        if a == zero || a == one || a == two {
            assert(va == self.constants[a->Constant_0 as int]);
        }
        if b == zero || b == one || b == two {
            assert(vb == self.constants[b->Constant_0 as int]);
        }
        assert(self.source_value(zero, inputs, at) == self.constants[0]);
        if a == zero || b == zero {
        } else if a == one {
        } else if b == one {
        } else {
            let c = if a == two {
                CalculationView::Double(b)
            } else if b == two {
                CalculationView::Double(a)
            } else if a == b {
                CalculationView::Square(a)
            } else if a.precedes_spec(b) {
                CalculationView::Mul(a, b)
            } else {
                CalculationView::Mul(b, a)
            };
            assert forall|i: int| 0 <= i < c.operands().len() implies (
            #[trigger] c.operands()[i]).is_slot() && self.holds(c.operands()[i]) by {
                assert(c.operands()[i] == a || c.operands()[i] == b);
            }
            Self::lemma_slots_read_no_columns(
                c,
                inputs.fixed.len() as int,
                inputs.advice.len() as int,
                inputs.instance.len() as int,
                inputs.challenges.len() as int,
            );
            self.lemma_emit(c, inputs, at);
            let g = self.add_calculation(c).0;
            assert(g.source_value(a, inputs, at) == va);
            assert(g.source_value(b, inputs, at) == vb);
        }
    }
}

impl Graph {
    /// Adding an expression takes no slot away, and the source returned is a
    /// constant or an intermediate.
    pub proof fn lemma_add_expression_shape<F: Field>(self, e: Expression<F>)
        ensures
            self.add_expression(e).0.grows_from(self),
            self.add_expression(e).1.is_slot(),
        decreases e,
    {
        match e {
            Expression::Negated(a) => match *a {
                Expression::Constant(_) => {},
                _ => {
                    self.lemma_add_expression_shape(*a);
                },
            },
            Expression::Sum(a, b) => match *b {
                Expression::Negated(b_int) => {
                    self.lemma_add_expression_shape(*a);
                    self.add_expression(*a).0.lemma_add_expression_shape(*b_int);
                },
                _ => {
                    self.lemma_add_expression_shape(*a);
                    self.add_expression(*a).0.lemma_add_expression_shape(*b);
                },
            },
            Expression::Product(a, b) => {
                self.lemma_add_expression_shape(*a);
                self.add_expression(*a).0.lemma_add_expression_shape(*b);
            },
            Expression::Scaled(a, f) => {
                self.lemma_add_expression_shape(*a);
                self.add_constant(f.value()).0.lemma_add_expression_shape(*a);
            },
            _ => {},
        }
    }

    /// The source of a stored cell holds the cell's value.
    pub proof fn lemma_stored(self, cell: ValueSource, inputs: Inputs, at: Position)
        requires
            self.ready(inputs),
            inputs.wf(),
            inputs.covers(at.size),
            at.size > 0,
            self.holds(cell),
            cell is Fixed || cell is Advice || cell is Instance || cell is Challenge,
            cell.columns_within(
                inputs.fixed.len() as int,
                inputs.advice.len() as int,
                inputs.instance.len() as int,
                inputs.challenges.len() as int,
            ),
            self.stored(cell).0.fits(),
        ensures
            ({
                let (g, r) = self.stored(cell);
                &&& g.ready(inputs)
                &&& g.extends(self)
                &&& g.operand(r, inputs, at)
                &&& g.source_value(r, inputs, at) == cell.value(self.scope(inputs, at, seq![]))
            }),
    {
        let c = CalculationView::Store(cell);
        let (g, r) = self.stored(cell);
        assert(c.operands()[0] == cell);
        assert forall|i: int| 0 <= i < c.operands().len() implies (
        #[trigger] c.operands()[i]).columns_within(
            inputs.fixed.len() as int,
            inputs.advice.len() as int,
            inputs.instance.len() as int,
            inputs.challenges.len() as int,
        ) by {}
        self.lemma_emit(c, inputs, at);
        let p = inputs.modulus;
        match cell {
            ValueSource::Fixed(col, slot) => {
                lemma_rot_idx_range(at.idx, self.rotations[slot as int], at.rot_scale, at.size);
                assert(all_residues(p, inputs.fixed[col as int]));
            },
            ValueSource::Advice(col, slot) => {
                lemma_rot_idx_range(at.idx, self.rotations[slot as int], at.rot_scale, at.size);
                assert(all_residues(p, inputs.advice[col as int]));
            },
            ValueSource::Instance(col, slot) => {
                lemma_rot_idx_range(at.idx, self.rotations[slot as int], at.rot_scale, at.size);
                assert(all_residues(p, inputs.instance[col as int]));
            },
            _ => {},
        }
    }

    /// Whether adding `e` keeps the graph ready and returns a source that
    /// holds the value of `e` at `at`.
    pub open spec fn computes<F: Field>(
        self,
        e: Expression<F>,
        inputs: Inputs,
        at: Position,
    ) -> bool {
        let (g, r) = self.add_expression(e);
        &&& g.ready(inputs)
        &&& g.extends(self)
        &&& g.operand(r, inputs, at)
        &&& g.source_value(r, inputs, at) == e.value(inputs, at)
    }

    /// Whether `e` can be added to this graph and evaluated on `inputs` at
    /// `at`.
    pub open spec fn admits<F: Field>(
        self,
        e: Expression<F>,
        inputs: Inputs,
        at: Position,
    ) -> bool {
        &&& self.ready(inputs)
        &&& inputs.modulus == F::modulus()
        &&& inputs.wf()
        &&& inputs.covers(at.size)
        &&& at.size > 0
        &&& e.selector_free()
        &&& e.readable(inputs)
        &&& self.add_expression(e).0.fits()
    }

    proof fn lemma_sound_leaf<F: Field>(self, e: Expression<F>, inputs: Inputs, at: Position)
        requires
            self.admits(e, inputs, at),
            e is Constant || e is Fixed || e is Advice || e is Instance || e is Challenge,
        ensures
            self.computes(e, inputs, at),
    {
        let p = inputs.modulus;
        match e {
            Expression::Constant(c) => {
                c.lemma_value();
                self.lemma_add_constant(p, c.value());
            },
            Expression::Fixed(q) => {
                let (g1, slot) = self.add_rotation(q.rotation.0 as int);
                self.lemma_add_rotation(p, q.rotation.0 as int);
                g1.lemma_stored(ValueSource::Fixed(q.column_index, slot), inputs, at);
            },
            Expression::Advice(q) => {
                let (g1, slot) = self.add_rotation(q.rotation.0 as int);
                self.lemma_add_rotation(p, q.rotation.0 as int);
                g1.lemma_stored(ValueSource::Advice(q.column_index, slot), inputs, at);
            },
            Expression::Instance(q) => {
                let (g1, slot) = self.add_rotation(q.rotation.0 as int);
                self.lemma_add_rotation(p, q.rotation.0 as int);
                g1.lemma_stored(ValueSource::Instance(q.column_index, slot), inputs, at);
            },
            Expression::Challenge(c) => {
                self.lemma_stored(ValueSource::Challenge(c.index), inputs, at);
            },
            _ => {},
        }
    }

    proof fn lemma_sound_negated<F: Field>(self, a: Expression<F>, inputs: Inputs, at: Position)
        requires
            self.admits(Expression::Negated(Box::new(a)), inputs, at),
            !(a is Constant) ==> self.computes(a, inputs, at),
        ensures
            self.computes(Expression::Negated(Box::new(a)), inputs, at),
    {
        let p = inputs.modulus;
        let e = Expression::Negated(Box::new(a));
        assert(e.value(inputs, at) == fneg(p, a.value(inputs, at)));
        match a {
            Expression::Constant(c) => {
                lemma_results_are_residues(p, c.value(), c.value());
                self.lemma_add_constant(p, fneg(p, c.value()));
                assert(self.add_expression(e) == self.add_constant(fneg(p, c.value())));
                assert(a.value(inputs, at) == c.value());
            },
            _ => {
                let (g1, ra) = self.add_expression(a);
                assert(self.add_expression(e) == g1.negation_of(ra));
                g1.lemma_negation_of(ra, inputs, at);
            },
        }
    }

    /// Both operands of a binary operator are operands of the graph that
    /// holds the second.
    proof fn lemma_both_operands(
        self,
        g1: Graph,
        g2: Graph,
        ra: ValueSource,
        inputs: Inputs,
        at: Position,
    )
        requires
            g1.ready(inputs),
            g1.extends(self),
            g1.operand(ra, inputs, at),
            g2.ready(inputs),
            g2.extends(g1),
        ensures
            g2.extends(self),
            g2.operand(ra, inputs, at),
            g2.source_value(ra, inputs, at) == g1.source_value(ra, inputs, at),
    {
        g2.lemma_frame(g1, inputs, at);
    }

    proof fn lemma_sound_difference<F: Field>(
        self,
        a: Expression<F>,
        b_int: Expression<F>,
        inputs: Inputs,
        at: Position,
    )
        requires
            self.admits(
                Expression::Sum(Box::new(a), Box::new(Expression::Negated(Box::new(b_int)))),
                inputs,
                at,
            ),
            self.computes(a, inputs, at),
            self.add_expression(a).0.computes(b_int, inputs, at),
        ensures
            self.computes(
                Expression::Sum(Box::new(a), Box::new(Expression::Negated(Box::new(b_int)))),
                inputs,
                at,
            ),
    {
        let p = inputs.modulus;
        let b = Expression::Negated(Box::new(b_int));
        let (g1, ra) = self.add_expression(a);
        let (g2, rb) = g1.add_expression(b_int);
        self.lemma_both_operands(g1, g2, ra, inputs, at);
        g2.lemma_difference_of(ra, rb, inputs, at);
        lemma_fadd_neg_is_fsub(p, a.value(inputs, at), b_int.value(inputs, at));
        assert(b.value(inputs, at) == fneg(p, b_int.value(inputs, at)));
    }

    proof fn lemma_sound_sum<F: Field>(
        self,
        a: Expression<F>,
        b: Expression<F>,
        inputs: Inputs,
        at: Position,
    )
        requires
            self.admits(Expression::Sum(Box::new(a), Box::new(b)), inputs, at),
            !(b is Negated),
            self.computes(a, inputs, at),
            self.add_expression(a).0.computes(b, inputs, at),
        ensures
            self.computes(Expression::Sum(Box::new(a), Box::new(b)), inputs, at),
    {
        let (g1, ra) = self.add_expression(a);
        let (g2, rb) = g1.add_expression(b);
        self.lemma_both_operands(g1, g2, ra, inputs, at);
        g2.lemma_sum_of(ra, rb, inputs, at);
    }

    proof fn lemma_sound_product<F: Field>(
        self,
        a: Expression<F>,
        b: Expression<F>,
        inputs: Inputs,
        at: Position,
    )
        requires
            self.admits(Expression::Product(Box::new(a), Box::new(b)), inputs, at),
            self.computes(a, inputs, at),
            self.add_expression(a).0.computes(b, inputs, at),
        ensures
            self.computes(Expression::Product(Box::new(a), Box::new(b)), inputs, at),
    {
        let (g1, ra) = self.add_expression(a);
        let (g2, rb) = g1.add_expression(b);
        self.lemma_both_operands(g1, g2, ra, inputs, at);
        g2.lemma_product_of(ra, rb, inputs, at);
    }

    proof fn lemma_sound_scaled<F: Field>(
        self,
        a: Expression<F>,
        f: F,
        inputs: Inputs,
        at: Position,
    )
        requires
            self.admits(Expression::Scaled(Box::new(a), f), inputs, at),
            f.value() == 1 ==> self.computes(a, inputs, at),
            f.value() != 0 && f.value() != 1 ==> self.add_constant(f.value()).0.fits()
                && self.add_constant(f.value()).0.computes(a, inputs, at),
        ensures
            self.computes(Expression::Scaled(Box::new(a), f), inputs, at),
    {
        let p = inputs.modulus;
        f.lemma_value();
        if f.value() == 0 {
            lemma_fmul_zero(p, a.value(inputs, at));
            assert(self.source_value(ValueSource::Constant(0), inputs, at) == self.constants[0]);
        } else if f.value() == 1 {
            lemma_fmul_one_right(p, a.value(inputs, at));
        } else {
            let (g1, cst) = self.add_constant(f.value());
            let (g2, ra) = g1.add_expression(a);
            let c = CalculationView::Mul(ra, cst);
            let (g3, r) = g2.add_calculation(c);
            self.lemma_add_constant(p, f.value());
            assert(g1.source_value(cst, inputs, at) == f.value());
            assert(g1.operand(cst, inputs, at));
            self.lemma_both_operands(g1, g2, cst, inputs, at);
            assert(c.operands()[0] == ra && c.operands()[1] == cst);
            Self::lemma_slots_read_no_columns(
                c,
                inputs.fixed.len() as int,
                inputs.advice.len() as int,
                inputs.instance.len() as int,
                inputs.challenges.len() as int,
            );
            g2.lemma_emit(c, inputs, at);
            assert(g3.source_value(ra, inputs, at) == a.value(inputs, at));
            assert(g3.source_value(cst, inputs, at) == f.value());
            lemma_results_are_residues(p, a.value(inputs, at), f.value());
        }
    }

    /// The compiled graph computes the expression: the source that
    /// `add_expression` returns holds, at every row, the value that the
    /// expression has there, and the sources of the graph it was added to
    /// keep their values.
    pub proof fn lemma_add_expression_sound<F: Field>(
        self,
        e: Expression<F>,
        inputs: Inputs,
        at: Position,
    )
        requires
            self.ready(inputs),
            inputs.modulus == F::modulus(),
            inputs.wf(),
            inputs.covers(at.size),
            at.size > 0,
            e.selector_free(),
            e.readable(inputs),
            self.add_expression(e).0.fits(),
        ensures
            ({
                let (g, r) = self.add_expression(e);
                &&& g.ready(inputs)
                &&& g.extends(self)
                &&& g.operand(r, inputs, at)
                &&& g.source_value(r, inputs, at) == e.value(inputs, at)
            }),
        decreases e,
    {
        match e {
            Expression::Selector(_) => {},
            Expression::Negated(a) => {
                if !(*a is Constant) {
                    self.lemma_add_expression_sound(*a, inputs, at);
                }
                self.lemma_sound_negated(*a, inputs, at);
            },
            Expression::Sum(a, b) => match *b {
                Expression::Negated(b_int) => {
                    let g1 = self.add_expression(*a).0;
                    g1.lemma_add_expression_shape(*b_int);
                    assert(b.selector_free() && b.readable(inputs));
                    self.lemma_add_expression_sound(*a, inputs, at);
                    g1.lemma_add_expression_sound(*b_int, inputs, at);
                    self.lemma_sound_difference(*a, *b_int, inputs, at);
                },
                _ => {
                    let g1 = self.add_expression(*a).0;
                    g1.lemma_add_expression_shape(*b);
                    self.lemma_add_expression_sound(*a, inputs, at);
                    g1.lemma_add_expression_sound(*b, inputs, at);
                    self.lemma_sound_sum(*a, *b, inputs, at);
                },
            },
            Expression::Product(a, b) => {
                let g1 = self.add_expression(*a).0;
                g1.lemma_add_expression_shape(*b);
                self.lemma_add_expression_sound(*a, inputs, at);
                g1.lemma_add_expression_sound(*b, inputs, at);
                self.lemma_sound_product(*a, *b, inputs, at);
            },
            Expression::Scaled(a, f) => {
                if f.value() == 1 {
                    self.lemma_add_expression_sound(*a, inputs, at);
                } else if f.value() != 0 {
                    let g1 = self.add_constant(f.value()).0;
                    g1.lemma_add_expression_shape(*a);
                    f.lemma_value();
                    self.lemma_add_constant(inputs.modulus, f.value());
                    g1.lemma_add_expression_sound(*a, inputs, at);
                }
                self.lemma_sound_scaled(*a, f, inputs, at);
            },
            _ => {
                self.lemma_sound_leaf(e, inputs, at);
            },
        }
    }
}

impl Graph {
    /// Whether no calculation of the graph reads `v`.
    pub open spec fn free_of(self, v: ValueSource) -> bool {
        forall|i: int| 0 <= i < self.calculations.len() ==> !(#[trigger] self.calculations[i]).reads(v)
    }

    /// A graph that does not read `tag` still does not after a calculation
    /// that does not read it was added.
    pub proof fn lemma_add_calculation_keeps_free(self, c: CalculationView, tag: ValueSource)
        requires
            self.free_of(tag),
            !c.reads(tag),
        ensures
            self.add_calculation(c).0.free_of(tag),
    {
        let g = self.add_calculation(c).0;
        assert forall|i: int| 0 <= i < g.calculations.len() implies !(
        #[trigger] g.calculations[i]).reads(tag) by {
            if i < self.calculations.len() {
                assert(g.calculations[i] == self.calculations[i]);
            }
        }
    }

    /// A calculation on constants, intermediates and cells reads none of the
    /// scalars of the session.
    pub proof fn lemma_reads_no_scalar(c: CalculationView, tag: ValueSource)
        requires
            tag.is_scalar(),
            forall|i: int| 0 <= i < c.operands().len() ==> !(#[trigger] c.operands()[i]).is_scalar(),
        ensures
            !c.reads(tag),
    {
        if c.reads(tag) {
            let i = choose|i: int| 0 <= i < c.operands().len() && c.operands()[i] == tag;
            assert(!c.operands()[i].is_scalar());
        }
    }

    /// A graph that does not read a scalar of the session still does not
    /// after a calculation on slots and cells was added.
    proof fn lemma_plain_step(self, c: CalculationView, tag: ValueSource)
        requires
            tag.is_scalar(),
            self.free_of(tag),
            forall|i: int| 0 <= i < c.operands().len() ==> !(#[trigger] c.operands()[i]).is_scalar(),
        ensures
            self.add_calculation(c).0.free_of(tag),
    {
        Self::lemma_reads_no_scalar(c, tag);
        self.lemma_add_calculation_keeps_free(c, tag);
    }

    /// Adding an expression to a graph that reads none of the scalars of the
    /// session (beta, gamma, theta, y, the previous value) gives a graph
    /// that reads none.
    pub proof fn lemma_add_expression_keeps_free<F: Field>(
        self,
        e: Expression<F>,
        tag: ValueSource,
    )
        requires
            tag.is_scalar(),
            self.free_of(tag),
        ensures
            self.add_expression(e).0.free_of(tag),
        decreases e,
    {
        match e {
            Expression::Fixed(q) => {
                let (g, slot) = self.add_rotation(q.rotation.0 as int);
                let c = CalculationView::Store(ValueSource::Fixed(q.column_index, slot));
                assert(c.operands()[0] == ValueSource::Fixed(q.column_index, slot));
                g.lemma_plain_step(c, tag);
            },
            Expression::Advice(q) => {
                let (g, slot) = self.add_rotation(q.rotation.0 as int);
                let c = CalculationView::Store(ValueSource::Advice(q.column_index, slot));
                assert(c.operands()[0] == ValueSource::Advice(q.column_index, slot));
                g.lemma_plain_step(c, tag);
            },
            Expression::Instance(q) => {
                let (g, slot) = self.add_rotation(q.rotation.0 as int);
                let c = CalculationView::Store(ValueSource::Instance(q.column_index, slot));
                assert(c.operands()[0] == ValueSource::Instance(q.column_index, slot));
                g.lemma_plain_step(c, tag);
            },
            Expression::Challenge(ch) => {
                let c = CalculationView::Store(ValueSource::Challenge(ch.index));
                assert(c.operands()[0] == ValueSource::Challenge(ch.index));
                self.lemma_plain_step(c, tag);
            },
            Expression::Negated(a) => match *a {
                Expression::Constant(_) => {},
                _ => {
                    let (g, ra) = self.add_expression(*a);
                    self.lemma_add_expression_keeps_free(*a, tag);
                    self.lemma_add_expression_shape(*a);
                    g.lemma_unary_keeps_free(ra, tag);
                },
            },
            Expression::Sum(a, b) => match *b {
                Expression::Negated(b_int) => {
                    let (g1, ra) = self.add_expression(*a);
                    let (g2, rb) = g1.add_expression(*b_int);
                    self.lemma_add_expression_keeps_free(*a, tag);
                    g1.lemma_add_expression_keeps_free(*b_int, tag);
                    self.lemma_add_expression_shape(*a);
                    g1.lemma_add_expression_shape(*b_int);
                    g2.lemma_unary_keeps_free(rb, tag);
                    g2.lemma_binary_keeps_free(ra, rb, tag);
                },
                _ => {
                    let (g1, ra) = self.add_expression(*a);
                    let (g2, rb) = g1.add_expression(*b);
                    self.lemma_add_expression_keeps_free(*a, tag);
                    g1.lemma_add_expression_keeps_free(*b, tag);
                    self.lemma_add_expression_shape(*a);
                    g1.lemma_add_expression_shape(*b);
                    g2.lemma_binary_keeps_free(ra, rb, tag);
                    g2.lemma_binary_keeps_free(rb, ra, tag);
                },
            },
            Expression::Product(a, b) => {
                let (g1, ra) = self.add_expression(*a);
                let (g2, rb) = g1.add_expression(*b);
                self.lemma_add_expression_keeps_free(*a, tag);
                g1.lemma_add_expression_keeps_free(*b, tag);
                self.lemma_add_expression_shape(*a);
                g1.lemma_add_expression_shape(*b);
                g2.lemma_unary_keeps_free(ra, tag);
                g2.lemma_unary_keeps_free(rb, tag);
                g2.lemma_binary_keeps_free(ra, rb, tag);
                g2.lemma_binary_keeps_free(rb, ra, tag);
            },
            Expression::Scaled(a, f) => {
                self.lemma_add_expression_keeps_free(*a, tag);
                let (g1, cst) = self.add_constant(f.value());
                let (g2, ra) = g1.add_expression(*a);
                g1.lemma_add_expression_keeps_free(*a, tag);
                g1.lemma_add_expression_shape(*a);
                g2.lemma_binary_keeps_free(ra, cst, tag);
            },
            _ => {},
        }
    }

    proof fn lemma_unary_keeps_free(self, a: ValueSource, tag: ValueSource)
        requires
            tag.is_scalar(),
            self.free_of(tag),
            a.is_slot(),
        ensures
            self.add_calculation(CalculationView::Negate(a)).0.free_of(tag),
            self.add_calculation(CalculationView::Double(a)).0.free_of(tag),
            self.add_calculation(CalculationView::Square(a)).0.free_of(tag),
    {
        assert(CalculationView::Negate(a).operands()[0] == a);
        assert(CalculationView::Double(a).operands()[0] == a);
        assert(CalculationView::Square(a).operands()[0] == a);
        self.lemma_plain_step(CalculationView::Negate(a), tag);
        self.lemma_plain_step(CalculationView::Double(a), tag);
        self.lemma_plain_step(CalculationView::Square(a), tag);
    }

    proof fn lemma_binary_keeps_free(self, a: ValueSource, b: ValueSource, tag: ValueSource)
        requires
            tag.is_scalar(),
            self.free_of(tag),
            a.is_slot(),
            b.is_slot(),
        ensures
            self.add_calculation(CalculationView::Add(a, b)).0.free_of(tag),
            self.add_calculation(CalculationView::Sub(a, b)).0.free_of(tag),
            self.add_calculation(CalculationView::Mul(a, b)).0.free_of(tag),
    {
        assert(CalculationView::Add(a, b).operands()[0] == a);
        assert(CalculationView::Add(a, b).operands()[1] == b);
        assert(CalculationView::Sub(a, b).operands()[0] == a);
        assert(CalculationView::Sub(a, b).operands()[1] == b);
        assert(CalculationView::Mul(a, b).operands()[0] == a);
        assert(CalculationView::Mul(a, b).operands()[1] == b);
        self.lemma_plain_step(CalculationView::Add(a, b), tag);
        self.lemma_plain_step(CalculationView::Sub(a, b), tag);
        self.lemma_plain_step(CalculationView::Mul(a, b), tag);
    }

    /// Adding expressions in turn takes no slot away, and returns one slot
    /// for each expression.
    pub proof fn lemma_add_expressions_shape<F: Field>(self, es: Seq<Expression<F>>)
        ensures
            self.add_expressions(es).0.grows_from(self),
            self.add_expressions(es).1.len() == es.len(),
            forall|i: int| 0 <= i < es.len() ==> (#[trigger] self.add_expressions(es).1[i]).is_slot(),
        decreases es.len(),
    {
        if es.len() > 0 {
            self.lemma_add_expressions_shape(es.drop_last());
            self.add_expressions(es.drop_last()).0.lemma_add_expression_shape(es.last());
        }
    }

    /// Adding expressions in turn to a graph that reads none of the scalars
    /// of the session gives a graph that reads none.
    pub proof fn lemma_add_expressions_keeps_free<F: Field>(
        self,
        es: Seq<Expression<F>>,
        tag: ValueSource,
    )
        requires
            tag.is_scalar(),
            self.free_of(tag),
        ensures
            self.add_expressions(es).0.free_of(tag),
        decreases es.len(),
    {
        if es.len() > 0 {
            self.lemma_add_expressions_keeps_free(es.drop_last(), tag);
            self.add_expressions(es.drop_last()).0.lemma_add_expression_keeps_free(es.last(), tag);
        }
    }

    /// The compiled graph computes each of the expressions added in turn:
    /// the sources returned hold, at every row, the values that the
    /// expressions have there.
    pub proof fn lemma_add_expressions_sound<F: Field>(
        self,
        es: Seq<Expression<F>>,
        inputs: Inputs,
        at: Position,
    )
        requires
            self.ready(inputs),
            inputs.modulus == F::modulus(),
            inputs.wf(),
            inputs.covers(at.size),
            at.size > 0,
            forall|i: int| 0 <= i < es.len() ==> (#[trigger] es[i]).selector_free(),
            forall|i: int| 0 <= i < es.len() ==> (#[trigger] es[i]).readable(inputs),
            self.add_expressions(es).0.fits(),
        ensures
            ({
                let (g, parts) = self.add_expressions(es);
                &&& g.ready(inputs)
                &&& g.extends(self)
                &&& parts.len() == es.len()
                &&& forall|i: int|
                    0 <= i < es.len() ==> g.operand(#[trigger] parts[i], inputs, at)
                &&& forall|i: int|
                    0 <= i < es.len() ==> g.source_value(#[trigger] parts[i], inputs, at)
                        == es[i].value(inputs, at)
            }),
        decreases es.len(),
    {
        if es.len() > 0 {
            let (g1, before) = self.add_expressions(es.drop_last());
            let (g2, r) = g1.add_expression(es.last());
            g1.lemma_add_expression_shape(es.last());
            self.lemma_add_expressions_sound(es.drop_last(), inputs, at);
            g1.lemma_add_expression_sound(es.last(), inputs, at);
            g2.lemma_frame(g1, inputs, at);
            let parts = before.push(r);
            assert forall|i: int| 0 <= i < es.len() implies g2.operand(
                #[trigger] parts[i],
                inputs,
                at,
            ) && g2.source_value(parts[i], inputs, at) == es[i].value(inputs, at) by {
                if i < es.len() - 1 {
                    assert(parts[i] == before[i]);
                    assert(es.drop_last()[i] == es[i]);
                    assert(g1.operand(before[i], inputs, at));
                    assert(g2.source_value(before[i], inputs, at) == g1.source_value(
                        before[i],
                        inputs,
                        at,
                    ));
                }
            }
        }
    }
}

} // verus!
