use crate::calculation::{horner, source_values, Calculation, CalculationView};
use crate::circuit::{all_selector_free, gate_polynomials, ConstraintSystem};
use crate::expression::Expression;
use crate::field::{fadd, fmul, Field};
use crate::graph::{Graph, GraphEvaluator};
use crate::rotation::Position;
use crate::value_source::{Inputs, ValueSource};
use vstd::prelude::*;

verus! {

/// Evaluator
#[derive(Clone, Debug)]
pub struct Evaluator<F: Field> {
    ///  Custom gates evalution
    pub custom_gates: GraphEvaluator<F>,
    ///  Lookups evalution
    pub lookups: Vec<GraphEvaluator<F>>,
}

/// The graphs of an evaluator as mathematical values.
pub struct EvaluatorView {
    pub custom_gates: Graph,
    pub lookups: Seq<Graph>,
}

impl<F: Field> View for Evaluator<F> {
    type V = EvaluatorView;

    open spec fn view(&self) -> EvaluatorView {
        EvaluatorView {
            custom_gates: self.custom_gates@,
            lookups: Seq::new(self.lookups@.len(), |n: int| self.lookups@[n]@),
        }
    }
}

impl EvaluatorView {
    /// Whether these are the graphs of `cs`, with slot numbers that fit a
    /// machine word.
    pub open spec fn compiled_from<F: Field>(self, cs: &ConstraintSystem<F>) -> bool {
        &&& self.custom_gates == gates_graph(gate_polynomials(cs.gates@))
        &&& self.custom_gates.fits()
        &&& self.lookups.len() == cs.lookups@.len()
        &&& forall|n: int|
            0 <= n < cs.lookups@.len() ==> (#[trigger] self.lookups[n]) == lookup_graph(
                cs.lookups@[n].input_expressions@,
                cs.lookups@[n].table_expressions@,
            ) && self.lookups[n].fits()
    }
}

/// The values of `es` at the row `at`, in order.
pub open spec fn expression_values<F: Field>(
    es: Seq<Expression<F>>,
    inputs: Inputs,
    at: Position,
) -> Seq<int> {
    Seq::new(es.len(), |i: int| es[i].value(inputs, at))
}

/// The graph of the custom gates: the calculations of the polynomials in
/// turn, then one application of Horner's rule that starts from the previous
/// value of the row and folds the polynomials in with the factor y.
pub open spec fn gates_graph<F: Field>(polys: Seq<Expression<F>>) -> Graph {
    let (g, parts) = Graph::seed().add_expressions(polys);
    g.add_calculation(
        CalculationView::Horner(ValueSource::PreviousValue(), parts, ValueSource::Y()),
    ).0
}

/// The graph of a lookup argument: the input expressions compressed with
/// theta, the table expressions compressed with theta, gamma added to the
/// compressed table, beta added to the compressed input, and the product of
/// the two sums.
pub open spec fn lookup_graph<F: Field>(
    inputs: Seq<Expression<F>>,
    table: Seq<Expression<F>>,
) -> Graph {
    let (g1, input_parts) = Graph::seed().add_expressions(inputs);
    let (g2, input) = g1.add_calculation(
        CalculationView::Horner(ValueSource::Constant(0), input_parts, ValueSource::Theta()),
    );
    let (g3, table_parts) = g2.add_expressions(table);
    let (g4, table) = g3.add_calculation(
        CalculationView::Horner(ValueSource::Constant(0), table_parts, ValueSource::Theta()),
    );
    let (g5, right) = g4.add_calculation(CalculationView::Add(table, ValueSource::Gamma()));
    let (g6, left) = g5.add_calculation(CalculationView::Add(input, ValueSource::Beta()));
    g6.add_calculation(CalculationView::Mul(left, right)).0
}

/// Adding the expressions `a` and then the expressions `b` is adding the
/// expressions of `a + b`.
pub proof fn lemma_add_expressions_concat<F: Field>(
    g: Graph,
    a: Seq<Expression<F>>,
    b: Seq<Expression<F>>,
)
    ensures
        g.add_expressions(a + b) == ({
            let (g1, head) = g.add_expressions(a);
            let (g2, tail) = g1.add_expressions(b);
            (g2, head + tail)
        }),
    decreases b.len(),
{
    let (g1, head) = g.add_expressions(a);
    if b.len() == 0 {
        assert(a + b =~= a);
        assert(head + Seq::<ValueSource>::empty() =~= head);
    } else {
        lemma_add_expressions_concat(g, a, b.drop_last());
        assert((a + b).drop_last() =~= a + b.drop_last());
        assert((a + b).last() == b.last());
        let (g2, tail) = g1.add_expressions(b.drop_last());
        let (g3, r) = g2.add_expression(b.last());
        assert((head + tail).push(r) =~= head + tail.push(r));
    }
}

impl<F: Field> GraphEvaluator<F> {
    /// Adds the expressions in turn and returns their sources in the same
    /// order.
    pub fn add_expressions(&mut self, expressions: &Vec<Expression<F>>) -> (parts: Vec<ValueSource>)
        requires
            old(self).wf(),
            all_selector_free(expressions@),
        ensures
            final(self).wf(),
            (final(self)@, parts@) == old(self)@.add_expressions(expressions@),
            final(self)@.extends(old(self)@),
            forall|i: int| 0 <= i < parts@.len() ==> final(self)@.holds(#[trigger] parts@[i]),
    {
        let mut parts: Vec<ValueSource> = Vec::new();
        let mut j: usize = 0;
        proof {
            assert(expressions@.take(0) =~= Seq::<Expression<F>>::empty());
        }
        while j < expressions.len()
            invariant
                j <= expressions@.len(),
                self.wf(),
                all_selector_free(expressions@),
                (self@, parts@) == old(self)@.add_expressions(expressions@.take(j as int)),
                self@.extends(old(self)@),
                forall|i: int| 0 <= i < parts@.len() ==> self@.holds(#[trigger] parts@[i]),
            decreases expressions@.len() - j,
        {
            let ghost before = self@;
            let ghost held = parts@;
            let r = self.add_expression(&expressions[j]);
            parts.push(r);
            proof {
                let taken = expressions@.take(j + 1);
                assert(taken.drop_last() =~= expressions@.take(j as int));
                assert(taken.last() == expressions@[j as int]);
                assert forall|i: int| 0 <= i < parts@.len() implies self@.holds(
                    #[trigger] parts@[i],
                ) by {
                    if i < held.len() {
                        assert(before.holds(held[i]));
                    }
                }
            }
            j += 1;
        }
        proof {
            assert(expressions@.take(j as int) =~= expressions@);
        }
        parts
    }

    /// Adds Horner's rule over `parts` with the given start and factor.
    fn add_horner(&mut self, start: ValueSource, parts: Vec<ValueSource>, factor: ValueSource) -> (r:
        ValueSource)
        requires
            old(self).wf(),
            old(self)@.holds(start),
            old(self)@.holds(factor),
            forall|i: int| 0 <= i < parts@.len() ==> old(self)@.holds(#[trigger] parts@[i]),
        ensures
            final(self).wf(),
            (final(self)@, r) == old(self)@.add_calculation(
                CalculationView::Horner(start, parts@, factor),
            ),
            final(self)@.extends(old(self)@),
            final(self)@.holds(r),
    {
        let ghost g = self@;
        let c = Calculation::Horner(start, parts, factor);
        proof {
            let ops = c@.operands();
            assert forall|i: int| 0 <= i < ops.len() implies g.holds(#[trigger] ops[i]) by {
                if i >= 2 {
                    assert(ops[i] == parts@[i - 2]);
                }
            }
        }
        let ghost view = c@;
        let r = self.add_calculation(c);
        proof {
            g.lemma_add_calculation(F::modulus(), view);
        }
        r
    }

    /// Adds a sum of a source of this graph and a scalar of the session.
    fn add_shift(&mut self, a: ValueSource, scalar: ValueSource) -> (r: ValueSource)
        requires
            old(self).wf(),
            old(self)@.holds(a),
            scalar.is_scalar(),
        ensures
            final(self).wf(),
            (final(self)@, r) == old(self)@.add_calculation(CalculationView::Add(a, scalar)),
            final(self)@.extends(old(self)@),
            final(self)@.holds(r),
    {
        let ghost g = self@;
        let c = Calculation::Add(a, scalar);
        proof {
            assert(c@.operands()[0] == a && c@.operands()[1] == scalar);
        }
        let ghost view = c@;
        let r = self.add_calculation(c);
        proof {
            g.lemma_add_calculation(F::modulus(), view);
        }
        r
    }

    /// Adds the product of two sources of this graph.
    fn add_mul(&mut self, a: ValueSource, b: ValueSource) -> (r: ValueSource)
        requires
            old(self).wf(),
            old(self)@.holds(a),
            old(self)@.holds(b),
        ensures
            final(self).wf(),
            (final(self)@, r) == old(self)@.add_calculation(CalculationView::Mul(a, b)),
            final(self)@.extends(old(self)@),
            final(self)@.holds(r),
    {
        let ghost g = self@;
        let c = Calculation::Mul(a, b);
        proof {
            assert(c@.operands()[0] == a && c@.operands()[1] == b);
        }
        let ghost view = c@;
        let r = self.add_calculation(c);
        proof {
            g.lemma_add_calculation(F::modulus(), view);
        }
        r
    }
}

impl<F: Field> Default for Evaluator<F> {
    fn default() -> (r: Self)
        ensures
            r.wf(),
            r.custom_gates@ == Graph::seed(),
            r.lookups@.len() == 0,
    {
        Evaluator { custom_gates: GraphEvaluator::default(), lookups: Vec::new() }
    }
}

impl<F: Field> Evaluator<F> {
    /// Both the graph of the custom gates and the graph of each lookup
    /// argument are well formed.
    pub open spec fn wf(&self) -> bool {
        &&& self.custom_gates.wf()
        &&& forall|n: int| 0 <= n < self.lookups@.len() ==> (#[trigger] self.lookups@[n]).wf()
    }

    /// Whether every graph is well formed and reads only columns and
    /// challenges that exist among the given numbers of them.
    pub open spec fn reads_within(
        &self,
        fixed: int,
        advice: int,
        instance: int,
        challenges: int,
    ) -> bool {
        &&& self.wf()
        &&& self.custom_gates@.columns_within(fixed, advice, instance, challenges)
        &&& forall|n: int|
            0 <= n < self.lookups@.len() ==> (#[trigger] self.lookups@[n])@.columns_within(
                fixed,
                advice,
                instance,
                challenges,
            )
    }

    /// Creates a new evaluation structure
    pub fn new(cs: &ConstraintSystem<F>) -> (ev: Self)
        requires
            cs.selector_free(),
        ensures
            ev.wf(),
            ev@.compiled_from(cs),
            forall|fixed: int, advice: int, instance: int, challenges: int|
                0 <= fixed && 0 <= advice && 0 <= instance && 0 <= challenges
                    && cs.columns_within(fixed, advice, instance, challenges)
                    ==> #[trigger] ev.reads_within(fixed, advice, instance, challenges),
    {
        // Custom gates
        let mut custom_gates: GraphEvaluator<F> = GraphEvaluator::default();
        let mut parts: Vec<ValueSource> = Vec::new();
        let mut i: usize = 0;
        proof {
            assert(cs.gates@.take(0) =~= Seq::<crate::circuit::Gate<F>>::empty());
        }
        while i < cs.gates.len()
            invariant
                i <= cs.gates@.len(),
                cs.selector_free(),
                custom_gates.wf(),
                (custom_gates@, parts@) == Graph::seed().add_expressions(
                    gate_polynomials(cs.gates@.take(i as int)),
                ),
                forall|k: int| 0 <= k < parts@.len() ==> custom_gates@.holds(#[trigger] parts@[k]),
            decreases cs.gates@.len() - i,
        {
            let gate = &cs.gates[i];
            let ghost before = custom_gates@;
            let ghost held = parts@;
            let ghost done = gate_polynomials(cs.gates@.take(i as int));
            proof {
                assert forall|j: int| 0 <= j < gate.polys@.len() implies (
                #[trigger] gate.polys@[j]).selector_free() by {
                    crate::circuit::lemma_gate_polynomials_hold(cs.gates@, i as int, j);
                }
            }
            let mut more = custom_gates.add_expressions(gate.polynomials());
            proof {
                assert(cs.gates@.take(i + 1).drop_last() =~= cs.gates@.take(i as int));
                lemma_add_expressions_concat(Graph::seed(), done, gate.polys@);
                assert forall|k: int| 0 <= k < (held + more@).len() implies custom_gates@.holds(
                    #[trigger] (held + more@)[k],
                ) by {
                    if k < held.len() {
                        assert(before.holds(held[k]));
                    } else {
                        assert((held + more@)[k] == more@[k - held.len()]);
                    }
                }
            }
            parts.append(&mut more);
            i += 1;
        }
        proof {
            assert(cs.gates@.take(i as int) =~= cs.gates@);
        }
        custom_gates.add_horner(ValueSource::PreviousValue(), parts, ValueSource::Y());

        // Lookups
        let mut lookups: Vec<GraphEvaluator<F>> = Vec::new();
        let mut n: usize = 0;
        while n < cs.lookups.len()
            invariant
                n <= cs.lookups@.len(),
                cs.selector_free(),
                lookups@.len() == n,
                forall|m: int| 0 <= m < n ==> (#[trigger] lookups@[m]).wf(),
                forall|m: int|
                    0 <= m < n ==> (#[trigger] lookups@[m])@ == lookup_graph(
                        cs.lookups@[m].input_expressions@,
                        cs.lookups@[m].table_expressions@,
                    ),
            decreases cs.lookups@.len() - n,
        {
            let lookup = &cs.lookups[n];
            let mut graph: GraphEvaluator<F> = GraphEvaluator::default();

            // Input coset
            let input_parts = graph.add_expressions(&lookup.input_expressions);
            let compressed_input_coset = graph.add_horner(
                ValueSource::Constant(0),
                input_parts,
                ValueSource::Theta(),
            );
            // table coset
            let table_parts = graph.add_expressions(&lookup.table_expressions);
            let compressed_table_coset = graph.add_horner(
                ValueSource::Constant(0),
                table_parts,
                ValueSource::Theta(),
            );
            // z(\omega X) (a'(X) + \beta) (s'(X) + \gamma)
            let right_gamma = graph.add_shift(compressed_table_coset, ValueSource::Gamma());
            let lc = graph.add_shift(compressed_input_coset, ValueSource::Beta());
            graph.add_mul(lc, right_gamma);

            lookups.push(graph);
            n += 1;
        }

        let ev = Evaluator { custom_gates, lookups };
        proof {
            assert forall|n: int| 0 <= n < cs.lookups@.len() implies (#[trigger] ev@.lookups[n])
                == lookup_graph(
                cs.lookups@[n].input_expressions@,
                cs.lookups@[n].table_expressions@,
            ) && ev@.lookups[n].fits() by {
                assert(ev.lookups@[n].wf());
            }
            assert forall|fixed: int, advice: int, instance: int, challenges: int|
                0 <= fixed && 0 <= advice && 0 <= instance && 0 <= challenges
                    && cs.columns_within(
                    fixed,
                    advice,
                    instance,
                    challenges,
                ) implies #[trigger] ev.reads_within(fixed, advice, instance, challenges) by {
                lemma_compiled_reads_within(&ev, cs, fixed, advice, instance, challenges);
            }
        }
        ev
    }
}

/// Whether `inputs` hold every column and challenge that one of `es`
/// queries.
pub open spec fn all_readable<F: Field>(es: Seq<Expression<F>>, inputs: Inputs) -> bool {
    forall|i: int| 0 <= i < es.len() ==> (#[trigger] es[i]).readable(inputs)
}

/// Whether expressions can be compiled for, and evaluated on, `inputs` at
/// `at`.
pub open spec fn evaluable<F: Field>(inputs: Inputs, at: Position) -> bool {
    &&& inputs.modulus == F::modulus()
    &&& inputs.wf()
    &&& inputs.covers(at.size)
    &&& at.size > 0
}

/// The seed graph is ready for any inputs of a field.
pub proof fn lemma_seed_ready(inputs: Inputs)
    requires
        inputs.modulus > 2,
    ensures
        Graph::seed().ready(inputs),
        forall|tag: ValueSource| Graph::seed().free_of(tag),
{
    let g = Graph::seed();
    assert(g.constants[0] == 0 && g.constants[1] == 1 && g.constants[2] == 2);
}

/// Horner's rule over sources that hold the values of `es` yields Horner's
/// rule over those values.
proof fn lemma_horner_over_parts<F: Field>(
    g: Graph,
    es: Seq<Expression<F>>,
    parts: Seq<ValueSource>,
    start: ValueSource,
    factor: ValueSource,
    inputs: Inputs,
    at: Position,
)
    requires
        parts.len() == es.len(),
        forall|i: int|
            0 <= i < es.len() ==> g.source_value(#[trigger] parts[i], inputs, at) == es[i].value(
                inputs,
                at,
            ),
    ensures
        CalculationView::Horner(start, parts, factor).value(g.final_scope(inputs, at)) == horner(
            inputs.modulus,
            g.source_value(start, inputs, at),
            expression_values(es, inputs, at),
            g.source_value(factor, inputs, at),
        ),
{
    let scope = g.final_scope(inputs, at);
    assert forall|i: int| 0 <= i < es.len() implies source_values(parts, scope)[i]
        == expression_values(es, inputs, at)[i] by {
        assert(g.source_value(parts[i], inputs, at) == es[i].value(inputs, at));
    }
    assert(source_values(parts, scope) =~= expression_values(es, inputs, at));
}

/// Horner's rule over slots, with a start and a factor other than `tag`,
/// holds the graph's slots and reads neither a cell nor `tag`.
proof fn lemma_horner_operands(
    g: Graph,
    parts: Seq<ValueSource>,
    start: ValueSource,
    factor: ValueSource,
)
    requires
        g.holds(start),
        g.holds(factor),
        !start.is_cell(),
        !factor.is_cell(),
        forall|i: int| 0 <= i < parts.len() ==> g.holds(#[trigger] parts[i]) && parts[i].is_slot(),
    ensures
        ({
            let c = CalculationView::Horner(start, parts, factor);
            &&& c.operands()[0] == start
            &&& forall|i: int| 0 <= i < c.operands().len() ==> g.holds(#[trigger] c.operands()[i])
            &&& forall|i: int|
                0 <= i < c.operands().len() ==> !(#[trigger] c.operands()[i]).is_cell()
            &&& forall|tag: ValueSource|
                tag.is_scalar() && tag != start && tag != factor ==> !#[trigger] c.reads(tag)
        }),
{
    let c = CalculationView::Horner(start, parts, factor);
    let ops = c.operands();
    assert forall|i: int| 0 <= i < ops.len() implies g.holds(#[trigger] ops[i])
        && !ops[i].is_cell() && (i >= 2 ==> ops[i].is_slot()) by {
        if i >= 2 {
            assert(ops[i] == parts[i - 2]);
        }
    }
    assert forall|tag: ValueSource|
        tag.is_scalar() && tag != start && tag != factor implies !#[trigger] c.reads(tag) by {
        if c.reads(tag) {
            let i = choose|i: int| 0 <= i < ops.len() && ops[i] == tag;
            assert(i >= 2 ==> ops[i].is_slot());
        }
    }
}

/// The graph of the custom gates multiplies the previous value of the row
/// by y and adds each gate polynomial in turn, each time multiplying what
/// was accumulated by y: Horner's rule over the values that the polynomials
/// have at the row.
pub proof fn lemma_gates_graph_value<F: Field>(
    polys: Seq<Expression<F>>,
    inputs: Inputs,
    at: Position,
)
    requires
        evaluable::<F>(inputs, at),
        all_selector_free(polys),
        all_readable(polys, inputs),
        gates_graph(polys).fits(),
    ensures
        gates_graph(polys).ready(inputs),
        gates_graph(polys).value(inputs, at) == horner(
            inputs.modulus,
            inputs.previous_value,
            expression_values(polys, inputs, at),
            inputs.y,
        ),
{
    let seed = Graph::seed();
    let (g1, parts) = seed.add_expressions(polys);
    let start = ValueSource::PreviousValue();
    let factor = ValueSource::Y();
    let c = CalculationView::Horner(start, parts, factor);
    let (g2, r) = g1.add_calculation(c);
    lemma_seed_ready(inputs);
    seed.lemma_add_expressions_sound(polys, inputs, at);
    seed.lemma_add_expressions_shape(polys);
    seed.lemma_add_expressions_keeps_free(polys, start);
    lemma_horner_operands(g1, parts, start, factor);
    if g1.calculations.contains(c) {
        let i = choose|i: int| 0 <= i < g1.calculations.len() && g1.calculations[i] == c;
        assert(g1.calculations[i].reads(start));
    }
    g1.lemma_fresh_is_last(c, inputs, at);
    assert forall|i: int| 0 <= i < polys.len() implies g2.source_value(
        #[trigger] parts[i],
        inputs,
        at,
    ) == polys[i].value(inputs, at) by {
        assert(g1.operand(parts[i], inputs, at));
    }
    lemma_horner_over_parts(g2, polys, parts, start, factor, inputs, at);
}

/// The source of a compression: Horner's rule from zero with the factor
/// theta over the values of the expressions.
proof fn lemma_compression<F: Field>(
    g: Graph,
    es: Seq<Expression<F>>,
    inputs: Inputs,
    at: Position,
)
    requires
        evaluable::<F>(inputs, at),
        g.ready(inputs),
        all_selector_free(es),
        all_readable(es, inputs),
        g.free_of(ValueSource::Gamma()),
        g.free_of(ValueSource::Beta()),
        ({
            let (g1, parts) = g.add_expressions(es);
            g1.add_calculation(
                CalculationView::Horner(ValueSource::Constant(0), parts, ValueSource::Theta()),
            ).0.fits()
        }),
    ensures
        ({
            let (g1, parts) = g.add_expressions(es);
            let (g2, r) = g1.add_calculation(
                CalculationView::Horner(ValueSource::Constant(0), parts, ValueSource::Theta()),
            );
            &&& g2.ready(inputs)
            &&& g2.extends(g)
            &&& g2.holds(r)
            &&& r.is_slot()
            &&& g2.free_of(ValueSource::Gamma())
            &&& g2.free_of(ValueSource::Beta())
            &&& g2.source_value(r, inputs, at) == horner(
                inputs.modulus,
                0,
                expression_values(es, inputs, at),
                inputs.theta,
            )
        }),
{
    let (g1, parts) = g.add_expressions(es);
    let start = ValueSource::Constant(0);
    let factor = ValueSource::Theta();
    let c = CalculationView::Horner(start, parts, factor);
    let (g2, r) = g1.add_calculation(c);
    g.lemma_add_expressions_sound(es, inputs, at);
    g.lemma_add_expressions_shape(es);
    g.lemma_add_expressions_keeps_free(es, ValueSource::Gamma());
    g.lemma_add_expressions_keeps_free(es, ValueSource::Beta());
    lemma_horner_operands(g1, parts, start, factor);
    Graph::lemma_slots_read_no_columns(
        c,
        inputs.fixed.len() as int,
        inputs.advice.len() as int,
        inputs.instance.len() as int,
        inputs.challenges.len() as int,
    );
    g1.lemma_emit(c, inputs, at);
    assert(!c.reads(ValueSource::Gamma()));
    assert(!c.reads(ValueSource::Beta()));
    g1.lemma_add_calculation_keeps_free(c, ValueSource::Gamma());
    g1.lemma_add_calculation_keeps_free(c, ValueSource::Beta());
    assert forall|i: int| 0 <= i < es.len() implies g2.source_value(
        #[trigger] parts[i],
        inputs,
        at,
    ) == es[i].value(inputs, at) by {
        assert(g1.operand(parts[i], inputs, at));
    }
    lemma_horner_over_parts(g2, es, parts, start, factor, inputs, at);
    assert(g2.source_value(start, inputs, at) == g2.constants[0]);
}

/// A sum of a slot and a scalar of the session that the graph does not read
/// yet is carried out last.
proof fn lemma_shift_is_last(
    g: Graph,
    a: ValueSource,
    scalar: ValueSource,
    inputs: Inputs,
    at: Position,
)
    requires
        g.ready(inputs),
        g.holds(a),
        a.is_slot(),
        scalar.is_scalar(),
        g.free_of(scalar),
        g.add_calculation(CalculationView::Add(a, scalar)).0.fits(),
    ensures
        ({
            let (g2, r) = g.add_calculation(CalculationView::Add(a, scalar));
            &&& g2.ready(inputs)
            &&& g2.extends(g)
            &&& r == ValueSource::Intermediate(g.calculations.len() as usize)
            &&& g2.calculations == g.calculations.push(CalculationView::Add(a, scalar))
            &&& g2.source_value(r, inputs, at) == fadd(
                inputs.modulus,
                g.source_value(a, inputs, at),
                scalar.value(g.final_scope(inputs, at)),
            )
            &&& forall|v: ValueSource|
                g.holds(v) ==> #[trigger] g2.source_value(v, inputs, at) == g.source_value(
                    v,
                    inputs,
                    at,
                )
            &&& forall|tag: ValueSource|
                tag.is_scalar() && tag != scalar && g.free_of(tag) ==> #[trigger] g2.free_of(tag)
        }),
{
    let c = CalculationView::Add(a, scalar);
    let (g2, r) = g.add_calculation(c);
    assert(c.operands()[0] == a && c.operands()[1] == scalar);
    if g.calculations.contains(c) {
        let i = choose|i: int| 0 <= i < g.calculations.len() && g.calculations[i] == c;
        assert(g.calculations[i].reads(scalar));
    }
    g.lemma_fresh_is_last(c, inputs, at);
    assert(g2.source_value(a, inputs, at) == g.source_value(a, inputs, at));
    assert forall|tag: ValueSource|
        tag.is_scalar() && tag != scalar && g.free_of(tag) implies #[trigger] g2.free_of(tag) by {
        if c.reads(tag) {
            let i = choose|i: int| 0 <= i < c.operands().len() && c.operands()[i] == tag;
        }
        g.lemma_add_calculation_keeps_free(c, tag);
    }
}

/// The graph of a lookup argument multiplies the compressed input plus beta
/// with the compressed table plus gamma, where a compression is Horner's
/// rule from zero with the factor theta.
pub proof fn lemma_lookup_graph_value<F: Field>(
    input_expressions: Seq<Expression<F>>,
    table_expressions: Seq<Expression<F>>,
    inputs: Inputs,
    at: Position,
)
    requires
        evaluable::<F>(inputs, at),
        all_selector_free(input_expressions),
        all_selector_free(table_expressions),
        all_readable(input_expressions, inputs),
        all_readable(table_expressions, inputs),
        lookup_graph(input_expressions, table_expressions).fits(),
    ensures
        lookup_graph(input_expressions, table_expressions).ready(inputs),
        lookup_graph(input_expressions, table_expressions).value(inputs, at) == fmul(
            inputs.modulus,
            fadd(
                inputs.modulus,
                horner(
                    inputs.modulus,
                    0,
                    expression_values(input_expressions, inputs, at),
                    inputs.theta,
                ),
                inputs.beta,
            ),
            fadd(
                inputs.modulus,
                horner(
                    inputs.modulus,
                    0,
                    expression_values(table_expressions, inputs, at),
                    inputs.theta,
                ),
                inputs.gamma,
            ),
        ),
{
    let seed = Graph::seed();
    let theta = ValueSource::Theta();
    let zero = ValueSource::Constant(0);
    let (g1, input_parts) = seed.add_expressions(input_expressions);
    let (g2, input) = g1.add_calculation(CalculationView::Horner(zero, input_parts, theta));
    let (g3, table_parts) = g2.add_expressions(table_expressions);
    let (g4, table) = g3.add_calculation(CalculationView::Horner(zero, table_parts, theta));
    let (g5, right) = g4.add_calculation(CalculationView::Add(table, ValueSource::Gamma()));
    let (g6, left) = g5.add_calculation(CalculationView::Add(input, ValueSource::Beta()));
    let c = CalculationView::Mul(left, right);
    let (g7, r) = g6.add_calculation(c);
    // What is added never takes slots away, so every graph on the way fits.
    seed.lemma_add_expressions_shape(input_expressions);
    g2.lemma_add_expressions_shape(table_expressions);
    lemma_seed_ready(inputs);
    lemma_compression(seed, input_expressions, inputs, at);
    lemma_compression(g2, table_expressions, inputs, at);
    lemma_shift_is_last(g4, table, ValueSource::Gamma(), inputs, at);
    g4.lemma_frame(g2, inputs, at);
    assert(g4.source_value(input, inputs, at) == g2.source_value(input, inputs, at));
    assert(g5.free_of(ValueSource::Beta()));
    lemma_shift_is_last(g5, input, ValueSource::Beta(), inputs, at);
    // The product reads the intermediate that was written last, so no
    // earlier calculation can be the product.
    assert(c.operands()[0] == left && c.operands()[1] == right);
    if g6.calculations.contains(c) {
        let i = choose|i: int| 0 <= i < g6.calculations.len() && g6.calculations[i] == c;
        assert(g6.calculations[i].slots_within(
            g6.constants.len() as int,
            g6.rotations.len() as int,
            i,
        ));
        assert(g6.calculations[i].operands()[0].slots_within(
            g6.constants.len() as int,
            g6.rotations.len() as int,
            i,
        ));
    }
    g6.lemma_fresh_is_last(c, inputs, at);
    assert(g7.source_value(left, inputs, at) == g6.source_value(left, inputs, at));
    assert(g7.source_value(right, inputs, at) == g6.source_value(right, inputs, at));
    assert(g6.source_value(right, inputs, at) == g5.source_value(right, inputs, at));
}

/// Inputs with the given numbers of columns and challenges, each column one
/// row long and every residue zero.
pub open spec fn blank_inputs(
    modulus: int,
    fixed: int,
    advice: int,
    instance: int,
    challenges: int,
) -> Inputs {
    Inputs {
        modulus,
        fixed: Seq::new(fixed as nat, |c: int| seq![0int]),
        advice: Seq::new(advice as nat, |c: int| seq![0int]),
        instance: Seq::new(instance as nat, |c: int| seq![0int]),
        challenges: Seq::new(challenges as nat, |c: int| 0int),
        beta: 0,
        gamma: 0,
        theta: 0,
        y: 0,
        previous_value: 0,
    }
}

/// The graphs of a constraint system read only the columns and challenges
/// that its expressions query.
pub proof fn lemma_compiled_reads_within<F: Field>(
    ev: &Evaluator<F>,
    cs: &ConstraintSystem<F>,
    fixed: int,
    advice: int,
    instance: int,
    challenges: int,
)
    requires
        ev.wf(),
        ev@.compiled_from(cs),
        cs.selector_free(),
        cs.columns_within(fixed, advice, instance, challenges),
        0 <= fixed,
        0 <= advice,
        0 <= instance,
        0 <= challenges,
    ensures
        ev.reads_within(fixed, advice, instance, challenges),
{
    F::lemma_modulus();
    let inputs = blank_inputs(F::modulus(), fixed, advice, instance, challenges);
    let at = Position { idx: 0, rot_scale: 1, size: 1 };
    let polys = gate_polynomials(cs.gates@);
    assert forall|i: int| 0 <= i < polys.len() implies (#[trigger] polys[i]).readable(inputs) by {
        assert(polys[i].columns_within(fixed, advice, instance, challenges));
    }
    lemma_gates_graph_value(polys, inputs, at);
    assert forall|n: int| 0 <= n < ev.lookups@.len() implies (
    #[trigger] ev.lookups@[n])@.columns_within(fixed, advice, instance, challenges) by {
        let lookup = cs.lookups@[n];
        assert(ev.lookups@[n].wf());
        assert(ev@.lookups[n] == ev.lookups@[n]@);
        assert forall|i: int| 0 <= i < lookup.input_expressions@.len() implies (
        #[trigger] lookup.input_expressions@[i]).readable(inputs) by {
            assert(lookup.input_expressions@[i].columns_within(
                fixed,
                advice,
                instance,
                challenges,
            ));
        }
        assert forall|i: int| 0 <= i < lookup.table_expressions@.len() implies (
        #[trigger] lookup.table_expressions@[i]).readable(inputs) by {
            assert(lookup.table_expressions@[i].columns_within(
                fixed,
                advice,
                instance,
                challenges,
            ));
        }
        lemma_lookup_graph_value(lookup.input_expressions@, lookup.table_expressions@, inputs, at);
    }
}

} // verus!
