use crate::calculation::{source_values, Calculation, CalculationView};
use crate::field::{all_residues, field_values, Field};
use crate::polynomial::{Basis, Polynomial};
use crate::rotation::{get_rotation_idx, lemma_rot_idx_range, rot_idx, Position, Rotation};
use crate::value_source::{inputs_of, scope_of, Inputs, Scope, ValueSource};
use vstd::prelude::*;

verus! {

/// CalculationInfo
#[derive(Clone, Debug)]
pub struct CalculationInfo {
    /// Calculation
    pub calculation: Calculation,
    /// Target
    pub target: usize,
}

/// GraphEvaluator
#[derive(Clone, Debug)]
pub struct GraphEvaluator<F: Field> {
    /// Constants
    pub constants: Vec<F>,
    /// Rotations
    pub rotations: Vec<i32>,
    /// Calculations
    pub calculations: Vec<CalculationInfo>,
    /// Number of intermediates
    pub num_intermediates: usize,
}

/// EvaluationData
#[derive(Debug)]
pub struct EvaluationData<F: Field> {
    /// Intermediates
    pub intermediates: Vec<F>,
    /// Rotations
    pub rotations: Vec<usize>,
}

/// A graph as a mathematical value: the residues of its constants, its
/// rotations, and its calculations in the order they are carried out. The
/// calculation at position `i` writes intermediate `i`.
pub struct Graph {
    pub constants: Seq<int>,
    pub rotations: Seq<int>,
    pub calculations: Seq<CalculationView>,
}

/// The slot of `s` that holds `x`.
pub open spec fn slot_of<A>(s: Seq<A>, x: A) -> int {
    choose|i: int| 0 <= i < s.len() && s[i] == x
}

/// In a sequence without duplicates the slot of a value is the one place
/// where it stands.
pub proof fn lemma_slot_of<A>(s: Seq<A>, x: A, i: int)
    requires
        s.no_duplicates(),
        0 <= i < s.len(),
        s[i] == x,
    ensures
        slot_of(s, x) == i,
        s.contains(x),
{
}

impl Graph {
    /// The graph without rotations and calculations, whose constants are
    /// zero, one and two.
    pub open spec fn seed() -> Graph {
        Graph { constants: seq![0, 1, 2], rotations: seq![], calculations: seq![] }
    }

    /// Whether all slot numbers fit a machine word.
    pub open spec fn fits(self) -> bool {
        &&& self.constants.len() <= usize::MAX
        &&& self.rotations.len() <= usize::MAX
        &&& self.calculations.len() <= usize::MAX
    }

    /// The invariant of a graph over the field of order `p`: the constants
    /// start with zero, one and two; constants, rotations and calculations
    /// each occur once; and a calculation reads only slots that exist and
    /// intermediates that were written before it.
    pub open spec fn wf(self, p: int) -> bool {
        &&& p > 2
        &&& self.fits()
        &&& self.constants.len() >= 3
        &&& self.constants[0] == 0
        &&& self.constants[1] == 1
        &&& self.constants[2] == 2
        &&& all_residues(p, self.constants)
        &&& self.constants.no_duplicates()
        &&& self.rotations.no_duplicates()
        &&& self.calculations.no_duplicates()
        &&& forall|i: int|
            0 <= i < self.calculations.len() ==> (#[trigger] self.calculations[i]).slots_within(
                self.constants.len() as int,
                self.rotations.len() as int,
                i,
            )
    }

    /// Whether every column and challenge that the graph reads exists among
    /// the given numbers of them.
    pub open spec fn columns_within(
        self,
        fixed: int,
        advice: int,
        instance: int,
        challenges: int,
    ) -> bool {
        forall|i: int|
            0 <= i < self.calculations.len() ==> (#[trigger] self.calculations[i]).columns_within(
                fixed,
                advice,
                instance,
                challenges,
            )
    }

    /// Whether `inputs` hold every column and challenge that the graph reads.
    pub open spec fn readable(self, inputs: Inputs) -> bool {
        self.columns_within(
            inputs.fixed.len() as int,
            inputs.advice.len() as int,
            inputs.instance.len() as int,
            inputs.challenges.len() as int,
        )
    }

    /// Whether `self` is `base` with constants, rotations and calculations
    /// appended.
    pub open spec fn extends(self, base: Graph) -> bool {
        &&& base.constants.is_prefix_of(self.constants)
        &&& base.rotations.is_prefix_of(self.rotations)
        &&& base.calculations.is_prefix_of(self.calculations)
    }

    /// The graph with the constant `c`, and the source that addresses it: a
    /// new slot is made only if `c` has none yet.
    pub open spec fn add_constant(self, c: int) -> (Graph, ValueSource) {
        if self.constants.contains(c) {
            (self, ValueSource::Constant(slot_of(self.constants, c) as usize))
        } else {
            (
                Graph { constants: self.constants.push(c), ..self },
                ValueSource::Constant(self.constants.len() as usize),
            )
        }
    }

    /// The graph with the rotation `r`, and the slot that holds it: a new
    /// slot is made only if `r` has none yet.
    pub open spec fn add_rotation(self, r: int) -> (Graph, usize) {
        if self.rotations.contains(r) {
            (self, slot_of(self.rotations, r) as usize)
        } else {
            (Graph { rotations: self.rotations.push(r), ..self }, self.rotations.len() as usize)
        }
    }

    /// The graph with the calculation `c`, and the intermediate it writes: a
    /// calculation that the graph already carries out is not added again.
    pub open spec fn add_calculation(self, c: CalculationView) -> (Graph, ValueSource) {
        if self.calculations.contains(c) {
            (self, ValueSource::Intermediate(slot_of(self.calculations, c) as usize))
        } else {
            (
                Graph { calculations: self.calculations.push(c), ..self },
                ValueSource::Intermediate(self.calculations.len() as usize),
            )
        }
    }

    /// The row that each rotation slot resolves to at `at`.
    pub open spec fn resolved_rotations(self, at: Position) -> Seq<int> {
        Seq::new(self.rotations.len(), |j: int| at.rotated(self.rotations[j]))
    }

    /// What the graph's calculations can address at `at` once the given
    /// intermediates are written.
    pub open spec fn scope(self, inputs: Inputs, at: Position, intermediates: Seq<int>) -> Scope {
        Scope {
            inputs,
            rotations: self.resolved_rotations(at),
            constants: self.constants,
            intermediates,
        }
    }

    /// The intermediates after the first `n` calculations were carried out
    /// in order.
    pub open spec fn run(self, inputs: Inputs, at: Position, n: nat) -> Seq<int>
        decreases n,
    {
        if n == 0 {
            Seq::empty()
        } else {
            let before = self.run(inputs, at, (n - 1) as nat);
            before.push(self.calculations[n - 1].value(self.scope(inputs, at, before)))
        }
    }

    /// What the graph's calculations can address at `at` after all of them
    /// were carried out.
    pub open spec fn final_scope(self, inputs: Inputs, at: Position) -> Scope {
        self.scope(inputs, at, self.run(inputs, at, self.calculations.len()))
    }

    /// The value of the graph at `at`: what its last calculation yields, and
    /// zero for a graph without calculations.
    pub open spec fn value(self, inputs: Inputs, at: Position) -> int {
        if self.calculations.len() == 0 {
            0
        } else {
            self.run(inputs, at, self.calculations.len()).last()
        }
    }
}

/// Two scopes that agree on the inputs and on the slots that a calculation
/// may read give it the same value.
pub proof fn lemma_value_depends_on_read_slots(
    c: CalculationView,
    s1: Scope,
    s2: Scope,
    constants: int,
    rotations: int,
    intermediates: int,
)
    requires
        c.slots_within(constants, rotations, intermediates),
        s1.inputs == s2.inputs,
        forall|i: int| 0 <= i < constants ==> s1.constants[i] == s2.constants[i],
        forall|i: int| 0 <= i < rotations ==> s1.rotations[i] == s2.rotations[i],
        forall|i: int| 0 <= i < intermediates ==> s1.intermediates[i] == s2.intermediates[i],
    ensures
        c.value(s1) == c.value(s2),
{
    let ops = c.operands();
    assert forall|i: int| 0 <= i < ops.len() implies (#[trigger] ops[i]).value(s1) == ops[i].value(
        s2,
    ) by {
        assert(ops[i].slots_within(constants, rotations, intermediates));
    }
    match c {
        CalculationView::Add(a, b) => {
            assert(ops[0] == a && ops[1] == b);
        },
        CalculationView::Sub(a, b) => {
            assert(ops[0] == a && ops[1] == b);
        },
        CalculationView::Mul(a, b) => {
            assert(ops[0] == a && ops[1] == b);
        },
        CalculationView::Square(v) => {
            assert(ops[0] == v);
        },
        CalculationView::Double(v) => {
            assert(ops[0] == v);
        },
        CalculationView::Negate(v) => {
            assert(ops[0] == v);
        },
        CalculationView::Horner(start, parts, factor) => {
            assert(ops[0] == start && ops[1] == factor);
            assert forall|j: int| 0 <= j < parts.len() implies parts[j].value(s1) == parts[j].value(
                s2,
            ) by {
                assert(ops[j + 2] == parts[j]);
            }
            assert(source_values(parts, s1) =~= source_values(parts, s2));
        },
        CalculationView::Store(v) => {
            assert(ops[0] == v);
        },
    }
}

impl Graph {
    /// Carrying out more calculations leaves the intermediates that were
    /// already written as they are.
    pub proof fn lemma_run_prefix(self, inputs: Inputs, at: Position, n: nat, m: nat)
        requires
            n <= m,
        ensures
            self.run(inputs, at, n).len() == n,
            self.run(inputs, at, m).len() == m,
            self.run(inputs, at, n).is_prefix_of(self.run(inputs, at, m)),
        decreases m,
    {
        if m > 0 {
            if n < m {
                self.lemma_run_prefix(inputs, at, n, (m - 1) as nat);
            } else {
                self.lemma_run_prefix(inputs, at, (m - 1) as nat, (m - 1) as nat);
            }
        }
    }

    /// Each intermediate holds what its calculation yields in the final
    /// scope.
    pub proof fn lemma_intermediate_value(self, p: int, inputs: Inputs, at: Position, t: int)
        requires
            self.wf(p),
            0 <= t < self.calculations.len(),
        ensures
            self.run(inputs, at, self.calculations.len()).len() == self.calculations.len(),
            self.run(inputs, at, self.calculations.len())[t] == self.calculations[t].value(
                self.final_scope(inputs, at),
            ),
    {
        let n = self.calculations.len();
        self.lemma_run_prefix(inputs, at, (t + 1) as nat, n);
        self.lemma_run_prefix(inputs, at, t as nat, n);
        let before = self.run(inputs, at, t as nat);
        let all = self.run(inputs, at, n);
        let next = self.run(inputs, at, (t + 1) as nat);
        assert(next == before.push(self.calculations[t].value(self.scope(inputs, at, before))));
        assert(all[t] == next[t]);
        assert(self.calculations[t].slots_within(
            self.constants.len() as int,
            self.rotations.len() as int,
            t,
        ));
        assert forall|i: int| 0 <= i < t implies before[i] == all[i] by {}
        lemma_value_depends_on_read_slots(
            self.calculations[t],
            self.scope(inputs, at, before),
            self.final_scope(inputs, at),
            self.constants.len() as int,
            self.rotations.len() as int,
            t,
        );
    }

    /// Appending to a graph changes none of the intermediates it had.
    pub proof fn lemma_extension_keeps_run(
        self,
        base: Graph,
        p: int,
        inputs: Inputs,
        at: Position,
        n: nat,
    )
        requires
            base.wf(p),
            self.extends(base),
            n <= base.calculations.len(),
        ensures
            self.run(inputs, at, n) == base.run(inputs, at, n),
        decreases n,
    {
        if n > 0 {
            self.lemma_extension_keeps_run(base, p, inputs, at, (n - 1) as nat);
            let before = base.run(inputs, at, (n - 1) as nat);
            base.lemma_run_prefix(inputs, at, (n - 1) as nat, (n - 1) as nat);
            assert(self.calculations[n - 1] == base.calculations[n - 1]);
            lemma_value_depends_on_read_slots(
                base.calculations[n - 1],
                self.scope(inputs, at, before),
                base.scope(inputs, at, before),
                base.constants.len() as int,
                base.rotations.len() as int,
                n - 1,
            );
        }
    }

    /// Appending to a graph changes the value of no source that the graph
    /// could address.
    pub proof fn lemma_extension_keeps_values(
        self,
        base: Graph,
        p: int,
        inputs: Inputs,
        at: Position,
        v: ValueSource,
    )
        requires
            base.wf(p),
            self.extends(base),
            v.slots_within(
                base.constants.len() as int,
                base.rotations.len() as int,
                base.calculations.len() as int,
            ),
        ensures
            v.value(self.final_scope(inputs, at)) == v.value(base.final_scope(inputs, at)),
    {
        let n = base.calculations.len();
        self.lemma_extension_keeps_run(base, p, inputs, at, n);
        self.lemma_run_prefix(inputs, at, n, self.calculations.len());
        base.lemma_run_prefix(inputs, at, n, n);
    }
}

impl<F: Field> View for GraphEvaluator<F> {
    type V = Graph;

    open spec fn view(&self) -> Graph {
        Graph {
            constants: field_values(self.constants@),
            rotations: Seq::new(self.rotations@.len(), |j: int| self.rotations@[j] as int),
            calculations: Seq::new(
                self.calculations@.len(),
                |j: int| self.calculations@[j].calculation@,
            ),
        }
    }
}

impl<F: Field> Default for GraphEvaluator<F> {
    /// The graph without rotations and calculations, whose constants are
    /// zero, one and two.
    fn default() -> (r: Self)
        ensures
            r.wf(),
            r@ == Graph::seed(),
    {
        let mut constants: Vec<F> = Vec::new();
        // Fixed positions to allow easy access
        constants.push(F::zero());
        constants.push(F::one());
        constants.push(F::from_u64(2));
        let r = GraphEvaluator {
            constants,
            rotations: Vec::new(),
            calculations: Vec::new(),
            num_intermediates: 0,
        };
        proof {
            F::lemma_modulus();
            vstd::arithmetic::div_mod::lemma_small_mod(2, F::modulus() as nat);
            assert(r@.constants =~= seq![0, 1, 2]);
            assert(r@.rotations =~= seq![]);
            assert(r@.calculations =~= seq![]);
        }
        r
    }
}

impl<F: Field> Default for EvaluationData<F> {
    fn default() -> (r: Self)
        ensures
            r.intermediates@.len() == 0,
            r.rotations@.len() == 0,
    {
        EvaluationData { intermediates: Vec::new(), rotations: Vec::new() }
    }
}

impl<F: Field> GraphEvaluator<F> {
    /// The invariant of the graph: intermediate `i` is written by the
    /// calculation at position `i`, and the graph is well formed over the
    /// field.
    pub open spec fn wf(&self) -> bool {
        &&& self.num_intermediates == self.calculations@.len()
        &&& forall|i: int|
            0 <= i < self.calculations@.len() ==> (#[trigger] self.calculations@[i]).target == i
        &&& self@.wf(F::modulus())
    }

    /// Adds a rotation
    pub fn add_rotation(&mut self, rotation: &Rotation) -> (r: usize)
        requires
            old(self).wf(),
        ensures
            final(self).wf(),
            (final(self)@, r) == old(self)@.add_rotation(rotation.0 as int),
    {
        let mut i: usize = 0;
        while i < self.rotations.len()
            invariant
                *self == *old(self),
                self.wf(),
                i <= self.rotations@.len(),
                forall|j: int| 0 <= j < i ==> self.rotations@[j] != rotation.0,
            decreases self.rotations@.len() - i,
        {
            if self.rotations[i] == rotation.0 {
                proof {
                    lemma_slot_of(self@.rotations, rotation.0 as int, i as int);
                }
                return i;
            }
            i += 1;
        }
        self.rotations.push(rotation.0);
        proof {
            let before = old(self)@;
            assert(!before.rotations.contains(rotation.0 as int));
            assert(self@.rotations =~= before.rotations.push(rotation.0 as int));
            assert(self@.calculations =~= before.calculations);
            assert forall|k: int| 0 <= k < self@.calculations.len() implies (
            #[trigger] self@.calculations[k]).slots_within(
                self@.constants.len() as int,
                self@.rotations.len() as int,
                k,
            ) by {
                lemma_slots_within_more(
                    before.calculations[k],
                    before.constants.len() as int,
                    before.rotations.len() as int,
                    k,
                    self@.constants.len() as int,
                    self@.rotations.len() as int,
                    k,
                );
            }
        }
        self.rotations.len() - 1
    }

    /// Adds a constant
    pub fn add_constant(&mut self, constant: &F) -> (r: ValueSource)
        requires
            old(self).wf(),
        ensures
            final(self).wf(),
            (final(self)@, r) == old(self)@.add_constant(constant.value()),
    {
        let mut i: usize = 0;
        while i < self.constants.len()
            invariant
                *self == *old(self),
                self.wf(),
                i <= self.constants@.len(),
                forall|j: int| 0 <= j < i ==> self.constants@[j].value() != constant.value(),
            decreases self.constants@.len() - i,
        {
            if self.constants[i].is_equal(constant) {
                proof {
                    lemma_slot_of(self@.constants, constant.value(), i as int);
                }
                return ValueSource::Constant(i);
            }
            i += 1;
        }
        self.constants.push(*constant);
        proof {
            let before = old(self)@;
            constant.lemma_value();
            assert(!before.constants.contains(constant.value()));
            assert(self@.constants =~= before.constants.push(constant.value()));
            assert(self@.rotations =~= before.rotations);
            assert(self@.calculations =~= before.calculations);
            assert forall|k: int| 0 <= k < self@.calculations.len() implies (
            #[trigger] self@.calculations[k]).slots_within(
                self@.constants.len() as int,
                self@.rotations.len() as int,
                k,
            ) by {
                lemma_slots_within_more(
                    before.calculations[k],
                    before.constants.len() as int,
                    before.rotations.len() as int,
                    k,
                    self@.constants.len() as int,
                    self@.rotations.len() as int,
                    k,
                );
            }
        }
        ValueSource::Constant(self.constants.len() - 1)
    }

    /// Adds a calculation.
    /// Currently does the simplest thing possible: just stores the
    /// resulting value so the result can be reused  when that calculation
    /// is done multiple times.
    pub fn add_calculation(&mut self, calculation: Calculation) -> (r: ValueSource)
        requires
            old(self).wf(),
            calculation@.slots_within(
                old(self).constants@.len() as int,
                old(self).rotations@.len() as int,
                old(self).calculations@.len() as int,
            ),
        ensures
            final(self).wf(),
            (final(self)@, r) == old(self)@.add_calculation(calculation@),
    {
        let mut i: usize = 0;
        while i < self.calculations.len()
            invariant
                *self == *old(self),
                self.wf(),
                i <= self.calculations@.len(),
                forall|j: int| 0 <= j < i ==> self.calculations@[j].calculation@ != calculation@,
            decreases self.calculations@.len() - i,
        {
            if self.calculations[i].calculation == calculation {
                proof {
                    lemma_slot_of(self@.calculations, calculation@, i as int);
                }
                return ValueSource::Intermediate(self.calculations[i].target);
            }
            i += 1;
        }
        let target = self.num_intermediates;
        let ghost added = calculation@;
        self.calculations.push(CalculationInfo { calculation, target });
        self.num_intermediates = self.calculations.len();
        proof {
            let before = old(self)@;
            assert(!before.calculations.contains(added));
            assert(self@.constants =~= before.constants);
            assert(self@.rotations =~= before.rotations);
            assert(self@.calculations =~= before.calculations.push(added));
            assert forall|k: int| 0 <= k < self@.calculations.len() implies (
            #[trigger] self@.calculations[k]).slots_within(
                self@.constants.len() as int,
                self@.rotations.len() as int,
                k,
            ) by {
                if k < before.calculations.len() {
                    assert(self@.calculations[k] == before.calculations[k]);
                }
            }
        }
        ValueSource::Intermediate(target)
    }

    /// Creates a new evaluation structure
    pub fn instance(&self) -> (r: EvaluationData<F>)
        ensures
            r.intermediates@.len() == self.num_intermediates,
            r.rotations@.len() == self.rotations@.len(),
            forall|i: int| 0 <= i < r.intermediates@.len() ==> (#[trigger] r.intermediates@[i]).value() == 0,
            forall|i: int| 0 <= i < r.rotations@.len() ==> r.rotations@[i] == 0,
    {
        let mut intermediates: Vec<F> = Vec::new();
        let mut i: usize = 0;
        while i < self.num_intermediates
            invariant
                i <= self.num_intermediates,
                intermediates@.len() == i,
                forall|k: int| 0 <= k < i ==> (#[trigger] intermediates@[k]).value() == 0,
            decreases self.num_intermediates - i,
        {
            intermediates.push(F::zero());
            i += 1;
        }
        let mut rotations: Vec<usize> = Vec::new();
        let mut j: usize = 0;
        while j < self.rotations.len()
            invariant
                j <= self.rotations@.len(),
                rotations@.len() == j,
                forall|k: int| 0 <= k < j ==> rotations@[k] == 0,
            decreases self.rotations@.len() - j,
        {
            rotations.push(0usize);
            j += 1;
        }
        EvaluationData { intermediates, rotations }
    }

    /// Evaluates the graph at row `idx` of a domain of `isize` rows, in
    /// which one step of the evaluation subgroup is `rot_scale` rows long.
    pub fn evaluate<B: Basis>(
        &self,
        data: &mut EvaluationData<F>,
        fixed: &[Polynomial<F, B>],
        advice: &[Polynomial<F, B>],
        instance: &[Polynomial<F, B>],
        challenges: &[F],
        beta: &F,
        gamma: &F,
        theta: &F,
        y: &F,
        previous_value: &F,
        idx: usize,
        rot_scale: i32,
        isize: i32,
    ) -> (r: F)
        requires
            self.wf(),
            old(data).intermediates@.len() == self.num_intermediates,
            old(data).rotations@.len() == self.rotations@.len(),
            isize > 0,
            self@.readable(
                inputs_of(
                    fixed@,
                    advice@,
                    instance@,
                    challenges@,
                    *beta,
                    *gamma,
                    *theta,
                    *y,
                    *previous_value,
                ),
            ),
            inputs_of(
                fixed@,
                advice@,
                instance@,
                challenges@,
                *beta,
                *gamma,
                *theta,
                *y,
                *previous_value,
            ).covers(isize as int),
        ensures
            r.value() == self@.value(
                inputs_of(
                    fixed@,
                    advice@,
                    instance@,
                    challenges@,
                    *beta,
                    *gamma,
                    *theta,
                    *y,
                    *previous_value,
                ),
                Position { idx: idx as int, rot_scale: rot_scale as int, size: isize as int },
            ),
            final(data).rotations@.len() == self.rotations@.len(),
            final(data).intermediates@.len() == self.num_intermediates,
            forall|j: int|
                0 <= j < self.rotations@.len() ==> (#[trigger] final(data).rotations@[j]) == rot_idx(
                    idx as int,
                    self.rotations@[j] as int,
                    rot_scale as int,
                    isize as int,
                ),
            field_values(final(data).intermediates@) == self@.run(
                inputs_of(
                    fixed@,
                    advice@,
                    instance@,
                    challenges@,
                    *beta,
                    *gamma,
                    *theta,
                    *y,
                    *previous_value,
                ),
                Position { idx: idx as int, rot_scale: rot_scale as int, size: isize as int },
                self.calculations@.len(),
            ),
    {
        let ghost inputs = inputs_of(
            fixed@,
            advice@,
            instance@,
            challenges@,
            *beta,
            *gamma,
            *theta,
            *y,
            *previous_value,
        );
        let ghost at = Position { idx: idx as int, rot_scale: rot_scale as int, size: isize as int };
        let ghost graph = self@;

        // All rotation index values
        let mut j: usize = 0;
        while j < self.rotations.len()
            invariant
                isize > 0,
                j <= self.rotations@.len(),
                data.rotations@.len() == self.rotations@.len(),
                data.intermediates@.len() == self.num_intermediates,
                forall|k: int|
                    0 <= k < j ==> (#[trigger] data.rotations@[k]) == rot_idx(
                        idx as int,
                        self.rotations@[k] as int,
                        rot_scale as int,
                        isize as int,
                    ),
            decreases self.rotations@.len() - j,
        {
            let row = get_rotation_idx(idx, self.rotations[j], rot_scale, isize);
            data.rotations.set(j, row);
            j += 1;
        }

        // All calculations, with cached intermediate results
        let mut n: usize = 0;
        while n < self.calculations.len()
            invariant
                self.wf(),
                graph == self@,
                isize > 0,
                at == (Position { idx: idx as int, rot_scale: rot_scale as int, size: isize as int }),
                inputs == inputs_of(
                    fixed@,
                    advice@,
                    instance@,
                    challenges@,
                    *beta,
                    *gamma,
                    *theta,
                    *y,
                    *previous_value,
                ),
                graph.readable(inputs),
                inputs.covers(isize as int),
                n <= self.calculations@.len(),
                data.rotations@.len() == self.rotations@.len(),
                data.intermediates@.len() == self.num_intermediates,
                forall|k: int|
                    0 <= k < self.rotations@.len() ==> (#[trigger] data.rotations@[k]) == rot_idx(
                        idx as int,
                        self.rotations@[k] as int,
                        rot_scale as int,
                        isize as int,
                    ),
                field_values(data.intermediates@).take(n as int) == graph.run(inputs, at, n as nat),
            decreases self.calculations@.len() - n,
        {
            let calc = &self.calculations[n];
            let ghost c = calc.calculation@;
            let ghost before = graph.run(inputs, at, n as nat);
            let ghost mine = scope_of(
                data.rotations@,
                self.constants@,
                data.intermediates@,
                fixed@,
                advice@,
                instance@,
                challenges@,
                *beta,
                *gamma,
                *theta,
                *y,
                *previous_value,
            );
            proof {
                assert(c == graph.calculations[n as int]);
                assert(c.slots_within(
                    graph.constants.len() as int,
                    graph.rotations.len() as int,
                    n as int,
                ));
                assert(c.columns_within(
                    inputs.fixed.len() as int,
                    inputs.advice.len() as int,
                    inputs.instance.len() as int,
                    inputs.challenges.len() as int,
                ));
                assert(mine.rotations =~= graph.resolved_rotations(at));
                assert forall|i: int| 0 <= i < c.operands().len() implies (
                #[trigger] c.operands()[i]).in_scope(mine) by {
                    let v = c.operands()[i];
                    assert(v.slots_within(
                        graph.constants.len() as int,
                        graph.rotations.len() as int,
                        n as int,
                    ));
                    assert(v.columns_within(
                        inputs.fixed.len() as int,
                        inputs.advice.len() as int,
                        inputs.instance.len() as int,
                        inputs.challenges.len() as int,
                    ));
                    match v {
                        ValueSource::Fixed(col, r) => {
                            lemma_rot_idx_range(
                                idx as int,
                                self.rotations@[r as int] as int,
                                rot_scale as int,
                                isize as int,
                            );
                            assert(inputs.fixed[col as int].len() >= isize);
                        },
                        ValueSource::Advice(col, r) => {
                            lemma_rot_idx_range(
                                idx as int,
                                self.rotations@[r as int] as int,
                                rot_scale as int,
                                isize as int,
                            );
                            assert(inputs.advice[col as int].len() >= isize);
                        },
                        ValueSource::Instance(col, r) => {
                            lemma_rot_idx_range(
                                idx as int,
                                self.rotations@[r as int] as int,
                                rot_scale as int,
                                isize as int,
                            );
                            assert(inputs.instance[col as int].len() >= isize);
                        },
                        _ => {},
                    }
                }
            }
            let value = calc.calculation.evaluate(
                data.rotations.as_slice(),
                self.constants.as_slice(),
                data.intermediates.as_slice(),
                fixed,
                advice,
                instance,
                challenges,
                beta,
                gamma,
                theta,
                y,
                previous_value,
            );
            proof {
                graph.lemma_run_prefix(inputs, at, n as nat, n as nat);
                assert forall|i: int| 0 <= i < n implies mine.intermediates[i] == before[i] by {
                    assert(field_values(data.intermediates@).take(n as int)[i] == before[i]);
                }
                lemma_value_depends_on_read_slots(
                    c,
                    mine,
                    graph.scope(inputs, at, before),
                    graph.constants.len() as int,
                    graph.rotations.len() as int,
                    n as int,
                );
            }
            let ghost old_values = field_values(data.intermediates@);
            data.intermediates.set(calc.target, value);
            proof {
                let new_values = field_values(data.intermediates@);
                assert(new_values.take(n + 1) =~= old_values.take(n as int).push(value.value()));
            }
            n += 1;
        }
        proof {
            assert(field_values(data.intermediates@).take(n as int) =~= field_values(
                data.intermediates@,
            ));
        }

        // Return the result of the last calculation (if any)
        if self.calculations.len() > 0 {
            let calc = &self.calculations[self.calculations.len() - 1];
            data.intermediates[calc.target]
        } else {
            F::zero()
        }
    }
}

/// A calculation that reads only slots below some bounds reads only slots
/// below larger ones.
pub proof fn lemma_slots_within_more(
    c: CalculationView,
    c1: int,
    r1: int,
    i1: int,
    c2: int,
    r2: int,
    i2: int,
)
    requires
        c.slots_within(c1, r1, i1),
        c1 <= c2,
        r1 <= r2,
        i1 <= i2,
    ensures
        c.slots_within(c2, r2, i2),
{
    assert forall|i: int| 0 <= i < c.operands().len() implies (#[trigger] c.operands()[i]).slots_within(
        c2,
        r2,
        i2,
    ) by {
        assert(c.operands()[i].slots_within(c1, r1, i1));
    }
}

} // verus!
