use crate::field::{all_residues, is_residue, Field};
use crate::polynomial::{table_values, Basis, Polynomial};
use vstd::prelude::*;

verus! {

/// Value used in a calculation
#[derive(Clone, Copy, Debug, PartialEq, Eq, Structural, PartialOrd)]
pub enum ValueSource {
    /// This is a constant value
    Constant(usize),
    /// This is an intermediate value
    Intermediate(usize),
    /// This is a fixed column
    Fixed(usize, usize),
    /// This is an advice (witness) column
    Advice(usize, usize),
    /// This is an instance (external) column
    Instance(usize, usize),
    /// This is a challenge
    Challenge(usize),
    /// beta
    Beta(),
    /// gamma
    Gamma(),
    /// theta
    Theta(),
    /// y
    Y(),
    /// Previous value
    PreviousValue(),
}

impl Default for ValueSource {
    fn default() -> (r: Self)
        ensures
            r == ValueSource::Constant(0),
    {
        ValueSource::Constant(0)
    }
}

/// The residues that the evaluation of one row reads, apart from the graph's
/// own constants and intermediates.
pub struct Inputs {
    /// The order of the field.
    pub modulus: int,
    /// The fixed columns, each a sequence of rows.
    pub fixed: Seq<Seq<int>>,
    /// The advice columns.
    pub advice: Seq<Seq<int>>,
    /// The instance columns.
    pub instance: Seq<Seq<int>>,
    /// The verifier's challenges.
    pub challenges: Seq<int>,
    pub beta: int,
    pub gamma: int,
    pub theta: int,
    pub y: int,
    /// The value the row's accumulator had before this evaluation.
    pub previous_value: int,
}

impl Inputs {
    /// Every residue is canonical and the modulus that of a field with more
    /// than two elements.
    pub open spec fn wf(self) -> bool {
        &&& self.modulus > 2
        &&& forall|c: int|
            0 <= c < self.fixed.len() ==> all_residues(self.modulus, #[trigger] self.fixed[c])
        &&& forall|c: int|
            0 <= c < self.advice.len() ==> all_residues(self.modulus, #[trigger] self.advice[c])
        &&& forall|c: int|
            0 <= c < self.instance.len() ==> all_residues(
                self.modulus,
                #[trigger] self.instance[c],
            )
        &&& all_residues(self.modulus, self.challenges)
        &&& is_residue(self.modulus, self.beta)
        &&& is_residue(self.modulus, self.gamma)
        &&& is_residue(self.modulus, self.theta)
        &&& is_residue(self.modulus, self.y)
        &&& is_residue(self.modulus, self.previous_value)
    }

    /// Every column has at least `size` rows.
    pub open spec fn covers(self, size: int) -> bool {
        &&& forall|c: int| 0 <= c < self.fixed.len() ==> size <= (#[trigger] self.fixed[c]).len()
        &&& forall|c: int| 0 <= c < self.advice.len() ==> size <= (#[trigger] self.advice[c]).len()
        &&& forall|c: int| 0 <= c < self.instance.len() ==> size <= (#[trigger] self.instance[c]).len()
    }

    /// The same inputs with another accumulator value.
    pub open spec fn with_previous(self, previous_value: int) -> Inputs {
        Inputs { previous_value, ..self }
    }
}

/// Everything a value source can address: the inputs of the row, the row
/// that each rotation slot resolves to, and the graph's constants and
/// intermediates.
pub struct Scope {
    pub inputs: Inputs,
    pub rotations: Seq<int>,
    pub constants: Seq<int>,
    pub intermediates: Seq<int>,
}

impl ValueSource {
    /// Whether the slots this source names exist among `constants` constants,
    /// `rotations` rotation slots and `intermediates` intermediates.
    pub open spec fn slots_within(self, constants: int, rotations: int, intermediates: int) -> bool {
        match self {
            ValueSource::Constant(i) => i < constants,
            ValueSource::Intermediate(i) => i < intermediates,
            ValueSource::Fixed(_, r) => r < rotations,
            ValueSource::Advice(_, r) => r < rotations,
            ValueSource::Instance(_, r) => r < rotations,
            _ => true,
        }
    }

    /// Whether the column or challenge this source names exists.
    pub open spec fn columns_within(
        self,
        fixed: int,
        advice: int,
        instance: int,
        challenges: int,
    ) -> bool {
        match self {
            ValueSource::Fixed(c, _) => c < fixed,
            ValueSource::Advice(c, _) => c < advice,
            ValueSource::Instance(c, _) => c < instance,
            ValueSource::Challenge(i) => i < challenges,
            _ => true,
        }
    }

    /// Whether `scope` holds a value for this source.
    pub open spec fn in_scope(self, scope: Scope) -> bool {
        &&& self.slots_within(
            scope.constants.len() as int,
            scope.rotations.len() as int,
            scope.intermediates.len() as int,
        )
        &&& self.columns_within(
            scope.inputs.fixed.len() as int,
            scope.inputs.advice.len() as int,
            scope.inputs.instance.len() as int,
            scope.inputs.challenges.len() as int,
        )
        &&& match self {
            ValueSource::Fixed(c, r) => 0 <= scope.rotations[r as int]
                < scope.inputs.fixed[c as int].len(),
            ValueSource::Advice(c, r) => 0 <= scope.rotations[r as int]
                < scope.inputs.advice[c as int].len(),
            ValueSource::Instance(c, r) => 0 <= scope.rotations[r as int]
                < scope.inputs.instance[c as int].len(),
            _ => true,
        }
    }

    /// The residue this source addresses in `scope`.
    pub open spec fn value(self, scope: Scope) -> int {
        match self {
            ValueSource::Constant(i) => scope.constants[i as int],
            ValueSource::Intermediate(i) => scope.intermediates[i as int],
            ValueSource::Fixed(c, r) => scope.inputs.fixed[c as int][scope.rotations[r as int]],
            ValueSource::Advice(c, r) => scope.inputs.advice[c as int][scope.rotations[r as int]],
            ValueSource::Instance(c, r) => scope.inputs.instance[c as int][scope.rotations[r as int]],
            ValueSource::Challenge(i) => scope.inputs.challenges[i as int],
            ValueSource::Beta() => scope.inputs.beta,
            ValueSource::Gamma() => scope.inputs.gamma,
            ValueSource::Theta() => scope.inputs.theta,
            ValueSource::Y() => scope.inputs.y,
            ValueSource::PreviousValue() => scope.inputs.previous_value,
        }
    }

    /// Whether this source is a slot of the graph itself: a constant or an
    /// intermediate.
    pub open spec fn is_slot(self) -> bool {
        self is Constant || self is Intermediate
    }

    /// Whether this source is a cell of a column, or a challenge.
    pub open spec fn is_cell(self) -> bool {
        self is Fixed || self is Advice || self is Instance || self is Challenge
    }

    /// Whether this source is one of the scalars of the session: beta,
    /// gamma, theta, y or the previous value.
    pub open spec fn is_scalar(self) -> bool {
        self is Beta || self is Gamma || self is Theta || self is Y || self is PreviousValue
    }

    /// The position of the variant in the declaration, then the fields: the
    /// key by which sources are ordered.
    pub open spec fn order_key(self) -> (int, int, int) {
        match self {
            ValueSource::Constant(i) => (0, i as int, 0),
            ValueSource::Intermediate(i) => (1, i as int, 0),
            ValueSource::Fixed(c, r) => (2, c as int, r as int),
            ValueSource::Advice(c, r) => (3, c as int, r as int),
            ValueSource::Instance(c, r) => (4, c as int, r as int),
            ValueSource::Challenge(i) => (5, i as int, 0),
            ValueSource::Beta() => (6, 0, 0),
            ValueSource::Gamma() => (7, 0, 0),
            ValueSource::Theta() => (8, 0, 0),
            ValueSource::Y() => (9, 0, 0),
            ValueSource::PreviousValue() => (10, 0, 0),
        }
    }

    /// The order in which operands of a commutative calculation are written:
    /// sources compare by variant in declaration order, then by their fields
    /// from left to right.
    pub open spec fn precedes_spec(self, other: ValueSource) -> bool {
        let a = self.order_key();
        let b = other.order_key();
        a.0 < b.0 || (a.0 == b.0 && (a.1 < b.1 || (a.1 == b.1 && a.2 <= b.2)))
    }

    fn key(&self) -> (r: (u8, usize, usize))
        ensures
            (r.0 as int, r.1 as int, r.2 as int) == self.order_key(),
    {
        match self {
            ValueSource::Constant(i) => (0, *i, 0),
            ValueSource::Intermediate(i) => (1, *i, 0),
            ValueSource::Fixed(c, r) => (2, *c, *r),
            ValueSource::Advice(c, r) => (3, *c, *r),
            ValueSource::Instance(c, r) => (4, *c, *r),
            ValueSource::Challenge(i) => (5, *i, 0),
            ValueSource::Beta() => (6, 0, 0),
            ValueSource::Gamma() => (7, 0, 0),
            ValueSource::Theta() => (8, 0, 0),
            ValueSource::Y() => (9, 0, 0),
            ValueSource::PreviousValue() => (10, 0, 0),
        }
    }

    /// Whether this source is written to the left of `other`, or is `other`.
    pub fn precedes(&self, other: &ValueSource) -> (r: bool)
        ensures
            r == self.precedes_spec(*other),
    {
        let a = self.key();
        let b = other.key();
        a.0 < b.0 || (a.0 == b.0 && (a.1 < b.1 || (a.1 == b.1 && a.2 <= b.2)))
    }

    /// Get the value for this source
    pub fn get<F: Field, B: Basis>(
        &self,
        rotations: &[usize],
        constants: &[F],
        intermediates: &[F],
        fixed_values: &[Polynomial<F, B>],
        advice_values: &[Polynomial<F, B>],
        instance_values: &[Polynomial<F, B>],
        challenges: &[F],
        beta: &F,
        gamma: &F,
        theta: &F,
        y: &F,
        previous_value: &F,
    ) -> (r: F)
        requires
            self.in_scope(
                scope_of(
                    rotations@,
                    constants@,
                    intermediates@,
                    fixed_values@,
                    advice_values@,
                    instance_values@,
                    challenges@,
                    *beta,
                    *gamma,
                    *theta,
                    *y,
                    *previous_value,
                ),
            ),
        ensures
            r.value() == self.value(
                scope_of(
                    rotations@,
                    constants@,
                    intermediates@,
                    fixed_values@,
                    advice_values@,
                    instance_values@,
                    challenges@,
                    *beta,
                    *gamma,
                    *theta,
                    *y,
                    *previous_value,
                ),
            ),
            match *self {
                ValueSource::Constant(i) => r == constants@[i as int],
                ValueSource::Intermediate(i) => r == intermediates@[i as int],
                ValueSource::Fixed(c, s) => r == fixed_values@[c as int].values@[rotations@[s as int]
                    as int],
                ValueSource::Advice(c, s) => r == advice_values@[c as int].values@[rotations@[s as int]
                    as int],
                ValueSource::Instance(c, s) => r == instance_values@[c as int].values@[rotations@[s
                    as int] as int],
                ValueSource::Challenge(i) => r == challenges@[i as int],
                ValueSource::Beta() => r == *beta,
                ValueSource::Gamma() => r == *gamma,
                ValueSource::Theta() => r == *theta,
                ValueSource::Y() => r == *y,
                ValueSource::PreviousValue() => r == *previous_value,
            },
    {
        match self {
            ValueSource::Constant(idx) => constants[*idx],
            ValueSource::Intermediate(idx) => intermediates[*idx],
            ValueSource::Fixed(column_index, rotation) => {
                fixed_values[*column_index].get(rotations[*rotation])
            },
            ValueSource::Advice(column_index, rotation) => {
                advice_values[*column_index].get(rotations[*rotation])
            },
            ValueSource::Instance(column_index, rotation) => {
                instance_values[*column_index].get(rotations[*rotation])
            },
            ValueSource::Challenge(index) => challenges[*index],
            ValueSource::Beta() => *beta,
            ValueSource::Gamma() => *gamma,
            ValueSource::Theta() => *theta,
            ValueSource::Y() => *y,
            ValueSource::PreviousValue() => *previous_value,
        }
    }
}

/// The order of sources is total: of two sources one precedes the other, and
/// two sources that precede each other are the same source.
pub proof fn lemma_source_order_total(a: ValueSource, b: ValueSource)
    ensures
        a.precedes_spec(b) || b.precedes_spec(a),
        a.precedes_spec(b) && b.precedes_spec(a) ==> a == b,
{
}

/// The order of sources is transitive.
pub proof fn lemma_source_order_transitive(a: ValueSource, b: ValueSource, c: ValueSource)
    requires
        a.precedes_spec(b),
        b.precedes_spec(c),
    ensures
        a.precedes_spec(c),
{
}

/// The residues that the given columns, challenges and scalars stand for.
pub open spec fn inputs_of<F: Field, B: Basis>(
    fixed: Seq<Polynomial<F, B>>,
    advice: Seq<Polynomial<F, B>>,
    instance: Seq<Polynomial<F, B>>,
    challenges: Seq<F>,
    beta: F,
    gamma: F,
    theta: F,
    y: F,
    previous_value: F,
) -> Inputs {
    Inputs {
        modulus: F::modulus(),
        fixed: table_values(fixed),
        advice: table_values(advice),
        instance: table_values(instance),
        challenges: crate::field::field_values(challenges),
        beta: beta.value(),
        gamma: gamma.value(),
        theta: theta.value(),
        y: y.value(),
        previous_value: previous_value.value(),
    }
}

/// The scope that the arguments of `ValueSource::get` stand for.
pub open spec fn scope_of<F: Field, B: Basis>(
    rotations: Seq<usize>,
    constants: Seq<F>,
    intermediates: Seq<F>,
    fixed: Seq<Polynomial<F, B>>,
    advice: Seq<Polynomial<F, B>>,
    instance: Seq<Polynomial<F, B>>,
    challenges: Seq<F>,
    beta: F,
    gamma: F,
    theta: F,
    y: F,
    previous_value: F,
) -> Scope {
    Scope {
        inputs: inputs_of(fixed, advice, instance, challenges, beta, gamma, theta, y, previous_value),
        rotations: Seq::new(rotations.len(), |j: int| rotations[j] as int),
        constants: crate::field::field_values(constants),
        intermediates: crate::field::field_values(intermediates),
    }
}

} // verus!
