use crate::field::{fadd, field_values, fmul, fneg, Field};
use crate::polynomial::{table_values, Basis, Polynomial};
use crate::rotation::{get_rotation_idx, Position, Rotation};
use crate::value_source::Inputs;
use vstd::prelude::*;

verus! {

/// A switch of the constraint system that the layouter turns on in some rows.
#[derive(Clone, Copy, Debug)]
pub struct Selector(pub usize, pub bool);

/// Query of a fixed column at a certain relative location
#[derive(Clone, Copy, Debug)]
pub struct FixedQuery {
    /// Column index
    pub column_index: usize,
    /// Rotation of this query
    pub rotation: Rotation,
}

/// Query of an advice column at a certain relative location
#[derive(Clone, Copy, Debug)]
pub struct AdviceQuery {
    /// Column index
    pub column_index: usize,
    /// Rotation of this query
    pub rotation: Rotation,
}

/// Query of an instance column at a certain relative location
#[derive(Clone, Copy, Debug)]
pub struct InstanceQuery {
    /// Column index
    pub column_index: usize,
    /// Rotation of this query
    pub rotation: Rotation,
}

/// A challenge squeezed from the transcript.
#[derive(Clone, Copy, Debug)]
pub struct Challenge {
    pub index: usize,
}

impl Challenge {
    /// Index of this challenge.
    pub fn index(&self) -> (r: usize)
        ensures
            r == self.index,
    {
        self.index
    }
}

/// Low-degree expression representing an identity that must hold over the
/// committed columns.
#[derive(Debug)]
pub enum Expression<F> {
    /// This is a constant polynomial
    Constant(F),
    /// This is a virtual selector
    Selector(Selector),
    /// This is a fixed column queried at a certain relative location
    Fixed(FixedQuery),
    /// This is an advice (witness) column queried at a certain relative location
    Advice(AdviceQuery),
    /// This is an instance (external) column queried at a certain relative location
    Instance(InstanceQuery),
    /// This is a challenge
    Challenge(Challenge),
    /// This is a negated polynomial
    Negated(Box<Expression<F>>),
    /// This is the sum of two polynomials
    Sum(Box<Expression<F>>, Box<Expression<F>>),
    /// This is the product of two polynomials
    Product(Box<Expression<F>>, Box<Expression<F>>),
    /// This is a scaled polynomial
    Scaled(Box<Expression<F>>, F),
}

/// The inputs of a row that holds columns and challenges only.
pub open spec fn column_inputs<F: Field, B: Basis>(
    fixed: Seq<Polynomial<F, B>>,
    advice: Seq<Polynomial<F, B>>,
    instance: Seq<Polynomial<F, B>>,
    challenges: Seq<F>,
) -> Inputs {
    Inputs {
        modulus: F::modulus(),
        fixed: table_values(fixed),
        advice: table_values(advice),
        instance: table_values(instance),
        challenges: field_values(challenges),
        beta: 0,
        gamma: 0,
        theta: 0,
        y: 0,
        previous_value: 0,
    }
}

impl<F: Field> Expression<F> {
    /// Whether no selector is left anywhere in the expression.
    pub open spec fn selector_free(self) -> bool
        decreases self,
    {
        match self {
            Expression::Selector(_) => false,
            Expression::Negated(a) => a.selector_free(),
            Expression::Sum(a, b) => a.selector_free() && b.selector_free(),
            Expression::Product(a, b) => a.selector_free() && b.selector_free(),
            Expression::Scaled(a, _) => a.selector_free(),
            _ => true,
        }
    }

    /// Whether every column and challenge that the expression queries exists.
    pub open spec fn columns_within(
        self,
        fixed: int,
        advice: int,
        instance: int,
        challenges: int,
    ) -> bool
        decreases self,
    {
        match self {
            Expression::Fixed(q) => q.column_index < fixed,
            Expression::Advice(q) => q.column_index < advice,
            Expression::Instance(q) => q.column_index < instance,
            Expression::Challenge(c) => c.index < challenges,
            Expression::Negated(a) => a.columns_within(fixed, advice, instance, challenges),
            Expression::Sum(a, b) => a.columns_within(fixed, advice, instance, challenges)
                && b.columns_within(fixed, advice, instance, challenges),
            Expression::Product(a, b) => a.columns_within(fixed, advice, instance, challenges)
                && b.columns_within(fixed, advice, instance, challenges),
            Expression::Scaled(a, _) => a.columns_within(fixed, advice, instance, challenges),
            _ => true,
        }
    }

    /// Whether `inputs` hold every column and challenge that the expression
    /// queries.
    pub open spec fn readable(self, inputs: Inputs) -> bool {
        self.columns_within(
            inputs.fixed.len() as int,
            inputs.advice.len() as int,
            inputs.instance.len() as int,
            inputs.challenges.len() as int,
        )
    }

    /// The residue of the expression at the row `at`: constants stand for
    /// themselves, a query for the cell of its column at the rotated row, and
    /// the operators for the operations of the field.
    pub open spec fn value(self, inputs: Inputs, at: Position) -> int
        decreases self,
    {
        let p = inputs.modulus;
        match self {
            Expression::Constant(c) => c.value(),
            Expression::Selector(_) => 0,
            Expression::Fixed(q) => inputs.fixed[q.column_index as int][at.rotated(
                q.rotation.0 as int,
            )],
            Expression::Advice(q) => inputs.advice[q.column_index as int][at.rotated(
                q.rotation.0 as int,
            )],
            Expression::Instance(q) => inputs.instance[q.column_index as int][at.rotated(
                q.rotation.0 as int,
            )],
            Expression::Challenge(c) => inputs.challenges[c.index as int],
            Expression::Negated(a) => fneg(p, a.value(inputs, at)),
            Expression::Sum(a, b) => fadd(p, a.value(inputs, at), b.value(inputs, at)),
            Expression::Product(a, b) => fmul(p, a.value(inputs, at), b.value(inputs, at)),
            Expression::Scaled(a, f) => fmul(p, a.value(inputs, at), f.value()),
        }
    }

    /// Whether a selector is left somewhere in the expression.
    pub fn contains_selector(&self) -> (r: bool)
        ensures
            r == !self.selector_free(),
        decreases self,
    {
        match self {
            Expression::Selector(_) => true,
            Expression::Negated(a) => a.contains_selector(),
            Expression::Sum(a, b) => a.contains_selector() || b.contains_selector(),
            Expression::Product(a, b) => a.contains_selector() || b.contains_selector(),
            Expression::Scaled(a, _) => a.contains_selector(),
            _ => false,
        }
    }

    /// Whether every column and challenge that the expression queries exists
    /// among the given numbers of them.
    pub fn queries_within(
        &self,
        fixed: usize,
        advice: usize,
        instance: usize,
        challenges: usize,
    ) -> (r: bool)
        ensures
            r == self.columns_within(
                fixed as int,
                advice as int,
                instance as int,
                challenges as int,
            ),
        decreases self,
    {
        match self {
            Expression::Fixed(q) => q.column_index < fixed,
            Expression::Advice(q) => q.column_index < advice,
            Expression::Instance(q) => q.column_index < instance,
            Expression::Challenge(c) => c.index < challenges,
            Expression::Negated(a) => a.queries_within(fixed, advice, instance, challenges),
            Expression::Sum(a, b) => a.queries_within(fixed, advice, instance, challenges)
                && b.queries_within(fixed, advice, instance, challenges),
            Expression::Product(a, b) => a.queries_within(fixed, advice, instance, challenges)
                && b.queries_within(fixed, advice, instance, challenges),
            Expression::Scaled(a, _) => a.queries_within(fixed, advice, instance, challenges),
            _ => true,
        }
    }

    /// The value of the expression at row `idx` of a domain of `isize` rows.
    pub fn evaluate_row<B: Basis>(
        &self,
        idx: usize,
        rot_scale: i32,
        isize: i32,
        fixed: &[Polynomial<F, B>],
        advice: &[Polynomial<F, B>],
        instance: &[Polynomial<F, B>],
        challenges: &[F],
    ) -> (r: F)
        requires
            isize > 0,
            self.selector_free(),
            self.readable(column_inputs(fixed@, advice@, instance@, challenges@)),
            column_inputs(fixed@, advice@, instance@, challenges@).covers(isize as int),
        ensures
            r.value() == self.value(
                column_inputs(fixed@, advice@, instance@, challenges@),
                Position { idx: idx as int, rot_scale: rot_scale as int, size: isize as int },
            ),
        decreases self,
    {
        match self {
            Expression::Constant(scalar) => *scalar,
            Expression::Selector(_) => F::zero(),
            Expression::Fixed(query) => {
                let row = get_rotation_idx(idx, query.rotation.0, rot_scale, isize);
                assert(table_values(fixed@)[query.column_index as int].len() >= isize);
                fixed[query.column_index].get(row)
            },
            Expression::Advice(query) => {
                let row = get_rotation_idx(idx, query.rotation.0, rot_scale, isize);
                assert(table_values(advice@)[query.column_index as int].len() >= isize);
                advice[query.column_index].get(row)
            },
            Expression::Instance(query) => {
                let row = get_rotation_idx(idx, query.rotation.0, rot_scale, isize);
                assert(table_values(instance@)[query.column_index as int].len() >= isize);
                instance[query.column_index].get(row)
            },
            Expression::Challenge(challenge) => challenges[challenge.index()],
            Expression::Negated(a) => {
                a.evaluate_row(idx, rot_scale, isize, fixed, advice, instance, challenges).neg()
            },
            Expression::Sum(a, b) => {
                let x = a.evaluate_row(idx, rot_scale, isize, fixed, advice, instance, challenges);
                let y = b.evaluate_row(idx, rot_scale, isize, fixed, advice, instance, challenges);
                x.add(&y)
            },
            Expression::Product(a, b) => {
                let x = a.evaluate_row(idx, rot_scale, isize, fixed, advice, instance, challenges);
                let y = b.evaluate_row(idx, rot_scale, isize, fixed, advice, instance, challenges);
                x.mul(&y)
            },
            Expression::Scaled(a, scalar) => {
                let x = a.evaluate_row(idx, rot_scale, isize, fixed, advice, instance, challenges);
                x.mul(scalar)
            },
        }
    }
}

/// Simple evaluation of an expression
pub fn evaluate<F: Field, B: Basis>(
    expression: &Expression<F>,
    size: usize,
    rot_scale: i32,
    fixed: &[Polynomial<F, B>],
    advice: &[Polynomial<F, B>],
    instance: &[Polynomial<F, B>],
    challenges: &[F],
) -> (values: Vec<F>)
    requires
        size <= i32::MAX,
        expression.selector_free(),
        expression.readable(column_inputs(fixed@, advice@, instance@, challenges@)),
        column_inputs(fixed@, advice@, instance@, challenges@).covers(size as int),
    ensures
        values.len() == size,
        forall|idx: int|
            0 <= idx < size ==> (#[trigger] values@[idx]).value() == expression.value(
                column_inputs(fixed@, advice@, instance@, challenges@),
                Position { idx, rot_scale: rot_scale as int, size: size as int },
            ),
{
    let mut values: Vec<F> = Vec::new();
    let isize: i32 = size as i32;
    let mut idx: usize = 0;
    while idx < size
        invariant
            idx <= size,
            size <= i32::MAX,
            isize == size,
            values.len() == idx,
            expression.selector_free(),
            expression.readable(column_inputs(fixed@, advice@, instance@, challenges@)),
            column_inputs(fixed@, advice@, instance@, challenges@).covers(size as int),
            forall|j: int|
                0 <= j < idx ==> (#[trigger] values@[j]).value() == expression.value(
                    column_inputs(fixed@, advice@, instance@, challenges@),
                    Position { idx: j, rot_scale: rot_scale as int, size: size as int },
                ),
        decreases size - idx,
    {
        let value = expression.evaluate_row(
            idx,
            rot_scale,
            isize,
            fixed,
            advice,
            instance,
            challenges,
        );
        values.push(value);
        idx += 1;
    }
    values
}

} // verus!
