use crate::expression::Expression;
use crate::field::Field;
use vstd::prelude::*;

verus! {

/// The kind of a column.
#[derive(Clone, Copy, Debug, PartialEq, Eq, Structural)]
pub enum Any {
    /// An advice column
    Advice,
    /// A fixed column
    Fixed,
    /// An instance column
    Instance,
}

/// A column of the constraint system.
#[derive(Clone, Copy, Debug, PartialEq, Eq, Structural)]
pub struct Column {
    pub index: usize,
    pub column_type: Any,
}

impl Column {
    /// A column of kind `column_type` at position `index` among the columns
    /// of that kind.
    pub fn new(index: usize, column_type: Any) -> (r: Column)
        ensures
            r.index == index,
            r.column_type == column_type,
    {
        Column { index, column_type }
    }

    /// Index of this column.
    pub fn index(&self) -> (r: usize)
        ensures
            r == self.index,
    {
        self.index
    }

    /// Type of this column.
    pub fn column_type(&self) -> (r: Any)
        ensures
            r == self.column_type,
    {
        self.column_type
    }
}

/// A custom gate: polynomial identities that must vanish on every row.
#[derive(Debug)]
pub struct Gate<F> {
    pub polys: Vec<Expression<F>>,
}

impl<F: Field> Gate<F> {
    /// The polynomials that this gate constrains, in the order they were declared.
    pub fn polynomials(&self) -> (r: &Vec<Expression<F>>)
        ensures
            r@ == self.polys@,
    {
        &self.polys
    }
}

/// A lookup argument: the input expressions must take values that the table
/// expressions take.
#[derive(Debug)]
pub struct LookupArgument<F> {
    pub input_expressions: Vec<Expression<F>>,
    pub table_expressions: Vec<Expression<F>>,
}

/// A permutation argument over the listed columns.
#[derive(Debug)]
pub struct PermutationArgument {
    pub columns: Vec<Column>,
}

/// What the evaluator reads of a constraint system.
#[derive(Debug)]
pub struct ConstraintSystem<F> {
    pub gates: Vec<Gate<F>>,
    pub lookups: Vec<LookupArgument<F>>,
    pub permutation: PermutationArgument,
    /// The maximum degree of the constraints.
    pub degree: usize,
    /// The number of rows at the end of each column that are left to
    /// blinding.
    pub blinding_factors: usize,
}

/// The polynomials of the gates, in the order of the gates and, within a
/// gate, in the order they were declared.
pub open spec fn gate_polynomials<F: Field>(gates: Seq<Gate<F>>) -> Seq<Expression<F>>
    decreases gates.len(),
{
    if gates.len() == 0 {
        Seq::empty()
    } else {
        gate_polynomials(gates.drop_last()) + gates.last().polys@
    }
}

/// Whether none of `es` holds a selector.
pub open spec fn all_selector_free<F: Field>(es: Seq<Expression<F>>) -> bool {
    forall|i: int| 0 <= i < es.len() ==> (#[trigger] es[i]).selector_free()
}

/// Whether every column and challenge that one of `es` queries exists.
pub open spec fn all_columns_within<F: Field>(
    es: Seq<Expression<F>>,
    fixed: int,
    advice: int,
    instance: int,
    challenges: int,
) -> bool {
    forall|i: int|
        0 <= i < es.len() ==> (#[trigger] es[i]).columns_within(fixed, advice, instance, challenges)
}

impl<F: Field> ConstraintSystem<F> {
    /// Whether the selectors were eliminated from every expression of the
    /// gates and of the lookup arguments.
    pub open spec fn selector_free(&self) -> bool {
        &&& all_selector_free(gate_polynomials(self.gates@))
        &&& forall|n: int|
            0 <= n < self.lookups@.len() ==> all_selector_free(
                (#[trigger] self.lookups@[n]).input_expressions@,
            ) && all_selector_free(self.lookups@[n].table_expressions@)
    }

    /// Whether every column and challenge that an expression of a gate or of
    /// a lookup argument queries exists among the given numbers of them.
    pub open spec fn columns_within(
        &self,
        fixed: int,
        advice: int,
        instance: int,
        challenges: int,
    ) -> bool {
        &&& all_columns_within(gate_polynomials(self.gates@), fixed, advice, instance, challenges)
        &&& forall|n: int|
            0 <= n < self.lookups@.len() ==> all_columns_within(
                (#[trigger] self.lookups@[n]).input_expressions@,
                fixed,
                advice,
                instance,
                challenges,
            ) && all_columns_within(
                self.lookups@[n].table_expressions@,
                fixed,
                advice,
                instance,
                challenges,
            )
    }

    /// The maximum degree of the constraints.
    pub fn degree(&self) -> (r: usize)
        ensures
            r == self.degree,
    {
        self.degree
    }

    /// The number of rows at the end of each column that are left to
    /// blinding.
    pub fn blinding_factors(&self) -> (r: usize)
        ensures
            r == self.blinding_factors,
    {
        self.blinding_factors
    }

    /// Whether a selector is left in an expression of a gate or of a lookup
    /// argument.
    pub fn contains_selector(&self) -> (r: bool)
        ensures
            r == !self.selector_free(),
    {
        let mut i: usize = 0;
        while i < self.gates.len()
            invariant
                i <= self.gates@.len(),
                all_selector_free(gate_polynomials(self.gates@.take(i as int))),
            decreases self.gates@.len() - i,
        {
            let gate = &self.gates[i];
            let ghost before = gate_polynomials(self.gates@.take(i as int));
            proof {
                assert(self.gates@.take(i + 1).drop_last() =~= self.gates@.take(i as int));
            }
            if any_selector(&gate.polys) {
                proof {
                    let j = choose|j: int| 0 <= j < gate.polys@.len() && !gate.polys@[j].selector_free();
                    lemma_gate_polynomials_hold(self.gates@, i as int, j);
                }
                return true;
            }
            proof {
                let after = gate_polynomials(self.gates@.take(i + 1));
                assert(after == before + gate.polys@);
                assert forall|j: int| 0 <= j < after.len() implies (#[trigger] after[j]).selector_free() by {
                    if j < before.len() {
                        assert(after[j] == before[j]);
                    } else {
                        assert(after[j] == gate.polys@[j - before.len()]);
                    }
                }
            }
            i += 1;
        }
        proof {
            assert(self.gates@.take(i as int) =~= self.gates@);
        }
        let mut n: usize = 0;
        while n < self.lookups.len()
            invariant
                n <= self.lookups@.len(),
                all_selector_free(gate_polynomials(self.gates@)),
                forall|m: int|
                    0 <= m < n ==> all_selector_free(
                        (#[trigger] self.lookups@[m]).input_expressions@,
                    ) && all_selector_free(self.lookups@[m].table_expressions@),
            decreases self.lookups@.len() - n,
        {
            let lookup = &self.lookups[n];
            if any_selector(&lookup.input_expressions) || any_selector(&lookup.table_expressions) {
                return true;
            }
            n += 1;
        }
        false
    }
}

/// Every polynomial of every gate is among the polynomials of the gates.
pub proof fn lemma_gate_polynomials_hold<F: Field>(gates: Seq<Gate<F>>, i: int, j: int)
    requires
        0 <= i < gates.len(),
        0 <= j < gates[i].polys@.len(),
    ensures
        exists|k: int|
            0 <= k < gate_polynomials(gates).len() && #[trigger] gate_polynomials(gates)[k]
                == gates[i].polys@[j],
    decreases gates.len(),
{
    let before = gate_polynomials(gates.drop_last());
    if i == gates.len() - 1 {
        assert(gate_polynomials(gates)[before.len() + j] == gates[i].polys@[j]);
    } else {
        lemma_gate_polynomials_hold(gates.drop_last(), i, j);
        let k = choose|k: int|
            0 <= k < before.len() && #[trigger] before[k] == gates.drop_last()[i].polys@[j];
        assert(gate_polynomials(gates)[k] == before[k]);
    }
}

/// Whether a selector is left in one of the expressions.
pub fn any_selector<F: Field>(es: &Vec<Expression<F>>) -> (r: bool)
    ensures
        r == !all_selector_free(es@),
{
    let mut j: usize = 0;
    while j < es.len()
        invariant
            j <= es@.len(),
            forall|k: int| 0 <= k < j ==> (#[trigger] es@[k]).selector_free(),
        decreases es@.len() - j,
    {
        if es[j].contains_selector() {
            return true;
        }
        j += 1;
    }
    false
}

} // verus!
