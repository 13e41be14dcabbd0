use crate::field::{all_residues, field_values, lemma_field_values, Field};
use std::marker::PhantomData;
use vstd::prelude::*;

verus! {

/// The basis a polynomial is kept in.
pub trait Basis {

}

/// The polynomial is given by its coefficients.
#[derive(Clone, Copy, Debug)]
pub struct Coeff;

/// The polynomial is given by its values on the evaluation subgroup.
#[derive(Clone, Copy, Debug)]
pub struct LagrangeCoeff;

/// The polynomial is given by its values on the extended coset.
#[derive(Clone, Copy, Debug)]
pub struct ExtendedLagrangeCoeff;

impl Basis for Coeff {

}

impl Basis for LagrangeCoeff {

}

impl Basis for ExtendedLagrangeCoeff {

}

/// An ordered sequence of field elements tagged with the basis it is read in.
#[derive(Debug)]
pub struct Polynomial<F, B> {
    pub values: Vec<F>,
    pub _marker: PhantomData<B>,
}

impl<F: Field, B: Basis> View for Polynomial<F, B> {
    type V = Seq<int>;

    /// The residues of the entries, in order.
    open spec fn view(&self) -> Seq<int> {
        field_values(self.values@)
    }
}

impl<F: Field, B: Basis> Clone for Polynomial<F, B> {
    fn clone(&self) -> (r: Self)
        ensures
            r.values@ == self.values@,
    {
        let mut values: Vec<F> = Vec::new();
        let mut i: usize = 0;
        while i < self.values.len()
            invariant
                i <= self.values.len(),
                values@ == self.values@.take(i as int),
            decreases self.values.len() - i,
        {
            values.push(self.values[i]);
            assert(self.values@.take(i + 1) == self.values@.take(i as int).push(self.values@[i as int]));
            i += 1;
        }
        assert(self.values@.take(i as int) == self.values@);
        Polynomial { values, _marker: PhantomData }
    }
}

impl<F: Field, B: Basis> Polynomial<F, B> {
    /// Tags `values` with the basis `B`.
    pub fn from_values(values: Vec<F>) -> (r: Self)
        ensures
            r.values == values,
    {
        Polynomial { values, _marker: PhantomData }
    }

    /// The number of entries.
    pub fn len(&self) -> (r: usize)
        ensures
            r == self@.len(),
    {
        self.values.len()
    }

    /// The entry at position `i`.
    pub fn get(&self, i: usize) -> (r: F)
        requires
            i < self@.len(),
        ensures
            r == self.values[i as int],
            r.value() == self@[i as int],
    {
        self.values[i]
    }
}

/// The residues of every entry of every polynomial of a table of columns.
pub open spec fn table_values<F: Field, B: Basis>(table: Seq<Polynomial<F, B>>) -> Seq<Seq<int>> {
    Seq::new(table.len(), |c: int| table[c]@)
}

/// The residues of the entries of a table of columns are canonical.
pub proof fn lemma_table_values<F: Field, B: Basis>(table: Seq<Polynomial<F, B>>)
    ensures
        forall|c: int|
            0 <= c < table.len() ==> all_residues(
                F::modulus(),
                #[trigger] table_values(table)[c],
            ),
{
    assert forall|c: int| 0 <= c < table.len() implies all_residues(
        F::modulus(),
        #[trigger] table_values(table)[c],
    ) by {
        lemma_field_values(table[c].values@);
    }
}

} // verus!
