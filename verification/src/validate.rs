use crate::calculation::Calculation;
use crate::evaluator::Evaluator;
use crate::field::Field;
use crate::graph::GraphEvaluator;
use crate::keys::{
    all_of_size, column_exists, EvaluationDomain, ProvingKey, MAX_EXTENDED_K,
};
use crate::circuit::{Any, Column};
use crate::polynomial::{ExtendedLagrangeCoeff, Polynomial};
use crate::quotient::lookups_fit;
use crate::value_source::ValueSource;
use vstd::prelude::*;

verus! {

impl ValueSource {
    /// Whether the slots this source names exist among the given numbers of
    /// constants, rotation slots and intermediates.
    pub fn has_slots_within(&self, constants: usize, rotations: usize, intermediates: usize) -> (r:
        bool)
        ensures
            r == self.slots_within(constants as int, rotations as int, intermediates as int),
    {
        match self {
            ValueSource::Constant(i) => *i < constants,
            ValueSource::Intermediate(i) => *i < intermediates,
            ValueSource::Fixed(_, r) => *r < rotations,
            ValueSource::Advice(_, r) => *r < rotations,
            ValueSource::Instance(_, r) => *r < rotations,
            _ => true,
        }
    }

    /// Whether the column or challenge this source names exists among the
    /// given numbers of them.
    pub fn has_columns_within(
        &self,
        fixed: usize,
        advice: usize,
        instance: usize,
        challenges: usize,
    ) -> (r: bool)
        ensures
            r == self.columns_within(
                fixed as int,
                advice as int,
                instance as int,
                challenges as int,
            ),
    {
        match self {
            ValueSource::Fixed(c, _) => *c < fixed,
            ValueSource::Advice(c, _) => *c < advice,
            ValueSource::Instance(c, _) => *c < instance,
            ValueSource::Challenge(i) => *i < challenges,
            _ => true,
        }
    }
}

impl Calculation {
    /// The sources this calculation reads, in the order it names them.
    pub fn operands(&self) -> (r: Vec<ValueSource>)
        ensures
            r@ == self@.operands(),
    {
        let mut r: Vec<ValueSource> = Vec::new();
        match self {
            Calculation::Add(a, b) => {
                r.push(*a);
                r.push(*b);
            },
            Calculation::Sub(a, b) => {
                r.push(*a);
                r.push(*b);
            },
            Calculation::Mul(a, b) => {
                r.push(*a);
                r.push(*b);
            },
            Calculation::Square(v) => {
                r.push(*v);
            },
            Calculation::Double(v) => {
                r.push(*v);
            },
            Calculation::Negate(v) => {
                r.push(*v);
            },
            Calculation::Horner(start, parts, factor) => {
                r.push(*start);
                r.push(*factor);
                let mut i: usize = 0;
                while i < parts.len()
                    invariant
                        i <= parts@.len(),
                        r@ == seq![*start, *factor] + parts@.take(i as int),
                    decreases parts@.len() - i,
                {
                    r.push(parts[i]);
                    assert(parts@.take(i + 1) == parts@.take(i as int).push(parts@[i as int]));
                    i += 1;
                }
                assert(parts@.take(i as int) == parts@);
            },
            Calculation::Store(v) => {
                r.push(*v);
            },
        }
        assert(r@ =~= self@.operands());
        r
    }

    /// Whether every slot this calculation reads exists among the given
    /// numbers of constants, rotation slots and intermediates.
    pub fn has_slots_within(&self, constants: usize, rotations: usize, intermediates: usize) -> (r:
        bool)
        ensures
            r == self@.slots_within(constants as int, rotations as int, intermediates as int),
    {
        let operands = self.operands();
        let mut i: usize = 0;
        while i < operands.len()
            invariant
                i <= operands@.len(),
                operands@ == self@.operands(),
                forall|j: int|
                    0 <= j < i ==> (#[trigger] operands@[j]).slots_within(
                        constants as int,
                        rotations as int,
                        intermediates as int,
                    ),
            decreases operands@.len() - i,
        {
            if !operands[i].has_slots_within(constants, rotations, intermediates) {
                return false;
            }
            i += 1;
        }
        true
    }

    /// Whether every column and challenge this calculation reads exists
    /// among the given numbers of them.
    pub fn has_columns_within(
        &self,
        fixed: usize,
        advice: usize,
        instance: usize,
        challenges: usize,
    ) -> (r: bool)
        ensures
            r == self@.columns_within(
                fixed as int,
                advice as int,
                instance as int,
                challenges as int,
            ),
    {
        let operands = self.operands();
        let mut i: usize = 0;
        while i < operands.len()
            invariant
                i <= operands@.len(),
                operands@ == self@.operands(),
                forall|j: int|
                    0 <= j < i ==> (#[trigger] operands@[j]).columns_within(
                        fixed as int,
                        advice as int,
                        instance as int,
                        challenges as int,
                    ),
            decreases operands@.len() - i,
        {
            if !operands[i].has_columns_within(fixed, advice, instance, challenges) {
                return false;
            }
            i += 1;
        }
        true
    }
}

impl<F: Field> GraphEvaluator<F> {
    /// Whether every column and challenge that the graph reads exists among
    /// the given numbers of them.
    pub fn has_columns_within(
        &self,
        fixed: usize,
        advice: usize,
        instance: usize,
        challenges: usize,
    ) -> (r: bool)
        ensures
            r == self@.columns_within(
                fixed as int,
                advice as int,
                instance as int,
                challenges as int,
            ),
    {
        let mut i: usize = 0;
        while i < self.calculations.len()
            invariant
                i <= self.calculations@.len(),
                forall|j: int|
                    0 <= j < i ==> (#[trigger] self@.calculations[j]).columns_within(
                        fixed as int,
                        advice as int,
                        instance as int,
                        challenges as int,
                    ),
            decreases self.calculations@.len() - i,
        {
            if !self.calculations[i].calculation.has_columns_within(
                fixed,
                advice,
                instance,
                challenges,
            ) {
                assert(!self@.calculations[i as int].columns_within(
                    fixed as int,
                    advice as int,
                    instance as int,
                    challenges as int,
                ));
                return false;
            }
            i += 1;
        }
        true
    }

    fn constants_are_distinct(&self) -> (r: bool)
        ensures
            r == self@.constants.no_duplicates(),
    {
        let mut i: usize = 0;
        while i < self.constants.len()
            invariant
                i <= self.constants@.len(),
                forall|a: int, b: int|
                    0 <= a < b < i ==> self@.constants[a] != self@.constants[b],
            decreases self.constants@.len() - i,
        {
            let mut j: usize = 0;
            while j < i
                invariant
                    j <= i < self.constants@.len(),
                    forall|a: int| 0 <= a < j ==> self@.constants[a] != self@.constants[i as int],
                decreases i - j,
            {
                if self.constants[j].is_equal(&self.constants[i]) {
                    assert(self@.constants[j as int] == self@.constants[i as int]);
                    return false;
                }
                j += 1;
            }
            i += 1;
        }
        true
    }

    fn rotations_are_distinct(&self) -> (r: bool)
        ensures
            r == self@.rotations.no_duplicates(),
    {
        let mut i: usize = 0;
        while i < self.rotations.len()
            invariant
                i <= self.rotations@.len(),
                forall|a: int, b: int|
                    0 <= a < b < i ==> self@.rotations[a] != self@.rotations[b],
            decreases self.rotations@.len() - i,
        {
            let mut j: usize = 0;
            while j < i
                invariant
                    j <= i < self.rotations@.len(),
                    forall|a: int| 0 <= a < j ==> self@.rotations[a] != self@.rotations[i as int],
                decreases i - j,
            {
                if self.rotations[j] == self.rotations[i] {
                    assert(self@.rotations[j as int] == self@.rotations[i as int]);
                    return false;
                }
                j += 1;
            }
            i += 1;
        }
        true
    }

    fn calculations_are_distinct(&self) -> (r: bool)
        ensures
            r == self@.calculations.no_duplicates(),
    {
        let mut i: usize = 0;
        while i < self.calculations.len()
            invariant
                i <= self.calculations@.len(),
                forall|a: int, b: int|
                    0 <= a < b < i ==> self@.calculations[a] != self@.calculations[b],
            decreases self.calculations@.len() - i,
        {
            let mut j: usize = 0;
            while j < i
                invariant
                    j <= i < self.calculations@.len(),
                    forall|a: int|
                        0 <= a < j ==> self@.calculations[a] != self@.calculations[i as int],
                decreases i - j,
            {
                if self.calculations[j].calculation == self.calculations[i].calculation {
                    assert(self@.calculations[j as int] == self@.calculations[i as int]);
                    return false;
                }
                j += 1;
            }
            i += 1;
        }
        true
    }

    fn calculations_are_in_order(&self) -> (r: bool)
        ensures
            r == (forall|i: int|
                0 <= i < self.calculations@.len() ==> (#[trigger] self.calculations@[i]).target == i
                    && self@.calculations[i].slots_within(
                    self@.constants.len() as int,
                    self@.rotations.len() as int,
                    i,
                )),
    {
        let mut i: usize = 0;
        while i < self.calculations.len()
            invariant
                i <= self.calculations@.len(),
                forall|k: int|
                    0 <= k < i ==> (#[trigger] self.calculations@[k]).target == k
                        && self@.calculations[k].slots_within(
                        self@.constants.len() as int,
                        self@.rotations.len() as int,
                        k,
                    ),
            decreases self.calculations@.len() - i,
        {
            let info = &self.calculations[i];
            if info.target != i || !info.calculation.has_slots_within(
                self.constants.len(),
                self.rotations.len(),
                i,
            ) {
                assert(self@.calculations[i as int] == info.calculation@);
                return false;
            }
            assert(self@.calculations[i as int] == info.calculation@);
            i += 1;
        }
        true
    }

    /// Whether the graph meets its invariant.
    pub fn is_well_formed(&self) -> (r: bool)
        ensures
            r == self.wf(),
    {
        proof {
            F::lemma_modulus();
            crate::field::lemma_field_values(self.constants@);
            assert(self.rotations.len() == self.rotations@.len());
            assert(self.constants.len() == self.constants@.len());
            assert(self.calculations.len() == self.calculations@.len());
            assert(self@.fits());
        }
        if self.num_intermediates != self.calculations.len() || self.constants.len() < 3 {
            return false;
        }
        if !self.constants[0].is_equal(&F::zero()) || !self.constants[1].is_equal(&F::one())
            || !self.constants[2].is_equal(&F::from_u64(2)) {
            proof {
                vstd::arithmetic::div_mod::lemma_small_mod(2, F::modulus() as nat);
                assert(self@.constants[0] == self.constants@[0].value());
                assert(self@.constants[1] == self.constants@[1].value());
                assert(self@.constants[2] == self.constants@[2].value());
            }
            return false;
        }
        proof {
            vstd::arithmetic::div_mod::lemma_small_mod(2, F::modulus() as nat);
            assert(self@.constants[0] == self.constants@[0].value());
            assert(self@.constants[1] == self.constants@[1].value());
            assert(self@.constants[2] == self.constants@[2].value());
        }
        let in_order = self.calculations_are_in_order();
        proof {
            if in_order {
                assert forall|i: int| 0 <= i < self@.calculations.len() implies (
                #[trigger] self@.calculations[i]).slots_within(
                    self@.constants.len() as int,
                    self@.rotations.len() as int,
                    i,
                ) by {
                    assert(self.calculations@[i].target == i);
                }
            } else if self.wf() {
                assert forall|i: int| 0 <= i < self.calculations@.len() implies (
                #[trigger] self.calculations@[i]).target == i && self@.calculations[i].slots_within(
                    self@.constants.len() as int,
                    self@.rotations.len() as int,
                    i,
                ) by {}
            }
        }
        if !in_order {
            return false;
        }
        if !self.constants_are_distinct() {
            return false;
        }
        if !self.rotations_are_distinct() {
            return false;
        }
        self.calculations_are_distinct()
    }
}

/// Whether every polynomial of `table` has exactly `size` entries.
pub fn all_have_size<F: Field>(table: &[Polynomial<F, ExtendedLagrangeCoeff>], size: usize) -> (r:
    bool)
    ensures
        r == all_of_size(table@, size as int),
{
    let mut c: usize = 0;
    while c < table.len()
        invariant
            c <= table@.len(),
            forall|k: int| 0 <= k < c ==> (#[trigger] table@[k])@.len() == size,
        decreases table@.len() - c,
    {
        if table[c].len() != size {
            return false;
        }
        c += 1;
    }
    true
}

impl<F: Field> EvaluationDomain<F> {
    /// Whether the domain meets its preconditions.
    pub fn is_well_formed(&self) -> (r: bool)
        ensures
            r == self.wf(),
    {
        self.k < self.extended_k && self.extended_k <= MAX_EXTENDED_K
    }
}

impl Column {
    /// Whether this column is one of the given numbers of fixed, advice and
    /// instance columns.
    pub fn is_among(&self, fixed: usize, advice: usize, instance: usize) -> (r: bool)
        ensures
            r == column_exists(*self, fixed as int, advice as int, instance as int),
    {
        match self.column_type {
            Any::Advice => self.index < advice,
            Any::Fixed => self.index < fixed,
            Any::Instance => self.index < instance,
        }
    }
}

impl<F: Field> ProvingKey<F> {
    /// Whether the key meets the preconditions on the domain and on its
    /// shape.
    pub fn is_well_formed(&self) -> (r: bool)
        ensures
            r == self.wf(),
    {
        if !self.vk.domain.is_well_formed() {
            return false;
        }
        let size = self.vk.domain.extended_len();
        self.vk.cs.blinding_factors < size && self.l0.len() == size
            && self.l_last.len() == size && self.l_active_row.len() == size && all_have_size(
            self.fixed_cosets.as_slice(),
            size,
        ) && all_have_size(self.permutation.cosets.as_slice(), size)
            && self.permutation.cosets.len() == self.vk.cs.permutation.columns.len()
    }

    /// Whether the advice and instance columns of one proof fit the key.
    pub fn holds_witness(
        &self,
        advice: &[Polynomial<F, ExtendedLagrangeCoeff>],
        instance: &[Polynomial<F, ExtendedLagrangeCoeff>],
    ) -> (r: bool)
        requires
            self.wf(),
        ensures
            r == self.fits_witness(advice@, instance@),
    {
        let size = self.vk.domain.extended_len();
        if !all_have_size(advice, size) || !all_have_size(instance, size) {
            return false;
        }
        let columns = &self.vk.cs.permutation.columns;
        let mut j: usize = 0;
        while j < columns.len()
            invariant
                j <= columns@.len(),
                columns == &self.vk.cs.permutation.columns,
                forall|k: int|
                    0 <= k < j ==> column_exists(
                        #[trigger] columns@[k],
                        self.fixed_cosets@.len() as int,
                        advice@.len() as int,
                        instance@.len() as int,
                    ),
            decreases columns@.len() - j,
        {
            if !columns[j].is_among(self.fixed_cosets.len(), advice.len(), instance.len()) {
                return false;
            }
            j += 1;
        }
        true
    }
}

impl<F: Field> crate::permutation::Committed<F> {
    /// Whether the argument was committed for the key `pk`.
    pub fn is_for(&self, pk: &ProvingKey<F>) -> (r: bool)
        requires
            pk.wf(),
        ensures
            r == self.fits(pk),
    {
        let size = pk.vk.domain.extended_len();
        let mut i: usize = 0;
        while i < self.sets.len()
            invariant
                i <= self.sets@.len(),
                size == pk.size(),
                forall|k: int|
                    0 <= k < i ==> (#[trigger] self.sets@[k]).permutation_product_coset@.len()
                        == size,
            decreases self.sets@.len() - i,
        {
            if self.sets[i].permutation_product_coset.len() != size {
                assert(self.sets@[i as int].permutation_product_coset@.len() != pk.size());
                return false;
            }
            i += 1;
        }
        if self.sets.len() == 0 {
            return true;
        }
        if pk.vk.cs.degree() < 3 {
            return false;
        }
        let columns = pk.vk.cs.permutation.columns.len();
        let chunk_len = pk.vk.cs.degree() - 2;
        let whole = columns / chunk_len;
        if columns % chunk_len == 0 {
            self.sets.len() == whole
        } else {
            self.sets.len() - 1 == whole
        }
    }
}

impl<F: Field> crate::lookup::Committed<F> {
    /// Whether the argument was committed for the key `pk`.
    pub fn is_for(&self, pk: &ProvingKey<F>) -> (r: bool)
        requires
            pk.wf(),
        ensures
            r == self.fits(pk),
    {
        let size = pk.vk.domain.extended_len();
        self.product_coset.len() == size && self.permuted_input_coset.len() == size
            && self.permuted_table_coset.len() == size
    }
}

impl<F: Field> Evaluator<F> {
    /// Whether every graph of the evaluator meets its invariant.
    pub fn is_well_formed(&self) -> (r: bool)
        ensures
            r == self.wf(),
    {
        if !self.custom_gates.is_well_formed() {
            return false;
        }
        let mut n: usize = 0;
        while n < self.lookups.len()
            invariant
                n <= self.lookups@.len(),
                forall|m: int| 0 <= m < n ==> (#[trigger] self.lookups@[m]).wf(),
            decreases self.lookups@.len() - n,
        {
            if !self.lookups[n].is_well_formed() {
                return false;
            }
            n += 1;
        }
        true
    }

    /// Whether every graph is well formed and reads only columns and
    /// challenges that exist among the given numbers of them.
    pub fn has_reads_within(
        &self,
        fixed: usize,
        advice: usize,
        instance: usize,
        challenges: usize,
    ) -> (r: bool)
        ensures
            r == self.reads_within(
                fixed as int,
                advice as int,
                instance as int,
                challenges as int,
            ),
    {
        if !self.is_well_formed() || !self.custom_gates.has_columns_within(
            fixed,
            advice,
            instance,
            challenges,
        ) {
            return false;
        }
        let mut n: usize = 0;
        while n < self.lookups.len()
            invariant
                n <= self.lookups@.len(),
                forall|m: int|
                    0 <= m < n ==> (#[trigger] self.lookups@[m])@.columns_within(
                        fixed as int,
                        advice as int,
                        instance as int,
                        challenges as int,
                    ),
            decreases self.lookups@.len() - n,
        {
            if !self.lookups[n].has_columns_within(fixed, advice, instance, challenges) {
                return false;
            }
            n += 1;
        }
        true
    }

    /// Whether a batch of proofs fits the key and this evaluator, so that
    /// its quotient can be assembled.
    pub fn accepts_batch(
        &self,
        pk: &ProvingKey<F>,
        advice_polys: &[Vec<Polynomial<F, ExtendedLagrangeCoeff>>],
        instance_polys: &[Vec<Polynomial<F, ExtendedLagrangeCoeff>>],
        challenges: &[F],
        lookups: &[Vec<crate::lookup::Committed<F>>],
        permutations: &[crate::permutation::Committed<F>],
    ) -> (r: bool)
        ensures
            r == self.fits_batch(
                pk,
                advice_polys@,
                instance_polys@,
                challenges@,
                lookups@,
                permutations@,
            ),
    {
        if !self.is_well_formed() || !pk.is_well_formed() {
            return false;
        }
        let proofs = advice_polys.len();
        if instance_polys.len() != proofs || lookups.len() != proofs || permutations.len()
            != proofs {
            return false;
        }
        let mut b: usize = 0;
        while b < proofs
            invariant
                b <= proofs,
                proofs == advice_polys@.len(),
                instance_polys@.len() == proofs,
                lookups@.len() == proofs,
                permutations@.len() == proofs,
                self.wf(),
                pk.wf(),
                forall|a: int|
                    0 <= a < b ==> {
                        &&& pk.fits_witness((#[trigger] advice_polys@[a])@, instance_polys@[a]@)
                        &&& self.reads_within(
                            pk.fixed_cosets@.len() as int,
                            advice_polys@[a]@.len() as int,
                            instance_polys@[a]@.len() as int,
                            challenges@.len() as int,
                        )
                        &&& permutations@[a].fits(pk)
                        &&& lookups_fit(pk, lookups@[a]@)
                        &&& lookups@[a]@.len() <= self.lookups@.len()
                    },
            decreases proofs - b,
        {
            let advice = advice_polys[b].as_slice();
            let instance = instance_polys[b].as_slice();
            if !pk.holds_witness(advice, instance) || !self.has_reads_within(
                pk.fixed_cosets.len(),
                advice.len(),
                instance.len(),
                challenges.len(),
            ) || !permutations[b].is_for(pk) || lookups[b].len() > self.lookups.len() {
                assert(advice_polys@[b as int]@.len() >= 0);
                return false;
            }
            let committed = &lookups[b];
            let mut n: usize = 0;
            while n < committed.len()
                invariant
                    n <= committed@.len(),
                    b < proofs,
                    proofs == advice_polys@.len(),
                    lookups@.len() == proofs,
                    committed == &lookups@[b as int],
                    pk.wf(),
                    forall|m: int| 0 <= m < n ==> (#[trigger] committed@[m]).fits(pk),
                decreases committed@.len() - n,
            {
                if !committed[n].is_for(pk) {
                    assert(!lookups_fit(pk, lookups@[b as int]@)) by {
                        assert(!lookups@[b as int]@[n as int].fits(pk));
                    }
                    assert(advice_polys@[b as int]@.len() >= 0);
                    return false;
                }
                n += 1;
            }
            b += 1;
        }
        true
    }
}

} // verus!
