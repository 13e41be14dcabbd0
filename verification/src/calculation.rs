use crate::field::{fadd, fmul, fneg, fsub, Field};
use crate::polynomial::{Basis, Polynomial};
use crate::value_source::{scope_of, Scope, ValueSource};
use vstd::prelude::*;
use vstd::std_specs::cmp::PartialEqSpecImpl;

verus! {

/// Horner's rule: starting from `start`, each part in turn is added to
/// `factor` times what was accumulated before it.
pub open spec fn horner(p: int, start: int, parts: Seq<int>, factor: int) -> int
    decreases parts.len(),
{
    if parts.len() == 0 {
        start
    } else {
        fadd(p, fmul(p, horner(p, start, parts.drop_last(), factor), factor), parts.last())
    }
}

/// One more part costs one more multiplication by the factor and one more
/// addition.
pub proof fn lemma_horner_push(p: int, start: int, parts: Seq<int>, part: int, factor: int)
    ensures
        horner(p, start, parts.push(part), factor) == fadd(
            p,
            fmul(p, horner(p, start, parts, factor), factor),
            part,
        ),
{
    assert(parts.push(part).drop_last() =~= parts);
}

/// Horner's rule over two runs of parts is Horner's rule over the second
/// run, started from the result of the first.
pub proof fn lemma_horner_concat(p: int, start: int, a: Seq<int>, b: Seq<int>, factor: int)
    ensures
        horner(p, start, a + b, factor) == horner(p, horner(p, start, a, factor), b, factor),
    decreases b.len(),
{
    if b.len() == 0 {
        assert(a + b =~= a);
    } else {
        lemma_horner_concat(p, start, a, b.drop_last(), factor);
        assert((a + b).drop_last() =~= a + b.drop_last());
    }
}

/// Horner's rule started from a canonical residue yields a canonical
/// residue.
pub proof fn lemma_horner_is_residue(p: int, start: int, parts: Seq<int>, factor: int)
    requires
        p > 0,
        crate::field::is_residue(p, start),
    ensures
        crate::field::is_residue(p, horner(p, start, parts, factor)),
    decreases parts.len(),
{
    if parts.len() > 0 {
        crate::field::lemma_results_are_residues(
            p,
            fmul(p, horner(p, start, parts.drop_last(), factor), factor),
            parts.last(),
        );
    }
}

/// Horner's rule from zero over parts that are all zero yields zero.
pub proof fn lemma_horner_of_zeros(p: int, parts: Seq<int>, factor: int)
    requires
        p > 0,
        forall|i: int| 0 <= i < parts.len() ==> parts[i] == 0,
    ensures
        horner(p, 0, parts, factor) == 0,
    decreases parts.len(),
{
    if parts.len() > 0 {
        lemma_horner_of_zeros(p, parts.drop_last(), factor);
        crate::field::lemma_fmul_zero(p, factor);
        crate::field::lemma_fadd_zero(p, 0);
    }
}

/// `y` to the power `e`, over the integers.
pub open spec fn int_pow(y: int, e: nat) -> int
    decreases e,
{
    if e == 0 {
        1
    } else {
        y * int_pow(y, (e - 1) as nat)
    }
}

/// The sum of the first `k` parts, each weighted with the power of `y` that
/// counts the parts after it: `parts[0] * y^(n-1) + parts[1] * y^(n-2) + ..`
/// for `n` parts, over the integers.
pub open spec fn power_sum(parts: Seq<int>, y: int, k: nat) -> int
    decreases k,
{
    if k == 0 {
        0
    } else {
        power_sum(parts, y, (k - 1) as nat) + parts[k - 1] * int_pow(y, (parts.len() - k) as nat)
    }
}

/// One more part at the end raises the weight of every part before it by
/// one power of `y`.
pub proof fn lemma_power_sum_shift(parts: Seq<int>, y: int, k: nat)
    requires
        k < parts.len(),
    ensures
        power_sum(parts, y, k) == y * power_sum(parts.drop_last(), y, k),
    decreases k,
{
    if k > 0 {
        lemma_power_sum_shift(parts, y, (k - 1) as nat);
        let before = power_sum(parts.drop_last(), y, (k - 1) as nat);
        let c = parts[k - 1];
        let w = int_pow(y, (parts.len() - 1 - k) as nat);
        assert(int_pow(y, (parts.len() - k) as nat) == y * w);
        assert(parts.drop_last()[k - 1] == c);
        assert(y * before + c * (y * w) == y * (before + c * w)) by (nonlinear_arith);
    }
}

/// Horner's rule from zero is the sum of the parts weighted with the powers
/// of the factor, reduced modulo `p`.
pub proof fn lemma_horner_is_power_sum(p: int, parts: Seq<int>, y: int)
    requires
        p > 0,
    ensures
        horner(p, 0, parts, y) == power_sum(parts, y, parts.len()) % p,
    decreases parts.len(),
{
    if parts.len() == 0 {
        vstd::arithmetic::div_mod::lemma_small_mod(0, p as nat);
    } else {
        let init = parts.drop_last();
        let n = parts.len();
        lemma_horner_is_power_sum(p, init, y);
        lemma_power_sum_shift(parts, y, (n - 1) as nat);
        let s = power_sum(init, y, init.len());
        let last = parts.last();
        assert(int_pow(y, 0) == 1);
        assert(parts[n - 1] * 1 == parts[n - 1]);
        assert(power_sum(parts, y, n) == power_sum(parts, y, (n - 1) as nat) + parts[n - 1]
            * int_pow(y, (n - n) as nat));
        assert(power_sum(parts, y, n) == y * s + last);
        assert(s * y == y * s) by (nonlinear_arith);
        let h = horner(p, 0, init, y);
        assert(h == s % p);
        assert(horner(p, 0, parts, y) == ((h * y) % p + last) % p);
        vstd::arithmetic::div_mod::lemma_mul_mod_noop_left(s, y, p);
        assert((h * y) % p == (s * y) % p);
        vstd::arithmetic::div_mod::lemma_add_mod_noop_right(last, s * y, p);
        assert((last + (s * y) % p) % p == (last + s * y) % p);
    }
}

/// The residues that `sources` address in `scope`, in order.
pub open spec fn source_values(sources: Seq<ValueSource>, scope: Scope) -> Seq<int> {
    Seq::new(sources.len(), |i: int| sources[i].value(scope))
}

/// Calculation
#[derive(Clone, Debug)]
pub enum Calculation {
    /// This is an addition
    Add(ValueSource, ValueSource),
    /// This is a subtraction
    Sub(ValueSource, ValueSource),
    /// This is a product
    Mul(ValueSource, ValueSource),
    /// This is a square
    Square(ValueSource),
    /// This is a double
    Double(ValueSource),
    /// This is a negation
    Negate(ValueSource),
    /// This is Horner's rule: `val = a; val = val * c + b[]`
    Horner(ValueSource, Vec<ValueSource>, ValueSource),
    /// This is a simple assignment
    Store(ValueSource),
}

/// A calculation as a mathematical value: the parts of Horner's rule are a
/// sequence.
pub enum CalculationView {
    Add(ValueSource, ValueSource),
    Sub(ValueSource, ValueSource),
    Mul(ValueSource, ValueSource),
    Square(ValueSource),
    Double(ValueSource),
    Negate(ValueSource),
    Horner(ValueSource, Seq<ValueSource>, ValueSource),
    Store(ValueSource),
}

impl View for Calculation {
    type V = CalculationView;

    open spec fn view(&self) -> CalculationView {
        match *self {
            Calculation::Add(a, b) => CalculationView::Add(a, b),
            Calculation::Sub(a, b) => CalculationView::Sub(a, b),
            Calculation::Mul(a, b) => CalculationView::Mul(a, b),
            Calculation::Square(v) => CalculationView::Square(v),
            Calculation::Double(v) => CalculationView::Double(v),
            Calculation::Negate(v) => CalculationView::Negate(v),
            Calculation::Horner(start, parts, factor) => CalculationView::Horner(
                start,
                parts@,
                factor,
            ),
            Calculation::Store(v) => CalculationView::Store(v),
        }
    }
}

impl CalculationView {
    /// The sources this calculation reads, in the order it names them.
    pub open spec fn operands(self) -> Seq<ValueSource> {
        match self {
            CalculationView::Add(a, b) => seq![a, b],
            CalculationView::Sub(a, b) => seq![a, b],
            CalculationView::Mul(a, b) => seq![a, b],
            CalculationView::Square(v) => seq![v],
            CalculationView::Double(v) => seq![v],
            CalculationView::Negate(v) => seq![v],
            CalculationView::Horner(start, parts, factor) => seq![start, factor] + parts,
            CalculationView::Store(v) => seq![v],
        }
    }

    /// Whether `v` is among the operands.
    pub open spec fn reads(self, v: ValueSource) -> bool {
        self.operands().contains(v)
    }

    /// Whether every operand's slots exist.
    pub open spec fn slots_within(self, constants: int, rotations: int, intermediates: int) -> bool {
        forall|i: int|
            0 <= i < self.operands().len() ==> (#[trigger] self.operands()[i]).slots_within(
                constants,
                rotations,
                intermediates,
            )
    }

    /// Whether every operand's column or challenge exists.
    pub open spec fn columns_within(
        self,
        fixed: int,
        advice: int,
        instance: int,
        challenges: int,
    ) -> bool {
        forall|i: int|
            0 <= i < self.operands().len() ==> (#[trigger] self.operands()[i]).columns_within(
                fixed,
                advice,
                instance,
                challenges,
            )
    }

    /// Whether `scope` holds a value for every operand.
    pub open spec fn in_scope(self, scope: Scope) -> bool {
        forall|i: int|
            0 <= i < self.operands().len() ==> (#[trigger] self.operands()[i]).in_scope(scope)
    }

    /// The residue this calculation yields in `scope`.
    pub open spec fn value(self, scope: Scope) -> int {
        let p = scope.inputs.modulus;
        match self {
            CalculationView::Add(a, b) => fadd(p, a.value(scope), b.value(scope)),
            CalculationView::Sub(a, b) => fsub(p, a.value(scope), b.value(scope)),
            CalculationView::Mul(a, b) => fmul(p, a.value(scope), b.value(scope)),
            CalculationView::Square(v) => fmul(p, v.value(scope), v.value(scope)),
            CalculationView::Double(v) => fadd(p, v.value(scope), v.value(scope)),
            CalculationView::Negate(v) => fneg(p, v.value(scope)),
            CalculationView::Horner(start, parts, factor) => horner(
                p,
                start.value(scope),
                source_values(parts, scope),
                factor.value(scope),
            ),
            CalculationView::Store(v) => v.value(scope),
        }
    }
}

fn same_sources(a: &Vec<ValueSource>, b: &Vec<ValueSource>) -> (r: bool)
    ensures
        r == (a@ == b@),
{
    if a.len() != b.len() {
        return false;
    }
    let mut i: usize = 0;
    while i < a.len()
        invariant
            a.len() == b.len(),
            i <= a.len(),
            forall|j: int| 0 <= j < i ==> a@[j] == b@[j],
        decreases a.len() - i,
    {
        if a[i] != b[i] {
            return false;
        }
        i += 1;
    }
    assert(a@ =~= b@);
    true
}

impl PartialEq for Calculation {
    /// Two calculations are equal when they are the same operation on the
    /// same operands in the same order.
    fn eq(&self, other: &Self) -> (r: bool) {
        match (self, other) {
            (Calculation::Add(a, b), Calculation::Add(c, d)) => *a == *c && *b == *d,
            (Calculation::Sub(a, b), Calculation::Sub(c, d)) => *a == *c && *b == *d,
            (Calculation::Mul(a, b), Calculation::Mul(c, d)) => *a == *c && *b == *d,
            (Calculation::Square(a), Calculation::Square(c)) => *a == *c,
            (Calculation::Double(a), Calculation::Double(c)) => *a == *c,
            (Calculation::Negate(a), Calculation::Negate(c)) => *a == *c,
            (Calculation::Horner(s, parts, f), Calculation::Horner(t, others, g)) => *s == *t
                && *f == *g && same_sources(parts, others),
            (Calculation::Store(a), Calculation::Store(c)) => *a == *c,
            _ => false,
        }
    }
}

impl PartialEqSpecImpl for Calculation {
    open spec fn obeys_eq_spec() -> bool {
        true
    }

    open spec fn eq_spec(&self, other: &Self) -> bool {
        self@ == other@
    }
}

impl Eq for Calculation {

}

impl Calculation {
    /// Get the resulting value of this calculation
    pub fn evaluate<F: Field, B: Basis>(
        &self,
        rotations: &[usize],
        constants: &[F],
        intermediates: &[F],
        fixed_values: &[Polynomial<F, B>],
        advice_values: &[Polynomial<F, B>],
        instance_values: &[Polynomial<F, B>],
        challenges: &[F],
        beta: &F,
        gamma: &F,
        theta: &F,
        y: &F,
        previous_value: &F,
    ) -> (r: F)
        requires
            self@.in_scope(
                scope_of(
                    rotations@,
                    constants@,
                    intermediates@,
                    fixed_values@,
                    advice_values@,
                    instance_values@,
                    challenges@,
                    *beta,
                    *gamma,
                    *theta,
                    *y,
                    *previous_value,
                ),
            ),
        ensures
            r.value() == self@.value(
                scope_of(
                    rotations@,
                    constants@,
                    intermediates@,
                    fixed_values@,
                    advice_values@,
                    instance_values@,
                    challenges@,
                    *beta,
                    *gamma,
                    *theta,
                    *y,
                    *previous_value,
                ),
            ),
    {
        let ghost scope = scope_of(
            rotations@,
            constants@,
            intermediates@,
            fixed_values@,
            advice_values@,
            instance_values@,
            challenges@,
            *beta,
            *gamma,
            *theta,
            *y,
            *previous_value,
        );
        let ghost ops = self@.operands();
        match self {
            Calculation::Add(a, b) => {
                assert(ops[0] == *a && ops[1] == *b);
                let x = a.get(
                    rotations,
                    constants,
                    intermediates,
                    fixed_values,
                    advice_values,
                    instance_values,
                    challenges,
                    beta,
                    gamma,
                    theta,
                    y,
                    previous_value,
                );
                let z = b.get(
                    rotations,
                    constants,
                    intermediates,
                    fixed_values,
                    advice_values,
                    instance_values,
                    challenges,
                    beta,
                    gamma,
                    theta,
                    y,
                    previous_value,
                );
                x.add(&z)
            },
            Calculation::Sub(a, b) => {
                assert(ops[0] == *a && ops[1] == *b);
                let x = a.get(
                    rotations,
                    constants,
                    intermediates,
                    fixed_values,
                    advice_values,
                    instance_values,
                    challenges,
                    beta,
                    gamma,
                    theta,
                    y,
                    previous_value,
                );
                let z = b.get(
                    rotations,
                    constants,
                    intermediates,
                    fixed_values,
                    advice_values,
                    instance_values,
                    challenges,
                    beta,
                    gamma,
                    theta,
                    y,
                    previous_value,
                );
                x.sub(&z)
            },
            Calculation::Mul(a, b) => {
                assert(ops[0] == *a && ops[1] == *b);
                let x = a.get(
                    rotations,
                    constants,
                    intermediates,
                    fixed_values,
                    advice_values,
                    instance_values,
                    challenges,
                    beta,
                    gamma,
                    theta,
                    y,
                    previous_value,
                );
                let z = b.get(
                    rotations,
                    constants,
                    intermediates,
                    fixed_values,
                    advice_values,
                    instance_values,
                    challenges,
                    beta,
                    gamma,
                    theta,
                    y,
                    previous_value,
                );
                x.mul(&z)
            },
            Calculation::Square(v) => {
                assert(ops[0] == *v);
                v.get(
                    rotations,
                    constants,
                    intermediates,
                    fixed_values,
                    advice_values,
                    instance_values,
                    challenges,
                    beta,
                    gamma,
                    theta,
                    y,
                    previous_value,
                ).square()
            },
            Calculation::Double(v) => {
                assert(ops[0] == *v);
                v.get(
                    rotations,
                    constants,
                    intermediates,
                    fixed_values,
                    advice_values,
                    instance_values,
                    challenges,
                    beta,
                    gamma,
                    theta,
                    y,
                    previous_value,
                ).double()
            },
            Calculation::Negate(v) => {
                assert(ops[0] == *v);
                v.get(
                    rotations,
                    constants,
                    intermediates,
                    fixed_values,
                    advice_values,
                    instance_values,
                    challenges,
                    beta,
                    gamma,
                    theta,
                    y,
                    previous_value,
                ).neg()
            },
            Calculation::Horner(start_value, parts, factor) => {
                assert(ops[0] == *start_value && ops[1] == *factor);
                let factor = factor.get(
                    rotations,
                    constants,
                    intermediates,
                    fixed_values,
                    advice_values,
                    instance_values,
                    challenges,
                    beta,
                    gamma,
                    theta,
                    y,
                    previous_value,
                );
                let mut value = start_value.get(
                    rotations,
                    constants,
                    intermediates,
                    fixed_values,
                    advice_values,
                    instance_values,
                    challenges,
                    beta,
                    gamma,
                    theta,
                    y,
                    previous_value,
                );
                let ghost terms = source_values(parts@, scope);
                let mut i: usize = 0;
                assert(terms.take(0) =~= Seq::<int>::empty());
                assert forall|j: int| 0 <= j < parts.len() implies (#[trigger] parts@[j]).in_scope(
                    scope,
                ) by {
                    assert(ops[j + 2] == parts@[j]);
                }
                while i < parts.len()
                    invariant
                        i <= parts.len(),
                        scope == scope_of(
                            rotations@,
                            constants@,
                            intermediates@,
                            fixed_values@,
                            advice_values@,
                            instance_values@,
                            challenges@,
                            *beta,
                            *gamma,
                            *theta,
                            *y,
                            *previous_value,
                        ),
                        terms == source_values(parts@, scope),
                        forall|j: int| 0 <= j < parts.len() ==> (#[trigger] parts@[j]).in_scope(scope),
                        value.value() == horner(
                            F::modulus(),
                            start_value.value(scope),
                            terms.take(i as int),
                            factor.value(),
                        ),
                    decreases parts.len() - i,
                {
                    let part = parts[i].get(
                        rotations,
                        constants,
                        intermediates,
                        fixed_values,
                        advice_values,
                        instance_values,
                        challenges,
                        beta,
                        gamma,
                        theta,
                        y,
                        previous_value,
                    );
                    value = value.mul(&factor).add(&part);
                    proof {
                        let next = terms.take(i + 1);
                        assert(next.drop_last() =~= terms.take(i as int));
                        assert(next.last() == terms[i as int]);
                    }
                    i += 1;
                }
                assert(terms.take(i as int) =~= terms);
                value
            },
            Calculation::Store(v) => {
                assert(ops[0] == *v);
                v.get(
                    rotations,
                    constants,
                    intermediates,
                    fixed_values,
                    advice_values,
                    instance_values,
                    challenges,
                    beta,
                    gamma,
                    theta,
                    y,
                    previous_value,
                )
            },
        }
    }
}

} // verus!
