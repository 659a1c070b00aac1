//! Linear combinations: a weighted sum of variables plus a constant.

use crate::field::{modulus, FieldElement};
use crate::variable::{Variable, VariableView};
use vstd::arithmetic::div_mod::{lemma_add_mod_noop, lemma_add_mod_noop_right, lemma_small_mod};
use vstd::prelude::*;

verus! {

/// One weighted variable as a mathematical value.
pub struct TermView {
    /// The weight.
    pub coefficient: nat,
    /// The variable that is weighted.
    pub variable: VariableView,
}

/// A linear combination as a mathematical value.
pub struct LinearCombinationView {
    /// The constant term.
    pub constant: nat,
    /// The weighted variables, in the order in which they were added.
    pub terms: Seq<TermView>,
}

/// The sum of the products of each weight with its variable's value.
pub open spec fn terms_sum(terms: Seq<TermView>) -> nat
    decreases terms.len(),
{
    if terms.len() == 0 {
        0
    } else {
        terms_sum(terms.drop_last()) + terms.last().coefficient * terms.last().variable.value
    }
}

impl LinearCombinationView {
    /// The field element that the combination evaluates to.
    pub open spec fn value(self) -> nat {
        (self.constant + terms_sum(self.terms)) % modulus()
    }

    /// The number of additions that forming the combination takes.
    pub open spec fn num_additions(self) -> nat {
        if self.terms.len() == 0 {
            0
        } else if self.constant != 0 {
            self.terms.len()
        } else {
            (self.terms.len() - 1) as nat
        }
    }

}

/// Adding a term adds its product to the sum.
pub proof fn lemma_terms_sum_push(terms: Seq<TermView>, term: TermView)
    ensures
        terms_sum(terms.push(term)) == terms_sum(terms) + term.coefficient * term.variable.value,
{
    assert(terms.push(term).drop_last() =~= terms);
}

/// The sum over two sequences of terms, one after the other, is the sum of
/// their sums.
pub proof fn lemma_terms_sum_concat(first: Seq<TermView>, second: Seq<TermView>)
    ensures
        terms_sum(first + second) == terms_sum(first) + terms_sum(second),
    decreases second.len(),
{
    if second.len() == 0 {
        assert(first + second =~= first);
    } else {
        lemma_terms_sum_concat(first, second.drop_last());
        assert((first + second).drop_last() =~= first + second.drop_last());
        assert((first + second).last() == second.last());
    }
}

/// One weighted variable.
#[derive(Clone, Copy, Debug)]
pub struct Term {
    coefficient: FieldElement,
    variable: Variable,
}

impl View for Term {
    type V = TermView;

    closed spec fn view(&self) -> TermView {
        TermView { coefficient: self.coefficient@, variable: self.variable@ }
    }
}

impl Term {
    /// The weight.
    pub fn coefficient(&self) -> (r: FieldElement)
        ensures
            r@ == self@.coefficient,
    {
        self.coefficient
    }

    /// The variable that is weighted.
    pub fn variable(&self) -> (r: Variable)
        ensures
            r@ == self@.variable,
    {
        self.variable
    }
}

/// A weighted sum of variables plus a constant: one side of a constraint.
#[derive(Debug)]
pub struct LinearCombination {
    constant: FieldElement,
    terms: Vec<Term>,
}

impl View for LinearCombination {
    type V = LinearCombinationView;

    closed spec fn view(&self) -> LinearCombinationView {
        LinearCombinationView {
            constant: self.constant@,
            terms: Seq::new(self.terms@.len(), |i: int| self.terms@[i]@),
        }
    }
}

impl Clone for LinearCombination {
    fn clone(&self) -> (r: LinearCombination)
        ensures
            r@ == self@,
    {
        let mut terms: Vec<Term> = Vec::new();
        let mut i: usize = 0;
        while i < self.terms.len()
            invariant
                i <= self.terms.len(),
                terms@ == self.terms@.take(i as int),
            decreases self.terms.len() - i,
        {
            terms.push(self.terms[i]);
            assert(self.terms@.take(i as int).push(self.terms@[i as int]) =~= self.terms@.take(i + 1));
            i += 1;
        }
        assert(self.terms@.take(self.terms@.len() as int) =~= self.terms@);
        LinearCombination { constant: self.constant, terms }
    }
}

impl LinearCombination {
    /// The combination with no variable and the constant zero.
    pub fn zero() -> (r: LinearCombination)
        ensures
            r@ == (LinearCombinationView { constant: 0, terms: Seq::empty() }),
    {
        let r = LinearCombination { constant: FieldElement::zero(), terms: Vec::new() };
        assert(r@.terms =~= Seq::empty());
        r
    }

    /// The combination with no variable and the constant one.
    pub fn one() -> (r: LinearCombination)
        ensures
            r@ == (LinearCombinationView { constant: 1, terms: Seq::empty() }),
    {
        let r = LinearCombination { constant: FieldElement::one(), terms: Vec::new() };
        assert(r@.terms =~= Seq::empty());
        r
    }

    /// The combination that is the given constant.
    pub fn from_constant(constant: FieldElement) -> (r: LinearCombination)
        ensures
            r@ == (LinearCombinationView { constant: constant@, terms: Seq::empty() }),
    {
        let r = LinearCombination { constant, terms: Vec::new() };
        assert(r@.terms =~= Seq::empty());
        r
    }

    /// The combination that is the given variable, with weight one.
    pub fn from_variable(variable: Variable) -> (r: LinearCombination)
        ensures
            r@ == (LinearCombinationView {
                constant: 0,
                terms: seq![TermView { coefficient: 1, variable: variable@ }],
            }),
    {
        let mut terms: Vec<Term> = Vec::new();
        terms.push(Term { coefficient: FieldElement::one(), variable });
        let r = LinearCombination { constant: FieldElement::zero(), terms };
        assert(r@.terms =~= seq![TermView { coefficient: 1, variable: variable@ }]);
        r
    }

    /// Adds `coefficient * variable` to the combination.
    pub fn add_term(&mut self, coefficient: FieldElement, variable: Variable)
        ensures
            final(self)@ == (LinearCombinationView {
                constant: old(self)@.constant,
                terms: old(self)@.terms.push(TermView { coefficient: coefficient@, variable: variable@ }),
            }),
    {
        self.terms.push(Term { coefficient, variable });
        assert(self@.terms =~= old(self)@.terms.push(
            TermView { coefficient: coefficient@, variable: variable@ },
        ));
    }

    /// Adds a constant to the combination.
    pub fn add_constant(&mut self, constant: FieldElement)
        ensures
            final(self)@ == (LinearCombinationView {
                constant: (old(self)@.constant + constant@) % modulus(),
                terms: old(self)@.terms,
            }),
    {
        self.constant = self.constant.plus(&constant);
        assert(self@.terms =~= old(self)@.terms);
    }

    /// The sum of two combinations: the terms of the first, then the terms
    /// of the second, and the sum of the constants.
    pub fn plus(&self, other: &LinearCombination) -> (r: LinearCombination)
        ensures
            r@ == (LinearCombinationView {
                constant: (self@.constant + other@.constant) % modulus(),
                terms: self@.terms + other@.terms,
            }),
            r@.value() == (self@.value() + other@.value()) % modulus(),
    {
        let mut terms: Vec<Term> = Vec::new();
        let mut i: usize = 0;
        while i < self.terms.len()
            invariant
                i <= self.terms.len(),
                terms@ == self.terms@.take(i as int),
            decreases self.terms.len() - i,
        {
            terms.push(self.terms[i]);
            assert(self.terms@.take(i as int).push(self.terms@[i as int]) =~= self.terms@.take(i + 1));
            i += 1;
        }
        assert(self.terms@.take(self.terms@.len() as int) =~= self.terms@);
        let mut j: usize = 0;
        while j < other.terms.len()
            invariant
                j <= other.terms.len(),
                terms@ == self.terms@ + other.terms@.take(j as int),
            decreases other.terms.len() - j,
        {
            terms.push(other.terms[j]);
            assert((self.terms@ + other.terms@.take(j as int)).push(other.terms@[j as int]) =~= self.terms@
                + other.terms@.take(j + 1));
            j += 1;
        }
        assert(other.terms@.take(other.terms@.len() as int) =~= other.terms@);
        let r = LinearCombination { constant: self.constant.plus(&other.constant), terms };
        proof {
            assert(r@.terms =~= self@.terms + other@.terms);
            lemma_terms_sum_concat(self@.terms, other@.terms);
            let m = modulus() as int;
            let a = (self@.constant + terms_sum(self@.terms)) as int;
            let b = (other@.constant + terms_sum(other@.terms)) as int;
            let c = (self@.constant + other@.constant) as int;
            let t = (terms_sum(self@.terms) + terms_sum(other@.terms)) as int;
            lemma_add_mod_noop(a, b, m);
            lemma_add_mod_noop(c, t, m);
            vstd::arithmetic::div_mod::lemma_mod_twice(c, m);
            lemma_add_mod_noop(c % m, t, m);
            assert(a + b == c + t);
        }
        r
    }

    /// The constant term.
    pub fn constant(&self) -> (r: FieldElement)
        ensures
            r@ == self@.constant,
    {
        self.constant
    }

    /// The number of weighted variables.
    pub fn num_terms(&self) -> (r: usize)
        ensures
            r == self@.terms.len(),
    {
        self.terms.len()
    }

    /// The weighted variable at the given position.
    pub fn term(&self, i: usize) -> (r: Term)
        requires
            i < self@.terms.len(),
        ensures
            r@ == self@.terms[i as int],
    {
        self.terms[i]
    }

    /// The number of additions that forming the combination takes.
    pub fn num_additions(&self) -> (r: usize)
        ensures
            r == self@.num_additions(),
    {
        if self.terms.len() == 0 {
            0
        } else if !self.constant.is_zero() {
            self.terms.len()
        } else {
            self.terms.len() - 1
        }
    }

    /// The field element that the combination evaluates to.
    pub fn value(&self) -> (r: FieldElement)
        ensures
            r@ == self@.value(),
    {
        let mut acc = self.constant;
        let mut i: usize = 0;
        proof {
            use_type_invariant(&self.constant);
            lemma_small_mod(self.constant@, modulus());
            assert(self@.terms.take(0) =~= Seq::empty());
        }
        while i < self.terms.len()
            invariant
                i <= self.terms.len(),
                acc@ == (self@.constant + terms_sum(self@.terms.take(i as int))) % modulus(),
            decreases self.terms.len() - i,
        {
            let term = self.terms[i];
            let product = term.coefficient.times(&term.variable.value());
            let next = acc.plus(&product);
            proof {
                let done = self@.terms.take(i as int);
                let t = self@.terms[i as int];
                let before = (self@.constant + terms_sum(done)) as int;
                let p = (t.coefficient * t.variable.value) as int;
                assert(self@.terms.take(i + 1) =~= done.push(t));
                lemma_terms_sum_push(done, t);
                lemma_add_mod_noop(before, p, modulus() as int);
                lemma_add_mod_noop_right(before % (modulus() as int), p, modulus() as int);
            }
            acc = next;
            i += 1;
        }
        assert(self@.terms.take(self@.terms.len() as int) =~= self@.terms);
        acc
    }
}

} // verus!
