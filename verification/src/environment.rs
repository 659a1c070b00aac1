//! The interface of a circuit environment: allocation, scopes, constraints,
//! satisfaction and counters.

use crate::field::FieldElement;
use crate::linear_combination::LinearCombination;
use crate::state::State;
use crate::variable::{Mode, Variable};
use vstd::prelude::*;

verus! {

/// An environment in which a circuit is built.
///
/// Every operation is stated as a step of the model in [`State`].
pub trait Environment: Sized {
    /// Everything the environment has recorded.
    spec fn state(&self) -> State;

    /// The environment is in a valid condition.
    spec fn wf(&self) -> bool;

    /// The state of the environment when it is new, and after a reset.
    spec fn initial() -> State;

    /// A valid environment is in a state that satisfies the invariant of the
    /// model.
    proof fn lemma_wf_inv(&self)
        requires
            self.wf(),
        ensures
            self.state().inv(),
    ;

    /// The expression that is zero.
    fn zero(&self) -> (r: LinearCombination)
        requires
            self.wf(),
        ensures
            r@.value() == 0,
            self.state().owns_all(r@),
    ;

    /// The expression that is one.
    fn one(&self) -> (r: LinearCombination)
        requires
            self.wf(),
        ensures
            r@.value() == 1,
            self.state().owns_all(r@),
    ;

    /// Allocates a variable of the given mode and value in the innermost
    /// scope and returns it.
    fn new_variable(&mut self, mode: Mode, value: FieldElement) -> (v: Variable)
        requires
            old(self).wf(),
        ensures
            final(self).wf(),
            final(self).state() == old(self).state().allocate(mode, value@),
            final(self).state().keeps_variables_of(old(self).state()),
            v@ == old(self).state().next_variable(mode, value@),
    ;

    /// Enters a new scope of the given name, with all counters at zero.
    fn push_scope(&mut self, name: &str)
        requires
            old(self).wf(),
        ensures
            final(self).wf(),
            final(self).state() == old(self).state().enter(name@),
            final(self).state().keeps_variables_of(old(self).state()),
    ;

    /// Leaves the innermost scope. The enclosing scope is innermost again,
    /// with the counters it had when the scope was entered.
    fn pop_scope(&mut self)
        requires
            old(self).wf(),
            old(self).state().stack.len() > 1,
        ensures
            final(self).wf(),
            final(self).state() == old(self).state().exit(),
            final(self).state().keeps_variables_of(old(self).state()),
    ;

    /// The number of scopes that are open inside the root scope.
    fn depth(&self) -> (r: usize)
        requires
            self.wf(),
        ensures
            r == self.state().stack.len() - 1,
    ;

    /// Whether the three expressions can be recorded as a constraint.
    fn accepts(&self, a: &LinearCombination, b: &LinearCombination, c: &LinearCombination) -> (r:
        bool)
        requires
            self.wf(),
        ensures
            r == self.state().accepts(a@, b@, c@),
    ;

    /// Records the constraint `a * b = c` in the innermost scope.
    fn enforce(&mut self, a: LinearCombination, b: LinearCombination, c: LinearCombination)
        requires
            old(self).wf(),
            old(self).state().accepts(a@, b@, c@),
        ensures
            final(self).wf(),
            final(self).state() == old(self).state().constrain(None, a@, b@, c@),
            final(self).state().keeps_variables_of(old(self).state()),
    ;

    /// Whether the assignment satisfies every constraint.
    fn is_satisfied(&self) -> (r: bool)
        requires
            self.wf(),
        ensures
            r == self.state().satisfied(),
    ;

    /// Whether the assignment satisfies every constraint that was recorded
    /// in the innermost scope.
    fn is_satisfied_in_scope(&self) -> (r: bool)
        requires
            self.wf(),
        ensures
            r == self.state().satisfied_in(self.state().current()),
    ;

    /// The number of constants in the whole circuit.
    fn num_constants(&self) -> (r: usize)
        requires
            self.wf(),
        ensures
            r == self.state().totals.constants,
    ;

    /// The number of public variables in the whole circuit.
    fn num_public(&self) -> (r: usize)
        requires
            self.wf(),
        ensures
            r == self.state().totals.public,
    ;

    /// The number of private variables in the whole circuit.
    fn num_private(&self) -> (r: usize)
        requires
            self.wf(),
        ensures
            r == self.state().totals.private,
    ;

    /// The number of constraints in the whole circuit.
    fn num_constraints(&self) -> (r: usize)
        requires
            self.wf(),
        ensures
            r == self.state().totals.constraints,
    ;

    /// The number of gates in the whole circuit.
    fn num_gates(&self) -> (r: usize)
        requires
            self.wf(),
        ensures
            r == self.state().totals.gates,
    ;

    /// The number of constants allocated in the innermost scope.
    fn num_constants_in_scope(&self) -> (r: usize)
        requires
            self.wf(),
        ensures
            r == self.state().current_counts().constants,
    ;

    /// The number of public variables allocated in the innermost scope.
    fn num_public_in_scope(&self) -> (r: usize)
        requires
            self.wf(),
        ensures
            r == self.state().current_counts().public,
    ;

    /// The number of private variables allocated in the innermost scope.
    fn num_private_in_scope(&self) -> (r: usize)
        requires
            self.wf(),
        ensures
            r == self.state().current_counts().private,
    ;

    /// The number of constraints recorded in the innermost scope.
    fn num_constraints_in_scope(&self) -> (r: usize)
        requires
            self.wf(),
        ensures
            r == self.state().current_counts().constraints,
    ;

    /// The number of gates of the constraints recorded in the innermost
    /// scope.
    fn num_gates_in_scope(&self) -> (r: usize)
        requires
            self.wf(),
        ensures
            r == self.state().current_counts().gates,
    ;

    /// Drops everything that was recorded and starts again from the initial
    /// state.
    fn reset(&mut self)
        ensures
            final(self).wf(),
            final(self).state() == Self::initial(),
    ;
}

} // verus!
