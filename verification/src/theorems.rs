//! What holds of every circuit, whatever was done to build it.

use crate::field::modulus;
use crate::linear_combination::LinearCombinationView;
use crate::lookup::LookupError;
use crate::state::{
    canonical_rows, constraint_weights, gate_weights, lemma_weigh_scopes_total, sum_counts, variable_weights,
    weigh_scopes, Counts, State, TableView,
};
use crate::variable::Mode;
use vstd::prelude::*;

verus! {

/// One step in the construction of a circuit.
pub enum Operation {
    /// A variable is allocated.
    Allocate {
        /// Its mode.
        mode: Mode,
        /// Its value.
        value: nat,
    },
    /// A scope is entered.
    Enter {
        /// Its name.
        name: Seq<char>,
    },
    /// The innermost scope is left.
    Exit,
    /// A constraint is recorded.
    Enforce {
        /// `None` for `a * b = c`, the handle of the table for a lookup.
        table: Option<nat>,
        /// First expression.
        a: LinearCombinationView,
        /// Second expression.
        b: LinearCombinationView,
        /// Third expression.
        c: LinearCombinationView,
    },
    /// A lookup table is registered.
    Register {
        /// Its rows.
        rows: TableView,
    },
}

impl State {
    /// The step can be taken in this state.
    pub open spec fn permits(self, op: Operation) -> bool {
        match op {
            Operation::Allocate { mode, value } => value < modulus(),
            Operation::Enter { name } => true,
            Operation::Exit => self.stack.len() > 1,
            Operation::Enforce { table, a, b, c } => {
                &&& self.owns_all(a)
                &&& self.owns_all(b)
                &&& self.owns_all(c)
                &&& table matches Some(handle) ==> self.has_table(handle)
            },
            Operation::Register { rows } => canonical_rows(rows),
        }
    }

    /// The state after the step.
    pub open spec fn apply(self, op: Operation) -> State {
        match op {
            Operation::Allocate { mode, value } => self.allocate(mode, value),
            Operation::Enter { name } => self.enter(name),
            Operation::Exit => self.exit(),
            Operation::Enforce { table, a, b, c } => self.constrain(table, a, b, c),
            Operation::Register { rows } => self.register(rows),
        }
    }

    /// The state after the steps, taken in their order.
    pub open spec fn run(self, ops: Seq<Operation>) -> State
        decreases ops.len(),
    {
        if ops.len() == 0 {
            self
        } else {
            self.run(ops.drop_last()).apply(ops.last())
        }
    }

    /// Each of the steps can be taken when its turn comes.
    pub open spec fn permits_all(self, ops: Seq<Operation>) -> bool
        decreases ops.len(),
    {
        if ops.len() == 0 {
            true
        } else {
            self.permits_all(ops.drop_last()) && self.run(ops.drop_last()).permits(ops.last())
        }
    }

    /// After each of the steps at least `depth` scopes are open.
    pub open spec fn stays_open(self, ops: Seq<Operation>, depth: nat) -> bool
        decreases ops.len(),
    {
        if ops.len() == 0 {
            self.stack.len() >= depth
        } else {
            self.stays_open(ops.drop_last(), depth) && self.run(ops).stack.len() >= depth
        }
    }

    /// One step keeps the invariant, and every variable as it was.
    pub proof fn theorem_step_keeps_variables(self, op: Operation)
        requires
            self.inv(),
            self.permits(op),
        ensures
            self.apply(op).inv(),
            self.apply(op).keeps_variables_of(self),
    {
        match op {
            Operation::Allocate { mode, value } => {
                self.lemma_allocate_inv(mode, value);
            },
            Operation::Enter { name } => {
                self.lemma_enter_inv(name);
            },
            Operation::Exit => {
                self.lemma_exit_inv();
            },
            Operation::Enforce { table, a, b, c } => {
                self.lemma_constrain_inv(table, a, b, c);
            },
            Operation::Register { rows } => {
                self.lemma_register_inv(rows);
            },
        }
    }

    /// No sequence of steps changes a variable that was allocated before it:
    /// its index, its mode, its value and its scope stay what they were.
    pub proof fn theorem_variables_never_change(self, ops: Seq<Operation>)
        requires
            self.inv(),
            self.permits_all(ops),
        ensures
            self.run(ops).inv(),
            self.run(ops).keeps_variables_of(self),
        decreases ops.len(),
    {
        if ops.len() > 0 {
            self.theorem_variables_never_change(ops.drop_last());
            self.run(ops.drop_last()).theorem_step_keeps_variables(ops.last());
        }
    }

    /// The counters of the whole circuit are the sums of the counters of all
    /// scopes that were ever entered: every variable and every constraint is
    /// counted in exactly one scope, the one that was innermost when it was
    /// recorded.
    pub proof fn theorem_counters_add_up(self)
        requires
            self.inv(),
        ensures
            self.totals == sum_counts(self.scopes),
    {
        self.lemma_sum_of_scopes(self.scopes.len());
        assert(self.scopes.take(self.scopes.len() as int) =~= self.scopes);
        let n = self.scopes.len();
        lemma_weigh_scopes_total(variable_weights(self.variables, Mode::Constant), n);
        lemma_weigh_scopes_total(variable_weights(self.variables, Mode::Public), n);
        lemma_weigh_scopes_total(variable_weights(self.variables, Mode::Private), n);
        lemma_weigh_scopes_total(constraint_weights(self.constraints), n);
        lemma_weigh_scopes_total(gate_weights(self.constraints), n);
    }

    proof fn lemma_sum_of_scopes(self, n: nat)
        requires
            self.inv(),
            n <= self.scopes.len(),
        ensures
            sum_counts(self.scopes.take(n as int)) == (Counts {
                constants: weigh_scopes(variable_weights(self.variables, Mode::Constant), n),
                public: weigh_scopes(variable_weights(self.variables, Mode::Public), n),
                private: weigh_scopes(variable_weights(self.variables, Mode::Private), n),
                constraints: weigh_scopes(constraint_weights(self.constraints), n),
                gates: weigh_scopes(gate_weights(self.constraints), n),
            }),
        decreases n,
    {
        if n > 0 {
            self.lemma_sum_of_scopes((n - 1) as nat);
            assert(self.scopes.take(n as int).drop_last() =~= self.scopes.take(n - 1));
            assert(self.scopes.take(n as int).last() == self.scopes[n - 1]);
            assert(self.scopes[(n - 1) as int].counts == self.tally(Some((n - 1) as nat)));
        }
    }

    /// What is done while a nested scope is open is counted in that scope
    /// and in the whole circuit, and nowhere else.
    ///
    /// Enter a scope, take any steps that leave it open, and leave it: the
    /// enclosing scope is innermost again and its counters are what they
    /// were before. The counters of the scope that was left stay recorded;
    /// they count the variables and constraints that were recorded while it
    /// was innermost.
    pub proof fn theorem_nested_scope(self, name: Seq<char>, ops: Seq<Operation>)
        requires
            self.inv(),
            self.enter(name).permits_all(ops),
            self.enter(name).stays_open(ops, self.stack.len() + 1),
            self.enter(name).run(ops).stack.len() == self.stack.len() + 1,
        ensures
            ({
                let child = self.scopes.len();
                let end = self.enter(name).run(ops);
                &&& end.exit().inv()
                &&& end.exit().stack == self.stack
                &&& end.exit().current_counts() == self.current_counts()
                &&& end.exit().totals == end.totals
                &&& end.exit().scopes[child as int].counts == end.tally(Some(child))
            }),
    {
        self.lemma_enter_inv(name);
        self.enter(name).lemma_parents_untouched(self, ops);
        let end = self.enter(name).run(ops);
        end.lemma_exit_inv();
        assert(end.exit().stack =~= self.stack);
        assert(end.scopes[self.scopes.len() as int].counts == end.tally(Some(self.scopes.len())));
    }

    /// The scopes that enclose this one are untouched by `later`.
    pub open spec fn encloses(self, parent: State, later: State) -> bool {
        &&& later.inv()
        &&& later.stack.len() >= self.stack.len()
        &&& later.scopes.len() >= self.scopes.len()
        &&& forall|i: int| 0 <= i < self.stack.len() ==> later.stack[i] == self.stack[i]
        &&& forall|i: int|
            0 <= i < parent.stack.len() ==> later.scopes[parent.stack[i] as int] == parent.scopes[parent.stack[i] as int]
    }

    proof fn lemma_parents_untouched(self, parent: State, ops: Seq<Operation>)
        requires
            parent.inv(),
            self.inv(),
            self.stack.len() == parent.stack.len() + 1,
            self.scopes.len() >= parent.scopes.len(),
            forall|i: int| 0 <= i < parent.stack.len() ==> self.stack[i] == parent.stack[i],
            forall|i: int|
                0 <= i < parent.stack.len() ==> self.scopes[parent.stack[i] as int] == parent.scopes[parent.stack[i] as int],
            self.permits_all(ops),
            self.stays_open(ops, self.stack.len()),
        ensures
            self.encloses(parent, self.run(ops)),
        decreases ops.len(),
    {
        if ops.len() > 0 {
            let earlier = self.run(ops.drop_last());
            let op = ops.last();
            self.lemma_parents_untouched(parent, ops.drop_last());
            earlier.theorem_step_keeps_variables(op);
            let later = earlier.apply(op);
            assert(later == self.run(ops));
            let top = earlier.stack.len() - 1;
            assert forall|i: int| 0 <= i < parent.stack.len() implies earlier.stack[i] < earlier.stack[top] by {}
            assert forall|i: int| 0 <= i < parent.stack.len() implies later.scopes[parent.stack[i] as int]
                == parent.scopes[parent.stack[i] as int] by {
                assert(earlier.stack[i] == parent.stack[i]);
                assert(earlier.stack[i] < earlier.stack[top]);
                assert(parent.stack[i] < parent.scopes.len());
            }
        }
    }

    /// A new circuit, and a circuit after a reset: all counters are zero,
    /// no table is registered, and no handle names a table.
    pub proof fn theorem_empty_state()
        ensures
            State::empty().inv(),
            State::empty().totals == Counts::zero(),
            State::empty().current_counts() == Counts::zero(),
            State::empty().variables.len() == 0,
            State::empty().constraints.len() == 0,
            State::empty().tables.len() == 0,
            State::empty().satisfied(),
            forall|handle: nat| !State::empty().has_table(handle),
            forall|handle: nat, key: nat| #[trigger]
                State::empty().unary_lookup_error(handle, key) == Some(LookupError::UnknownTable),
            forall|handle: nat, key_1: nat, key_2: nat| #[trigger]
                State::empty().binary_lookup_error(handle, key_1, key_2) == Some(LookupError::UnknownTable),
            forall|handle: nat, index: nat| #[trigger]
                State::empty().index_lookup_error(handle, index) == Some(LookupError::UnknownTable),
    {
        State::lemma_empty_inv();
    }

    /// A lookup constraint whose values are no row of its table makes the
    /// circuit unsatisfied.
    pub proof fn theorem_foreign_row_is_refused(self, i: int)
        requires
            0 <= i < self.constraints.len(),
            self.constraints[i].table matches Some(handle) && !(self.has_table(handle) && self.tables[handle as int].contains(
                self.constraints[i].row(),
            )),
        ensures
            !self.satisfied(),
    {
        assert(!self.constraints[i].holds(self.tables));
    }
}

} // verus!
