//! The lookup extension of an environment: registered tables, three ways to
//! draw a row from one, and the constraint that a row belongs to a table.

use crate::environment::Environment;
use crate::field::modulus;
use crate::linear_combination::{lemma_terms_sum_push, LinearCombination, LinearCombinationView, TermView};
use crate::state::{Counts, State};
use crate::table::{
    binary_row, has_binary_key, has_unary_key, lemma_unary_row_canonical, unary_row, LookupTable,
};
use crate::variable::{Mode, Variable, VariableView};
use vstd::arithmetic::div_mod::lemma_small_mod;
use vstd::prelude::*;

verus! {

/// Why a lookup failed.
#[derive(Clone, Copy, Debug, PartialEq, Eq, Structural)]
pub enum LookupError {
    /// The handle names no registered table.
    UnknownTable,
    /// No row of the table matches the key.
    MissingRow,
    /// The table has no row at the given position.
    RowOutOfBounds,
}

impl State {
    /// Why a unary lookup fails in this state, if it does.
    pub open spec fn unary_lookup_error(self, id: nat, key: nat) -> Option<LookupError> {
        if !self.has_table(id) {
            Some(LookupError::UnknownTable)
        } else if !has_unary_key(self.tables[id as int], key) {
            Some(LookupError::MissingRow)
        } else {
            None
        }
    }

    /// Why a binary lookup fails in this state, if it does.
    pub open spec fn binary_lookup_error(self, id: nat, key_1: nat, key_2: nat) -> Option<LookupError> {
        if !self.has_table(id) {
            Some(LookupError::UnknownTable)
        } else if !has_binary_key(self.tables[id as int], key_1, key_2) {
            Some(LookupError::MissingRow)
        } else {
            None
        }
    }

    /// Why an index lookup fails in this state, if it does.
    pub open spec fn index_lookup_error(self, id: nat, index: nat) -> Option<LookupError> {
        if !self.has_table(id) {
            Some(LookupError::UnknownTable)
        } else if index >= self.tables[id as int].len() {
            Some(LookupError::RowOutOfBounds)
        } else {
            None
        }
    }

    /// The state after a private variable was allocated for each of the
    /// given values, in their order.
    pub open spec fn allocate_private(self, values: Seq<nat>) -> State
        decreases values.len(),
    {
        if values.len() == 0 {
            self
        } else {
            self.allocate_private(values.drop_last()).allocate(Mode::Private, values.last())
        }
    }

    /// The private variable that is allocated for the last of the given
    /// values.
    pub open spec fn last_private(self, values: Seq<nat>) -> VariableView {
        self.allocate_private(values.drop_last()).next_variable(Mode::Private, values.last())
    }
}

impl State {
    /// A state keeps the variables of every state whose variables an
    /// earlier state of it kept.
    pub proof fn lemma_keeps_variables_transitive(self, middle: State, earlier: State)
        requires
            self.keeps_variables_of(middle),
            middle.keeps_variables_of(earlier),
        ensures
            self.keeps_variables_of(earlier),
    {
    }

    /// A variable of a circuit is still one after the circuit has grown.
    pub proof fn lemma_owns_variable_stays(self, later: State, variable: VariableView)
        requires
            later.keeps_variables_of(self),
            self.owns(variable),
        ensures
            later.owns(variable),
    {
    }

    /// Allocating two private variables: what is allocated, and what stays.
    pub proof fn lemma_allocate_private_two(self, a: nat, b: nat)
        requires
            self.inv(),
            a < modulus(),
            b < modulus(),
        ensures
            self.allocate_private(seq![a, b]) == self.allocate(Mode::Private, a).allocate(Mode::Private, b),
            self.last_private(seq![a]) == self.next_variable(Mode::Private, a),
            self.last_private(seq![a, b]) == self.allocate(Mode::Private, a).next_variable(Mode::Private, b),
            self.allocate_private(seq![a, b]).inv(),
            self.allocate_private(seq![a, b]).keeps_variables_of(self),
            self.allocate_private(seq![a, b]).owns(self.last_private(seq![a])),
            self.allocate_private(seq![a, b]).owns(self.last_private(seq![a, b])),
            self.allocate_private(seq![a, b]).tables == self.tables,
            self.allocate_private(seq![a, b]).constraints == self.constraints,
            self.allocate_private(seq![a, b]).stack == self.stack,
            self.allocate_private(seq![a, b]).totals == (Counts {
                private: self.totals.private + 2,
                ..self.totals
            }),
    {
        assert(seq![a, b].drop_last() =~= seq![a]);
        assert(seq![a].drop_last() =~= Seq::<nat>::empty());
        reveal_with_fuel(State::allocate_private, 3);
        self.lemma_allocate_inv(Mode::Private, a);
        self.allocate(Mode::Private, a).lemma_allocate_inv(Mode::Private, b);
    }
}

/// An environment with lookup tables.
pub trait Lookup: Environment {
    /// Registers a table and returns its handle: the number of tables that
    /// were registered before it.
    fn add_lookup_table(&mut self, table: LookupTable) -> (id: usize)
        requires
            old(self).wf(),
        ensures
            final(self).wf(),
            final(self).state() == old(self).state().register(table@),
            final(self).state().keeps_variables_of(old(self).state()),
            id == old(self).state().tables.len(),
    ;

    /// Evaluates the key, finds the first row of the table whose first
    /// column is that value, and returns two new private variables with the
    /// values of the row's second and third columns.
    fn unary_lookup(&mut self, id: usize, key: &LinearCombination) -> (r: Result<
        (Variable, Variable),
        LookupError,
    >)
        requires
            old(self).wf(),
        ensures
            final(self).wf(),
            final(self).state().keeps_variables_of(old(self).state()),
            match r {
                Ok((first, second)) => {
                    let before = old(self).state();
                    let row = unary_row(before.tables[id as int], key@.value());
                    &&& before.unary_lookup_error(id as nat, key@.value()) is None
                    &&& final(self).state() == before.allocate_private(seq![row.1, row.2])
                    &&& first@ == before.last_private(seq![row.1])
                    &&& second@ == before.last_private(seq![row.1, row.2])
                },
                Err(e) => {
                    &&& old(self).state().unary_lookup_error(id as nat, key@.value()) == Some(e)
                    &&& final(self).state() == old(self).state()
                },
            },
    ;

    /// Evaluates both keys, finds the first row of the table whose first two
    /// columns are those values, and returns a new private variable with the
    /// value of the row's third column.
    fn binary_lookup(&mut self, id: usize, key_1: &LinearCombination, key_2: &LinearCombination) -> (r:
        Result<Variable, LookupError>)
        requires
            old(self).wf(),
        ensures
            final(self).wf(),
            final(self).state().keeps_variables_of(old(self).state()),
            match r {
                Ok(third) => {
                    let before = old(self).state();
                    let row = binary_row(before.tables[id as int], key_1@.value(), key_2@.value());
                    &&& before.binary_lookup_error(id as nat, key_1@.value(), key_2@.value()) is None
                    &&& final(self).state() == before.allocate_private(seq![row.2])
                    &&& third@ == before.last_private(seq![row.2])
                },
                Err(e) => {
                    &&& old(self).state().binary_lookup_error(id as nat, key_1@.value(), key_2@.value())
                        == Some(e)
                    &&& final(self).state() == old(self).state()
                },
            },
    ;

    /// Returns three new private variables with the values of the three
    /// columns of the row at the given position of the table.
    fn index_lookup(&mut self, id: usize, index: usize) -> (r: Result<
        (Variable, Variable, Variable),
        LookupError,
    >)
        requires
            old(self).wf(),
        ensures
            final(self).wf(),
            final(self).state().keeps_variables_of(old(self).state()),
            match r {
                Ok((first, second, third)) => {
                    let before = old(self).state();
                    let row = before.tables[id as int][index as int];
                    &&& before.index_lookup_error(id as nat, index as nat) is None
                    &&& final(self).state() == before.allocate_private(seq![row.0, row.1, row.2])
                    &&& first@ == before.last_private(seq![row.0])
                    &&& second@ == before.last_private(seq![row.0, row.1])
                    &&& third@ == before.last_private(seq![row.0, row.1, row.2])
                },
                Err(e) => {
                    &&& old(self).state().index_lookup_error(id as nat, index as nat) == Some(e)
                    &&& final(self).state() == old(self).state()
                },
            },
    ;

    /// Records, in the innermost scope, the constraint that `(a, b, c)` is a
    /// row of the table with the given handle.
    fn enforce_lookup(
        &mut self,
        id: usize,
        a: LinearCombination,
        b: LinearCombination,
        c: LinearCombination,
    ) -> (r: Result<(), LookupError>)
        requires
            old(self).wf(),
            old(self).state().accepts(a@, b@, c@),
        ensures
            final(self).wf(),
            final(self).state().keeps_variables_of(old(self).state()),
            r is Ok <==> old(self).state().has_table(id as nat),
            r is Ok ==> final(self).state() == old(self).state().constrain(Some(id as nat), a@, b@, c@),
            r is Err ==> r == Err::<(), LookupError>(LookupError::UnknownTable) && final(self).state() == old(
                self,
            ).state(),
    ;
}

/// The expression that is one variable.
pub open spec fn variable_lc(variable: VariableView) -> LinearCombinationView {
    LinearCombinationView { constant: 0, terms: seq![TermView { coefficient: 1, variable }] }
}

impl State {
    /// The state after a unary lookup whose result is bound to its table:
    /// two private variables are drawn from the first row of the table that
    /// matches the key, and the constraint that key and variables are a row
    /// of that same table is recorded.
    pub open spec fn draw_and_bind(self, table: nat, key: LinearCombinationView) -> State {
        let row = unary_row(self.tables[table as int], key.value());
        self.allocate_private(seq![row.1, row.2]).constrain(
            Some(table),
            key,
            variable_lc(self.last_private(seq![row.1])),
            variable_lc(self.last_private(seq![row.1, row.2])),
        )
    }
}

/// The expression that is one variable evaluates to the variable's value.
pub proof fn lemma_variable_lc_value(variable: VariableView)
    requires
        variable.value < modulus(),
    ensures
        variable_lc(variable).value() == variable.value,
        variable_lc(variable).num_additions() == 0,
{
    let term = TermView { coefficient: 1, variable };
    assert(seq![term] =~= Seq::<TermView>::empty().push(term));
    lemma_terms_sum_push(Seq::<TermView>::empty(), term);
    assert(1 * variable.value == variable.value);
    lemma_small_mod(variable.value, modulus());
}

/// Values that were drawn from a table satisfy the lookup constraint on
/// that table: one window leaves the circuit as satisfied as it was.
pub proof fn theorem_drawn_row_is_accepted(s: State, table: nat, key: LinearCombinationView)
    requires
        s.inv(),
        s.has_table(table),
        has_unary_key(s.tables[table as int], key.value()),
        s.owns_all(key),
    ensures
        s.draw_and_bind(table, key).inv(),
        s.draw_and_bind(table, key).keeps_variables_of(s),
        s.draw_and_bind(table, key).tables == s.tables,
        s.draw_and_bind(table, key).stack == s.stack,
        s.draw_and_bind(table, key).constraints.last().holds(s.tables),
        s.draw_and_bind(table, key).satisfied() == s.satisfied(),
        s.draw_and_bind(table, key).totals == (Counts {
            private: s.totals.private + 2,
            constraints: s.totals.constraints + 1,
            gates: s.totals.gates + 1 + key.num_additions(),
            ..s.totals
        }),
{
    let rows = s.tables[table as int];
    let row = unary_row(rows, key.value());
    lemma_unary_row_canonical(rows, key.value());
    s.lemma_allocate_private_two(row.1, row.2);
    let drawn = s.allocate_private(seq![row.1, row.2]);
    let first = s.last_private(seq![row.1]);
    let second = s.last_private(seq![row.1, row.2]);
    lemma_variable_lc_value(first);
    lemma_variable_lc_value(second);
    s.lemma_owns_all_stays(drawn, key);
    assert(variable_lc(first).terms[0].variable == first);
    assert(variable_lc(second).terms[0].variable == second);
    drawn.lemma_constrain_inv(Some(table), key, variable_lc(first), variable_lc(second));
    let next = s.draw_and_bind(table, key);
    next.lemma_keeps_variables_transitive(drawn, s);
    let recorded = next.constraints.last();
    assert(recorded.row() == row);
    assert(recorded.holds(s.tables));
    if s.satisfied() {
        assert forall|i: int| 0 <= i < next.constraints.len() implies (#[trigger] next.constraints[i]).holds(
            next.tables,
        ) by {
            if i < s.constraints.len() {
                assert(next.constraints[i] == s.constraints[i]);
                assert(s.constraints[i].holds(s.tables));
            }
        }
    }
    if next.satisfied() {
        assert forall|i: int| 0 <= i < s.constraints.len() implies (#[trigger] s.constraints[i]).holds(
            s.tables,
        ) by {
            assert(next.constraints[i] == s.constraints[i]);
            assert(next.constraints[i].holds(next.tables));
        }
    }
}

/// A unary lookup together with its lookup constraint: the two variables
/// that the lookup returns are bound to the key by a constraint on the table
/// that they were drawn from, so that the constraint cannot name another
/// table.
pub fn bound_unary_lookup<E: Lookup>(env: &mut E, id: usize, key: LinearCombination) -> (r: Result<
    (Variable, Variable),
    LookupError,
>)
    requires
        old(env).wf(),
        old(env).state().owns_all(key@),
        old(env).state().totals.gates + 1 + key@.num_additions() <= usize::MAX,
    ensures
        final(env).wf(),
        final(env).state().keeps_variables_of(old(env).state()),
        match r {
            Ok((first, second)) => {
                let before = old(env).state();
                let row = unary_row(before.tables[id as int], key@.value());
                &&& before.unary_lookup_error(id as nat, key@.value()) is None
                &&& final(env).state() == before.draw_and_bind(id as nat, key@)
                &&& first@ == before.last_private(seq![row.1])
                &&& second@ == before.last_private(seq![row.1, row.2])
            },
            Err(e) => {
                &&& old(env).state().unary_lookup_error(id as nat, key@.value()) == Some(e)
                &&& final(env).state() == old(env).state()
            },
        },
{
    let ghost before = env.state();
    proof {
        env.lemma_wf_inv();
    }
    match env.unary_lookup(id, &key) {
        Err(e) => Err(e),
        Ok((first, second)) => {
            let ghost row = unary_row(before.tables[id as int], key@.value());
            let ghost drawn = env.state();
            proof {
                lemma_unary_row_canonical(before.tables[id as int], key@.value());
                before.lemma_allocate_private_two(row.1, row.2);
                before.lemma_owns_all_stays(drawn, key@);
            }
            let b = LinearCombination::from_variable(first);
            let c = LinearCombination::from_variable(second);
            proof {
                assert(b@ == variable_lc(first@));
                assert(c@ == variable_lc(second@));
                assert(b@.terms[0].variable == first@);
                assert(c@.terms[0].variable == second@);
                assert(b@.num_additions() == 0);
                assert(c@.num_additions() == 0);
                assert(drawn.accepts(key@, b@, c@));
            }
            match env.enforce_lookup(id, key, b, c) {
                Ok(()) => {
                    proof {
                        env.state().lemma_keeps_variables_transitive(drawn, before);
                    }
                    Ok((first, second))
                },
                Err(e) => {
                    proof {
                        assert(false);
                    }
                    Err(e)
                },
            }
        },
    }
}

} // verus!
