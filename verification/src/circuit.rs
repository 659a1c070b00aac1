//! The circuit: the environment that records variables, constraints, lookup
//! tables and scopes in memory.

use crate::constraint::Constraint;
use crate::environment::Environment;
use crate::field::{modulus, FieldElement};
use crate::linear_combination::{terms_sum, LinearCombination};
use crate::lookup::{Lookup, LookupError};
use crate::state::{lemma_views_push, views, Counts, ScopeView, State};
use crate::table::{lemma_binary_hit_unique, lemma_unary_hit_unique, LookupTable};
use crate::variable::{Mode, Variable};
use vstd::arithmetic::div_mod::lemma_small_mod;
use vstd::prelude::*;

verus! {

/// The five counters of a circuit or of one scope, as machine integers.
#[derive(Clone, Copy, Debug)]
struct Counter {
    constants: usize,
    public: usize,
    private: usize,
    constraints: usize,
    gates: usize,
}

impl View for Counter {
    type V = Counts;

    closed spec fn view(&self) -> Counts {
        Counts {
            constants: self.constants as nat,
            public: self.public as nat,
            private: self.private as nat,
            constraints: self.constraints as nat,
            gates: self.gates as nat,
        }
    }
}

impl Counter {
    /// All counters at zero.
    fn zero() -> (r: Counter)
        ensures
            r@ == Counts::zero(),
    {
        Counter { constants: 0, public: 0, private: 0, constraints: 0, gates: 0 }
    }

    /// The counters after one more variable of the given mode.
    fn with_variable(self, mode: Mode) -> (r: Counter)
        requires
            self@.constants < usize::MAX,
            self@.public < usize::MAX,
            self@.private < usize::MAX,
        ensures
            r@ == self@.with_variable(mode),
    {
        match mode {
            Mode::Constant => Counter { constants: self.constants + 1, ..self },
            Mode::Public => Counter { public: self.public + 1, ..self },
            Mode::Private => Counter { private: self.private + 1, ..self },
        }
    }

    /// The counters after one more constraint that takes the given gates.
    fn with_constraint(self, gates: usize) -> (r: Counter)
        requires
            self@.constraints < usize::MAX,
            self@.gates + gates <= usize::MAX,
        ensures
            r@ == self@.with_constraint(gates as nat),
    {
        Counter { constraints: self.constraints + 1, gates: self.gates + gates, ..self }
    }
}

/// A circuit under construction.
///
/// It owns every variable, constraint and lookup table of the circuit, and
/// keeps the counters of the whole circuit and of every scope.
#[derive(Debug)]
pub struct Circuit {
    variables: Vec<Variable>,
    constraints: Vec<Constraint>,
    tables: Vec<LookupTable>,
    scope_names: Vec<String>,
    scope_counters: Vec<Counter>,
    stack: Vec<usize>,
    totals: Counter,
}

impl View for Circuit {
    type V = State;

    closed spec fn view(&self) -> State {
        State {
            variables: views(self.variables@),
            constraints: views(self.constraints@),
            tables: views(self.tables@),
            scopes: Seq::new(
                self.scope_names@.len(),
                |i: int| ScopeView { name: self.scope_names@[i]@, counts: self.scope_counters@[i]@ },
            ),
            stack: Seq::new(self.stack@.len(), |i: int| self.stack@[i] as nat),
            totals: self.totals@,
        }
    }
}

impl Circuit {
    /// The parts of the circuit fit together and its state satisfies the
    /// invariant of the model.
    pub closed spec fn valid(&self) -> bool {
        &&& self.scope_names@.len() == self.scope_counters@.len()
        &&& self@.inv()
    }

    /// A circuit in which nothing is recorded and only the root scope is
    /// open.
    pub fn new() -> (r: Circuit)
        ensures
            r.valid(),
            r@ == State::empty(),
    {
        let mut scope_names: Vec<String> = Vec::new();
        scope_names.push(String::new());
        let mut scope_counters: Vec<Counter> = Vec::new();
        scope_counters.push(Counter::zero());
        let mut stack: Vec<usize> = Vec::new();
        stack.push(0);
        let r = Circuit {
            variables: Vec::new(),
            constraints: Vec::new(),
            tables: Vec::new(),
            scope_names,
            scope_counters,
            stack,
            totals: Counter::zero(),
        };
        proof {
            State::lemma_empty_inv();
            assert(r@.variables =~= State::empty().variables);
            assert(r@.constraints =~= State::empty().constraints);
            assert(r@.tables =~= State::empty().tables);
            assert(r@.scopes =~= State::empty().scopes);
            assert(r@.stack =~= State::empty().stack);
        }
        r
    }

    /// The number of variables of the circuit, of every mode.
    pub fn num_variables(&self) -> (r: usize)
        ensures
            r == self@.variables.len(),
    {
        self.variables.len()
    }

    /// The variable that was allocated at the given position.
    pub fn variable(&self, index: usize) -> (r: Variable)
        requires
            index < self@.variables.len(),
        ensures
            r@ == self@.variables[index as int],
    {
        self.variables[index]
    }

    /// The constraint that was recorded at the given position.
    pub fn constraint(&self, index: usize) -> (r: &Constraint)
        requires
            index < self@.constraints.len(),
        ensures
            r@ == self@.constraints[index as int],
    {
        &self.constraints[index]
    }

    /// The number of registered lookup tables.
    pub fn num_tables(&self) -> (r: usize)
        ensures
            r == self@.tables.len(),
    {
        self.tables.len()
    }

    /// The table with the given handle.
    pub fn table(&self, id: usize) -> (r: &LookupTable)
        requires
            id < self@.tables.len(),
        ensures
            r@ == self@.tables[id as int],
    {
        &self.tables[id]
    }

    /// The number of scopes that were ever entered, the root scope included.
    pub fn num_scopes(&self) -> (r: usize)
        ensures
            r == self@.scopes.len(),
    {
        self.scope_names.len()
    }

    /// The name of the scope with the given number.
    pub fn scope_name(&self, scope: usize) -> (r: &String)
        requires
            scope < self@.scopes.len(),
        ensures
            r@ == self@.scopes[scope as int].name,
    {
        &self.scope_names[scope]
    }

    /// The number of the innermost open scope.
    pub fn current_scope(&self) -> (r: usize)
        requires
            self.valid(),
        ensures
            r == self@.current(),
    {
        self.stack[self.stack.len() - 1]
    }

    /// Whether the variable is one of this circuit, unchanged.
    pub fn owns(&self, variable: &Variable) -> (r: bool)
        ensures
            r == self@.owns(variable@),
    {
        let index = variable.index();
        index < self.variables.len() && self.variables[index].same(variable)
    }

    /// Whether every variable of the combination is one of this circuit.
    pub fn owns_all(&self, lc: &LinearCombination) -> (r: bool)
        ensures
            r == self@.owns_all(lc@),
    {
        let mut i: usize = 0;
        while i < lc.num_terms()
            invariant
                i <= lc@.terms.len(),
                forall|j: int| 0 <= j < i ==> self@.owns(#[trigger] lc@.terms[j].variable),
            decreases lc@.terms.len() - i,
        {
            let variable = lc.term(i).variable();
            if !self.owns(&variable) {
                return false;
            }
            i += 1;
        }
        true
    }

    /// The counters of the innermost scope.
    fn current_counter(&self) -> (r: Counter)
        requires
            self.valid(),
        ensures
            r@ == self@.current_counts(),
    {
        let current = self.stack[self.stack.len() - 1];
        assert(self@.stack[self.stack@.len() - 1] < self@.scopes.len());
        self.scope_counters[current]
    }

    /// Records a constraint of either kind in the innermost scope, and counts
    /// it and its gates there and in the whole circuit.
    fn record(
        &mut self,
        table: Option<usize>,
        a: LinearCombination,
        b: LinearCombination,
        c: LinearCombination,
    )
        requires
            old(self).valid(),
            old(self)@.accepts(a@, b@, c@),
            table matches Some(handle) ==> old(self)@.has_table(handle as nat),
        ensures
            final(self).valid(),
            final(self)@ == old(self)@.constrain(
                match table {
                    Some(handle) => Some(handle as nat),
                    None => None,
                },
                a@,
                b@,
                c@,
            ),
            final(self)@.keeps_variables_of(old(self)@),
    {
        let ghost before = self@;
        let ghost model_table: Option<nat> = match table {
            Some(handle) => Some(handle as nat),
            None => None,
        };
        let gates = 1 + a.num_additions() + b.num_additions() + c.num_additions();
        let current = self.stack[self.stack.len() - 1];
        assert(before.stack[before.stack.len() - 1] < before.scopes.len());
        let constraint = Constraint::new(current, table, a, b, c);
        assert(constraint@ == before.next_constraint(model_table, a@, b@, c@));
        assert(constraint@.gates() == before.next_constraint(None, a@, b@, c@).gates());
        self.constraints.push(constraint);
        let recorded = self.constraints.len();
        proof {
            before.lemma_constrain_inv(model_table, a@, b@, c@);
            before.lemma_counts_bounded(None);
            before.lemma_counts_bounded(Some(current as nat));
            lemma_views_push(old(self).constraints@, constraint);
            assert(before.scopes[current as int].counts == before.tally(Some(current as nat)));
        }
        self.totals = self.totals.with_constraint(gates);
        let counter = self.scope_counters[current];
        self.scope_counters[current] = counter.with_constraint(gates);
        proof {
            let after = before.constrain(model_table, a@, b@, c@);
            assert(self@.scopes =~= after.scopes);
            assert(self@.stack =~= after.stack);
        }
    }

    /// Allocates a private variable for a value that was drawn from a table.
    fn draw(&mut self, value: FieldElement) -> (v: Variable)
        requires
            old(self).valid(),
        ensures
            final(self).valid(),
            final(self)@ == old(self)@.allocate(Mode::Private, value@),
            final(self)@.keeps_variables_of(old(self)@),
            v@ == old(self)@.next_variable(Mode::Private, value@),
    {
        self.new_variable(Mode::Private, value)
    }
}

impl Environment for Circuit {
    /// The state of a circuit is its view.
    open spec fn state(&self) -> State {
        self@
    }

    /// A circuit is in a valid condition when it is `valid`.
    open spec fn wf(&self) -> bool {
        self.valid()
    }

    /// A circuit starts empty.
    open spec fn initial() -> State {
        State::empty()
    }

    /// The invariant of the model is part of `valid`.
    proof fn lemma_wf_inv(&self) {
    }

    /// The constant zero, as an expression without variables.
    fn zero(&self) -> (r: LinearCombination) {
        let r = LinearCombination::zero();
        assert(terms_sum(r@.terms) == 0);
        proof {
            lemma_small_mod(0, modulus());
        }
        r
    }

    /// The constant one, as an expression without variables.
    fn one(&self) -> (r: LinearCombination) {
        let r = LinearCombination::one();
        assert(terms_sum(r@.terms) == 0);
        proof {
            lemma_small_mod(1, modulus());
        }
        r
    }

    /// Allocates the variable at the end of the list of variables, tags it with
    /// the innermost scope, and counts it there and in the whole circuit.
    fn new_variable(&mut self, mode: Mode, value: FieldElement) -> (v: Variable) {
        let ghost before = self@;
        let current = self.stack[self.stack.len() - 1];
        assert(before.stack[before.stack.len() - 1] < before.scopes.len());
        let v = Variable::new(self.variables.len(), mode, value, current);
        self.variables.push(v);
        let allocated = self.variables.len();
        proof {
            use_type_invariant(&value);
            before.lemma_allocate_inv(mode, value@);
            before.lemma_counts_bounded(None);
            before.lemma_counts_bounded(Some(current as nat));
            lemma_views_push(old(self).variables@, v);
            assert(before.scopes[current as int].counts == before.tally(Some(current as nat)));
        }
        self.totals = self.totals.with_variable(mode);
        let counter = self.scope_counters[current];
        self.scope_counters[current] = counter.with_variable(mode);
        proof {
            let after = before.allocate(mode, value@);
            assert(self@.scopes =~= after.scopes);
            assert(self@.stack =~= after.stack);
        }
        v
    }

    /// Enters a new scope: it is recorded behind all scopes that were ever
    /// entered, and is innermost until it is left.
    fn push_scope(&mut self, name: &str) {
        let ghost before = self@;
        let scope = self.scope_names.len();
        self.scope_names.push(name.to_owned());
        self.scope_counters.push(Counter::zero());
        self.stack.push(scope);
        proof {
            before.lemma_enter_inv(name@);
            let after = before.enter(name@);
            assert(self@.scopes =~= after.scopes);
            assert(self@.stack =~= after.stack);
        }
    }

    /// Leaves the innermost scope. Its counters stay recorded.
    fn pop_scope(&mut self) {
        let ghost before = self@;
        self.stack.pop();
        proof {
            before.lemma_exit_inv();
            let after = before.exit();
            assert(self@.scopes =~= after.scopes);
            assert(self@.stack =~= after.stack);
        }
    }

    /// The number of scopes that are open inside the root scope.
    fn depth(&self) -> (r: usize) {
        self.stack.len() - 1
    }

    /// Whether the three expressions name only variables of this circuit and
    /// the counter of gates has room for their constraint.
    fn accepts(&self, a: &LinearCombination, b: &LinearCombination, c: &LinearCombination) -> (r:
        bool) {
        if !(self.owns_all(a) && self.owns_all(b) && self.owns_all(c)) {
            return false;
        }
        let gates = match a.num_additions().checked_add(b.num_additions()) {
            Some(two) => match two.checked_add(c.num_additions()) {
                Some(three) => three.checked_add(1),
                None => None,
            },
            None => None,
        };
        match gates {
            Some(gates) => self.totals.gates.checked_add(gates).is_some(),
            None => false,
        }
    }

    /// Records the constraint `a * b = c` in the innermost scope.
    fn enforce(&mut self, a: LinearCombination, b: LinearCombination, c: LinearCombination) {
        self.record(None, a, b, c);
    }

    /// Evaluates every constraint against the assignment.
    fn is_satisfied(&self) -> (r: bool) {
        let mut i: usize = 0;
        while i < self.constraints.len()
            invariant
                i <= self.constraints@.len(),
                forall|j: int| 0 <= j < i ==> (#[trigger] self@.constraints[j]).holds(self@.tables),
            decreases self.constraints@.len() - i,
        {
            if !self.constraints[i].holds(&self.tables) {
                assert(!self@.constraints[i as int].holds(self@.tables));
                return false;
            }
            i += 1;
        }
        true
    }

    /// Evaluates the constraints of the innermost scope against the
    /// assignment.
    fn is_satisfied_in_scope(&self) -> (r: bool) {
        let current = self.stack[self.stack.len() - 1];
        let mut i: usize = 0;
        while i < self.constraints.len()
            invariant
                i <= self.constraints@.len(),
                current == self@.current(),
                forall|j: int|
                    0 <= j < i && (#[trigger] self@.constraints[j]).scope == current
                        ==> self@.constraints[j].holds(self@.tables),
            decreases self.constraints@.len() - i,
        {
            if self.constraints[i].scope() == current && !self.constraints[i].holds(&self.tables) {
                assert(!self@.constraints[i as int].holds(self@.tables));
                return false;
            }
            i += 1;
        }
        true
    }

    /// The number of constants in the whole circuit.
    fn num_constants(&self) -> (r: usize) {
        self.totals.constants
    }

    /// The number of public variables in the whole circuit.
    fn num_public(&self) -> (r: usize) {
        self.totals.public
    }

    /// The number of private variables in the whole circuit.
    fn num_private(&self) -> (r: usize) {
        self.totals.private
    }

    /// The number of constraints in the whole circuit.
    fn num_constraints(&self) -> (r: usize) {
        self.totals.constraints
    }

    /// The number of gates in the whole circuit.
    fn num_gates(&self) -> (r: usize) {
        self.totals.gates
    }

    /// The number of constants allocated in the innermost scope.
    fn num_constants_in_scope(&self) -> (r: usize) {
        self.current_counter().constants
    }

    /// The number of public variables allocated in the innermost scope.
    fn num_public_in_scope(&self) -> (r: usize) {
        self.current_counter().public
    }

    /// The number of private variables allocated in the innermost scope.
    fn num_private_in_scope(&self) -> (r: usize) {
        self.current_counter().private
    }

    /// The number of constraints recorded in the innermost scope.
    fn num_constraints_in_scope(&self) -> (r: usize) {
        self.current_counter().constraints
    }

    /// The number of gates of the constraints recorded in the innermost scope.
    fn num_gates_in_scope(&self) -> (r: usize) {
        self.current_counter().gates
    }

    /// Drops every variable, constraint, table and scope: the circuit is as
    /// new.
    fn reset(&mut self) {
        *self = Circuit::new();
    }
}

impl Lookup for Circuit {
    /// Appends the table to the registry; its handle is its position.
    fn add_lookup_table(&mut self, table: LookupTable) -> (id: usize) {
        let ghost before = self@;
        let id = self.tables.len();
        proof {
            use_type_invariant(&table);
            table.lemma_canonical();
            before.lemma_register_inv(table@);
            lemma_views_push(self.tables@, table);
        }
        self.tables.push(table);
        proof {
            let after = before.register(table@);
            assert(self@.scopes =~= after.scopes);
            assert(self@.stack =~= after.stack);
        }
        id
    }

    /// Scans the table from its first row for the value of the key, and
    /// allocates two private variables for the rest of the row that it finds.
    fn unary_lookup(&mut self, id: usize, key: &LinearCombination) -> (r: Result<
        (Variable, Variable),
        LookupError,
    >) {
        if id >= self.tables.len() {
            return Err(LookupError::UnknownTable);
        }
        let value = key.value();
        match self.tables[id].find_unary(&value) {
            None => Err(LookupError::MissingRow),
            Some(position) => {
                let row = self.tables[id].row(position);
                let ghost before = self@;
                proof {
                    lemma_unary_hit_unique(before.tables[id as int], value@, position as int);
                    assert(seq![row.1@, row.2@].drop_last() =~= seq![row.1@]);
                    assert(seq![row.1@].drop_last() =~= Seq::<nat>::empty());
                    reveal_with_fuel(State::allocate_private, 3);
                }
                let first = self.draw(row.1);
                let second = self.draw(row.2);
                Ok((first, second))
            },
        }
    }

    /// Scans the table from its first row for the values of the two keys, and
    /// allocates a private variable for the third column of the row that it
    /// finds.
    fn binary_lookup(&mut self, id: usize, key_1: &LinearCombination, key_2: &LinearCombination) -> (r:
        Result<Variable, LookupError>) {
        if id >= self.tables.len() {
            return Err(LookupError::UnknownTable);
        }
        let value_1 = key_1.value();
        let value_2 = key_2.value();
        match self.tables[id].find_binary(&value_1, &value_2) {
            None => Err(LookupError::MissingRow),
            Some(position) => {
                let row = self.tables[id].row(position);
                let ghost before = self@;
                proof {
                    lemma_binary_hit_unique(before.tables[id as int], value_1@, value_2@, position as int);
                    assert(seq![row.2@].drop_last() =~= Seq::<nat>::empty());
                    reveal_with_fuel(State::allocate_private, 2);
                }
                let third = self.draw(row.2);
                Ok(third)
            },
        }
    }

    /// Allocates three private variables for the row at the position.
    fn index_lookup(&mut self, id: usize, index: usize) -> (r: Result<
        (Variable, Variable, Variable),
        LookupError,
    >) {
        if id >= self.tables.len() {
            return Err(LookupError::UnknownTable);
        }
        if index >= self.tables[id].len() {
            return Err(LookupError::RowOutOfBounds);
        }
        let row = self.tables[id].row(index);
        proof {
            assert(seq![row.0@, row.1@, row.2@].drop_last() =~= seq![row.0@, row.1@]);
            assert(seq![row.0@, row.1@].drop_last() =~= seq![row.0@]);
            assert(seq![row.0@].drop_last() =~= Seq::<nat>::empty());
            reveal_with_fuel(State::allocate_private, 4);
        }
        let first = self.draw(row.0);
        let second = self.draw(row.1);
        let third = self.draw(row.2);
        Ok((first, second, third))
    }

    /// Records, in the innermost scope, the constraint that `(a, b, c)` is a
    /// row of the table with the given handle.
    fn enforce_lookup(
        &mut self,
        id: usize,
        a: LinearCombination,
        b: LinearCombination,
        c: LinearCombination,
    ) -> (r: Result<(), LookupError>) {
        if id >= self.tables.len() {
            return Err(LookupError::UnknownTable);
        }
        self.record(Some(id), a, b, c);
        Ok(())
    }
}

} // verus!
