//! The mathematical model of a circuit under construction.
//!
//! A [`State`] holds everything an environment has recorded: the variables,
//! the constraints, the lookup tables, every scope that was ever opened and
//! the stack of scopes that are open now. Each operation of an environment is
//! a function from state to state, and the counters are defined by counting
//! what the state holds.

use crate::field::modulus;
use crate::linear_combination::LinearCombinationView;
use crate::variable::{Mode, VariableView};
use vstd::prelude::*;

verus! {

/// The views of the items of a sequence, in the same order.
pub open spec fn views<T: View>(items: Seq<T>) -> Seq<T::V> {
    Seq::new(items.len(), |i: int| items[i]@)
}

/// The views of a sequence with one more item.
pub proof fn lemma_views_push<T: View>(items: Seq<T>, item: T)
    ensures
        views(items.push(item)) == views(items).push(item@),
{
    assert(views(items.push(item)) =~= views(items).push(item@));
}

/// The five counters of a circuit or of one scope.
pub struct Counts {
    /// Variables of mode `Constant`.
    pub constants: nat,
    /// Variables of mode `Public`.
    pub public: nat,
    /// Variables of mode `Private`.
    pub private: nat,
    /// Constraints of either kind.
    pub constraints: nat,
    /// Gates: one per constraint, plus the additions that form its sides.
    pub gates: nat,
}

impl Counts {
    /// All counters at zero.
    pub open spec fn zero() -> Counts {
        Counts { constants: 0, public: 0, private: 0, constraints: 0, gates: 0 }
    }

    /// Counter by counter sum.
    pub open spec fn plus(self, other: Counts) -> Counts {
        Counts {
            constants: self.constants + other.constants,
            public: self.public + other.public,
            private: self.private + other.private,
            constraints: self.constraints + other.constraints,
            gates: self.gates + other.gates,
        }
    }

    /// The counters after one more variable of the given mode.
    pub open spec fn with_variable(self, mode: Mode) -> Counts {
        match mode {
            Mode::Constant => Counts { constants: self.constants + 1, ..self },
            Mode::Public => Counts { public: self.public + 1, ..self },
            Mode::Private => Counts { private: self.private + 1, ..self },
        }
    }

    /// The counters after one more constraint that takes the given gates.
    pub open spec fn with_constraint(self, gates: nat) -> Counts {
        Counts { constraints: self.constraints + 1, gates: self.gates + gates, ..self }
    }
}

/// A lookup table as a mathematical value: its rows in order.
pub type TableView = Seq<(nat, nat, nat)>;

/// Every entry of the table is a canonical field element.
pub open spec fn canonical_rows(table: TableView) -> bool {
    forall|r: int|
        0 <= r < table.len() ==> {
            &&& (#[trigger] table[r]).0 < modulus()
            &&& table[r].1 < modulus()
            &&& table[r].2 < modulus()
        }
}

/// A constraint as a mathematical value.
pub struct ConstraintView {
    /// The scope that was innermost when the constraint was recorded.
    pub scope: nat,
    /// `None` for `a * b = c`; the handle of the table for a lookup
    /// constraint, which asks that `(a, b, c)` is a row of that table.
    pub table: Option<nat>,
    /// First expression.
    pub a: LinearCombinationView,
    /// Second expression.
    pub b: LinearCombinationView,
    /// Third expression.
    pub c: LinearCombinationView,
}

impl ConstraintView {
    /// The gates that the constraint takes: one, plus the additions of its
    /// three sides.
    pub open spec fn gates(self) -> nat {
        1 + self.a.num_additions() + self.b.num_additions() + self.c.num_additions()
    }

    /// The row of values that the three sides evaluate to.
    pub open spec fn row(self) -> (nat, nat, nat) {
        (self.a.value(), self.b.value(), self.c.value())
    }

    /// Whether the assignment satisfies the constraint, given the tables.
    pub open spec fn holds(self, tables: Seq<TableView>) -> bool {
        match self.table {
            None => (self.a.value() * self.b.value()) % modulus() == self.c.value(),
            Some(handle) => handle < tables.len() && tables[handle as int].contains(self.row()),
        }
    }
}

/// A scope as a mathematical value.
pub struct ScopeView {
    /// The name given when the scope was entered.
    pub name: Seq<char>,
    /// What was allocated and enforced while the scope was innermost.
    pub counts: Counts,
}

/// The sum of the weights of the items recorded in `scope`, or of all items
/// where `scope` is `None`. An item is a pair of a scope and a weight.
pub open spec fn weigh(items: Seq<(nat, nat)>, scope: Option<nat>) -> nat
    decreases items.len(),
{
    if items.len() == 0 {
        0
    } else {
        weigh(items.drop_last(), scope) + if scope is None || scope == Some(items.last().0) {
            items.last().1
        } else {
            0
        }
    }
}

/// The sum over the scopes below `n` of what each of them weighs.
pub open spec fn weigh_scopes(items: Seq<(nat, nat)>, n: nat) -> nat
    decreases n,
{
    if n == 0 {
        0
    } else {
        weigh_scopes(items, (n - 1) as nat) + weigh(items, Some((n - 1) as nat))
    }
}

/// One more item adds its weight where its scope is counted.
pub proof fn lemma_weigh_push(items: Seq<(nat, nat)>, item: (nat, nat), scope: Option<nat>)
    ensures
        weigh(items.push(item), scope) == weigh(items, scope) + if scope is None || scope == Some(
            item.0,
        ) {
            item.1
        } else {
            0
        },
{
    assert(items.push(item).drop_last() =~= items);
}

/// A scope that no item names weighs nothing.
pub proof fn lemma_weigh_unused_scope(items: Seq<(nat, nat)>, scope: nat)
    requires
        forall|i: int| 0 <= i < items.len() ==> (#[trigger] items[i]).0 != scope,
    ensures
        weigh(items, Some(scope)) == 0,
    decreases items.len(),
{
    if items.len() > 0 {
        lemma_weigh_unused_scope(items.drop_last(), scope);
    }
}

/// Items of weight at most one weigh at most their number.
pub proof fn lemma_weigh_at_most_len(items: Seq<(nat, nat)>, scope: Option<nat>)
    requires
        forall|i: int| 0 <= i < items.len() ==> (#[trigger] items[i]).1 <= 1,
    ensures
        weigh(items, scope) <= items.len(),
    decreases items.len(),
{
    if items.len() > 0 {
        lemma_weigh_at_most_len(items.drop_last(), scope);
    }
}

/// One scope weighs no more than all of them.
pub proof fn lemma_weigh_at_most_total(items: Seq<(nat, nat)>, scope: Option<nat>)
    ensures
        weigh(items, scope) <= weigh(items, None),
    decreases items.len(),
{
    if items.len() > 0 {
        lemma_weigh_at_most_total(items.drop_last(), scope);
    }
}

proof fn lemma_weigh_scopes_push(items: Seq<(nat, nat)>, item: (nat, nat), n: nat)
    ensures
        weigh_scopes(items.push(item), n) == weigh_scopes(items, n) + if item.0 < n {
            item.1
        } else {
            0
        },
    decreases n,
{
    if n > 0 {
        lemma_weigh_scopes_push(items, item, (n - 1) as nat);
        lemma_weigh_push(items, item, Some((n - 1) as nat));
    }
}

/// Every item is counted in exactly one scope: the scopes together weigh
/// what all items weigh.
pub proof fn lemma_weigh_scopes_total(items: Seq<(nat, nat)>, n: nat)
    requires
        forall|i: int| 0 <= i < items.len() ==> (#[trigger] items[i]).0 < n,
    ensures
        weigh_scopes(items, n) == weigh(items, None),
    decreases items.len(),
{
    if items.len() == 0 {
        lemma_weigh_scopes_empty(items, n);
    } else {
        let rest = items.drop_last();
        lemma_weigh_scopes_total(rest, n);
        lemma_weigh_scopes_push(rest, items.last(), n);
        assert(rest.push(items.last()) =~= items);
    }
}

proof fn lemma_weigh_scopes_empty(items: Seq<(nat, nat)>, n: nat)
    requires
        items.len() == 0,
    ensures
        weigh_scopes(items, n) == 0,
    decreases n,
{
    if n > 0 {
        lemma_weigh_scopes_empty(items, (n - 1) as nat);
    }
}

/// Each variable as an item: its scope, and one if it has the given mode.
pub open spec fn variable_weights(variables: Seq<VariableView>, mode: Mode) -> Seq<(nat, nat)> {
    Seq::new(
        variables.len(),
        |i: int|
            (
                variables[i].scope,
                if variables[i].mode == mode {
                    1nat
                } else {
                    0nat
                },
            ),
    )
}

/// Each constraint as an item: its scope, and one.
pub open spec fn constraint_weights(constraints: Seq<ConstraintView>) -> Seq<(nat, nat)> {
    Seq::new(constraints.len(), |i: int| (constraints[i].scope, 1nat))
}

/// Each constraint as an item: its scope, and the gates it takes.
pub open spec fn gate_weights(constraints: Seq<ConstraintView>) -> Seq<(nat, nat)> {
    Seq::new(constraints.len(), |i: int| (constraints[i].scope, constraints[i].gates()))
}

/// The counter by counter sum of the counters of the given scopes.
pub open spec fn sum_counts(scopes: Seq<ScopeView>) -> Counts
    decreases scopes.len(),
{
    if scopes.len() == 0 {
        Counts::zero()
    } else {
        sum_counts(scopes.drop_last()).plus(scopes.last().counts)
    }
}

/// Everything an environment has recorded.
pub struct State {
    /// All variables, in the order of their allocation.
    pub variables: Seq<VariableView>,
    /// All constraints, in the order in which they were enforced.
    pub constraints: Seq<ConstraintView>,
    /// The registered lookup tables; a table's handle is its position.
    pub tables: Seq<TableView>,
    /// Every scope that was ever entered, in the order of entry. The first
    /// is the root scope, which is open from the start.
    pub scopes: Seq<ScopeView>,
    /// The scopes that are open, outermost first, by position in `scopes`.
    pub stack: Seq<nat>,
    /// The counters of the whole circuit.
    pub totals: Counts,
}

impl State {
    /// The state of a new circuit: nothing recorded, only the root scope open.
    pub open spec fn empty() -> State {
        State {
            variables: Seq::empty(),
            constraints: Seq::empty(),
            tables: Seq::empty(),
            scopes: seq![ScopeView { name: Seq::empty(), counts: Counts::zero() }],
            stack: seq![0nat],
            totals: Counts::zero(),
        }
    }

    /// The innermost open scope.
    pub open spec fn current(self) -> nat {
        self.stack.last()
    }

    /// The counters of the innermost open scope.
    pub open spec fn current_counts(self) -> Counts {
        self.scopes[self.current() as int].counts
    }

    /// What the counters of `scope` must be, or those of the whole circuit
    /// where `scope` is `None`: the number of variables of each mode, of
    /// constraints and of gates recorded there.
    pub open spec fn tally(self, scope: Option<nat>) -> Counts {
        Counts {
            constants: weigh(variable_weights(self.variables, Mode::Constant), scope),
            public: weigh(variable_weights(self.variables, Mode::Public), scope),
            private: weigh(variable_weights(self.variables, Mode::Private), scope),
            constraints: weigh(constraint_weights(self.constraints), scope),
            gates: weigh(gate_weights(self.constraints), scope),
        }
    }

    /// The variable is one of this circuit, unchanged.
    pub open spec fn owns(self, variable: VariableView) -> bool {
        variable.index < self.variables.len() && self.variables[variable.index as int] == variable
    }

    /// Every variable of the combination is one of this circuit.
    pub open spec fn owns_all(self, lc: LinearCombinationView) -> bool {
        forall|i: int| 0 <= i < lc.terms.len() ==> self.owns(#[trigger] lc.terms[i].variable)
    }

    /// The three expressions can be recorded as a constraint: their
    /// variables are variables of this circuit, and the counter of gates has room
    /// for the gates that the constraint takes.
    pub open spec fn accepts(
        self,
        a: LinearCombinationView,
        b: LinearCombinationView,
        c: LinearCombinationView,
    ) -> bool {
        &&& self.owns_all(a)
        &&& self.owns_all(b)
        &&& self.owns_all(c)
        &&& self.totals.gates + self.next_constraint(None, a, b, c).gates() <= usize::MAX
    }

    /// The handle names a registered table.
    pub open spec fn has_table(self, handle: nat) -> bool {
        handle < self.tables.len()
    }

    /// Every constraint holds.
    pub open spec fn satisfied(self) -> bool {
        forall|i: int| 0 <= i < self.constraints.len() ==> (#[trigger] self.constraints[i]).holds(self.tables)
    }

    /// Every constraint recorded in the given scope holds.
    pub open spec fn satisfied_in(self, scope: nat) -> bool {
        forall|i: int|
            0 <= i < self.constraints.len() && (#[trigger] self.constraints[i]).scope == scope
                ==> self.constraints[i].holds(self.tables)
    }

    /// The state keeps every variable of `earlier` as it was.
    pub open spec fn keeps_variables_of(self, earlier: State) -> bool {
        &&& earlier.variables.len() <= self.variables.len()
        &&& forall|i: int| 0 <= i < earlier.variables.len() ==> self.variables[i] == earlier.variables[i]
    }

    /// Every constraint was recorded in a scope that was entered, names
    /// only variables of this circuit, and, where it is a lookup constraint,
    /// names a registered table.
    pub open spec fn constraints_fit(self) -> bool {
        forall|i: int|
            0 <= i < self.constraints.len() ==> {
                &&& (#[trigger] self.constraints[i]).scope < self.scopes.len()
                &&& self.owns_all(self.constraints[i].a)
                &&& self.owns_all(self.constraints[i].b)
                &&& self.owns_all(self.constraints[i].c)
                &&& self.constraints[i].table matches Some(handle) ==> self.has_table(handle)
            }
    }

    /// What holds of every state that an environment can reach.
    pub open spec fn inv(self) -> bool {
        &&& self.scopes.len() >= 1
        &&& self.stack.len() >= 1
        &&& forall|i: int| 0 <= i < self.stack.len() ==> #[trigger] self.stack[i] < self.scopes.len()
        &&& forall|i: int|
            0 <= i < self.variables.len() ==> {
                &&& (#[trigger] self.variables[i]).index == i
                &&& self.variables[i].value < modulus()
                &&& self.variables[i].scope < self.scopes.len()
            }
        &&& self.constraints_fit()
        &&& forall|t: int| 0 <= t < self.tables.len() ==> canonical_rows(#[trigger] self.tables[t])
        &&& forall|i: int, j: int| 0 <= i < j < self.stack.len() ==> self.stack[i] < self.stack[j]
        &&& self.totals == self.tally(None)
        &&& forall|s: nat| s < self.scopes.len() ==> (#[trigger] self.scopes[s as int]).counts == self.tally(Some(s))
    }

    /// The variable that the next allocation returns.
    pub open spec fn next_variable(self, mode: Mode, value: nat) -> VariableView {
        VariableView { index: self.variables.len(), mode, value, scope: self.current() }
    }

    /// The scopes after the counters of the innermost one became `counts`.
    pub open spec fn scopes_with_current(self, counts: Counts) -> Seq<ScopeView> {
        self.scopes.update(
            self.current() as int,
            ScopeView { name: self.scopes[self.current() as int].name, counts },
        )
    }

    /// The state after allocating a variable of the given mode and value.
    pub open spec fn allocate(self, mode: Mode, value: nat) -> State {
        State {
            variables: self.variables.push(self.next_variable(mode, value)),
            scopes: self.scopes_with_current(self.current_counts().with_variable(mode)),
            totals: self.totals.with_variable(mode),
            ..self
        }
    }

    /// The constraint that the next enforcement records.
    pub open spec fn next_constraint(
        self,
        table: Option<nat>,
        a: LinearCombinationView,
        b: LinearCombinationView,
        c: LinearCombinationView,
    ) -> ConstraintView {
        ConstraintView { scope: self.current(), table, a, b, c }
    }

    /// The state after recording a constraint in the innermost scope.
    pub open spec fn constrain(
        self,
        table: Option<nat>,
        a: LinearCombinationView,
        b: LinearCombinationView,
        c: LinearCombinationView,
    ) -> State {
        let constraint = self.next_constraint(table, a, b, c);
        State {
            constraints: self.constraints.push(constraint),
            scopes: self.scopes_with_current(self.current_counts().with_constraint(constraint.gates())),
            totals: self.totals.with_constraint(constraint.gates()),
            ..self
        }
    }

    /// The state after entering a scope of the given name.
    pub open spec fn enter(self, name: Seq<char>) -> State {
        State {
            scopes: self.scopes.push(ScopeView { name, counts: Counts::zero() }),
            stack: self.stack.push(self.scopes.len()),
            ..self
        }
    }

    /// The state after leaving the innermost scope.
    pub open spec fn exit(self) -> State {
        State { stack: self.stack.drop_last(), ..self }
    }

    /// The state after registering a table.
    pub open spec fn register(self, table: TableView) -> State {
        State { tables: self.tables.push(table), ..self }
    }

    /// No counter of variables exceeds the number of variables, no counter of
    /// constraints the number of constraints, and no scope has more gates
    /// than the whole circuit.
    pub proof fn lemma_counts_bounded(self, scope: Option<nat>)
        ensures
            self.tally(scope).constants <= self.variables.len(),
            self.tally(scope).public <= self.variables.len(),
            self.tally(scope).private <= self.variables.len(),
            self.tally(scope).constraints <= self.constraints.len(),
            self.tally(scope).gates <= self.tally(None).gates,
    {
        lemma_weigh_at_most_len(variable_weights(self.variables, Mode::Constant), scope);
        lemma_weigh_at_most_len(variable_weights(self.variables, Mode::Public), scope);
        lemma_weigh_at_most_len(variable_weights(self.variables, Mode::Private), scope);
        lemma_weigh_at_most_len(constraint_weights(self.constraints), scope);
        lemma_weigh_at_most_total(gate_weights(self.constraints), scope);
    }

    /// The variables of an expression are still variables of the circuit
    /// after the circuit has grown.
    pub proof fn lemma_owns_all_stays(self, later: State, lc: LinearCombinationView)
        requires
            later.keeps_variables_of(self),
            self.owns_all(lc),
        ensures
            later.owns_all(lc),
    {
        assert forall|i: int| 0 <= i < lc.terms.len() implies later.owns(#[trigger] lc.terms[i].variable) by {
            assert(self.owns(lc.terms[i].variable));
        }
    }

    /// The constraints of a circuit still fit after the circuit has grown
    /// by anything but a constraint.
    pub proof fn lemma_constraints_stay(self, later: State)
        requires
            self.constraints_fit(),
            later.keeps_variables_of(self),
            later.constraints == self.constraints,
            later.scopes.len() >= self.scopes.len(),
            later.tables.len() >= self.tables.len(),
        ensures
            later.constraints_fit(),
    {
        assert forall|i: int| 0 <= i < later.constraints.len() implies {
            &&& (#[trigger] later.constraints[i]).scope < later.scopes.len()
            &&& later.owns_all(later.constraints[i].a)
            &&& later.owns_all(later.constraints[i].b)
            &&& later.owns_all(later.constraints[i].c)
            &&& later.constraints[i].table matches Some(handle) ==> later.has_table(handle)
        } by {
            self.lemma_owns_all_stays(later, self.constraints[i].a);
            self.lemma_owns_all_stays(later, self.constraints[i].b);
            self.lemma_owns_all_stays(later, self.constraints[i].c);
        }
    }

    /// A new circuit satisfies the invariant.
    pub proof fn lemma_empty_inv()
        ensures
            State::empty().inv(),
    {
        let s = State::empty();
        assert(variable_weights(s.variables, Mode::Constant) =~= Seq::empty());
        assert(variable_weights(s.variables, Mode::Public) =~= Seq::empty());
        assert(variable_weights(s.variables, Mode::Private) =~= Seq::empty());
        assert(constraint_weights(s.constraints) =~= Seq::empty());
        assert(gate_weights(s.constraints) =~= Seq::empty());
    }

    /// Allocation keeps the invariant.
    pub proof fn lemma_allocate_inv(self, mode: Mode, value: nat)
        requires
            self.inv(),
            value < modulus(),
        ensures
            self.allocate(mode, value).inv(),
            self.allocate(mode, value).keeps_variables_of(self),
    {
        let next = self.allocate(mode, value);
        let v = self.next_variable(mode, value);
        assert(self.stack[self.stack.len() - 1] < self.scopes.len());
        assert(next.keeps_variables_of(self));
        self.lemma_constraints_stay(next);
        assert forall|m: Mode| #![auto]
            variable_weights(next.variables, m) == variable_weights(self.variables, m).push(
                (
                    v.scope,
                    if v.mode == m {
                        1nat
                    } else {
                        0nat
                    },
                ),
            ) by {
            assert(variable_weights(next.variables, m) =~= variable_weights(self.variables, m).push(
                (
                    v.scope,
                    if v.mode == m {
                        1nat
                    } else {
                        0nat
                    },
                ),
            ));
        }
        assert forall|scope: Option<nat>| #![auto] next.tally(scope) == if scope is None || scope == Some(v.scope) {
            self.tally(scope).with_variable(mode)
        } else {
            self.tally(scope)
        } by {
            lemma_weigh_push(variable_weights(self.variables, Mode::Constant), (v.scope, if v.mode == Mode::Constant { 1nat } else { 0nat }), scope);
            lemma_weigh_push(variable_weights(self.variables, Mode::Public), (v.scope, if v.mode == Mode::Public { 1nat } else { 0nat }), scope);
            lemma_weigh_push(variable_weights(self.variables, Mode::Private), (v.scope, if v.mode == Mode::Private { 1nat } else { 0nat }), scope);
        }
        assert forall|s: nat| s < next.scopes.len() implies (#[trigger] next.scopes[s as int]).counts == next.tally(
            Some(s),
        ) by {
            assert(self.scopes[s as int].counts == self.tally(Some(s)));
        }
    }

    /// Recording a constraint keeps the invariant.
    pub proof fn lemma_constrain_inv(
        self,
        table: Option<nat>,
        a: LinearCombinationView,
        b: LinearCombinationView,
        c: LinearCombinationView,
    )
        requires
            self.inv(),
            self.owns_all(a),
            self.owns_all(b),
            self.owns_all(c),
            table matches Some(handle) ==> self.has_table(handle),
        ensures
            self.constrain(table, a, b, c).inv(),
            self.constrain(table, a, b, c).keeps_variables_of(self),
    {
        let next = self.constrain(table, a, b, c);
        let k = self.next_constraint(table, a, b, c);
        assert(self.stack[self.stack.len() - 1] < self.scopes.len());
        assert(constraint_weights(next.constraints) =~= constraint_weights(self.constraints).push((k.scope, 1nat)));
        assert(gate_weights(next.constraints) =~= gate_weights(self.constraints).push((k.scope, k.gates())));
        assert forall|scope: Option<nat>| #![auto] next.tally(scope) == if scope is None || scope == Some(k.scope) {
            self.tally(scope).with_constraint(k.gates())
        } else {
            self.tally(scope)
        } by {
            lemma_weigh_push(constraint_weights(self.constraints), (k.scope, 1nat), scope);
            lemma_weigh_push(gate_weights(self.constraints), (k.scope, k.gates()), scope);
        }
        assert forall|s: nat| s < next.scopes.len() implies (#[trigger] next.scopes[s as int]).counts == next.tally(
            Some(s),
        ) by {
            assert(self.scopes[s as int].counts == self.tally(Some(s)));
        }
        assert forall|i: int| 0 <= i < next.constraints.len() implies {
            &&& (#[trigger] next.constraints[i]).scope < next.scopes.len()
            &&& next.owns_all(next.constraints[i].a)
            &&& next.owns_all(next.constraints[i].b)
            &&& next.owns_all(next.constraints[i].c)
            &&& next.constraints[i].table matches Some(handle) ==> next.has_table(handle)
        } by {
            if i < self.constraints.len() {
                assert(next.constraints[i] == self.constraints[i]);
            }
        }
    }

    /// Entering a scope keeps the invariant, and the new scope starts with
    /// all counters at zero.
    pub proof fn lemma_enter_inv(self, name: Seq<char>)
        requires
            self.inv(),
        ensures
            self.enter(name).inv(),
            self.enter(name).current_counts() == Counts::zero(),
            self.enter(name).keeps_variables_of(self),
    {
        let next = self.enter(name);
        let fresh = self.scopes.len();
        assert forall|i: int| 0 <= i < next.stack.len() implies #[trigger] next.stack[i] < next.scopes.len() by {
            if i < self.stack.len() {
                assert(self.stack[i] < self.scopes.len());
            }
        }
        lemma_weigh_unused_scope(variable_weights(self.variables, Mode::Constant), fresh);
        lemma_weigh_unused_scope(variable_weights(self.variables, Mode::Public), fresh);
        lemma_weigh_unused_scope(variable_weights(self.variables, Mode::Private), fresh);
        lemma_weigh_unused_scope(constraint_weights(self.constraints), fresh);
        lemma_weigh_unused_scope(gate_weights(self.constraints), fresh);
        assert forall|s: nat| s < next.scopes.len() implies (#[trigger] next.scopes[s as int]).counts == next.tally(
            Some(s),
        ) by {
            if s < fresh {
                assert(self.scopes[s as int].counts == self.tally(Some(s)));
            }
        }
        self.lemma_constraints_stay(next);
    }

    /// Leaving a scope keeps the invariant.
    pub proof fn lemma_exit_inv(self)
        requires
            self.inv(),
            self.stack.len() > 1,
        ensures
            self.exit().inv(),
            self.exit().keeps_variables_of(self),
    {
        let next = self.exit();
        assert forall|i: int| 0 <= i < next.stack.len() implies #[trigger] next.stack[i] < next.scopes.len() by {
            assert(self.stack[i] < self.scopes.len());
        }
        assert forall|s: nat| s < next.scopes.len() implies (#[trigger] next.scopes[s as int]).counts == next.tally(
            Some(s),
        ) by {
            assert(self.scopes[s as int].counts == self.tally(Some(s)));
        }
        self.lemma_constraints_stay(next);
    }

    /// Registering a table keeps the invariant.
    pub proof fn lemma_register_inv(self, table: TableView)
        requires
            self.inv(),
            canonical_rows(table),
        ensures
            self.register(table).inv(),
            self.register(table).keeps_variables_of(self),
    {
        let next = self.register(table);
        assert forall|t: int| 0 <= t < next.tables.len() implies canonical_rows(#[trigger] next.tables[t]) by {
            if t < self.tables.len() {
                assert(next.tables[t] == self.tables[t]);
            }
        }
        assert forall|s: nat| s < next.scopes.len() implies (#[trigger] next.scopes[s as int]).counts == next.tally(
            Some(s),
        ) by {
            assert(self.scopes[s as int].counts == self.tally(Some(s)));
        }
        self.lemma_constraints_stay(next);
    }
}

} // verus!
