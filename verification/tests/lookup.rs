use lookup_circuit::circuit::Circuit;
use lookup_circuit::environment::Environment;
use lookup_circuit::field::FieldElement;
use lookup_circuit::linear_combination::LinearCombination;
use lookup_circuit::lookup::{bound_unary_lookup, Lookup, LookupError};
use lookup_circuit::table::LookupTable;
use lookup_circuit::variable::{Mode, Variable};

fn fe(n: u64) -> FieldElement {
    FieldElement::from_u64(n)
}

fn constant(n: u64) -> LinearCombination {
    LinearCombination::from_constant(fe(n))
}

fn var(v: Variable) -> LinearCombination {
    LinearCombination::from_variable(v)
}

/// Rows with a repeated key, to tell the first match from a later one.
fn sample_table() -> LookupTable {
    LookupTable::from_rows(&[(fe(5), fe(10), fe(20)), (fe(7), fe(1), fe(2)), (fe(5), fe(99), fe(98))])
}

#[test]
fn tables_keep_their_rows_in_order() {
    let table = sample_table();
    assert_eq!(3, table.len());
    assert_eq!((fe(5), fe(10), fe(20)), table.row(0));
    assert_eq!((fe(5), fe(99), fe(98)), table.row(2));
    let longer = LookupTable::new().with_row(fe(1), fe(2), fe(3)).with_row(fe(4), fe(5), fe(6));
    assert_eq!(2, longer.len());
    assert_eq!((fe(4), fe(5), fe(6)), longer.row(1));
    assert_eq!(0, LookupTable::new().len());
    assert_eq!(Some(0), table.find_unary(&fe(5)));
    assert_eq!(Some(1), table.find_unary(&fe(7)));
    assert_eq!(None, table.find_unary(&fe(10)));
    assert_eq!(Some(2), table.find_binary(&fe(5), &fe(99)));
    assert_eq!(None, table.find_binary(&fe(7), &fe(2)));
    assert!(table.contains_row(&fe(7), &fe(1), &fe(2)));
    assert!(!table.contains_row(&fe(7), &fe(1), &fe(3)));
}

#[test]
fn handles_count_from_zero_without_deduplication() {
    let mut circuit = Circuit::new();
    assert_eq!(0, circuit.add_lookup_table(sample_table()));
    assert_eq!(1, circuit.add_lookup_table(sample_table()));
    assert_eq!(2, circuit.add_lookup_table(LookupTable::new()));
    assert_eq!(3, circuit.num_tables());
    assert_eq!(3, circuit.table(1).len());
    assert_eq!(0, circuit.table(2).len());
}

#[test]
fn unary_lookup_returns_the_first_matching_row() {
    let mut circuit = Circuit::new();
    let id = circuit.add_lookup_table(sample_table());
    let (a, b) = circuit.unary_lookup(id, &constant(5)).unwrap();
    assert_eq!((fe(10), fe(20)), (a.value(), b.value()));
    assert_eq!((Mode::Private, Mode::Private), (a.mode(), b.mode()));
    assert_eq!((0, 1), (a.index(), b.index()));
    assert_eq!(2, circuit.num_private());
    assert_eq!(0, circuit.num_constraints());
    let (c, d) = circuit.unary_lookup(id, &constant(7)).unwrap();
    assert_eq!((fe(1), fe(2)), (c.value(), d.value()));
    assert_eq!(4, circuit.num_private());
    // The key may be any expression: 2 + 3 = 5.
    let two = circuit.new_variable(Mode::Public, fe(2));
    let three = circuit.new_variable(Mode::Public, fe(3));
    let (e, f) = circuit.unary_lookup(id, &var(two).plus(&var(three))).unwrap();
    assert_eq!((fe(10), fe(20)), (e.value(), f.value()));
}

#[test]
fn unary_lookup_fails_for_an_absent_key() {
    let mut circuit = Circuit::new();
    let id = circuit.add_lookup_table(sample_table());
    assert_eq!(Err(LookupError::MissingRow), circuit.unary_lookup(id, &constant(6)).map(|_| ()));
    assert_eq!(Err(LookupError::MissingRow), circuit.unary_lookup(id, &constant(10)).map(|_| ()));
    assert_eq!(Err(LookupError::UnknownTable), circuit.unary_lookup(id + 1, &constant(5)).map(|_| ()));
    // A failed lookup allocates nothing.
    assert_eq!(0, circuit.num_private());
    assert_eq!(0, circuit.num_variables());
}

#[test]
fn binary_lookup_returns_the_third_column_of_the_first_match() {
    let mut circuit = Circuit::new();
    let id = circuit.add_lookup_table(sample_table());
    let a = circuit.binary_lookup(id, &constant(5), &constant(99)).unwrap();
    assert_eq!(fe(98), a.value());
    assert_eq!(Mode::Private, a.mode());
    let b = circuit.binary_lookup(id, &constant(5), &constant(10)).unwrap();
    assert_eq!(fe(20), b.value());
    assert_eq!(2, circuit.num_private());
    assert_eq!(Err(LookupError::MissingRow), circuit.binary_lookup(id, &constant(5), &constant(1)).map(|_| ()));
    assert_eq!(Err(LookupError::MissingRow), circuit.binary_lookup(id, &constant(10), &constant(20)).map(|_| ()));
    assert_eq!(Err(LookupError::UnknownTable), circuit.binary_lookup(9, &constant(5), &constant(99)).map(|_| ()));
    assert_eq!(2, circuit.num_private());
}

#[test]
fn index_lookup_returns_the_row_at_the_position() {
    let mut circuit = Circuit::new();
    let id = circuit.add_lookup_table(sample_table());
    let (a, b, c) = circuit.index_lookup(id, 2).unwrap();
    assert_eq!((fe(5), fe(99), fe(98)), (a.value(), b.value(), c.value()));
    assert_eq!((Mode::Private, Mode::Private, Mode::Private), (a.mode(), b.mode(), c.mode()));
    assert_eq!(3, circuit.num_private());
    assert_eq!(Err(LookupError::RowOutOfBounds), circuit.index_lookup(id, 3).map(|_| ()));
    assert_eq!(Err(LookupError::UnknownTable), circuit.index_lookup(id + 1, 0).map(|_| ()));
    assert_eq!(3, circuit.num_private());
}

#[test]
fn lookup_constraint_holds_for_values_drawn_from_its_table() {
    let mut circuit = Circuit::new();
    let id = circuit.add_lookup_table(sample_table());
    let key = circuit.new_variable(Mode::Public, fe(7));
    let (a, b) = circuit.unary_lookup(id, &var(key)).unwrap();
    assert!(circuit.accepts(&var(key), &var(a), &var(b)));
    assert_eq!(Ok(()), circuit.enforce_lookup(id, var(key), var(a), var(b)));
    assert!(circuit.is_satisfied());
    assert_eq!(1, circuit.num_constraints());
    assert_eq!(Some(id), circuit.constraint(0).table());
    // The row found behind a repeated key is a row of the table too.
    let c = circuit.binary_lookup(id, &constant(5), &constant(99)).unwrap();
    assert_eq!(Ok(()), circuit.enforce_lookup(id, constant(5), constant(99), var(c)));
    assert!(circuit.is_satisfied());
    let (x, y, z) = circuit.index_lookup(id, 0).unwrap();
    assert_eq!(Ok(()), circuit.enforce_lookup(id, var(x), var(y), var(z)));
    assert!(circuit.is_satisfied());
    assert_eq!(3, circuit.num_constraints());
}

#[test]
fn lookup_constraint_fails_for_a_replaced_value() {
    for replaced in 0..3 {
        let mut circuit = Circuit::new();
        let id = circuit.add_lookup_table(sample_table());
        let key = circuit.new_variable(Mode::Public, fe(7));
        let (a, b) = circuit.unary_lookup(id, &var(key)).unwrap();
        let forged = circuit.new_variable(Mode::Private, fe(3));
        let mut sides = [var(key), var(a), var(b)];
        sides[replaced] = var(forged);
        let [first, second, third] = sides;
        assert_eq!(Ok(()), circuit.enforce_lookup(id, first, second, third));
        assert!(!circuit.is_satisfied());
    }
}

#[test]
fn lookup_constraint_is_checked_against_the_table_it_names() {
    let mut circuit = Circuit::new();
    let first = circuit.add_lookup_table(sample_table());
    let second = circuit.add_lookup_table(LookupTable::from_rows(&[(fe(7), fe(70), fe(700))]));
    let (a, b) = circuit.unary_lookup(second, &constant(7)).unwrap();
    assert_eq!((fe(70), fe(700)), (a.value(), b.value()));
    // Bound to the table that the values came from: satisfied.
    assert_eq!(Ok(()), circuit.enforce_lookup(second, constant(7), var(a), var(b)));
    assert!(circuit.is_satisfied());
    // Bound to another table: not satisfied.
    assert_eq!(Ok(()), circuit.enforce_lookup(first, constant(7), var(a), var(b)));
    assert!(!circuit.is_satisfied());
}

#[test]
fn lookup_constraint_needs_a_registered_table() {
    let mut circuit = Circuit::new();
    assert_eq!(Err(LookupError::UnknownTable), circuit.enforce_lookup(0, constant(1), constant(2), constant(3)));
    assert_eq!(0, circuit.num_constraints());
    let id = circuit.add_lookup_table(sample_table());
    assert_eq!(Err(LookupError::UnknownTable), circuit.enforce_lookup(id + 1, constant(1), constant(2), constant(3)));
    assert_eq!(Ok(()), circuit.enforce_lookup(id, constant(1), constant(2), constant(3)));
    assert_eq!(1, circuit.num_constraints());
    assert!(!circuit.is_satisfied());
}

#[test]
fn reset_forgets_every_table() {
    let mut circuit = Circuit::new();
    let id = circuit.add_lookup_table(sample_table());
    assert!(circuit.unary_lookup(id, &constant(5)).is_ok());
    circuit.reset();
    assert_eq!(0, circuit.num_tables());
    assert_eq!(0, circuit.num_private());
    assert_eq!(Err(LookupError::UnknownTable), circuit.unary_lookup(id, &constant(5)).map(|_| ()));
    assert_eq!(Err(LookupError::UnknownTable), circuit.binary_lookup(id, &constant(5), &constant(10)).map(|_| ()));
    assert_eq!(Err(LookupError::UnknownTable), circuit.index_lookup(id, 0).map(|_| ()));
    assert_eq!(Err(LookupError::UnknownTable), circuit.enforce_lookup(id, constant(5), constant(10), constant(20)));
    // The first table after a reset has the first handle again.
    assert_eq!(0, circuit.add_lookup_table(LookupTable::new()));
}

#[test]
fn lookups_are_counted_in_the_innermost_scope() {
    let mut circuit = Circuit::new();
    let id = circuit.add_lookup_table(sample_table());
    circuit.push_scope("lookup");
    let (a, b) = circuit.unary_lookup(id, &constant(5)).unwrap();
    assert_eq!(Ok(()), circuit.enforce_lookup(id, constant(5), var(a), var(b)));
    assert_eq!(2, circuit.num_private_in_scope());
    assert_eq!(1, circuit.num_constraints_in_scope());
    assert_eq!(1, circuit.constraint(0).scope());
    assert_eq!(1, a.scope());
    circuit.pop_scope();
    assert_eq!(0, circuit.num_private_in_scope());
    assert_eq!(2, circuit.num_private());
    assert_eq!(1, circuit.num_constraints());
}

#[test]
fn bound_lookup_records_the_constraint_on_its_own_table() {
    let mut circuit = Circuit::new();
    let first = circuit.add_lookup_table(sample_table());
    let second = circuit.add_lookup_table(LookupTable::from_rows(&[(fe(7), fe(70), fe(700))]));
    let key = circuit.new_variable(Mode::Public, fe(7));
    let (a, b) = bound_unary_lookup(&mut circuit, second, var(key)).unwrap();
    assert_eq!((fe(70), fe(700)), (a.value(), b.value()));
    assert_eq!(1, circuit.num_constraints());
    assert_eq!(Some(second), circuit.constraint(0).table());
    assert!(circuit.is_satisfied());
    let (c, d) = bound_unary_lookup(&mut circuit, first, var(key)).unwrap();
    assert_eq!((fe(1), fe(2)), (c.value(), d.value()));
    assert_eq!(Some(first), circuit.constraint(1).table());
    assert_eq!((4, 2, 2), (circuit.num_private(), circuit.num_constraints(), circuit.num_gates()));
    assert!(circuit.is_satisfied());
}

#[test]
fn bound_lookup_that_fails_records_nothing() {
    let mut circuit = Circuit::new();
    let id = circuit.add_lookup_table(sample_table());
    assert_eq!(Err(LookupError::MissingRow), bound_unary_lookup(&mut circuit, id, constant(6)).map(|_| ()));
    assert_eq!(Err(LookupError::UnknownTable), bound_unary_lookup(&mut circuit, id + 1, constant(5)).map(|_| ()));
    assert_eq!((0, 0), (circuit.num_private(), circuit.num_constraints()));
}
