use lookup_circuit::aleo::Aleo;
use lookup_circuit::circuit::Circuit;
use lookup_circuit::environment::Environment;
use lookup_circuit::field::FieldElement;
use lookup_circuit::linear_combination::LinearCombination;
use lookup_circuit::variable::Mode;

/// Compute 2^EXPONENT - 1, in a purposefully constraint-inefficient manner for testing.
fn create_example_circuit<E: Environment>(env: &mut E) -> LinearCombination {
    let one = FieldElement::one();
    let two = one.plus(&one);

    const EXPONENT: usize = 64;

    // Compute 2^EXPONENT - 1, in a purposefully constraint-inefficient manner for testing.
    let mut candidate = LinearCombination::from_variable(env.new_variable(Mode::Public, one));
    let mut accumulator = LinearCombination::from_variable(env.new_variable(Mode::Private, two));
    for _ in 0..EXPONENT {
        candidate = candidate.plus(&accumulator);
        let factor = LinearCombination::from_variable(env.new_variable(Mode::Private, two));
        let product = accumulator.value().times(&factor.value());
        let output = LinearCombination::from_variable(env.new_variable(Mode::Private, product));
        assert!(env.accepts(&accumulator, &factor, &output));
        env.enforce(accumulator, factor, output.clone());
        accumulator = output;
    }

    // accumulator - 1 == candidate
    assert_eq!(accumulator.value(), candidate.value().plus(&FieldElement::one()));
    // The environment starts empty: the candidate is its only public variable.
    assert_eq!(1, env.num_public());
    assert_eq!(2 * EXPONENT + 1, env.num_private());
    assert_eq!(EXPONENT, env.num_constraints());
    assert!(env.is_satisfied());

    candidate
}

#[test]
fn test_print_circuit() {
    let mut env = Aleo::new();
    let candidate = create_example_circuit(&mut env);
    // 2^65 - 1
    assert_eq!([u64::MAX, 1, 0, 0], candidate.value().to_limbs());
    println!("{:?}", env.circuit());
}

#[test]
fn test_circuit_scope() {
    let mut env = Aleo::new();
    env.push_scope("test_circuit_scope");
    assert_eq!(0, env.num_constants());
    // A new environment is empty: no public variable was allocated.
    assert_eq!(0, env.num_public());
    assert_eq!(0, env.num_private());
    assert_eq!(0, env.num_constraints());

    assert_eq!(0, env.num_constants_in_scope());
    assert_eq!(0, env.num_public_in_scope());
    assert_eq!(0, env.num_private_in_scope());
    assert_eq!(0, env.num_constraints_in_scope());
    env.pop_scope();
}

#[test]
fn new_circuit_is_empty() {
    let circuit = Circuit::new();
    assert_eq!(0, circuit.num_constants());
    assert_eq!(0, circuit.num_public());
    assert_eq!(0, circuit.num_private());
    assert_eq!(0, circuit.num_constraints());
    assert_eq!(0, circuit.num_gates());
    assert_eq!(0, circuit.num_constants_in_scope());
    assert_eq!(0, circuit.num_public_in_scope());
    assert_eq!(0, circuit.num_private_in_scope());
    assert_eq!(0, circuit.num_constraints_in_scope());
    assert_eq!(0, circuit.num_gates_in_scope());
    assert_eq!(0, circuit.num_variables());
    assert_eq!(0, circuit.num_tables());
    assert_eq!(1, circuit.num_scopes());
    assert_eq!(0, circuit.depth());
    assert!(circuit.is_satisfied());
    assert!(circuit.is_satisfied_in_scope());
}

#[test]
fn product_constraint_is_checked() {
    let mut circuit = Circuit::new();
    let a = circuit.new_variable(Mode::Public, FieldElement::from_u64(3));
    let b = circuit.new_variable(Mode::Private, FieldElement::from_u64(4));
    let c = circuit.new_variable(Mode::Private, FieldElement::from_u64(12));
    let d = circuit.new_variable(Mode::Private, FieldElement::from_u64(13));
    circuit.enforce(
        LinearCombination::from_variable(a),
        LinearCombination::from_variable(b),
        LinearCombination::from_variable(c),
    );
    assert!(circuit.is_satisfied());
    circuit.enforce(
        LinearCombination::from_variable(a),
        LinearCombination::from_variable(b),
        LinearCombination::from_variable(d),
    );
    assert!(!circuit.is_satisfied());
    assert_eq!(2, circuit.num_constraints());
    assert_eq!(2, circuit.num_gates());
    assert_eq!(None, circuit.constraint(0).table());
    assert_eq!(0, circuit.constraint(1).scope());
    let (first, second, third) = circuit.constraint(1).to_terms();
    assert_eq!((3, 4, 13), (first.value().to_limbs()[0], second.value().to_limbs()[0], third.value().to_limbs()[0]));
}

#[test]
fn variables_keep_mode_and_value() {
    let mut circuit = Circuit::new();
    let a = circuit.new_variable(Mode::Constant, FieldElement::from_u64(9));
    let b = circuit.new_variable(Mode::Public, FieldElement::from_u64(8));
    circuit.push_scope("inner");
    let c = circuit.new_variable(Mode::Private, FieldElement::from_u64(72));
    circuit.enforce(
        LinearCombination::from_variable(a),
        LinearCombination::from_variable(b),
        LinearCombination::from_variable(c),
    );
    circuit.pop_scope();
    for _ in 0..10 {
        circuit.new_variable(Mode::Private, FieldElement::zero());
    }
    assert_eq!((0, Mode::Constant, FieldElement::from_u64(9), 0), (a.index(), a.mode(), a.value(), a.scope()));
    assert!(circuit.owns(&a));
    assert!(circuit.owns(&b));
    assert!(circuit.owns(&c));
    assert!(circuit.variable(0).same(&a));
    assert!(circuit.variable(1).same(&b));
    assert!(circuit.variable(2).same(&c));
    assert_eq!(Mode::Public, circuit.variable(1).mode());
    assert_eq!(FieldElement::from_u64(72), circuit.variable(2).value());
    assert_eq!(1, circuit.variable(2).scope());
    assert_eq!(13, circuit.num_variables());
}

#[test]
fn variables_of_another_circuit_are_not_owned() {
    let mut first = Circuit::new();
    let mut second = Circuit::new();
    let a = first.new_variable(Mode::Private, FieldElement::from_u64(1));
    let b = second.new_variable(Mode::Private, FieldElement::from_u64(2));
    assert!(first.owns(&a));
    assert!(!first.owns(&b));
    assert!(!second.accepts(
        &LinearCombination::from_variable(a),
        &LinearCombination::one(),
        &LinearCombination::from_variable(b)
    ));
    assert!(second.accepts(
        &LinearCombination::from_variable(b),
        &LinearCombination::one(),
        &LinearCombination::from_variable(b)
    ));
}

#[test]
fn scope_counters_count_what_was_done_while_innermost() {
    let mut circuit = Circuit::new();
    let one = FieldElement::one();
    let p = circuit.new_variable(Mode::Private, one);
    circuit.push_scope("a");
    assert_eq!(1, circuit.depth());
    assert_eq!(0, circuit.num_private_in_scope());
    let x = circuit.new_variable(Mode::Public, one);
    let y = circuit.new_variable(Mode::Public, one);
    circuit.enforce(
        LinearCombination::from_variable(x),
        LinearCombination::from_variable(y),
        LinearCombination::from_variable(p),
    );
    circuit.push_scope("b");
    assert_eq!(2, circuit.depth());
    circuit.new_variable(Mode::Constant, one);
    circuit.new_variable(Mode::Constant, one);
    circuit.new_variable(Mode::Constant, one);
    assert_eq!((3, 0, 0, 0, 0), in_scope(&circuit));
    assert_eq!((3, 2, 1, 1, 1), global(&circuit));
    circuit.pop_scope();
    // The counters of `a` are what they were before `b` was entered.
    assert_eq!((0, 2, 0, 1, 1), in_scope(&circuit));
    circuit.new_variable(Mode::Private, one);
    assert_eq!((0, 2, 1, 1, 1), in_scope(&circuit));
    circuit.pop_scope();
    assert_eq!((0, 0, 1, 0, 0), in_scope(&circuit));
    assert_eq!((3, 2, 2, 1, 1), global(&circuit));
    // A sibling starts from zero, whatever its name.
    circuit.push_scope("a");
    assert_eq!((0, 0, 0, 0, 0), in_scope(&circuit));
    assert_eq!((3, 2, 2, 1, 1), global(&circuit));
    circuit.pop_scope();
    assert_eq!(4, circuit.num_scopes());
    assert_eq!("", circuit.scope_name(0));
    assert_eq!("a", circuit.scope_name(1));
    assert_eq!("b", circuit.scope_name(2));
    assert_eq!("a", circuit.scope_name(3));
    assert_eq!(0, circuit.current_scope());
    // global = root + a + b + a
    assert_eq!((3, 2, 2, 1, 1), (0 + 0 + 3 + 0, 0 + 2 + 0 + 0, 1 + 1 + 0 + 0, 0 + 1 + 0 + 0, 0 + 1 + 0 + 0));
}

fn in_scope(circuit: &Circuit) -> (usize, usize, usize, usize, usize) {
    (
        circuit.num_constants_in_scope(),
        circuit.num_public_in_scope(),
        circuit.num_private_in_scope(),
        circuit.num_constraints_in_scope(),
        circuit.num_gates_in_scope(),
    )
}

fn global(circuit: &Circuit) -> (usize, usize, usize, usize, usize) {
    (
        circuit.num_constants(),
        circuit.num_public(),
        circuit.num_private(),
        circuit.num_constraints(),
        circuit.num_gates(),
    )
}

#[test]
fn satisfaction_in_scope_looks_at_the_innermost_scope_only() {
    let mut circuit = Circuit::new();
    let two = circuit.new_variable(Mode::Private, FieldElement::from_u64(2));
    let three = circuit.new_variable(Mode::Private, FieldElement::from_u64(3));
    let six = circuit.new_variable(Mode::Private, FieldElement::from_u64(6));
    let lc = LinearCombination::from_variable;
    circuit.enforce(lc(two), lc(three), lc(two));
    assert!(!circuit.is_satisfied());
    assert!(!circuit.is_satisfied_in_scope());
    circuit.push_scope("good");
    assert!(circuit.is_satisfied_in_scope());
    circuit.enforce(lc(two), lc(three), lc(six));
    assert!(circuit.is_satisfied_in_scope());
    assert!(!circuit.is_satisfied());
    circuit.pop_scope();
    assert!(!circuit.is_satisfied_in_scope());
}

#[test]
fn gates_count_the_additions_of_each_side() {
    let mut circuit = Circuit::new();
    let one = FieldElement::one();
    let x = circuit.new_variable(Mode::Private, one);
    let y = circuit.new_variable(Mode::Private, one);
    let z = circuit.new_variable(Mode::Private, FieldElement::from_u64(3));
    // a = x + y: one addition
    let a = LinearCombination::from_variable(x).plus(&LinearCombination::from_variable(y));
    assert_eq!(1, a.num_additions());
    // b = x + y + 5: two additions
    let mut b = a.clone();
    b.add_constant(FieldElement::from_u64(5));
    assert_eq!(2, b.num_additions());
    // c = 7: none
    let c = LinearCombination::from_constant(FieldElement::from_u64(7));
    assert_eq!(0, c.num_additions());
    assert_eq!(FieldElement::from_u64(2), a.value());
    assert_eq!(FieldElement::from_u64(7), b.value());
    circuit.enforce(a, b, c);
    assert_eq!(4, circuit.num_gates());
    assert_eq!(4, circuit.num_gates_in_scope());
    assert!(!circuit.is_satisfied());
    // 3 * 1 = 3
    circuit.enforce(
        LinearCombination::from_variable(z),
        LinearCombination::one(),
        LinearCombination::from_variable(z),
    );
    assert_eq!(5, circuit.num_gates());
}

#[test]
fn linear_combinations_evaluate_to_the_weighted_sum() {
    let mut circuit = Circuit::new();
    let x = circuit.new_variable(Mode::Private, FieldElement::from_u64(10));
    let y = circuit.new_variable(Mode::Public, FieldElement::from_u64(20));
    let mut lc = LinearCombination::from_constant(FieldElement::from_u64(1));
    lc.add_term(FieldElement::from_u64(3), x);
    lc.add_term(FieldElement::from_u64(5), y);
    // 1 + 3 * 10 + 5 * 20
    assert_eq!(FieldElement::from_u64(131), lc.value());
    assert_eq!(2, lc.num_terms());
    assert_eq!(FieldElement::from_u64(1), lc.constant());
    assert_eq!(FieldElement::from_u64(5), lc.term(1).coefficient());
    assert!(lc.term(1).variable().same(&y));
    assert_eq!(FieldElement::zero(), LinearCombination::zero().value());
    assert_eq!(FieldElement::one(), LinearCombination::one().value());
    assert_eq!(FieldElement::zero(), circuit.zero().value());
    assert_eq!(FieldElement::one(), circuit.one().value());
    assert_eq!(lc.value(), lc.clone().value());
}

#[test]
fn reset_returns_to_the_empty_circuit() {
    let mut circuit = Circuit::new();
    let x = circuit.new_variable(Mode::Private, FieldElement::from_u64(10));
    circuit.push_scope("s");
    circuit.new_variable(Mode::Constant, FieldElement::from_u64(10));
    circuit.new_variable(Mode::Public, FieldElement::from_u64(10));
    circuit.enforce(LinearCombination::zero(), LinearCombination::zero(), LinearCombination::one());
    assert!(!circuit.is_satisfied());
    circuit.reset();
    assert_eq!((0, 0, 0, 0, 0), global(&circuit));
    assert_eq!((0, 0, 0, 0, 0), in_scope(&circuit));
    assert_eq!(0, circuit.depth());
    assert_eq!(1, circuit.num_scopes());
    assert_eq!(0, circuit.num_variables());
    assert!(circuit.is_satisfied());
    assert!(!circuit.owns(&x));
}

#[test]
fn aleo_starts_and_restarts_empty() {
    let mut env = Aleo::new();
    assert_eq!((0, 0, 0, 0, 0), (env.num_constants(), env.num_public(), env.num_private(), env.num_constraints(), env.num_gates()));
    assert_eq!(0, env.circuit().num_variables());
    assert_eq!(FieldElement::one(), env.one().value());
    assert_eq!(0, env.one().num_terms());
    assert_eq!(FieldElement::zero(), env.zero().value());
    let x = env.new_variable(Mode::Private, FieldElement::from_u64(4));
    let one = env.one();
    env.enforce(LinearCombination::from_variable(x), one, LinearCombination::from_variable(x));
    env.enforce(LinearCombination::from_variable(x), env.zero(), LinearCombination::from_variable(x));
    assert!(!env.is_satisfied());
    assert_eq!((0, 0, 1, 2), (env.num_constants(), env.num_public(), env.num_private(), env.num_constraints()));
    env.push_scope("s");
    env.new_variable(Mode::Public, FieldElement::from_u64(4));
    env.reset();
    assert_eq!((0, 0, 0, 0, 0), (env.num_constants(), env.num_public(), env.num_private(), env.num_constraints(), env.num_gates()));
    assert_eq!(
        (0, 0, 0, 0, 0),
        (
            env.num_constants_in_scope(),
            env.num_public_in_scope(),
            env.num_private_in_scope(),
            env.num_constraints_in_scope(),
            env.num_gates_in_scope()
        )
    );
    assert_eq!(0, env.depth());
    assert_eq!(0, env.circuit().num_variables());
    assert!(env.is_satisfied());
    assert!(!env.circuit().owns(&x));
    assert!(env.accepts(&env.one(), &env.one(), &env.one()));
}
