use lookup_circuit::circuit::Circuit;
use lookup_circuit::environment::Environment;
use lookup_circuit::field::FieldElement;
use lookup_circuit::group::GroupElement;
use lookup_circuit::lookup::Lookup;
use lookup_circuit::sinsemilla::{HashError, Sinsemilla};
use lookup_circuit::table::LookupTable;
use lookup_circuit::variable::{Mode, Variable};
use snarkvm_curves::edwards_bls12::{EdwardsAffine, EdwardsParameters, EdwardsProjective, Fq, Fr};
use snarkvm_curves::{AffineCurve, Group, ProjectiveCurve, TwistedEdwardsParameters};
use snarkvm_fields::{Field, One, PrimeField};
use snarkvm_utilities::biginteger::BigInteger256;

fn fq_of(e: &FieldElement) -> Fq {
    Fq::from_repr(BigInteger256(e.to_limbs())).unwrap()
}

fn element_of(f: Fq) -> FieldElement {
    FieldElement::from_limbs(f.to_repr().0).unwrap()
}

fn point_of(p: EdwardsAffine) -> GroupElement {
    GroupElement::from_xy_coordinates(element_of(p.x), element_of(p.y))
}

fn affine_of(p: &GroupElement) -> EdwardsAffine {
    EdwardsAffine::new(fq_of(&p.to_x_coordinate()), fq_of(&p.to_y_coordinate()))
}

fn generator() -> EdwardsAffine {
    EdwardsAffine::prime_subgroup_generator()
}

/// The multiple of the generator by `n`.
fn multiple(n: u64) -> EdwardsAffine {
    (generator().into_projective() * Fr::from(n)).into_affine()
}

fn bits(circuit: &mut Circuit, mode: Mode, values: &[bool]) -> Vec<Variable> {
    values.iter().map(|bit| circuit.new_variable(mode, FieldElement::from_u64(*bit as u64))).collect()
}

/// The table that maps each key of `width` bits to the multiple of the generator by the key plus one.
fn full_table(width: usize) -> LookupTable {
    let mut table = LookupTable::new();
    for key in 0..(1u64 << width) {
        let point = multiple(key + 1);
        table = table.with_row(FieldElement::from_u64(key), element_of(point.x), element_of(point.y));
    }
    table
}

/// The accumulation, computed with the curve alone.
fn reference(width: usize, windows: usize, q: EdwardsAffine, input: &[bool]) -> EdwardsAffine {
    let mut padded = input.to_vec();
    padded.resize(width * windows, false);
    let mut acc: EdwardsProjective = q.into_projective();
    for window in padded.chunks(width) {
        let key = window.iter().enumerate().fold(0u64, |key, (i, bit)| key | ((*bit as u64) << i));
        acc.double_in_place();
        acc.add_assign_mixed(&multiple(key + 1));
    }
    acc.into_affine()
}

fn counts(circuit: &Circuit) -> (usize, usize, usize, usize, usize) {
    (
        circuit.num_constants(),
        circuit.num_public(),
        circuit.num_private(),
        circuit.num_constraints(),
        circuit.num_gates(),
    )
}

fn pattern(len: usize) -> Vec<bool> {
    (0..len).map(|i| i % 3 == 0 || i % 7 == 2).collect()
}

#[test]
fn gadget_parameters_are_validated() {
    let q = point_of(generator());
    assert!(Sinsemilla::new(0, 10, 0, q).is_none());
    assert!(Sinsemilla::new(usize::MAX, 2, 0, q).is_none());
    assert!(Sinsemilla::new(usize::MAX, 1, 0, q).is_some());
    assert_eq!(520, Sinsemilla::new(52, 10, 0, q).unwrap().max_len());
    assert_eq!(0, Sinsemilla::new(52, 0, 0, q).unwrap().max_len());
}

#[test]
fn all_zero_input_reproduces_the_base_point() {
    // Every window of zeros maps to -Q, so each step gives 2Q - Q = Q.
    let q = multiple(12345);
    let mut circuit = Circuit::new();
    let table = circuit.add_lookup_table(LookupTable::new().with_row(
        FieldElement::zero(),
        element_of(-q.x),
        element_of(q.y),
    ));
    let gadget = Sinsemilla::new(52, 10, table, point_of(q)).unwrap();
    let input = bits(&mut circuit, Mode::Private, &[false; 520]);
    let output = gadget.hash_uncompressed(&mut circuit, &input).unwrap();
    assert_eq!(point_of(q), output);
    // The same fold, computed with the curve alone.
    let mut acc = q.into_projective();
    for _ in 0..10 {
        acc.double_in_place();
        acc.add_assign_mixed(&EdwardsAffine::new(-q.x, q.y));
    }
    assert_eq!(point_of(acc.into_affine()), output);
    assert_eq!((1, 0, 520 + 20, 10, 520), counts(&circuit));
    assert!(circuit.is_satisfied());
}

#[test]
fn input_longer_than_the_windows_is_refused() {
    let q = generator();
    let mut circuit = Circuit::new();
    let table = circuit.add_lookup_table(LookupTable::new().with_row(
        FieldElement::zero(),
        element_of(-q.x),
        element_of(q.y),
    ));
    let gadget = Sinsemilla::new(52, 10, table, point_of(q)).unwrap();
    let input = bits(&mut circuit, Mode::Private, &[false; 521]);
    let before = counts(&circuit);
    assert_eq!(Err(HashError::InputTooLong), gadget.hash_uncompressed(&mut circuit, &input));
    assert_eq!(before, counts(&circuit));
    assert!(gadget.hash_uncompressed(&mut circuit, &input[..520]).is_ok());
}

#[test]
fn hash_agrees_with_the_curve() {
    let (width, windows) = (4, 3);
    let q = multiple(99);
    for len in [0, 1, 5, 11, 12] {
        for mode in [Mode::Constant, Mode::Public, Mode::Private] {
            let mut circuit = Circuit::new();
            let table = circuit.add_lookup_table(full_table(width));
            let gadget = Sinsemilla::new(width, windows as u8, table, point_of(q)).unwrap();
            let values = pattern(len);
            let input = bits(&mut circuit, mode, &values);
            let before = counts(&circuit);
            let output = gadget.hash_uncompressed(&mut circuit, &input).unwrap();
            assert_eq!(point_of(reference(width, windows, q, &values)), output);
            assert_ne!(point_of(q), output);
            let after = counts(&circuit);
            assert_eq!(
                (before.0 + 1, before.1, before.2 + 2 * windows, before.3 + windows, before.4 + windows * width),
                after
            );
            assert!(circuit.is_satisfied());
            for i in 0..windows {
                assert_eq!(Some(table), circuit.constraint(i).table());
            }
        }
    }
}

#[test]
fn windows_are_folded_in_order() {
    let (width, windows) = (4, 3);
    let q = multiple(99);
    let mut first = vec![false; 12];
    first[0] = true;
    let mut second = vec![false; 12];
    second[4] = true;
    let mut outputs = Vec::new();
    for values in [&first, &second] {
        let mut circuit = Circuit::new();
        let table = circuit.add_lookup_table(full_table(width));
        let gadget = Sinsemilla::new(width, windows as u8, table, point_of(q)).unwrap();
        let input = bits(&mut circuit, Mode::Private, values);
        let output = gadget.hash_uncompressed(&mut circuit, &input).unwrap();
        assert_eq!(point_of(reference(width, windows, q, values)), output);
        outputs.push(output);
    }
    assert_ne!(outputs[0], outputs[1]);
}

#[test]
fn short_input_is_the_input_padded_with_false() {
    let (width, windows) = (4, 3);
    let q = multiple(7);
    let values = pattern(11);
    let mut padded = values.clone();
    padded.push(false);

    let mut short = Circuit::new();
    let table = short.add_lookup_table(full_table(width));
    let gadget = Sinsemilla::new(width, windows as u8, table, point_of(q)).unwrap();
    let input = bits(&mut short, Mode::Private, &values);
    let before_short = counts(&short);
    let output_short = gadget.hash_uncompressed(&mut short, &input);

    let mut full = Circuit::new();
    let table = full.add_lookup_table(full_table(width));
    let input = bits(&mut full, Mode::Private, &padded);
    let before_full = counts(&full);
    let output_full = gadget.hash_uncompressed(&mut full, &input);

    assert!(output_short.is_ok());
    assert_eq!(output_short, output_full);
    let (after_short, after_full) = (counts(&short), counts(&full));
    assert_eq!(after_short.0 - before_short.0, after_full.0 - before_full.0);
    assert_eq!(after_short.2 - before_short.2, after_full.2 - before_full.2);
    assert_eq!(after_short.3 - before_short.3, after_full.3 - before_full.3);
    assert_eq!(after_short.4 - before_short.4, after_full.4 - before_full.4);
}

#[test]
fn two_constructions_agree() {
    let (width, windows) = (4, 3);
    let q = multiple(5);
    let values = pattern(12);
    let mut results = Vec::new();
    for _ in 0..2 {
        let mut circuit = Circuit::new();
        let table = circuit.add_lookup_table(full_table(width));
        let gadget = Sinsemilla::new(width, windows as u8, table, point_of(q)).unwrap();
        let input = bits(&mut circuit, Mode::Public, &values);
        let output = gadget.hash_uncompressed(&mut circuit, &input).unwrap();
        results.push((output.to_x_coordinate().to_limbs(), output.to_y_coordinate().to_limbs(), counts(&circuit)));
    }
    assert_eq!(results[0], results[1]);
    assert_eq!((1, 12, 6, 3, 12), results[0].2);
}

#[test]
fn missing_key_names_the_first_window_without_a_row() {
    let (width, windows) = (2, 3);
    let q = multiple(5);
    let mut circuit = Circuit::new();
    // Keys 0 and 1 only.
    let mut rows = LookupTable::new();
    for key in 0..2u64 {
        let point = multiple(key + 1);
        rows = rows.with_row(FieldElement::from_u64(key), element_of(point.x), element_of(point.y));
    }
    let table = circuit.add_lookup_table(rows);
    let gadget = Sinsemilla::new(width, windows as u8, table, point_of(q)).unwrap();
    // Windows: 1, 2, 3.
    let input = bits(&mut circuit, Mode::Private, &[true, false, false, true, true, true]);
    let before = counts(&circuit);
    assert_eq!(Err(HashError::MissingRow { window: 1 }), gadget.hash_uncompressed(&mut circuit, &input));
    // The padding constant and the first window were recorded.
    assert_eq!((before.0 + 1, before.1, before.2 + 2, before.3 + 1, before.4 + 2), counts(&circuit));
    assert!(circuit.is_satisfied());
}

#[test]
fn unknown_table_is_refused() {
    let q = multiple(5);
    let mut circuit = Circuit::new();
    let gadget = Sinsemilla::new(2, 3, 4, point_of(q)).unwrap();
    let input = bits(&mut circuit, Mode::Private, &[true, false]);
    assert_eq!(Err(HashError::UnknownTable), gadget.hash_uncompressed(&mut circuit, &input));
    // Without windows no table is asked, and the base point comes back.
    let empty = Sinsemilla::new(2, 0, 4, point_of(q)).unwrap();
    assert_eq!(Ok(point_of(q)), empty.hash_uncompressed(&mut circuit, &[]));
}

#[test]
fn sum_without_affine_form_is_refused() {
    // For the doubled base point (X, Y, T, Z), the row (1, Z / (d * T)) makes the last coordinate
    // of the sum zero.
    let q = generator();
    let doubled = q.into_projective().double();
    let d = <EdwardsParameters as TwistedEdwardsParameters>::COEFF_D;
    let y = doubled.z * (d * doubled.t).inverse().unwrap();
    let mut sum = doubled;
    sum.add_assign_mixed(&EdwardsAffine::new(Fq::one(), y));
    assert_eq!(Fq::from(0u64), sum.z);

    let mut circuit = Circuit::new();
    let table = circuit.add_lookup_table(LookupTable::new().with_row(
        FieldElement::zero(),
        FieldElement::one(),
        element_of(y),
    ));
    let gadget = Sinsemilla::new(1, 1, table, point_of(q)).unwrap();
    let input = bits(&mut circuit, Mode::Private, &[false]);
    assert_eq!(Err(HashError::NoAffineForm), gadget.hash_uncompressed(&mut circuit, &input));
    assert_eq!(affine_of(&point_of(q)), q);
}

#[test]
fn gadget_works_inside_a_scope() {
    let (width, windows) = (4, 3);
    let q = multiple(99);
    let mut circuit = Circuit::new();
    let table = circuit.add_lookup_table(full_table(width));
    let gadget = Sinsemilla::new(width, windows as u8, table, point_of(q)).unwrap();
    let input = bits(&mut circuit, Mode::Public, &pattern(12));
    circuit.push_scope("Sinsemilla");
    let output = gadget.hash_uncompressed(&mut circuit, &input).unwrap();
    assert_eq!(point_of(reference(width, windows, q, &pattern(12))), output);
    assert_eq!(3, circuit.num_constraints_in_scope());
    assert_eq!(1, circuit.num_constants_in_scope());
    assert_eq!(6, circuit.num_private_in_scope());
    assert_eq!(0, circuit.num_public_in_scope());
    assert!(circuit.is_satisfied_in_scope());
    circuit.pop_scope();
    assert_eq!(12, circuit.num_public_in_scope());
    assert_eq!(0, circuit.num_constraints_in_scope());
}
