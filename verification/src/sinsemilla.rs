//! The windowed accumulation gadget: the input bits are cut into windows,
//! each window is the key of a lookup that gives a point of the curve, and the
//! points are folded into an accumulator by doubling and adding.

use crate::environment::Environment;
use crate::field::{modulus, FieldElement};
use crate::group::{
    affine_form, doubled, is_affine_form, lemma_affine_form_of_lifted, lifted, mixed_sum, GroupElement,
};
use crate::linear_combination::{lemma_terms_sum_push, terms_sum, LinearCombination, LinearCombinationView, TermView};
use crate::lookup::{bound_unary_lookup, theorem_drawn_row_is_accepted, Lookup, LookupError};
use crate::state::{views, Counts, State, TableView};
use crate::table::{has_unary_key, unary_row};
use crate::variable::{Mode, Variable, VariableView};
use vstd::arithmetic::div_mod::{lemma_mul_mod_noop_right, lemma_small_mod};
use vstd::arithmetic::power2::{lemma2_to64, lemma_pow2_unfold, pow2};
use vstd::prelude::*;

verus! {

/// Why the gadget gave no point.
#[derive(Clone, Copy, Debug, PartialEq, Eq, Structural)]
pub enum HashError {
    /// The input has more bits than the windows hold.
    InputTooLong,
    /// The handle of the gadget names no registered table.
    UnknownTable,
    /// The table has no row for the key of the given window.
    MissingRow {
        /// The number of the window, counted from zero.
        window: usize,
    },
    /// The accumulated point has no affine form.
    NoAffineForm,
}

/// The values of the given variables, in their order.
pub open spec fn values_of(bits: Seq<VariableView>) -> Seq<nat> {
    Seq::new(bits.len(), |i: int| bits[i].value)
}

/// The value of the bit at the given position of the padded input: the
/// input's own bit, or zero behind its end.
pub open spec fn bit_value(values: Seq<nat>, index: int) -> nat {
    if 0 <= index < values.len() {
        values[index]
    } else {
        0
    }
}

/// The variable at the given position of the padded input: the input's own
/// variable, or the padding variable behind its end.
pub open spec fn bit_variable(bits: Seq<VariableView>, pad: VariableView, index: int) -> VariableView {
    if 0 <= index < bits.len() {
        bits[index]
    } else {
        pad
    }
}

/// The weight of bit `k` of a window: two to the power `k`, in the field.
pub open spec fn weight(k: nat) -> nat {
    pow2(k) % modulus()
}

/// The weighted sum of the first `width` bits from position `start` on.
pub open spec fn window_sum(values: Seq<nat>, start: int, width: nat) -> nat
    decreases width,
{
    if width == 0 {
        0
    } else {
        window_sum(values, start, (width - 1) as nat) + weight((width - 1) as nat) * bit_value(
            values,
            start + width - 1,
        )
    }
}

/// The key of window `j`: its bits read as a little-endian number, in the
/// field.
pub open spec fn window_key(values: Seq<nat>, j: nat, width: nat) -> nat {
    window_sum(values, (j * width) as int, width) % modulus()
}

/// The expression for the key of the window of `width` bits from position
/// `start` on: each bit's variable with the weight of its place.
pub open spec fn window_lc(bits: Seq<VariableView>, pad: VariableView, start: int, width: nat) -> LinearCombinationView {
    LinearCombinationView {
        constant: 0,
        terms: Seq::new(
            width,
            |k: int| TermView { coefficient: weight(k as nat), variable: bit_variable(bits, pad, start + k) },
        ),
    }
}

/// The state after the first `n` windows.
pub open spec fn steps(s: State, table: nat, bits: Seq<VariableView>, pad: VariableView, width: nat, n: nat) -> State
    decreases n,
{
    if n == 0 {
        s
    } else {
        steps(s, table, bits, pad, width, (n - 1) as nat).draw_and_bind(
            table,
            window_lc(bits, pad, (n - 1) * width, width),
        )
    }
}

/// The accumulator after the first `n` windows, in extended projective
/// coordinates: it starts from `q`, and each window doubles it and adds the
/// point that the table gives for the window's key.
pub open spec fn accumulated(table: TableView, values: Seq<nat>, width: nat, q: (nat, nat), n: nat) -> (
    nat,
    nat,
    nat,
    nat,
)
    decreases n,
{
    if n == 0 {
        lifted(q)
    } else {
        let row = unary_row(table, window_key(values, (n - 1) as nat, width));
        mixed_sum(doubled(accumulated(table, values, width, q, (n - 1) as nat)), (row.1, row.2))
    }
}

/// The table has a row for the key of each of the first `n` windows.
pub open spec fn covers(table: TableView, values: Seq<nat>, width: nat, n: nat) -> bool {
    forall|j: nat| j < n ==> has_unary_key(table, #[trigger] window_key(values, j, width))
}

/// The key expression of a window evaluates to the key of the window.
pub proof fn lemma_window_lc_value(bits: Seq<VariableView>, pad: VariableView, j: nat, width: nat)
    requires
        pad.value == 0,
    ensures
        window_lc(bits, pad, (j * width) as int, width).value() == window_key(values_of(bits), j, width),
{
    lemma_window_terms(bits, pad, (j * width) as int, width);
}

proof fn lemma_window_terms(bits: Seq<VariableView>, pad: VariableView, start: int, width: nat)
    requires
        pad.value == 0,
        start >= 0,
    ensures
        terms_sum(window_lc(bits, pad, start, width).terms) == window_sum(values_of(bits), start, width),
    decreases width,
{
    if width > 0 {
        let shorter = (width - 1) as nat;
        lemma_window_terms(bits, pad, start, shorter);
        let last = TermView { coefficient: weight(shorter), variable: bit_variable(bits, pad, start + shorter) };
        assert(window_lc(bits, pad, start, width).terms =~= window_lc(bits, pad, start, shorter).terms.push(last));
        lemma_terms_sum_push(window_lc(bits, pad, start, shorter).terms, last);
        assert(bit_variable(bits, pad, start + shorter).value == bit_value(values_of(bits), start + shorter));
    } else {
        assert(window_lc(bits, pad, start, width).terms =~= Seq::empty());
    }
}

/// The weight of a place is twice the weight of the place before it.
pub proof fn lemma_weight_doubles(k: nat)
    ensures
        weight(0) == 1,
        weight(k + 1) == (weight(k) + weight(k)) % modulus(),
{
    lemma2_to64();
    lemma_small_mod(1, modulus());
    lemma_pow2_unfold(k + 1);
    lemma_mul_mod_noop_right(2, pow2(k) as int, modulus() as int);
}

/// The gadget: the width of a window, the number of windows, the handle of
/// the table of points, and the point from which the accumulation starts.
#[derive(Clone, Copy, Debug)]
pub struct Sinsemilla {
    window_size: usize,
    num_windows: u8,
    max_len: usize,
    table: usize,
    q: GroupElement,
}

impl Sinsemilla {
    #[verifier::type_invariant]
    spec fn well_formed(self) -> bool {
        &&& self.window_size >= 1
        &&& self.max_len == self.window_size * self.num_windows
    }

    /// The number of bits of a window.
    pub closed spec fn width(&self) -> nat {
        self.window_size as nat
    }

    /// The number of windows.
    pub closed spec fn windows(&self) -> nat {
        self.num_windows as nat
    }

    /// The handle of the table of points.
    pub closed spec fn table(&self) -> nat {
        self.table as nat
    }

    /// The point from which the accumulation starts.
    pub closed spec fn start(&self) -> (nat, nat) {
        self.q@
    }

    /// The gadget with the given parameters, if a window has at least one
    /// bit and the number of bits of all windows fits the machine's integers.
    pub fn new(window_size: usize, num_windows: u8, table: usize, q: GroupElement) -> (r: Option<Sinsemilla>)
        ensures
            r is Some <==> window_size >= 1 && window_size * num_windows <= usize::MAX,
            r matches Some(gadget) ==> {
                &&& gadget.width() == window_size
                &&& gadget.windows() == num_windows
                &&& gadget.table() == table
                &&& gadget.start() == q@
            },
    {
        if window_size == 0 {
            return None;
        }
        match window_size.checked_mul(num_windows as usize) {
            Some(max_len) => Some(Sinsemilla { window_size, num_windows, max_len, table, q }),
            None => None,
        }
    }

    /// The greatest number of bits that the gadget takes.
    pub fn max_len(&self) -> (r: usize)
        ensures
            r == self.width() * self.windows(),
    {
        proof {
            use_type_invariant(self);
        }
        self.max_len
    }

    /// What a call of the gadget returns and leaves behind, for the state
    /// `before` the call and the input `bits`.
    ///
    /// An input that is too long is refused and nothing changes. Else one
    /// constant of value zero is allocated for the padding, and the windows
    /// are worked through in their order; the first window whose key the
    /// table lacks ends the call. After the last window the accumulator is
    /// returned in affine coordinates.
    pub open spec fn outcome(
        &self,
        before: State,
        bits: Seq<VariableView>,
        after: State,
        r: Result<GroupElement, HashError>,
    ) -> bool {
        let fits = bits.len() <= self.width() * self.windows();
        let padded = before.allocate(Mode::Constant, 0);
        let pad = before.next_variable(Mode::Constant, 0);
        let table = before.tables[self.table() as int];
        let values = values_of(bits);
        let reachable = self.windows() == 0 || before.has_table(self.table());
        let last = accumulated(table, values, self.width(), self.start(), self.windows());
        match r {
            Err(HashError::InputTooLong) => !fits && after == before,
            Err(HashError::UnknownTable) => fits && !reachable && after == padded,
            Err(HashError::MissingRow { window }) => {
                &&& fits
                &&& reachable
                &&& window < self.windows()
                &&& covers(table, values, self.width(), window as nat)
                &&& !has_unary_key(table, window_key(values, window as nat, self.width()))
                &&& after == steps(padded, self.table(), bits, pad, self.width(), window as nat)
            },
            Err(HashError::NoAffineForm) => {
                &&& fits
                &&& reachable
                &&& covers(table, values, self.width(), self.windows())
                &&& last.3 == 0
                &&& after == steps(padded, self.table(), bits, pad, self.width(), self.windows())
            },
            Ok(point) => {
                &&& fits
                &&& reachable
                &&& covers(table, values, self.width(), self.windows())
                &&& last.3 != 0
                &&& point@ == affine_form(last)
                &&& is_affine_form(point@, last)
                &&& point@.0 < modulus()
                &&& point@.1 < modulus()
                &&& after == steps(padded, self.table(), bits, pad, self.width(), self.windows())
            },
        }
    }

    fn window_key_lc(&self, input: &[Variable], pad: Variable, start: usize) -> (key: LinearCombination)
        requires
            start + self.width() <= usize::MAX,
        ensures
            key@ == window_lc(views(input@), pad@, start as int, self.width()),
    {
        let ghost bits = views(input@);
        let mut key = LinearCombination::zero();
        let mut coefficient = FieldElement::one();
        let mut i: usize = 0;
        proof {
            lemma_weight_doubles(0);
            assert(key@.terms =~= window_lc(bits, pad@, start as int, 0).terms);
        }
        while i < self.window_size
            invariant
                i <= self.window_size,
                start + self.window_size <= usize::MAX,
                bits == views(input@),
                coefficient@ == weight(i as nat),
                key@ == window_lc(bits, pad@, start as int, i as nat),
            decreases self.window_size - i,
        {
            let index = start + i;
            let variable = if index < input.len() {
                input[index]
            } else {
                pad
            };
            let ghost earlier = key@;
            key.add_term(coefficient, variable);
            coefficient = coefficient.plus(&coefficient);
            proof {
                lemma_weight_doubles(i as nat);
                assert(variable@ == bit_variable(bits, pad@, start + i));
                assert(key@.terms =~= window_lc(bits, pad@, start as int, (i + 1) as nat).terms);
            }
            i += 1;
        }
        key
    }

    /// Hashes the input bits to a point of the curve.
    ///
    /// The input is padded with zero bits to the full number of bits. Each
    /// window of bits, read as a little-endian number, is the key of a unary
    /// lookup in the gadget's table; the two variables that the lookup
    /// returns are bound to the key by a lookup constraint on that same
    /// table, and are the coordinates of the point that is added to the
    /// doubled accumulator.
    pub fn hash_uncompressed<E: Lookup>(&self, env: &mut E, input: &[Variable]) -> (r: Result<
        GroupElement,
        HashError,
    >)
        requires
            old(env).wf(),
            forall|i: int| 0 <= i < input@.len() ==> old(env).state().owns(#[trigger] input@[i]@),
            old(env).state().totals.gates + self.width() * self.windows() <= usize::MAX,
        ensures
            final(env).wf(),
            final(env).state().keeps_variables_of(old(env).state()),
            self.outcome(old(env).state(), views(input@), final(env).state(), r),
    {
        proof {
            use_type_invariant(self);
            env.lemma_wf_inv();
        }
        if input.len() > self.max_len {
            return Err(HashError::InputTooLong);
        }
        let ghost before = env.state();
        let ghost bits = views(input@);
        let ghost values = values_of(bits);
        let ghost table = before.tables[self.table as int];
        let ghost width = self.window_size as nat;
        let pad = env.new_variable(Mode::Constant, FieldElement::zero());
        let ghost padded = env.state();
        proof {
            before.lemma_allocate_inv(Mode::Constant, 0);
            assert(padded.owns(pad@));
        }
        let mut acc = self.q.to_projective();
        let mut j: u8 = 0;
        let mut start: usize = 0;
        while j < self.num_windows
            invariant
                j <= self.num_windows,
                self.window_size >= 1,
                width == self.window_size,
                self.max_len == self.window_size * self.num_windows,
                start == j * self.window_size,
                env.wf(),
                bits == views(input@),
                values == values_of(bits),
                table == before.tables[self.table as int],
                padded == before.allocate(Mode::Constant, 0),
                pad@ == before.next_variable(Mode::Constant, 0),
                pad@.value == 0,
                padded.tables == before.tables,
                padded.keeps_variables_of(before),
                padded.owns(pad@),
                padded.totals.gates + self.window_size * self.num_windows <= usize::MAX,
                forall|i: int| 0 <= i < input@.len() ==> before.owns(#[trigger] input@[i]@),
                env.state() == steps(padded, self.table as nat, bits, pad@, width, j as nat),
                env.state().tables == before.tables,
                env.state().keeps_variables_of(padded),
                env.state().keeps_variables_of(before),
                before == old(env).state(),
                input@.len() <= self.max_len,
                env.state().totals.gates == padded.totals.gates + j * self.window_size,
                j > 0 ==> before.has_table(self.table as nat),
                acc@ == accumulated(table, values, width, self.q@, j as nat),
                covers(table, values, width, j as nat),
            decreases self.num_windows - j,
        {
            let ghost current = env.state();
            proof {
                env.lemma_wf_inv();
                assert((j + 1) * self.window_size == j * self.window_size + self.window_size) by (nonlinear_arith);
                assert((j + 1) * self.window_size <= self.num_windows * self.window_size) by (nonlinear_arith)
                    requires
                        j + 1 <= self.num_windows,
                        self.window_size >= 0,
                ;
                assert(self.num_windows * self.window_size == self.window_size * self.num_windows) by (nonlinear_arith);
            }
            let key = self.window_key_lc(input, pad, start);
            proof {
                lemma_window_lc_value(bits, pad@, j as nat, width);
                assert(key@.value() == window_key(values, j as nat, width));
            }
            proof {
                assert forall|k: int| 0 <= k < key@.terms.len() implies current.owns(
                    #[trigger] key@.terms[k].variable,
                ) by {
                    let index = start + k;
                    if 0 <= index < bits.len() {
                        assert(before.owns(input@[index]@));
                        before.lemma_owns_variable_stays(current, key@.terms[k].variable);
                    } else {
                        padded.lemma_owns_variable_stays(current, key@.terms[k].variable);
                    }
                }
                assert(key@.num_additions() == width - 1);
            }
            let ghost key_view = key@;
            match bound_unary_lookup(env, self.table, key) {
                Err(LookupError::UnknownTable) => {
                    return Err(HashError::UnknownTable);
                },
                Err(LookupError::MissingRow) => {
                    return Err(HashError::MissingRow { window: j as usize });
                },
                Err(LookupError::RowOutOfBounds) => {
                    proof {
                        assert(false);
                    }
                    return Err(HashError::UnknownTable);
                },
                Ok((first, second)) => {
                    let point = GroupElement::from_xy_coordinates(first.value(), second.value());
                    acc = acc.double().add_mixed(&point);
                    proof {
                        let next = env.state();
                        theorem_drawn_row_is_accepted(current, self.table as nat, key_view);
                        assert(key_view == window_lc(bits, pad@, ((j + 1) - 1) * width, width));
                        assert(next == steps(padded, self.table as nat, bits, pad@, width, (j + 1) as nat));
                        next.lemma_keeps_variables_transitive(current, padded);
                        next.lemma_keeps_variables_transitive(current, before);
                        assert(covers(table, values, width, (j + 1) as nat)) by {
                            assert forall|w: nat| w < j + 1 implies has_unary_key(
                                table,
                                #[trigger] window_key(values, w, width),
                            ) by {
                                if w < j {
                                    assert(has_unary_key(table, window_key(values, w, width)));
                                }
                            }
                        }
                    }
                },
            }
            start = start + self.window_size;
            j = j + 1;
        }
        match acc.to_affine() {
            Some(point) => Ok(point),
            None => Err(HashError::NoAffineForm),
        }
    }
}


/// The two inputs have the same bits once they are padded with zeros.
pub open spec fn same_padded_bits(first: Seq<nat>, second: Seq<nat>) -> bool {
    forall|index: int| bit_value(first, index) == bit_value(second, index)
}

/// The counters after `n` windows were worked through, starting from the
/// counters `from`: two private variables and one constraint of `width` gates
/// for each window.
pub open spec fn counts_after_windows(from: Counts, width: nat, n: nat) -> Counts {
    Counts {
        private: from.private + 2 * n,
        constraints: from.constraints + n,
        gates: from.gates + n * width,
        ..from
    }
}

/// Inputs with the same padded bits have the same window sums.
proof fn lemma_same_window_sum(first: Seq<nat>, second: Seq<nat>, start: int, width: nat)
    requires
        same_padded_bits(first, second),
    ensures
        window_sum(first, start, width) == window_sum(second, start, width),
    decreases width,
{
    if width > 0 {
        lemma_same_window_sum(first, second, start, (width - 1) as nat);
        assert(bit_value(first, start + width - 1) == bit_value(second, start + width - 1));
    }
}

/// Inputs with the same padded bits have the same keys, are covered by the
/// same tables, and accumulate to the same point.
pub proof fn theorem_same_padded_bits(
    table: TableView,
    first: Seq<nat>,
    second: Seq<nat>,
    width: nat,
    q: (nat, nat),
    n: nat,
)
    requires
        same_padded_bits(first, second),
    ensures
        forall|j: nat| window_key(first, j, width) == window_key(second, j, width),
        covers(table, first, width, n) == covers(table, second, width, n),
        accumulated(table, first, width, q, n) == accumulated(table, second, width, q, n),
    decreases n,
{
    assert forall|j: nat| window_key(first, j, width) == window_key(second, j, width) by {
        lemma_same_window_sum(first, second, (j * width) as int, width);
    }
    if n > 0 {
        theorem_same_padded_bits(table, first, second, width, q, (n - 1) as nat);
    }
    if covers(table, first, width, n) {
        assert forall|j: nat| j < n implies has_unary_key(table, #[trigger] window_key(second, j, width)) by {
            assert(has_unary_key(table, window_key(first, j, width)));
        }
    }
    if covers(table, second, width, n) {
        assert forall|j: nat| j < n implies has_unary_key(table, #[trigger] window_key(first, j, width)) by {
            assert(has_unary_key(table, window_key(second, j, width)));
        }
    }
}

/// An input and the same input with one more zero bit at its end have the
/// same padded bits.
pub proof fn theorem_trailing_zero(values: Seq<nat>)
    ensures
        same_padded_bits(values, values.push(0)),
{
    assert forall|index: int| bit_value(values, index) == bit_value(values.push(0), index) by {
        if 0 <= index < values.len() {
            assert(values.push(0)[index] == values[index]);
        }
    }
}

/// The windows leave the circuit as satisfied as it was, add nothing but
/// two private variables and one constraint each, and change no table and
/// no scope.
pub proof fn theorem_windows(
    padded: State,
    table: nat,
    bits: Seq<VariableView>,
    pad: VariableView,
    width: nat,
    n: nat,
)
    requires
        padded.inv(),
        width >= 1,
        pad.value == 0,
        padded.owns(pad),
        forall|i: int| 0 <= i < bits.len() ==> padded.owns(#[trigger] bits[i]),
        n > 0 ==> padded.has_table(table),
        covers(padded.tables[table as int], values_of(bits), width, n),
    ensures
        steps(padded, table, bits, pad, width, n).inv(),
        steps(padded, table, bits, pad, width, n).keeps_variables_of(padded),
        steps(padded, table, bits, pad, width, n).tables == padded.tables,
        steps(padded, table, bits, pad, width, n).stack == padded.stack,
        steps(padded, table, bits, pad, width, n).satisfied() == padded.satisfied(),
        steps(padded, table, bits, pad, width, n).totals == counts_after_windows(padded.totals, width, n),
    decreases n,
{
    if n > 0 {
        let m = (n - 1) as nat;
        let rows = padded.tables[table as int];
        let values = values_of(bits);
        assert(covers(rows, values, width, m)) by {
            assert forall|j: nat| j < m implies has_unary_key(rows, #[trigger] window_key(values, j, width)) by {
                assert(has_unary_key(rows, window_key(values, j, width)));
            }
        }
        theorem_windows(padded, table, bits, pad, width, m);
        let earlier = steps(padded, table, bits, pad, width, m);
        let key = window_lc(bits, pad, (n - 1) * width, width);
        lemma_window_lc_value(bits, pad, m, width);
        assert(has_unary_key(rows, window_key(values, m, width)));
        assert forall|k: int| 0 <= k < key.terms.len() implies earlier.owns(#[trigger] key.terms[k].variable) by {
            let index = m * width + k;
            if 0 <= index < bits.len() {
                assert(padded.owns(bits[index]));
            }
            padded.lemma_owns_variable_stays(earlier, key.terms[k].variable);
        }
        theorem_drawn_row_is_accepted(earlier, table, key);
        let later = earlier.draw_and_bind(table, key);
        later.lemma_keeps_variables_transitive(earlier, padded);
        assert(key.num_additions() == width - 1);
        assert(n * width == m * width + width) by (nonlinear_arith)
            requires
                n == m + 1,
        ;
    }
}

impl Sinsemilla {
    /// A gadget without windows returns the point from which it starts.
    pub proof fn theorem_no_windows(
        &self,
        before: State,
        bits: Seq<VariableView>,
        after: State,
        r: Result<GroupElement, HashError>,
    )
        requires
            self.windows() == 0,
            self.start().0 < modulus(),
            self.start().1 < modulus(),
            self.outcome(before, bits, after, r),
        ensures
            r matches Ok(point) ==> point@ == self.start(),
    {
        match r {
            Ok(point) => {
                lemma_affine_form_of_lifted(self.start(), point@);
            },
            Err(_) => {},
        }
    }

    /// What a call of the gadget leaves behind, whatever it returns: every
    /// variable as it was, a state that satisfies the invariant, and a
    /// circuit that is satisfied if and only if it was before. The lookup
    /// constraints that the gadget records hold, because their values were
    /// drawn from the table that they name.
    pub proof fn theorem_hash_keeps_satisfaction(
        &self,
        before: State,
        bits: Seq<VariableView>,
        after: State,
        r: Result<GroupElement, HashError>,
    )
        requires
            self.width() >= 1,
            before.inv(),
            forall|i: int| 0 <= i < bits.len() ==> before.owns(#[trigger] bits[i]),
            self.outcome(before, bits, after, r),
        ensures
            after.inv(),
            after.keeps_variables_of(before),
            after.tables == before.tables,
            after.stack == before.stack,
            after.satisfied() == before.satisfied(),
            after.totals == self.counts_after(before.totals, r),
    {
        let padded = before.allocate(Mode::Constant, 0);
        let pad = before.next_variable(Mode::Constant, 0);
        before.lemma_allocate_inv(Mode::Constant, 0);
        assert(padded.satisfied() == before.satisfied());
        assert forall|i: int| 0 <= i < bits.len() implies padded.owns(#[trigger] bits[i]) by {
            before.lemma_owns_variable_stays(padded, bits[i]);
        }
        match r {
            Err(HashError::InputTooLong) => {},
            Err(HashError::UnknownTable) => {},
            Err(HashError::MissingRow { window }) => {
                theorem_windows(padded, self.table(), bits, pad, self.width(), window as nat);
                steps(padded, self.table(), bits, pad, self.width(), window as nat).lemma_keeps_variables_transitive(
                    padded,
                    before,
                );
            },
            _ => {
                theorem_windows(padded, self.table(), bits, pad, self.width(), self.windows());
                steps(padded, self.table(), bits, pad, self.width(), self.windows()).lemma_keeps_variables_transitive(
                    padded,
                    before,
                );
            },
        }
    }

    /// The counters after a call of the gadget that returned `r`, for the
    /// counters `from` before the call.
    pub open spec fn counts_after(&self, from: Counts, r: Result<GroupElement, HashError>) -> Counts {
        match r {
            Err(HashError::InputTooLong) => from,
            Err(HashError::UnknownTable) => from.with_variable(Mode::Constant),
            Err(HashError::MissingRow { window }) => counts_after_windows(
                from.with_variable(Mode::Constant),
                self.width(),
                window as nat,
            ),
            _ => counts_after_windows(from.with_variable(Mode::Constant), self.width(), self.windows()),
        }
    }

    /// Two calls of the gadget on inputs with the same padded bits, against
    /// the same table, return the same result, down to the limbs of the
    /// coordinates, and add the same numbers to every counter.
    pub proof fn theorem_hash_is_deterministic(
        &self,
        before_1: State,
        bits_1: Seq<VariableView>,
        after_1: State,
        r_1: Result<GroupElement, HashError>,
        before_2: State,
        bits_2: Seq<VariableView>,
        after_2: State,
        r_2: Result<GroupElement, HashError>,
    )
        requires
            self.width() >= 1,
            before_1.inv(),
            before_2.inv(),
            forall|i: int| 0 <= i < bits_1.len() ==> before_1.owns(#[trigger] bits_1[i]),
            forall|i: int| 0 <= i < bits_2.len() ==> before_2.owns(#[trigger] bits_2[i]),
            self.outcome(before_1, bits_1, after_1, r_1),
            self.outcome(before_2, bits_2, after_2, r_2),
            same_padded_bits(values_of(bits_1), values_of(bits_2)),
            bits_1.len() <= self.width() * self.windows() <==> bits_2.len() <= self.width() * self.windows(),
            before_1.has_table(self.table()) == before_2.has_table(self.table()),
            before_1.has_table(self.table()) ==> before_1.tables[self.table() as int] == before_2.tables[self.table() as int],
        ensures
            r_1 == r_2,
            after_1.totals == self.counts_after(before_1.totals, r_1),
            after_2.totals == self.counts_after(before_2.totals, r_1),
    {
        self.theorem_hash_keeps_satisfaction(before_1, bits_1, after_1, r_1);
        self.theorem_hash_keeps_satisfaction(before_2, bits_2, after_2, r_2);
        let values_1 = values_of(bits_1);
        let values_2 = values_of(bits_2);
        let table = before_1.tables[self.table() as int];
        let width = self.width();
        theorem_same_padded_bits(table, values_1, values_2, width, self.start(), self.windows());
        if self.windows() == 0 {
            assert(accumulated(before_2.tables[self.table() as int], values_2, width, self.start(), 0) == accumulated(
                table,
                values_1,
                width,
                self.start(),
                0,
            ));
        }
        match (r_1, r_2) {
            (Err(HashError::MissingRow { window: w_1 }), Err(HashError::MissingRow { window: w_2 })) => {
                theorem_same_padded_bits(table, values_1, values_2, width, self.start(), w_1 as nat);
                theorem_same_padded_bits(table, values_1, values_2, width, self.start(), w_2 as nat);
                if w_1 < w_2 {
                    assert(has_unary_key(table, window_key(values_2, w_1 as nat, width)));
                }
                if w_2 < w_1 {
                    assert(has_unary_key(table, window_key(values_1, w_2 as nat, width)));
                }
            },
            (Err(HashError::MissingRow { window: w_1 }), _) => {
                if w_1 < self.windows() && before_1.has_table(self.table()) && covers(table, values_2, width, self.windows()) {
                    assert(has_unary_key(table, window_key(values_2, w_1 as nat, width)));
                }
            },
            (_, Err(HashError::MissingRow { window: w_2 })) => {
                if w_2 < self.windows() && before_1.has_table(self.table()) && covers(table, values_1, width, self.windows()) {
                    assert(has_unary_key(table, window_key(values_1, w_2 as nat, width)));
                }
            },
            (Ok(point_1), Ok(point_2)) => {
                GroupElement::lemma_view_injective(point_1, point_2);
            },
            _ => {},
        }
    }
}

} // verus!
