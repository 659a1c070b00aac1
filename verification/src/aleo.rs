//! The Aleo environment: a circuit together with the bases for scalar
//! multiplication.

use crate::circuit::Circuit;
use crate::environment::Environment;
use crate::field::{modulus, FieldElement};
use crate::group::{
    affine_form, curve_hash, doubled, is_affine_form, lemma_affine_form_of_lifted, lifted, mixed_sum,
    scalar_size_in_bits, GroupElement, SCALAR_BITS,
};
use crate::linear_combination::LinearCombination;
use crate::state::{views, State};
use crate::variable::{Mode, Variable};
use vstd::prelude::*;

verus! {

/// The message from which the bases for the account's encryption and
/// signature schemes are derived.
pub const ACCOUNT_ENCRYPTION_AND_SIGNATURE_INPUT: &'static str = "AleoAccountEncryptionAndSignatureScheme0";

/// The point with the given coordinates, doubled `n` times.
pub open spec fn doubled_times(p: (nat, nat, nat, nat), n: nat) -> (nat, nat, nat, nat)
    decreases n,
{
    if n == 0 {
        p
    } else {
        doubled(doubled_times(p, (n - 1) as nat))
    }
}

/// Each of the first `n` multiples of `g` by a power of two has an affine
/// form.
pub open spec fn bases_exist(g: (nat, nat), n: nat) -> bool {
    forall|i: nat| i < n ==> (#[trigger] doubled_times(lifted(g), i)).3 != 0
}

/// The bases that a message gives: the point that the message is hashed to,
/// and its multiples by the powers of two, one for each bit of a scalar, in
/// affine coordinates. There are none where the message is hashed to no point
/// or one of the multiples has no affine form.
pub open spec fn account_bases(message: Seq<char>) -> Option<Seq<(nat, nat)>> {
    match curve_hash(message) {
        Some(g) => if bases_exist(g, SCALAR_BITS as nat) {
            Some(Seq::new(SCALAR_BITS as nat, |i: int| affine_form(doubled_times(lifted(g), i as nat))))
        } else {
            None
        },
        None => None,
    }
}

/// The sum of the bases whose bit is set, among the first `n` bases, in
/// extended projective coordinates.
pub open spec fn scaled(bases: Seq<(nat, nat)>, bits: Seq<bool>, n: nat) -> (nat, nat, nat, nat)
    decreases n,
{
    if n == 0 {
        lifted((0, 1))
    } else if bits[n - 1] {
        mixed_sum(scaled(bases, bits, (n - 1) as nat), bases[n - 1])
    } else {
        scaled(bases, bits, (n - 1) as nat)
    }
}

/// None of the first `n` bits is set.
pub open spec fn no_bit_set(bits: Seq<bool>, n: nat) -> bool {
    forall|i: int| 0 <= i < n ==> !#[trigger] bits[i]
}

/// Where no bit is set, the sum is the neutral element.
pub proof fn lemma_scaled_by_zero(bases: Seq<(nat, nat)>, bits: Seq<bool>, n: nat)
    requires
        no_bit_set(bits, n),
    ensures
        scaled(bases, bits, n) == lifted((0, 1)),
    decreases n,
{
    if n > 0 {
        assert(!bits[n - 1]);
        lemma_scaled_by_zero(bases, bits, (n - 1) as nat);
    }
}

/// Why a scalar multiplication gave no point.
#[derive(Clone, Copy, Debug, PartialEq, Eq, Structural)]
pub enum AccountError {
    /// The environment has no bases.
    NoBases,
    /// The scalar has not one bit for each base.
    WrongLength,
    /// The product has no affine form.
    NoAffineForm,
}

/// An environment with the group bases of the account schemes.
pub trait Account: Environment {
    /// The bases, if the environment has them: the multiples of a point by
    /// the powers of two.
    spec fn bases(&self) -> Option<Seq<(nat, nat)>>;

    /// Returns the scalar multiplication on the group bases: the sum of the
    /// bases whose bit in the scalar, least significant first, is set.
    fn g_scalar_multiply(&self, scalar: &[bool]) -> (r: Result<GroupElement, AccountError>)
        requires
            self.wf(),
        ensures
            match r {
                Ok(point) => {
                    &&& self.bases() matches Some(bases)
                    &&& scalar@.len() == bases.len()
                    &&& scaled(bases, scalar@, bases.len()).3 != 0
                    &&& point@ == affine_form(scaled(bases, scalar@, bases.len()))
                    &&& is_affine_form(point@, scaled(bases, scalar@, bases.len()))
                    &&& point@.0 < modulus()
                    &&& point@.1 < modulus()
                    &&& no_bit_set(scalar@, scalar@.len()) ==> point@ == (0nat, 1nat)
                },
                Err(AccountError::NoBases) => self.bases() is None,
                Err(AccountError::WrongLength) => self.bases() matches Some(bases) && scalar@.len() != bases.len(),
                Err(AccountError::NoAffineForm) => {
                    &&& self.bases() matches Some(bases)
                    &&& scalar@.len() == bases.len()
                    &&& scaled(bases, scalar@, bases.len()).3 == 0
                },
            },
    ;
}

/// The Aleo environment.
#[derive(Debug)]
pub struct Aleo {
    circuit: Circuit,
    bases: Option<Vec<GroupElement>>,
}

impl Aleo {
    /// The circuit is valid.
    pub closed spec fn valid(&self) -> bool {
        self.circuit.valid()
    }

    /// The state of the circuit.
    pub closed spec fn circuit_state(&self) -> State {
        self.circuit@
    }

    /// The views of the bases.
    pub closed spec fn bases_view(&self) -> Option<Seq<(nat, nat)>> {
        match self.bases {
            Some(bases) => Some(views(bases@)),
            None => None,
        }
    }

    /// Initializes a new instance of group bases from a given input domain
    /// message: the message is hashed to a point of the curve, and the bases
    /// are that point and its multiples by the powers of two, one for each
    /// bit of a scalar.
    pub fn new_bases(message: &str) -> (r: Option<Vec<GroupElement>>)
        ensures
            r is Some == account_bases(message@) is Some,
            r matches Some(bases) ==> {
                &&& account_bases(message@) == Some(views(bases@))
                &&& bases@.len() == SCALAR_BITS
                &&& curve_hash(message@) == Some(bases@[0]@)
                &&& forall|i: int|
                    0 <= i < SCALAR_BITS ==> is_affine_form(
                        (#[trigger] bases@[i])@,
                        doubled_times(lifted(bases@[0]@), i as nat),
                    )
            },
    {
        // Hash the given message to a point on the curve, to initialize the starting base.
        let base = match GroupElement::hash_to_curve(message) {
            Some(base) => base,
            None => {
                return None;
            },
        };
        // Initialize the vector of bases.
        let size_in_bits = scalar_size_in_bits();
        let mut bases: Vec<GroupElement> = Vec::with_capacity(size_in_bits);
        // Compute the bases up to the size of the scalar field (in bits).
        let mut point = base.to_projective();
        let mut i: usize = 0;
        while i < size_in_bits
            invariant
                i <= size_in_bits,
                size_in_bits == SCALAR_BITS,
                curve_hash(message@) == Some(base@),
                point@ == doubled_times(lifted(base@), i as nat),
                bases@.len() == i,
                bases_exist(base@, i as nat),
                base@.0 < modulus(),
                base@.1 < modulus(),
                i > 0 ==> bases@[0]@ == base@,
                forall|j: int|
                    0 <= j < i ==> {
                        &&& (#[trigger] bases@[j])@ == affine_form(doubled_times(lifted(base@), j as nat))
                        &&& is_affine_form(bases@[j]@, doubled_times(lifted(base@), j as nat))
                    },
            decreases size_in_bits - i,
        {
            match point.to_affine() {
                Some(affine) => {
                    proof {
                        if i == 0 {
                            lemma_affine_form_of_lifted(base@, affine@);
                        }
                    }
                    bases.push(affine);
                },
                None => {
                    return None;
                },
            }
            point = point.double();
            i += 1;
        }
        assert(views(bases@) =~= account_bases(message@).unwrap());
        Some(bases)
    }

    /// The environment with an empty circuit, and with the bases for the
    /// account schemes.
    pub fn new() -> (r: Aleo)
        ensures
            r.wf(),
            r.state() == Aleo::initial(),
            r.bases() == account_bases(ACCOUNT_ENCRYPTION_AND_SIGNATURE_INPUT@),
    {
        let circuit = Circuit::new();
        let bases = Aleo::new_bases(ACCOUNT_ENCRYPTION_AND_SIGNATURE_INPUT);
        Aleo { circuit, bases }
    }

    /// A helper method to recover the y-coordinate given the x-coordinate
    /// for a twisted Edwards point, returning the affine curve point.
    pub fn affine_from_x_coordinate(x: FieldElement) -> (r: Option<GroupElement>)
        ensures
            r is Some == crate::group::subgroup_point(x@) is Some,
            r matches Some(point) ==> crate::group::subgroup_point(x@) == Some(point@),
    {
        GroupElement::from_x_coordinate(x)
    }

    /// The circuit of the environment.
    pub fn circuit(&self) -> (r: &Circuit)
        ensures
            r@ == self.state(),
    {
        &self.circuit
    }
}

impl Environment for Aleo {
    /// The state of the environment is the state of its circuit.
    open spec fn state(&self) -> State {
        self.circuit_state()
    }

    /// The environment is in a valid condition when it is `valid`.
    open spec fn wf(&self) -> bool {
        self.valid()
    }

    /// The environment starts empty.
    open spec fn initial() -> State {
        State::empty()
    }

    /// The circuit of a valid environment satisfies the invariant.
    proof fn lemma_wf_inv(&self) {
        self.circuit.lemma_wf_inv();
    }

    /// Returns the `zero` constant.
    fn zero(&self) -> (r: LinearCombination) {
        self.circuit.zero()
    }

    /// Returns the `one` constant.
    fn one(&self) -> (r: LinearCombination) {
        self.circuit.one()
    }

    /// Returns a new variable of the given mode and value.
    fn new_variable(&mut self, mode: Mode, value: FieldElement) -> (v: Variable) {
        self.circuit.new_variable(mode, value)
    }

    /// Enters a new scope for the environment.
    fn push_scope(&mut self, name: &str) {
        self.circuit.push_scope(name)
    }

    /// Leaves the innermost scope of the environment.
    fn pop_scope(&mut self) {
        self.circuit.pop_scope()
    }

    /// Returns the number of scopes that are open inside the root scope.
    fn depth(&self) -> (r: usize) {
        self.circuit.depth()
    }

    /// Returns `true` if the three expressions can be recorded.
    fn accepts(&self, a: &LinearCombination, b: &LinearCombination, c: &LinearCombination) -> (r:
        bool) {
        self.circuit.accepts(a, b, c)
    }

    /// Adds one constraint enforcing that `(A * B) == C`.
    fn enforce(&mut self, a: LinearCombination, b: LinearCombination, c: LinearCombination) {
        self.circuit.enforce(a, b, c)
    }

    /// Returns `true` if all constraints in the environment are satisfied.
    fn is_satisfied(&self) -> (r: bool) {
        self.circuit.is_satisfied()
    }

    /// Returns `true` if all constraints in the current scope are satisfied.
    fn is_satisfied_in_scope(&self) -> (r: bool) {
        self.circuit.is_satisfied_in_scope()
    }

    /// Returns the number of constants in the entire circuit.
    fn num_constants(&self) -> (r: usize) {
        self.circuit.num_constants()
    }

    /// Returns the number of public variables in the entire circuit.
    fn num_public(&self) -> (r: usize) {
        self.circuit.num_public()
    }

    /// Returns the number of private variables in the entire circuit.
    fn num_private(&self) -> (r: usize) {
        self.circuit.num_private()
    }

    /// Returns the number of constraints in the entire circuit.
    fn num_constraints(&self) -> (r: usize) {
        self.circuit.num_constraints()
    }

    /// Returns the number of gates in the entire circuit.
    fn num_gates(&self) -> (r: usize) {
        self.circuit.num_gates()
    }

    /// Returns the number of constants for the current scope.
    fn num_constants_in_scope(&self) -> (r: usize) {
        self.circuit.num_constants_in_scope()
    }

    /// Returns the number of public variables for the current scope.
    fn num_public_in_scope(&self) -> (r: usize) {
        self.circuit.num_public_in_scope()
    }

    /// Returns the number of private variables for the current scope.
    fn num_private_in_scope(&self) -> (r: usize) {
        self.circuit.num_private_in_scope()
    }

    /// Returns the number of constraints for the current scope.
    fn num_constraints_in_scope(&self) -> (r: usize) {
        self.circuit.num_constraints_in_scope()
    }

    /// Returns the number of gates for the current scope.
    fn num_gates_in_scope(&self) -> (r: usize) {
        self.circuit.num_gates_in_scope()
    }

    /// Clears the circuit and initializes an empty environment.
    fn reset(&mut self) {
        self.circuit.reset();
    }
}

impl Account for Aleo {
    /// The bases that were derived when the environment was made.
    open spec fn bases(&self) -> Option<Seq<(nat, nat)>> {
        self.bases_view()
    }

    /// Returns the scalar multiplication on the group bases.
    fn g_scalar_multiply(&self, scalar: &[bool]) -> (r: Result<GroupElement, AccountError>) {
        let bases = match &self.bases {
            Some(bases) => bases,
            None => {
                return Err(AccountError::NoBases);
            },
        };
        if scalar.len() != bases.len() {
            return Err(AccountError::WrongLength);
        }
        let ghost points = views(bases@);
        proof {
            if no_bit_set(scalar@, scalar@.len()) {
                lemma_scaled_by_zero(points, scalar@, points.len());
            }
        }
        let mut output = GroupElement::zero().to_projective();
        let mut i: usize = 0;
        while i < bases.len()
            invariant
                i <= bases@.len(),
                scalar@.len() == bases@.len(),
                points == views(bases@),
                output@ == scaled(points, scalar@, i as nat),
            decreases bases@.len() - i,
        {
            if scalar[i] {
                output = output.add_mixed(&bases[i]);
            }
            i += 1;
        }
        match output.to_affine() {
            Some(point) => {
                proof {
                    if no_bit_set(scalar@, scalar@.len()) {
                        lemma_affine_form_of_lifted((0, 1), point@);
                    }
                }
                Ok(point)
            },
            None => Err(AccountError::NoAffineForm),
        }
    }
}

} // verus!
