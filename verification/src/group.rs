//! Points of the twisted Edwards curve over the base field.
//!
//! The group law is computed by `snarkvm_curves` in extended projective
//! coordinates, where no step divides. Only the way back to affine coordinates
//! divides, by the last coordinate, and is taken where that is not zero.

use crate::field::{modulus, FieldElement};
use snarkvm_algorithms::hash_to_curve::try_hash_to_curve;
use snarkvm_curves::edwards_bls12::{EdwardsAffine, EdwardsProjective, Fq, Fr};
use snarkvm_curves::{AffineCurve, Group, ProjectiveCurve};
use snarkvm_fields::PrimeField;
use snarkvm_utilities::biginteger::BigInteger256;
use vstd::arithmetic::div_mod::lemma_small_mod;
use vstd::prelude::*;

verus! {

/// The coefficient `d` of the curve `-x^2 + y^2 = 1 + d * x^2 * y^2`.
pub open spec fn coefficient_d() -> nat {
    3021
}

/// The field element that an integer stands for.
pub open spec fn reduced(n: int) -> nat {
    (n % (modulus() as int)) as nat
}

/// The extended projective coordinates `(x, y, t, z)` of the double of the
/// point with the given coordinates: the unified addition of the point to
/// itself.
pub open spec fn doubled(p: (nat, nat, nat, nat)) -> (nat, nat, nat, nat) {
    let c = (coefficient_d() * p.2 * p.2) as int;
    let e = (2 * p.0 * p.1) as int;
    let f: int = p.3 * p.3 - c;
    let g: int = p.3 * p.3 + c;
    let h = (p.1 * p.1 + p.0 * p.0) as int;
    (reduced(e * f), reduced(g * h), reduced(e * h), reduced(f * g))
}

/// The extended projective coordinates of the sum of the point with the
/// coordinates `p` and the affine point `q`.
pub open spec fn mixed_sum(p: (nat, nat, nat, nat), q: (nat, nat)) -> (nat, nat, nat, nat) {
    let c = (coefficient_d() * p.2 * q.0 * q.1) as int;
    let e = (p.0 * q.1 + p.1 * q.0) as int;
    let f: int = p.3 - c;
    let g: int = p.3 + c;
    let h = (p.1 * q.1 + p.0 * q.0) as int;
    (reduced(e * f), reduced(g * h), reduced(e * h), reduced(f * g))
}

/// The affine coordinates that the way back from the extended projective
/// coordinates `p` yields.
pub uninterp spec fn affine_form(p: (nat, nat, nat, nat)) -> (nat, nat);

/// The affine coordinates of the point that one round of hashing the message
/// to the curve yields, if the round yields a point.
pub uninterp spec fn hashed_point(message: Seq<char>) -> Option<(nat, nat)>;

/// The affine coordinates of the point with the first coordinate `x` whose
/// second coordinate is the greater of the two roots, or the lesser one, if
/// the curve has a point with that first coordinate.
pub uninterp spec fn recovered_point(x: nat, greatest: bool) -> Option<(nat, nat)>;

/// Whether the point with the affine coordinates `q` lies in the subgroup of
/// prime order.
pub uninterp spec fn in_prime_subgroup(q: (nat, nat)) -> bool;

/// The number of rounds that hashing a message to the curve tries.
pub const HASH_ROUNDS: u8 = 128;

/// The number of bits of the order of the subgroup of prime order.
pub const SCALAR_BITS: usize = 251;

/// The digit that stands for a number below ten.
pub open spec fn digit(d: nat) -> char {
    if d == 0 {
        '0'
    } else if d == 1 {
        '1'
    } else if d == 2 {
        '2'
    } else if d == 3 {
        '3'
    } else if d == 4 {
        '4'
    } else if d == 5 {
        '5'
    } else if d == 6 {
        '6'
    } else if d == 7 {
        '7'
    } else if d == 8 {
        '8'
    } else {
        '9'
    }
}

/// The decimal digits of a number, without leading zeros.
pub open spec fn decimal(n: nat) -> Seq<char>
    decreases n,
{
    if n < 10 {
        seq![digit(n)]
    } else {
        decimal(n / 10).push(digit(n % 10))
    }
}

/// The message that round `k` of hashing `message` to the curve hashes.
pub open spec fn round_message(message: Seq<char>, k: nat) -> Seq<char> {
    message + seq![' ', 'i', 'n', ' '] + decimal(k)
}

/// The point that the first round from round `k` on yields, if one of the
/// rounds below `HASH_ROUNDS` yields a point.
pub open spec fn curve_hash_from(message: Seq<char>, k: nat) -> Option<(nat, nat)>
    decreases HASH_ROUNDS - k,
{
    if k >= HASH_ROUNDS {
        None
    } else if hashed_point(round_message(message, k)) is Some {
        hashed_point(round_message(message, k))
    } else {
        curve_hash_from(message, k + 1)
    }
}

/// The point that the message is hashed to: the point of the first round
/// that yields one.
pub open spec fn curve_hash(message: Seq<char>) -> Option<(nat, nat)> {
    curve_hash_from(message, 0)
}

/// The point with the first coordinate `x` in the subgroup of prime order:
/// the one with the greater second coordinate if that lies in the subgroup,
/// else the other one if that does.
pub open spec fn subgroup_point(x: nat) -> Option<(nat, nat)> {
    if recovered_point(x, true) is Some && in_prime_subgroup(recovered_point(x, true).unwrap()) {
        recovered_point(x, true)
    } else if recovered_point(x, false) is Some && in_prime_subgroup(recovered_point(x, false).unwrap()) {
        recovered_point(x, false)
    } else {
        None
    }
}

/// A point in affine coordinates.
#[derive(Clone, Copy, Debug, PartialEq, Eq, Structural)]
pub struct GroupElement {
    x: FieldElement,
    y: FieldElement,
}

impl View for GroupElement {
    type V = (nat, nat);

    closed spec fn view(&self) -> (nat, nat) {
        (self.x@, self.y@)
    }
}

/// A point in extended projective coordinates.
#[derive(Clone, Copy, Debug, PartialEq, Eq, Structural)]
pub struct ProjectivePoint {
    x: FieldElement,
    y: FieldElement,
    t: FieldElement,
    z: FieldElement,
}

impl View for ProjectivePoint {
    type V = (nat, nat, nat, nat);

    closed spec fn view(&self) -> (nat, nat, nat, nat) {
        (self.x@, self.y@, self.t@, self.z@)
    }
}

/// The extended projective coordinates of an affine point: `(x, y, x * y, 1)`.
pub open spec fn lifted(q: (nat, nat)) -> (nat, nat, nat, nat) {
    (q.0, q.1, (q.0 * q.1) % modulus(), 1)
}

/// The affine point `q` is the point with the projective coordinates `p`:
/// each of its coordinates, multiplied by the last coordinate of `p`, gives
/// the corresponding coordinate of `p`.
pub open spec fn is_affine_form(q: (nat, nat), p: (nat, nat, nat, nat)) -> bool {
    &&& (q.0 * p.3) % modulus() == p.0
    &&& (q.1 * p.3) % modulus() == p.1
}

impl GroupElement {
    /// The point with the given coordinates.
    pub fn from_xy_coordinates(x: FieldElement, y: FieldElement) -> (r: GroupElement)
        ensures
            r@ == (x@, y@),
    {
        GroupElement { x, y }
    }

    /// The neutral element of the group: `(0, 1)`.
    pub fn zero() -> (r: GroupElement)
        ensures
            r@ == (0nat, 1nat),
    {
        GroupElement { x: FieldElement::zero(), y: FieldElement::one() }
    }

    /// The first coordinate.
    pub fn to_x_coordinate(&self) -> (r: FieldElement)
        ensures
            r@ == self@.0,
    {
        self.x
    }

    /// The second coordinate.
    pub fn to_y_coordinate(&self) -> (r: FieldElement)
        ensures
            r@ == self@.1,
    {
        self.y
    }

    /// Two points with the same coordinates are the same point.
    pub proof fn lemma_view_injective(a: GroupElement, b: GroupElement)
        ensures
            (a@ == b@) <==> (a == b),
    {
        FieldElement::lemma_view_injective(a.x, b.x);
        FieldElement::lemma_view_injective(a.y, b.y);
    }

    /// The point in extended projective coordinates.
    pub fn to_projective(&self) -> (r: ProjectivePoint)
        ensures
            r@ == lifted(self@),
    {
        ProjectivePoint { x: self.x, y: self.y, t: self.x.times(&self.y), z: FieldElement::one() }
    }

    /// The point that one round of hashing the message to the curve yields,
    /// if the round yields a point.
    pub fn try_from_message(message: &str) -> (r: Option<GroupElement>)
        ensures
            r is Some == hashed_point(message@) is Some,
            r matches Some(point) ==> {
                &&& hashed_point(message@) == Some(point@)
                &&& point@.0 < modulus()
                &&& point@.1 < modulus()
            },
    {
        let r = hash_round(message);
        proof {
            match r {
                Some(point) => {
                    use_type_invariant(&point.x);
                    use_type_invariant(&point.y);
                },
                None => {},
            }
        }
        r
    }

    /// Hashes the message to the curve: round after round hashes the
    /// message, the word `in` and the number of the round, until a round
    /// yields a point. Where none of the rounds does, there is no point.
    pub fn hash_to_curve(message: &str) -> (r: Option<GroupElement>)
        ensures
            r is Some == curve_hash(message@) is Some,
            r matches Some(point) ==> {
                &&& curve_hash(message@) == Some(point@)
                &&& point@.0 < modulus()
                &&& point@.1 < modulus()
            },
    {
        let mut k: u8 = 0;
        while k < HASH_ROUNDS
            invariant
                k <= HASH_ROUNDS,
                curve_hash(message@) == curve_hash_from(message@, k as nat),
            decreases HASH_ROUNDS - k,
        {
            let round = indexed_message(message, k);
            match GroupElement::try_from_message(round.as_str()) {
                Some(point) => {
                    return Some(point);
                },
                None => {},
            }
            k = k + 1;
        }
        None
    }

    /// The point with the given first coordinate in the subgroup of prime
    /// order, if there is one.
    pub fn from_x_coordinate(x: FieldElement) -> (r: Option<GroupElement>)
        ensures
            r is Some == subgroup_point(x@) is Some,
            r matches Some(point) ==> subgroup_point(x@) == Some(point@),
    {
        match recover_from_x(&x, true) {
            Some(point) => {
                if is_in_subgroup(&point) {
                    return Some(point);
                }
            },
            None => {},
        }
        match recover_from_x(&x, false) {
            Some(point) => {
                if is_in_subgroup(&point) {
                    return Some(point);
                }
            },
            None => {},
        }
        None
    }
}

/// The number of bits of the order of the subgroup of prime order.
pub fn scalar_size_in_bits() -> (r: usize)
    ensures
        r == SCALAR_BITS,
{
    scalar_field_bits()
}

impl ProjectivePoint {
    /// The first coordinate.
    pub fn to_x_coordinate(&self) -> (r: FieldElement)
        ensures
            r@ == self@.0,
    {
        self.x
    }

    /// The second coordinate.
    pub fn to_y_coordinate(&self) -> (r: FieldElement)
        ensures
            r@ == self@.1,
    {
        self.y
    }

    /// The third coordinate: the product of the first two, divided by the
    /// last.
    pub fn to_t_coordinate(&self) -> (r: FieldElement)
        ensures
            r@ == self@.2,
    {
        self.t
    }

    /// The last coordinate, by which the others are divided to find the
    /// affine form.
    pub fn to_z_coordinate(&self) -> (r: FieldElement)
        ensures
            r@ == self@.3,
    {
        self.z
    }

    /// The double of the point.
    pub fn double(&self) -> (r: ProjectivePoint)
        ensures
            r@ == doubled(self@),
    {
        projective_double(self)
    }

    /// The sum of the point and an affine point.
    pub fn add_mixed(&self, other: &GroupElement) -> (r: ProjectivePoint)
        ensures
            r@ == mixed_sum(self@, other@),
    {
        projective_add_mixed(self, other)
    }

    /// The point in affine coordinates, where it has an affine form: where
    /// its last coordinate is not zero.
    pub fn to_affine(&self) -> (r: Option<GroupElement>)
        ensures
            r is Some <==> self@.3 != 0,
            r matches Some(q) ==> {
                &&& q@ == affine_form(self@)
                &&& is_affine_form(q@, self@)
                &&& q@.0 < modulus()
                &&& q@.1 < modulus()
            },
    {
        if self.z.is_zero() {
            None
        } else {
            let q = projective_to_affine(self);
            proof {
                use_type_invariant(&q.x);
                use_type_invariant(&q.y);
            }
            Some(q)
        }
    }
}

/// An affine point is the affine form of its projective coordinates, and
/// the only one.
pub proof fn lemma_affine_form_of_lifted(q: (nat, nat), r: (nat, nat))
    requires
        q.0 < modulus(),
        q.1 < modulus(),
        r.0 < modulus(),
        r.1 < modulus(),
    ensures
        is_affine_form(r, lifted(q)) <==> r == q,
{
    lemma_small_mod(q.0, modulus());
    lemma_small_mod(q.1, modulus());
    lemma_small_mod(r.0, modulus());
    lemma_small_mod(r.1, modulus());
    assert(r.0 * 1 == r.0);
    assert(r.1 * 1 == r.1);
}

/// Doubling on the curve, as `snarkvm_curves` implements `Group::double` for
/// `EdwardsProjective`.
///
/// The four coordinates are handed over and read back as canonical limbs.
/// The outside function adds the point to itself by the unified addition in
/// extended coordinates; it only adds, subtracts and multiplies field
/// elements, so it returns for every input. The contract claims that the
/// result is what those formulas give in the field, as `doubled` writes them
/// out.
#[verifier::external_body]
fn projective_double(p: &ProjectivePoint) -> (r: ProjectivePoint)
    ensures
        r@ == doubled(p@),
{
    let f = |e: &FieldElement| Fq::from_repr(BigInteger256(e.to_limbs())).unwrap();
    let g = |e: Fq| FieldElement::from_reduced_limbs(e.to_repr().0);
    let d = EdwardsProjective::new(f(&p.x), f(&p.y), f(&p.t), f(&p.z)).double();
    ProjectivePoint { x: g(d.x), y: g(d.y), t: g(d.t), z: g(d.z) }
}

/// Addition of an affine point, as `snarkvm_curves` implements
/// `ProjectiveCurve::add_assign_mixed` for `EdwardsProjective`.
///
/// The coordinates are handed over and read back as canonical limbs. The
/// outside function adds by the mixed addition in extended coordinates; it
/// only adds, subtracts and multiplies field elements, so it returns for
/// every input. The contract claims that the result is what those formulas
/// give in the field, as `mixed_sum` writes them out.
#[verifier::external_body]
fn projective_add_mixed(p: &ProjectivePoint, q: &GroupElement) -> (r: ProjectivePoint)
    ensures
        r@ == mixed_sum(p@, q@),
{
    let f = |e: &FieldElement| Fq::from_repr(BigInteger256(e.to_limbs())).unwrap();
    let g = |e: Fq| FieldElement::from_reduced_limbs(e.to_repr().0);
    let mut s = EdwardsProjective::new(f(&p.x), f(&p.y), f(&p.t), f(&p.z));
    s.add_assign_mixed(&EdwardsAffine::new(f(&q.x), f(&q.y)));
    ProjectivePoint { x: g(s.x), y: g(s.y), t: g(s.t), z: g(s.z) }
}

/// The way back to affine coordinates, as `snarkvm_curves` implements
/// `ProjectiveCurve::into_affine` for `EdwardsProjective`.
///
/// For the neutral element it gives `(0, 1)`; where the last coordinate is
/// one it gives the first two coordinates; else it multiplies the first two
/// coordinates by the inverse of the last, which exists because the last is
/// not zero. The contract gives the result its name, `affine_form`, and
/// claims of it what holds in each of the three cases: multiplied by the last
/// coordinate, it gives the first two coordinates back.
#[verifier::external_body]
fn projective_to_affine(p: &ProjectivePoint) -> (r: GroupElement)
    requires
        p@.3 != 0,
    ensures
        r@ == affine_form(p@),
        is_affine_form(r@, p@),
{
    let f = |e: &FieldElement| Fq::from_repr(BigInteger256(e.to_limbs())).unwrap();
    let g = |e: Fq| FieldElement::from_reduced_limbs(e.to_repr().0);
    let a = EdwardsProjective::new(f(&p.x), f(&p.y), f(&p.t), f(&p.z)).into_affine();
    GroupElement { x: g(a.x), y: g(a.y) }
}

/// One round of hashing to the curve, as `snarkvm_algorithms` implements
/// `try_hash_to_curve` for `EdwardsAffine`.
///
/// The round hashes the bytes of the message, reads the digest as a point
/// and multiplies it by the cofactor; it yields no point where the digest is
/// no point or the product is the neutral element. The contract gives the
/// result its name, `hashed_point`, and claims no more than that it depends
/// on the message alone.
#[verifier::external_body]
fn hash_round(message: &str) -> (r: Option<GroupElement>)
    ensures
        r is Some == hashed_point(message@) is Some,
        r matches Some(point) ==> hashed_point(message@) == Some(point@),
{
    let g = |e: Fq| FieldElement::from_reduced_limbs(e.to_repr().0);
    match try_hash_to_curve::<EdwardsAffine>(message) {
        Some(point) => Some(GroupElement { x: g(point.x), y: g(point.y) }),
        None => None,
    }
}

/// The size of the scalar field, as `snarkvm_fields` gives it with
/// `PrimeField::size_in_bits` for `Fr`.
///
/// The function returns the constant `MODULUS_BITS` of the field's
/// parameters, which `snarkvm_curves` sets to 251 for this curve.
#[verifier::external_body]
fn scalar_field_bits() -> (r: usize)
    ensures
        r == SCALAR_BITS,
{
    Fr::size_in_bits()
}

/// The message of a round, as `format!` of std writes a string, the word
/// `in` between two spaces, and a number.
///
/// The contract claims that the number is written in decimal digits without
/// leading zeros, as std documents for the `Display` of an integer.
#[verifier::external_body]
fn indexed_message(message: &str, k: u8) -> (r: String)
    ensures
        r@ == round_message(message@, k as nat),
{
    format!("{} in {}", message, k)
}

/// The point for a first coordinate, as `snarkvm_curves` implements
/// `AffineCurve::from_x_coordinate` for `EdwardsAffine`.
///
/// The function solves the curve's equation for the second coordinate and
/// picks one of the two roots by `greatest`; it yields no point where the
/// equation has no solution. The contract gives the result its name,
/// `recovered_point`, and claims no more than that it depends on the
/// arguments alone.
#[verifier::external_body]
fn recover_from_x(x: &FieldElement, greatest: bool) -> (r: Option<GroupElement>)
    ensures
        r is Some == recovered_point(x@, greatest) is Some,
        r matches Some(point) ==> recovered_point(x@, greatest) == Some(point@),
{
    let g = |e: Fq| FieldElement::from_reduced_limbs(e.to_repr().0);
    let x = Fq::from_repr(BigInteger256(x.to_limbs())).unwrap();
    match EdwardsAffine::from_x_coordinate(x, greatest) {
        Some(point) => Some(GroupElement { x: g(point.x), y: g(point.y) }),
        None => None,
    }
}

/// The subgroup test, as `snarkvm_curves` implements
/// `AffineCurve::is_in_correct_subgroup_assuming_on_curve` for
/// `EdwardsAffine`.
///
/// The function multiplies the point by the order of the subgroup, in
/// projective coordinates, and tests the product for the neutral element.
/// The contract gives the result its name, `in_prime_subgroup`, and claims no
/// more than that it depends on the coordinates alone.
#[verifier::external_body]
fn is_in_subgroup(q: &GroupElement) -> (r: bool)
    ensures
        r == in_prime_subgroup(q@),
{
    let f = |e: &FieldElement| Fq::from_repr(BigInteger256(e.to_limbs())).unwrap();
    EdwardsAffine::new(f(&q.x), f(&q.y)).is_in_correct_subgroup_assuming_on_curve()
}

} // verus!
