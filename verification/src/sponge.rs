//! The interface of an algebraic sponge over the base field.

use crate::field::FieldElement;
use vstd::prelude::*;

verus! {

/// An algebraic sponge: it takes field elements in and gives field elements
/// out.
pub trait AlgebraicSponge: Clone {
    /// Initializes an algebraic sponge.
    fn new() -> Self;

    /// Takes in field elements.
    fn absorb(&mut self, elems: &[FieldElement]);

    /// Takes out field elements.
    fn squeeze(&mut self, num: usize) -> Vec<FieldElement>;
}

} // verus!
