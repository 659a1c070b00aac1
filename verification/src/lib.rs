//! A constraint system for arithmetic circuits with lookup tables.
//!
//! A circuit is built in an [`environment::Environment`]: variables are
//! allocated, constraints `a * b = c` are enforced, and nested scopes count
//! what is done inside them. The [`lookup::Lookup`] extension adds tables of
//! rows of three field elements, lookups that draw a row from a table, and
//! the constraint that three values are a row of a table.
//! [`circuit::Circuit`] is the environment that keeps everything in memory.
//!
//! Every operation is stated as a step of the mathematical model in
//! [`state::State`]; [`theorems`] holds what follows for every circuit.
//! [`sinsemilla::Sinsemilla`] is a gadget on top of both: it hashes bits to a
//! point of the curve, one lookup for each window of bits.
//!
//! Field and curve arithmetic is done by `snarkvm_fields` and
//! `snarkvm_curves`; [`field`] and [`group`] state what is taken from them.

pub mod aleo;
pub mod circuit;
pub mod constraint;
pub mod environment;
pub mod field;
pub mod group;
pub mod ledger;
pub mod linear_combination;
pub mod lookup;
pub mod sinsemilla;
pub mod sponge;
pub mod state;
pub mod table;
pub mod theorems;
pub mod variable;

pub use aleo::{Account, Aleo};
pub use circuit::Circuit;
pub use constraint::Constraint;
pub use environment::Environment;
pub use field::FieldElement;
pub use group::GroupElement;
pub use ledger::Ledger;
pub use linear_combination::LinearCombination;
pub use lookup::{Lookup, LookupError};
pub use sinsemilla::{HashError, Sinsemilla};
pub use sponge::AlgebraicSponge;
pub use table::LookupTable;
pub use variable::{Mode, Variable};
