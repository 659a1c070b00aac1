//! Variables: the leaves of every expression in a circuit.

use crate::field::FieldElement;
use vstd::prelude::*;

verus! {

/// The role of a variable in a circuit.
#[derive(Clone, Copy, Debug, PartialEq, Eq, Structural)]
pub enum Mode {
    /// Baked into the circuit description itself.
    Constant,
    /// Known to a verifier.
    Public,
    /// Known only to a prover.
    Private,
}

/// A variable as a mathematical value.
pub struct VariableView {
    /// Position of the variable among all variables of its circuit.
    pub index: nat,
    /// Role of the variable.
    pub mode: Mode,
    /// The number assigned to the variable.
    pub value: nat,
    /// The scope that was innermost when the variable was allocated.
    pub scope: nat,
}

/// A variable of a circuit. Its mode and value are fixed when the circuit
/// allocates it; no operation changes them afterwards.
#[derive(Clone, Copy, Debug)]
pub struct Variable {
    index: usize,
    mode: Mode,
    value: FieldElement,
    scope: usize,
}

impl View for Variable {
    type V = VariableView;

    closed spec fn view(&self) -> VariableView {
        VariableView {
            index: self.index as nat,
            mode: self.mode,
            value: self.value@,
            scope: self.scope as nat,
        }
    }
}

impl Variable {
    pub(crate) fn new(index: usize, mode: Mode, value: FieldElement, scope: usize) -> (r: Variable)
        ensures
            r@ == (VariableView { index: index as nat, mode, value: value@, scope: scope as nat }),
    {
        Variable { index, mode, value, scope }
    }

    /// Position of the variable among all variables of its circuit.
    pub fn index(&self) -> (r: usize)
        ensures
            r == self@.index,
    {
        self.index
    }

    /// Role of the variable.
    pub fn mode(&self) -> (r: Mode)
        ensures
            r == self@.mode,
    {
        self.mode
    }

    /// The field element assigned to the variable.
    pub fn value(&self) -> (r: FieldElement)
        ensures
            r@ == self@.value,
    {
        self.value
    }

    /// The scope that was innermost when the variable was allocated.
    pub fn scope(&self) -> (r: usize)
        ensures
            r == self@.scope,
    {
        self.scope
    }

    /// Whether two variables are the same variable with the same contents.
    pub fn same(&self, other: &Variable) -> (r: bool)
        ensures
            r == (self@ == other@),
    {
        self.index == other.index && self.mode == other.mode && self.value.equals(&other.value)
            && self.scope == other.scope
    }
}

} // verus!
