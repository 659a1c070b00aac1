//! Constraints: `a * b = c`, or `(a, b, c)` is a row of a lookup table.

use crate::linear_combination::LinearCombination;
use crate::state::{views, ConstraintView};
use crate::table::LookupTable;
use vstd::prelude::*;

verus! {

/// A recorded constraint. It is never changed after it was recorded.
#[derive(Debug)]
pub struct Constraint {
    scope: usize,
    table: Option<usize>,
    a: LinearCombination,
    b: LinearCombination,
    c: LinearCombination,
}

impl View for Constraint {
    type V = ConstraintView;

    closed spec fn view(&self) -> ConstraintView {
        ConstraintView {
            scope: self.scope as nat,
            table: match self.table {
                Some(handle) => Some(handle as nat),
                None => None,
            },
            a: self.a@,
            b: self.b@,
            c: self.c@,
        }
    }
}

impl Constraint {
    pub(crate) fn new(
        scope: usize,
        table: Option<usize>,
        a: LinearCombination,
        b: LinearCombination,
        c: LinearCombination,
    ) -> (r: Constraint)
        ensures
            r@ == (ConstraintView {
                scope: scope as nat,
                table: match table {
                    Some(handle) => Some(handle as nat),
                    None => None,
                },
                a: a@,
                b: b@,
                c: c@,
            }),
    {
        Constraint { scope, table, a, b, c }
    }

    /// The scope that was innermost when the constraint was recorded.
    pub fn scope(&self) -> (r: usize)
        ensures
            r == self@.scope,
    {
        self.scope
    }

    /// The handle of the table, for a lookup constraint.
    pub fn table(&self) -> (r: Option<usize>)
        ensures
            r is Some == self@.table is Some,
            r matches Some(handle) ==> self@.table == Some(handle as nat),
    {
        self.table
    }

    /// The three expressions of the constraint.
    pub fn to_terms(&self) -> (r: (&LinearCombination, &LinearCombination, &LinearCombination))
        ensures
            r.0@ == self@.a,
            r.1@ == self@.b,
            r.2@ == self@.c,
    {
        (&self.a, &self.b, &self.c)
    }

    /// Whether the assignment satisfies the constraint, given the tables.
    pub fn holds(&self, tables: &Vec<LookupTable>) -> (r: bool)
        ensures
            r == self@.holds(views(tables@)),
    {
        let a = self.a.value();
        let b = self.b.value();
        let c = self.c.value();
        match self.table {
            None => a.times(&b).equals(&c),
            Some(handle) => {
                if handle < tables.len() {
                    tables[handle].contains_row(&a, &b, &c)
                } else {
                    false
                }
            },
        }
    }
}

} // verus!
