//! Lookup tables: rows of three field elements, searched from the first row.

use crate::field::{modulus, FieldElement};
use crate::state::{canonical_rows, TableView};
use vstd::prelude::*;

verus! {

/// Row `i` is the first row of the table whose first column is `key`.
pub open spec fn unary_hit(table: TableView, key: nat, i: int) -> bool {
    &&& 0 <= i < table.len()
    &&& table[i].0 == key
    &&& forall|j: int| 0 <= j < i ==> (#[trigger] table[j]).0 != key
}

/// Some row of the table has `key` in its first column.
pub open spec fn has_unary_key(table: TableView, key: nat) -> bool {
    exists|i: int| 0 <= i < table.len() && (#[trigger] table[i]).0 == key
}

/// The first row of the table whose first column is `key`.
pub open spec fn unary_row(table: TableView, key: nat) -> (nat, nat, nat) {
    table[choose|i: int| unary_hit(table, key, i)]
}

/// Row `i` is the first row of the table whose first two columns are the two
/// keys.
pub open spec fn binary_hit(table: TableView, key_1: nat, key_2: nat, i: int) -> bool {
    &&& 0 <= i < table.len()
    &&& table[i].0 == key_1
    &&& table[i].1 == key_2
    &&& forall|j: int| 0 <= j < i ==> !((#[trigger] table[j]).0 == key_1 && table[j].1 == key_2)
}

/// Some row of the table has the two keys in its first two columns.
pub open spec fn has_binary_key(table: TableView, key_1: nat, key_2: nat) -> bool {
    exists|i: int| 0 <= i < table.len() && (#[trigger] table[i]).0 == key_1 && table[i].1 == key_2
}

/// The first row of the table whose first two columns are the two keys.
pub open spec fn binary_row(table: TableView, key_1: nat, key_2: nat) -> (nat, nat, nat) {
    table[choose|i: int| binary_hit(table, key_1, key_2, i)]
}

/// A key that some row has, has a first row.
pub proof fn lemma_unary_first_exists(table: TableView, key: nat)
    requires
        has_unary_key(table, key),
    ensures
        exists|i: int| unary_hit(table, key, i),
{
    let some = choose|i: int| 0 <= i < table.len() && (#[trigger] table[i]).0 == key;
    lemma_unary_first_below(table, key, some);
}

proof fn lemma_unary_first_below(table: TableView, key: nat, bound: int)
    requires
        0 <= bound < table.len(),
        table[bound].0 == key,
    ensures
        exists|i: int| unary_hit(table, key, i),
    decreases bound,
{
    if exists|j: int| 0 <= j < bound && (#[trigger] table[j]).0 == key {
        let j = choose|j: int| 0 <= j < bound && (#[trigger] table[j]).0 == key;
        lemma_unary_first_below(table, key, j);
    } else {
        assert(unary_hit(table, key, bound));
    }
}

/// A key pair that some row has, has a first row.
pub proof fn lemma_binary_first_exists(table: TableView, key_1: nat, key_2: nat)
    requires
        has_binary_key(table, key_1, key_2),
    ensures
        exists|i: int| binary_hit(table, key_1, key_2, i),
{
    let some = choose|i: int| 0 <= i < table.len() && (#[trigger] table[i]).0 == key_1 && table[i].1 == key_2;
    lemma_binary_first_below(table, key_1, key_2, some);
}

proof fn lemma_binary_first_below(table: TableView, key_1: nat, key_2: nat, bound: int)
    requires
        0 <= bound < table.len(),
        table[bound].0 == key_1,
        table[bound].1 == key_2,
    ensures
        exists|i: int| binary_hit(table, key_1, key_2, i),
    decreases bound,
{
    if exists|j: int| 0 <= j < bound && (#[trigger] table[j]).0 == key_1 && table[j].1 == key_2 {
        let j = choose|j: int| 0 <= j < bound && (#[trigger] table[j]).0 == key_1 && table[j].1 == key_2;
        lemma_binary_first_below(table, key_1, key_2, j);
    } else {
        assert(binary_hit(table, key_1, key_2, bound));
    }
}

/// The first row for a key of a table of canonical entries is canonical,
/// and is a row of the table.
pub proof fn lemma_unary_row_canonical(table: TableView, key: nat)
    requires
        has_unary_key(table, key),
        canonical_rows(table),
    ensures
        unary_row(table, key).0 == key,
        unary_row(table, key).1 < modulus(),
        unary_row(table, key).2 < modulus(),
        table.contains(unary_row(table, key)),
{
    lemma_unary_first_exists(table, key);
    let i = choose|i: int| unary_hit(table, key, i);
    assert(table[i] == unary_row(table, key));
}

/// There is only one first row for a key.
pub proof fn lemma_unary_hit_unique(table: TableView, key: nat, i: int)
    requires
        unary_hit(table, key, i),
    ensures
        unary_row(table, key) == table[i],
        has_unary_key(table, key),
{
    let chosen = choose|k: int| unary_hit(table, key, k);
    assert(unary_hit(table, key, chosen));
    if chosen < i {
        assert(table[chosen].0 != key);
    }
    if i < chosen {
        assert(table[i].0 != key);
    }
}

/// There is only one first row for a pair of keys.
pub proof fn lemma_binary_hit_unique(table: TableView, key_1: nat, key_2: nat, i: int)
    requires
        binary_hit(table, key_1, key_2, i),
    ensures
        binary_row(table, key_1, key_2) == table[i],
        has_binary_key(table, key_1, key_2),
{
    let chosen = choose|k: int| binary_hit(table, key_1, key_2, k);
    assert(binary_hit(table, key_1, key_2, chosen));
    if chosen < i {
        assert(!(table[chosen].0 == key_1 && table[chosen].1 == key_2));
    }
    if i < chosen {
        assert(!(table[i].0 == key_1 && table[i].1 == key_2));
    }
}

/// A lookup table: an ordered sequence of rows of three field elements.
#[derive(Debug)]
pub struct LookupTable {
    rows: Vec<(FieldElement, FieldElement, FieldElement)>,
}

impl View for LookupTable {
    type V = TableView;

    closed spec fn view(&self) -> TableView {
        Seq::new(self.rows@.len(), |i: int| (self.rows@[i].0@, self.rows@[i].1@, self.rows@[i].2@))
    }
}

impl LookupTable {
    /// Every entry of a table is a canonical field element.
    #[verifier::type_invariant]
    pub closed spec fn canonical(self) -> bool {
        forall|i: int|
            0 <= i < self.rows@.len() ==> {
                &&& (#[trigger] self.rows@[i]).0@ < modulus()
                &&& self.rows@[i].1@ < modulus()
                &&& self.rows@[i].2@ < modulus()
            }
    }

    /// What the invariant of the type says of the rows.
    pub proof fn lemma_canonical(self)
        requires
            self.canonical(),
        ensures
            canonical_rows(self@),
    {
        assert forall|r: int| 0 <= r < self@.len() implies {
            &&& (#[trigger] self@[r]).0 < modulus()
            &&& self@[r].1 < modulus()
            &&& self@[r].2 < modulus()
        } by {
            assert(self.rows@[r].0@ < modulus());
        }
    }

    /// The table without rows.
    pub fn new() -> (r: LookupTable)
        ensures
            r@ == Seq::<(nat, nat, nat)>::empty(),
    {
        let r = LookupTable { rows: Vec::new() };
        assert(r@ =~= Seq::<(nat, nat, nat)>::empty());
        r
    }

    /// The table with one more row after the rows that it holds.
    pub fn with_row(self, first: FieldElement, second: FieldElement, third: FieldElement) -> (r: LookupTable)
        ensures
            r@ == self@.push((first@, second@, third@)),
    {
        proof {
            use_type_invariant(&self);
            use_type_invariant(&first);
            use_type_invariant(&second);
            use_type_invariant(&third);
        }
        let mut rows = self.rows;
        rows.push((first, second, third));
        let r = LookupTable { rows };
        assert(r@ =~= self@.push((first@, second@, third@)));
        r
    }

    /// The table with the given rows, in their order.
    pub fn from_rows(rows: &[(FieldElement, FieldElement, FieldElement)]) -> (r: LookupTable)
        ensures
            r@.len() == rows@.len(),
            forall|i: int| 0 <= i < rows@.len() ==> r@[i] == (rows@[i].0@, rows@[i].1@, rows@[i].2@),
    {
        let mut table = LookupTable::new();
        let mut i: usize = 0;
        while i < rows.len()
            invariant
                i <= rows@.len(),
                table@.len() == i,
                forall|j: int| 0 <= j < i ==> table@[j] == (rows@[j].0@, rows@[j].1@, rows@[j].2@),
            decreases rows@.len() - i,
        {
            let row = rows[i];
            table = table.with_row(row.0, row.1, row.2);
            i += 1;
        }
        table
    }

    /// The number of rows.
    pub fn len(&self) -> (r: usize)
        ensures
            r == self@.len(),
    {
        self.rows.len()
    }

    /// The row at the given position.
    pub fn row(&self, index: usize) -> (r: (FieldElement, FieldElement, FieldElement))
        requires
            index < self@.len(),
        ensures
            (r.0@, r.1@, r.2@) == self@[index as int],
    {
        self.rows[index]
    }

    /// The position of the first row whose first column is `key`, if there
    /// is one.
    pub fn find_unary(&self, key: &FieldElement) -> (r: Option<usize>)
        ensures
            r matches Some(i) ==> unary_hit(self@, key@, i as int),
            r is None ==> !has_unary_key(self@, key@),
    {
        let mut i: usize = 0;
        while i < self.rows.len()
            invariant
                i <= self.rows@.len(),
                forall|j: int| 0 <= j < i ==> (#[trigger] self@[j]).0 != key@,
            decreases self.rows@.len() - i,
        {
            if self.rows[i].0.equals(key) {
                return Some(i);
            }
            i += 1;
        }
        None
    }

    /// The position of the first row whose first two columns are `key_1` and
    /// `key_2`, if there is one.
    pub fn find_binary(&self, key_1: &FieldElement, key_2: &FieldElement) -> (r: Option<usize>)
        ensures
            r matches Some(i) ==> binary_hit(self@, key_1@, key_2@, i as int),
            r is None ==> !has_binary_key(self@, key_1@, key_2@),
    {
        let mut i: usize = 0;
        while i < self.rows.len()
            invariant
                i <= self.rows@.len(),
                forall|j: int| 0 <= j < i ==> !((#[trigger] self@[j]).0 == key_1@ && self@[j].1 == key_2@),
            decreases self.rows@.len() - i,
        {
            if self.rows[i].0.equals(key_1) && self.rows[i].1.equals(key_2) {
                return Some(i);
            }
            i += 1;
        }
        None
    }

    /// Whether the three values are a row of the table.
    pub fn contains_row(&self, first: &FieldElement, second: &FieldElement, third: &FieldElement) -> (r: bool)
        ensures
            r == self@.contains((first@, second@, third@)),
    {
        let mut i: usize = 0;
        while i < self.rows.len()
            invariant
                i <= self.rows@.len(),
                forall|j: int| 0 <= j < i ==> self@[j] != (first@, second@, third@),
            decreases self.rows@.len() - i,
        {
            if self.rows[i].0.equals(first) && self.rows[i].1.equals(second) && self.rows[i].2.equals(third) {
                assert(self@[i as int] == (first@, second@, third@));
                return true;
            }
            i += 1;
        }
        false
    }
}

} // verus!
