//! Existence queries of a ledger over its indexed stores.

use crate::field::FieldElement;
use crate::group::GroupElement;
use vstd::prelude::*;

verus! {

/// The indices that a store keeps.
#[derive(Clone, Copy, Debug, PartialEq, Eq, Structural)]
pub enum Index {
    /// Blocks by hash.
    BlockHash,
    /// Blocks by height.
    BlockHeight,
    /// Programs by identifier.
    ProgramId,
    /// Transactions by identifier.
    TransactionId,
    /// Transitions by identifier.
    TransitionId,
    /// Transition inputs by identifier.
    InputId,
    /// Serial numbers of consumed records.
    SerialNumber,
    /// Tags of consumed records.
    Tag,
    /// Transition outputs by identifier.
    OutputId,
    /// Commitments of produced records.
    Commitment,
    /// Checksums of produced records.
    Checksum,
    /// Nonces of produced records.
    Nonce,
    /// Transition public keys.
    Tpk,
    /// Transition commitments.
    Tcm,
}

/// A key of an index.
#[derive(Clone, Copy, Debug, PartialEq, Eq, Structural)]
pub enum Key {
    /// A field element: a hash, an identifier, a commitment.
    Field(FieldElement),
    /// A block height.
    Height(u32),
    /// A group element: a nonce, a public key.
    Group(GroupElement),
}

/// Why a store could not answer.
#[derive(Clone, Copy, Debug, PartialEq, Eq, Structural)]
pub enum StorageError {
    /// The store cannot be reached.
    Unavailable,
    /// The store holds data that it cannot read.
    Corrupted,
}

/// An indexed store: for each index, a set of keys.
pub trait Storage {
    /// The pairs of index and key that the store holds. A store that does
    /// not say what it holds is taken to hold nothing.
    open spec fn entries(&self) -> Set<(Index, Key)> {
        Set::empty()
    }

    /// Whether the store answers every query. A store that does not say so
    /// is taken to be one that may fail.
    open spec fn always_answers(&self) -> bool {
        false
    }

    /// Whether the store holds the key under the index. A store that always
    /// answers, answers; and a store that answers, answers for what it
    /// holds.
    fn contains(&self, index: Index, key: &Key) -> (r: Result<bool, StorageError>)
        ensures
            self.always_answers() ==> r is Ok,
            r matches Ok(found) ==> found == self.entries().contains((index, *key)),
    ;

    /// Whether the store holds the checksum. Every store keeps its
    /// checksums at hand: this query cannot fail.
    fn contains_checksum(&self, checksum: &FieldElement) -> (r: bool)
        ensures
            r == self.entries().contains((Index::Checksum, Key::Field(*checksum))),
    ;
}

/// A store in memory. It always answers.
#[derive(Debug)]
pub struct MemoryStore {
    entries: Vec<(Index, Key)>,
}

impl MemoryStore {
    /// The store that holds nothing.
    pub fn new() -> (r: MemoryStore)
        ensures
            r.entries() == Set::<(Index, Key)>::empty(),
    {
        let r = MemoryStore { entries: Vec::new() };
        assert(r.entries() =~= Set::<(Index, Key)>::empty());
        r
    }

    /// Whether the key was put under the index.
    pub fn holds(&self, index: Index, key: &Key) -> (r: bool)
        ensures
            r == self.entries().contains((index, *key)),
    {
        let mut i: usize = 0;
        while i < self.entries.len()
            invariant
                i <= self.entries@.len(),
                forall|j: int| 0 <= j < i ==> self.entries@[j] != (index, *key),
            decreases self.entries@.len() - i,
        {
            if self.entries[i].0 == index && self.entries[i].1 == *key {
                assert(self.entries@[i as int] == (index, *key));
                return true;
            }
            i += 1;
        }
        false
    }

    /// Puts the key under the index.
    pub fn insert(&mut self, index: Index, key: Key)
        ensures
            final(self).entries() == old(self).entries().insert((index, key)),
    {
        self.entries.push((index, key));
        assert(self.entries() =~= old(self).entries().insert((index, key))) by {
            assert forall|e: (Index, Key)| self.entries().contains(e) <==> old(self).entries().insert(
                (index, key),
            ).contains(e) by {
                if old(self).entries@.contains(e) {
                    let i = choose|i: int| 0 <= i < old(self).entries@.len() && old(self).entries@[i] == e;
                    assert(self.entries@[i] == e);
                }
                if e == (index, key) {
                    assert(self.entries@[self.entries@.len() - 1] == e);
                }
            }
        }
    }
}

impl Storage for MemoryStore {
    /// The pairs that were inserted.
    closed spec fn entries(&self) -> Set<(Index, Key)> {
        self.entries@.to_set()
    }

    /// A store in memory always answers.
    open spec fn always_answers(&self) -> bool {
        true
    }

    /// Scans the pairs that were inserted. A store in memory always answers.
    fn contains(&self, index: Index, key: &Key) -> (r: Result<bool, StorageError>)
        ensures
            r is Ok,
    {
        Ok(self.holds(index, key))
    }

    /// Scans the pairs that were inserted for the checksum.
    fn contains_checksum(&self, checksum: &FieldElement) -> (r: bool) {
        self.holds(Index::Checksum, &Key::Field(*checksum))
    }
}

/// A ledger: the state roots it has seen, and its stores of blocks,
/// transactions and transitions.
///
/// Each query for a block, a transaction or a transition hands one index
/// and one key to one of the stores and returns the answer as it is: over a
/// store that always answers the query always answers, and a failure of a
/// store is never taken for absence. The queries for a state root and for a
/// checksum cannot fail.
#[derive(Debug)]
pub struct Ledger<S: Storage> {
    latest_state_root: FieldElement,
    previous_state_roots: Vec<FieldElement>,
    blocks: S,
    transactions: S,
    transitions: S,
}

impl<S: Storage> Ledger<S> {
    /// The state root of the latest block.
    pub closed spec fn latest_state_root(&self) -> FieldElement {
        self.latest_state_root
    }

    /// The state roots of all earlier blocks, oldest first.
    pub closed spec fn previous_state_roots(&self) -> Seq<FieldElement> {
        self.previous_state_roots@
    }

    /// The store of blocks.
    pub closed spec fn blocks(&self) -> S {
        self.blocks
    }

    /// The store of transactions.
    pub closed spec fn transactions(&self) -> S {
        self.transactions
    }

    /// The store of transitions.
    pub closed spec fn transitions(&self) -> S {
        self.transitions
    }

    /// A ledger over the given stores, whose latest block has the given
    /// state root and which has no earlier block.
    pub fn new(state_root: FieldElement, blocks: S, transactions: S, transitions: S) -> (r: Ledger<S>)
        ensures
            r.latest_state_root() == state_root,
            r.previous_state_roots() == Seq::<FieldElement>::empty(),
            r.blocks() == blocks,
            r.transactions() == transactions,
            r.transitions() == transitions,
    {
        Ledger { latest_state_root: state_root, previous_state_roots: Vec::new(), blocks, transactions, transitions }
    }

    /// Makes `state_root` the latest state root; the one that was latest
    /// becomes the last of the previous ones.
    pub fn advance(&mut self, state_root: FieldElement)
        ensures
            final(self).latest_state_root() == state_root,
            final(self).previous_state_roots() == old(self).previous_state_roots().push(
                old(self).latest_state_root(),
            ),
            final(self).blocks() == old(self).blocks(),
            final(self).transactions() == old(self).transactions(),
            final(self).transitions() == old(self).transitions(),
    {
        self.previous_state_roots.push(self.latest_state_root);
        self.latest_state_root = state_root;
    }

    /// Returns `true` if the given state root exists: it is the latest one
    /// or one of the previous ones.
    pub fn contains_state_root(&self, state_root: &FieldElement) -> (r: bool)
        ensures
            r == (*state_root == self.latest_state_root() || self.previous_state_roots().contains(
                *state_root,
            )),
    {
        if *state_root == self.latest_state_root {
            return true;
        }
        let mut i: usize = 0;
        while i < self.previous_state_roots.len()
            invariant
                i <= self.previous_state_roots@.len(),
                forall|j: int| 0 <= j < i ==> self.previous_state_roots@[j] != *state_root,
            decreases self.previous_state_roots@.len() - i,
        {
            if self.previous_state_roots[i] == *state_root {
                return true;
            }
            i += 1;
        }
        false
    }

    /// Returns `true` if the given block hash exists.
    pub fn contains_block_hash(&self, block_hash: &FieldElement) -> (r: Result<bool, StorageError>)
        ensures
            self.blocks().always_answers() ==> r is Ok,
            r matches Ok(found) ==> found == self.blocks().entries().contains(
                (Index::BlockHash, Key::Field(*block_hash)),
            ),
    {
        self.blocks.contains(Index::BlockHash, &Key::Field(*block_hash))
    }

    /// Returns `true` if the given block height exists.
    pub fn contains_block_height(&self, height: u32) -> (r: Result<bool, StorageError>)
        ensures
            self.blocks().always_answers() ==> r is Ok,
            r matches Ok(found) ==> found == self.blocks().entries().contains(
                (Index::BlockHeight, Key::Height(height)),
            ),
    {
        self.blocks.contains(Index::BlockHeight, &Key::Height(height))
    }

    /// Returns `true` if the given program ID exists.
    pub fn contains_program_id(&self, program_id: &FieldElement) -> (r: Result<bool, StorageError>)
        ensures
            self.transactions().always_answers() ==> r is Ok,
            r matches Ok(found) ==> found == self.transactions().entries().contains(
                (Index::ProgramId, Key::Field(*program_id)),
            ),
    {
        self.transactions.contains(Index::ProgramId, &Key::Field(*program_id))
    }

    /// Returns `true` if the given transaction ID exists.
    pub fn contains_transaction_id(&self, transaction_id: &FieldElement) -> (r: Result<
        bool,
        StorageError,
    >)
        ensures
            self.transactions().always_answers() ==> r is Ok,
            r matches Ok(found) ==> found == self.transactions().entries().contains(
                (Index::TransactionId, Key::Field(*transaction_id)),
            ),
    {
        self.transactions.contains(Index::TransactionId, &Key::Field(*transaction_id))
    }

    /// Returns `true` if the given transition ID exists.
    pub fn contains_transition_id(&self, transition_id: &FieldElement) -> (r: Result<bool, StorageError>)
        ensures
            self.transitions().always_answers() ==> r is Ok,
            r matches Ok(found) ==> found == self.transitions().entries().contains(
                (Index::TransitionId, Key::Field(*transition_id)),
            ),
    {
        self.transitions.contains(Index::TransitionId, &Key::Field(*transition_id))
    }

    /// Returns `true` if the given input ID exists.
    pub fn contains_input_id(&self, input_id: &FieldElement) -> (r: Result<bool, StorageError>)
        ensures
            self.transitions().always_answers() ==> r is Ok,
            r matches Ok(found) ==> found == self.transitions().entries().contains(
                (Index::InputId, Key::Field(*input_id)),
            ),
    {
        self.transitions.contains(Index::InputId, &Key::Field(*input_id))
    }

    /// Returns `true` if the given serial number exists.
    pub fn contains_serial_number(&self, serial_number: &FieldElement) -> (r: Result<bool, StorageError>)
        ensures
            self.transitions().always_answers() ==> r is Ok,
            r matches Ok(found) ==> found == self.transitions().entries().contains(
                (Index::SerialNumber, Key::Field(*serial_number)),
            ),
    {
        self.transitions.contains(Index::SerialNumber, &Key::Field(*serial_number))
    }

    /// Returns `true` if the given tag exists.
    pub fn contains_tag(&self, tag: &FieldElement) -> (r: Result<bool, StorageError>)
        ensures
            self.transitions().always_answers() ==> r is Ok,
            r matches Ok(found) ==> found == self.transitions().entries().contains(
                (Index::Tag, Key::Field(*tag)),
            ),
    {
        self.transitions.contains(Index::Tag, &Key::Field(*tag))
    }

    /// Returns `true` if the given output ID exists.
    pub fn contains_output_id(&self, output_id: &FieldElement) -> (r: Result<bool, StorageError>)
        ensures
            self.transitions().always_answers() ==> r is Ok,
            r matches Ok(found) ==> found == self.transitions().entries().contains(
                (Index::OutputId, Key::Field(*output_id)),
            ),
    {
        self.transitions.contains(Index::OutputId, &Key::Field(*output_id))
    }

    /// Returns `true` if the given commitment exists.
    pub fn contains_commitment(&self, commitment: &FieldElement) -> (r: Result<bool, StorageError>)
        ensures
            self.transitions().always_answers() ==> r is Ok,
            r matches Ok(found) ==> found == self.transitions().entries().contains(
                (Index::Commitment, Key::Field(*commitment)),
            ),
    {
        self.transitions.contains(Index::Commitment, &Key::Field(*commitment))
    }

    /// Returns `true` if the given checksum exists. This query cannot fail.
    pub fn contains_checksum(&self, checksum: &FieldElement) -> (r: bool)
        ensures
            r == self.transitions().entries().contains((Index::Checksum, Key::Field(*checksum))),
    {
        self.transitions.contains_checksum(checksum)
    }

    /// Returns `true` if the given nonce exists.
    pub fn contains_nonce(&self, nonce: &GroupElement) -> (r: Result<bool, StorageError>)
        ensures
            self.transitions().always_answers() ==> r is Ok,
            r matches Ok(found) ==> found == self.transitions().entries().contains(
                (Index::Nonce, Key::Group(*nonce)),
            ),
    {
        self.transitions.contains(Index::Nonce, &Key::Group(*nonce))
    }

    /// Returns `true` if the given transition public key exists.
    pub fn contains_tpk(&self, tpk: &GroupElement) -> (r: Result<bool, StorageError>)
        ensures
            self.transitions().always_answers() ==> r is Ok,
            r matches Ok(found) ==> found == self.transitions().entries().contains(
                (Index::Tpk, Key::Group(*tpk)),
            ),
    {
        self.transitions.contains(Index::Tpk, &Key::Group(*tpk))
    }

    /// Returns `true` if the given transition commitment exists.
    pub fn contains_tcm(&self, tcm: &FieldElement) -> (r: Result<bool, StorageError>)
        ensures
            self.transitions().always_answers() ==> r is Ok,
            r matches Ok(found) ==> found == self.transitions().entries().contains(
                (Index::Tcm, Key::Field(*tcm)),
            ),
    {
        self.transitions.contains(Index::Tcm, &Key::Field(*tcm))
    }
}

} // verus!
