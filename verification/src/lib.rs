//! Append-only stores with stable handles.
//!
//! `StonksVec` is a stable store: values fill slots that are never rewritten,
//! resized or moved afterwards, so the slot index an append hands back stays
//! valid for the store's whole lifetime. `StonksSet` lowers lookup cost by
//! routing each value, by hash, to one of a fixed number of such stores.
//! `HashedSet` is a deduplicating variant kept in a standard hash set.
//!
//! Values are machine words; hashing and equality of richer key types are a
//! collaborator's affair, outside this crate's scope.

pub mod stonks_set;
pub mod stonks_vec;

pub use stonks_set::StonksSet;
pub use stonks_vec::StonksVec;

use std::collections::HashSet;
use vstd::prelude::*;

verus! {

/// A deduplicating set of values kept in a standard hash set. Equal values
/// are stored once; lookups return the stored copy.
pub struct HashedSet {
    data: HashSet<u64>,
}

impl View for HashedSet {
    type V = Set<u64>;

    closed spec fn view(&self) -> Set<u64> {
        self.data@
    }
}

impl HashedSet {
    /// Create an empty set.
    pub fn new() -> (r: Self)
        ensures
            r@ == Set::<u64>::empty(),
    {
        HashedSet { data: HashSet::new() }
    }

    /// The number of distinct values stored.
    pub fn len(&self) -> (n: usize)
        ensures
            n == self@.len(),
    {
        self.data.len()
    }

    /// A reference to the stored value equal to `*value`, if any.
    pub fn get(&self, value: &u64) -> (r: Option<&u64>)
        ensures
            match r {
                Some(p) => *p == *value && self@.contains(*value),
                None => !self@.contains(*value),
            },
    {
        self.data.get(value)
    }

    /// Store `value`. Returns `true` when the set did not hold it yet,
    /// `false` when an equal value was already present; either way the set
    /// holds `value` afterwards.
    pub fn insert(&mut self, value: u64) -> (r: bool)
        ensures
            final(self)@ == old(self)@.insert(value),
            r == !old(self)@.contains(value),
    {
        self.data.insert(value)
    }

    /// Store `value` unless an equal value is already present, then return
    /// the value the set holds.
    pub fn get_or_insert(&mut self, value: u64) -> (r: u64)
        ensures
            final(self)@ == old(self)@.insert(value),
            final(self)@.contains(value),
            r == value,
    {
        if !self.contains(&value) {
            self.insert(value);
        } else {
            proof {
                assert(old(self)@.insert(value) =~= old(self)@);
            }
        }
        value
    }

    /// Whether the set holds a value equal to `*value`.
    pub fn contains(&self, value: &u64) -> (r: bool)
        ensures
            r == self@.contains(*value),
    {
        self.data.contains(value)
    }
}

} // verus!
