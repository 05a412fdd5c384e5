//! Handles: what a value keeps of an object that lives in the heap.

use crate::hashmap::{hash_of_writes, hash_u64, low_first_bytes, Key};
use vstd::prelude::*;

verus! {

/// A reference to an object in the heap: the object's place there.
#[derive(Clone, Copy, Debug, Hash, PartialEq, Eq, Structural)]
pub struct Handle {
    pub index: usize,
}

impl Handle {
    pub fn new(index: usize) -> (handle: Self)
        ensures
            handle.index == index,
    {
        Self { index }
    }

    pub fn index(&self) -> (index: usize)
        ensures
            index == self.index,
    {
        self.index
    }
}

impl Key for Handle {
    type Id = usize;

    open spec fn id(&self) -> usize {
        self.index
    }

    open spec fn hash_of(id: usize) -> u64 {
        hash_of_writes(seq![low_first_bytes(id as u64)])
    }

    fn hash(&self) -> (hash: u64) {
        hash_u64(self.index as u64)
    }

    fn same(&self, other: &Self) -> (b: bool) {
        self.index == other.index
    }
}

} // verus!
