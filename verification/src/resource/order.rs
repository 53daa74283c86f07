//! The order in which resources are batched.

use crate::resource::buffer::Buffer;
use crate::resource::{Resource, ResourceKey};
use std::cmp::Ordering;
use vstd::prelude::*;

verus! {

/// The order of two keys for batching: by slot, and within a slot by
/// generation.
pub open spec fn key_order(a: ResourceKey, b: ResourceKey) -> int {
    if a.index() < b.index() {
        -1
    } else if a.index() > b.index() {
        1
    } else if a.generation() < b.generation() {
        -1
    } else if a.generation() > b.generation() {
        1
    } else {
        0
    }
}

impl ResourceKey {
    /// Compares two keys for batching: by slot, and within a slot by
    /// generation.
    pub fn batch_order(self, other: ResourceKey) -> (order: Ordering)
        ensures
            order == Ordering::Less <==> key_order(self, other) == -1,
            order == Ordering::Equal <==> key_order(self, other) == 0,
            order == Ordering::Greater <==> key_order(self, other) == 1,
    {
        let (index, generation) = self.parts();
        let (other_index, other_generation) = other.parts();
        if index < other_index {
            Ordering::Less
        } else if index > other_index {
            Ordering::Greater
        } else if generation < other_generation {
            Ordering::Less
        } else if generation > other_generation {
            Ordering::Greater
        } else {
            Ordering::Equal
        }
    }
}

impl Buffer {
    /// Compares two buffers for batching, by their keys.
    pub fn batch_order(self, other: Buffer) -> (order: Ordering)
        ensures
            order == Ordering::Less <==> key_order(self.spec_key(), other.spec_key()) == -1,
            order == Ordering::Equal <==> key_order(self.spec_key(), other.spec_key()) == 0,
            order == Ordering::Greater <==> key_order(self.spec_key(), other.spec_key()) == 1,
    {
        self.key().batch_order(other.key())
    }
}

} // verus!
