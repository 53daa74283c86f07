//! The order in which copies are batched.

use crate::resource::Resource;
use crate::transfer::{copy_order, sorted, BufferCopy};
use std::cmp::Ordering;
use vstd::prelude::*;

verus! {

impl BufferCopy {
    /// Compares two copies for batching: by the key of the destination
    /// buffer first, then by the destination offset.
    pub fn batch_order(&self, other: &BufferCopy) -> (order: Ordering)
        ensures
            order == Ordering::Less <==> copy_order(*self, *other) == -1,
            order == Ordering::Equal <==> copy_order(*self, *other) == 0,
            order == Ordering::Greater <==> copy_order(*self, *other) == 1,
    {
        match self.dst_key.batch_order(other.dst_key) {
            Ordering::Less => Ordering::Less,
            Ordering::Greater => Ordering::Greater,
            Ordering::Equal => {
                if self.dst_offset < other.dst_offset {
                    Ordering::Less
                } else if self.dst_offset > other.dst_offset {
                    Ordering::Greater
                } else {
                    Ordering::Equal
                }
            },
        }
    }
}

/// Sorts the copies into the order for batching.
///
/// Calls `sort_unstable_by` of std on the copies, with `batch_order` as the
/// comparison. That function sorts the slice in place in ascending order of
/// the comparison, without keeping the order of equal elements: afterwards
/// the slice holds the same elements, and no element stands before one
/// that compares less.
#[verifier::external_body]
pub(crate) fn sort_copies(copies: &mut Vec<BufferCopy>)
    ensures
        final(copies)@.to_multiset() == old(copies)@.to_multiset(),
        sorted(final(copies)@),
{
    copies.sort_unstable_by(|a, b| a.batch_order(b));
}

} // verus!
