//! Uploads from the host to the GPU: the parameters of the pool of staging
//! buffers, and the plan by which the copies of one submission are
//! recorded.
//!
//! The copies that were scheduled are sorted by destination buffer and,
//! within a buffer, by destination offset. The copies to one buffer make a
//! batch, which is recorded as one command.

use crate::resource::buffer::{Buffer, BufferSyncState};
use crate::resource::order::key_order;
use crate::resource::Resource;
use crate::vk::{AccessFlags2, PipelineStageFlags2};
use vstd::prelude::*;
use vstd::seq_lib::{to_multiset_contains, to_multiset_remove};

pub mod order;

verus! {

/// The staging buffer has no room for the data.
#[derive(Clone, Copy, Debug, PartialEq, Eq, Structural)]
pub struct CapacityError;

/// Creation parameters for an upload pool.
#[derive(Clone, Debug)]
pub struct UploadPoolInfo {
    pub label: String,
    pub num_buffers: u32,
    pub buffer_size: u64,
}

/// Where uploaded data goes.
#[derive(Clone, Copy, Debug, PartialEq, Eq, Structural)]
pub struct UploadDst {
    pub handle: u64,
    pub key: Buffer,
    pub offset: u64,
}

/// Description of a scheduled buffer copy operation.
#[derive(Clone, Copy, Debug, PartialEq, Eq, Structural)]
pub struct BufferCopy {
    /// Key of the destination buffer.
    pub dst_key: Buffer,
    /// Handle to the destination buffer.
    pub dst_handle: u64,
    /// Offset in bytes of the start of the source range.
    pub src_offset: u64,
    /// Offset in bytes of the start of the destination range.
    pub dst_offset: u64,
    /// Size in bytes of the copied range.
    pub size: u64,
}

/// The order of two copies for batching: by the key of the destination
/// buffer, and for one buffer by the destination offset.
pub open spec fn copy_order(a: BufferCopy, b: BufferCopy) -> int {
    if key_order(a.dst_key.spec_key(), b.dst_key.spec_key()) != 0 {
        key_order(a.dst_key.spec_key(), b.dst_key.spec_key())
    } else if a.dst_offset < b.dst_offset {
        -1
    } else if a.dst_offset > b.dst_offset {
        1
    } else {
        0
    }
}

/// The copies stand in the order for batching.
pub open spec fn sorted(copies: Seq<BufferCopy>) -> bool {
    forall|i: int, j: int| 0 <= i < j < copies.len() ==> copy_order(copies[i], copies[j]) <= 0
}

/// Copy `i` starts a batch: it is the first copy, or it goes to another
/// buffer than the copy before it.
pub open spec fn starts_batch(copies: Seq<BufferCopy>, i: int) -> bool {
    i == 0 || copies[i - 1].dst_key != copies[i].dst_key
}

/// Copy `i` writes into what the copy before it writes: both go to the same
/// buffer, and the copy before ends, or would end beyond 2^64, after this
/// one starts.
pub open spec fn overlaps(copies: Seq<BufferCopy>, i: int) -> bool {
    &&& 0 < i < copies.len()
    &&& copies[i - 1].dst_key == copies[i].dst_key
    &&& copies[i - 1].dst_offset + copies[i - 1].size > copies[i].dst_offset
}

/// The ends of the batches among the first `upto` copies: the places of
/// the copies from the second on that start a batch.
pub open spec fn batch_ends(copies: Seq<BufferCopy>, upto: nat) -> Seq<u32>
    decreases upto,
{
    if upto <= 1 {
        Seq::empty()
    } else {
        let before = batch_ends(copies, (upto - 1) as nat);
        if starts_batch(copies, upto - 1) {
            before.push((upto - 1) as u32)
        } else {
            before
        }
    }
}

/// Why the copies cannot be submitted.
#[derive(Clone, Copy, Debug, PartialEq, Eq, Structural)]
pub enum UploadError {
    /// The copy at this place, in the order for batching, writes into what
    /// the copy before it writes.
    Overlap(usize),
    /// There are more copies than can be numbered.
    TooMany,
}

/// A barrier on a range of a buffer, as the GPU API takes it.
#[derive(Clone, Copy, Debug, PartialEq, Eq, Structural)]
pub struct BufferBarrier {
    pub buffer: u64,
    pub src_stage_mask: PipelineStageFlags2,
    pub src_access_mask: AccessFlags2,
    pub dst_stage_mask: PipelineStageFlags2,
    pub dst_access_mask: AccessFlags2,
    pub offset: u64,
    pub size: u64,
}

/// The stage of copies.
pub const PIPELINE_STAGE_2_COPY: PipelineStageFlags2 = 0x1_0000_0000;

/// The access of the destination of a copy.
pub const ACCESS_2_TRANSFER_WRITE: AccessFlags2 = 0x1000;

/// The barrier before a copy: what the buffer was used for last comes
/// first, then the copy writes the range.
pub open spec fn copy_barrier(copy: BufferCopy, init_state: BufferSyncState) -> BufferBarrier {
    BufferBarrier {
        buffer: copy.dst_handle,
        src_stage_mask: init_state.stage_mask,
        src_access_mask: init_state.access_mask,
        dst_stage_mask: PIPELINE_STAGE_2_COPY,
        dst_access_mask: ACCESS_2_TRANSFER_WRITE,
        offset: copy.dst_offset,
        size: copy.size,
    }
}

impl BufferCopy {
    /// The barrier before the copy, for a buffer that was left in
    /// `init_state`.
    pub fn barrier(&self, init_state: &BufferSyncState) -> (barrier: BufferBarrier)
        ensures
            barrier == copy_barrier(*self, *init_state),
    {
        BufferBarrier {
            buffer: self.dst_handle,
            src_stage_mask: init_state.stage_mask,
            src_access_mask: init_state.access_mask,
            dst_stage_mask: PIPELINE_STAGE_2_COPY,
            dst_access_mask: ACCESS_2_TRANSFER_WRITE,
            offset: self.dst_offset,
            size: self.size,
        }
    }
}

/// The state in which an upload leaves a buffer: written by a copy of the
/// given submission.
pub fn uploaded_state(submission: crate::resource::buffer::SubmissionId) -> (state: BufferSyncState)
    ensures
        state == (BufferSyncState {
            submission: Some(submission),
            stage_mask: PIPELINE_STAGE_2_COPY,
            access_mask: ACCESS_2_TRANSFER_WRITE,
        }),
{
    BufferSyncState {
        submission: Some(submission),
        stage_mask: PIPELINE_STAGE_2_COPY,
        access_mask: ACCESS_2_TRANSFER_WRITE,
    }
}

/// The ends of the batches of sorted copies: after each run of copies to
/// one buffer. Copies that overlap are refused, with the place of the first
/// copy that writes into the one before it.
pub fn build_batches(copies: &Vec<BufferCopy>) -> (result: Result<Vec<u32>, UploadError>)
    requires
        sorted(copies@),
    ensures
        result is Ok <==> copies@.len() <= u32::MAX && forall|i: int| !#[trigger] overlaps(copies@, i),
        result matches Ok(batches) ==> batches@ == if copies@.len() == 0 {
            Seq::<u32>::empty()
        } else {
            batch_ends(copies@, copies@.len()).push(copies@.len() as u32)
        },
        result matches Err(e) ==> (e is TooMany <==> copies@.len() > u32::MAX),
        result matches Err(UploadError::Overlap(i)) ==> first_overlap(copies@, i as int),
{
    let n = copies.len();
    if n > 0xffff_ffff {
        return Err(UploadError::TooMany);
    }
    let mut batches: Vec<u32> = Vec::new();
    if n == 0 {
        return Ok(batches);
    }
    let mut i: usize = 1;
    while i < n
        invariant
            n == copies@.len(),
            n <= u32::MAX,
            1 <= i <= n,
            batches@ == batch_ends(copies@, i as nat),
            forall|j: int| j < i ==> !#[trigger] overlaps(copies@, j),
        decreases n - i,
    {
        let a = &copies[i - 1];
        let b = &copies[i];
        let (a_index, a_generation) = a.dst_key.key().parts();
        let (b_index, b_generation) = b.dst_key.key().parts();
        if a_index != b_index || a_generation != b_generation {
            proof {
                a.dst_key.spec_key().lemma_eq(b.dst_key.spec_key());
                assert(a.dst_key != b.dst_key);
            }
            batches.push(i as u32);
        } else {
            proof {
                a.dst_key.spec_key().lemma_eq(b.dst_key.spec_key());
                a.dst_key.lemma_key(b.dst_key);
            }
            let fits = match a.dst_offset.checked_add(a.size) {
                Some(end) => end <= b.dst_offset,
                None => false,
            };
            if !fits {
                proof {
                    assert(overlaps(copies@, i as int));
                    assert(first_overlap(copies@, i as int));
                }
                return Err(UploadError::Overlap(i));
            }
        }
        i += 1;
    }
    batches.push(n as u32);
    Ok(batches)
}

/// Copy `i` overlaps the copy before it, and no copy before `i` does.
pub open spec fn first_overlap(copies: Seq<BufferCopy>, i: int) -> bool {
    overlaps(copies, i) && forall|j: int| j < i ==> !#[trigger] overlaps(copies, j)
}

/// There is one first overlap at most.
pub proof fn lemma_first_overlap_unique(copies: Seq<BufferCopy>, i: int, k: int)
    requires
        first_overlap(copies, i),
    ensures
        first_overlap(copies, k) ==> i == k,
{
    if first_overlap(copies, k) {
        if i < k {
            assert(!overlaps(copies, i));
        } else if k < i {
            assert(!overlaps(copies, k));
        }
    }
}

/// Copy `b` starts in the range that copy `a` writes, of the same buffer.
pub open spec fn collide(a: BufferCopy, b: BufferCopy) -> bool {
    a.dst_key == b.dst_key && a.dst_offset <= b.dst_offset < a.dst_offset + a.size
}

/// No copy starts in the range that another of the copies writes.
pub open spec fn disjoint(copies: Seq<BufferCopy>) -> bool {
    forall|i: int, j: int|
        0 <= i < copies.len() && 0 <= j < copies.len() && i != j ==> !collide(
            #[trigger] copies[i],
            #[trigger] copies[j],
        )
}

/// Copy `b` starts in the range that copy `a` writes, and not where an
/// empty copy stands: it starts after `a` does, or where `a` does with
/// neither of them empty.
pub open spec fn clash(a: BufferCopy, b: BufferCopy) -> bool {
    &&& a.dst_key == b.dst_key
    &&& a.dst_offset < b.dst_offset < a.dst_offset + a.size || (a.dst_offset == b.dst_offset && a.size > 0
        && b.size > 0)
}

/// Two of the copies clash.
pub open spec fn clashing(copies: Seq<BufferCopy>) -> bool {
    exists|i: int, j: int|
        0 <= i < copies.len() && 0 <= j < copies.len() && i != j && clash(
            #[trigger] copies[i],
            #[trigger] copies[j],
        )
}

/// A value that a sequence holds twice stands at two places of it.
proof fn lemma_twice(s: Seq<BufferCopy>, x: BufferCopy)
    requires
        s.to_multiset().count(x) >= 2,
    ensures
        exists|i: int, j: int| 0 <= i < s.len() && 0 <= j < s.len() && i != j && s[i] == x && s[j] == x,
{
    broadcast use vstd::multiset::group_multiset_axioms;

    to_multiset_contains(s, x);
    let i = choose|i: int| 0 <= i < s.len() && s[i] == x;
    let rest = s.remove(i);
    to_multiset_remove(s, i);
    to_multiset_contains(rest, x);
    assert(rest.to_multiset().count(x) >= 1);
    let r = choose|r: int| 0 <= r < rest.len() && rest[r] == x;
    let j = if r < i {
        r
    } else {
        r + 1
    };
    assert(s[j] == x);
}

/// What stands at two places of a sequence stands at two places of every
/// sequence with the same elements.
proof fn lemma_places(s: Seq<BufferCopy>, t: Seq<BufferCopy>, i: int, j: int)
    requires
        s.to_multiset() == t.to_multiset(),
        0 <= i < s.len(),
        0 <= j < s.len(),
        i != j,
    ensures
        exists|x: int, y: int| 0 <= x < t.len() && 0 <= y < t.len() && x != y && t[x] == s[i] && t[y] == s[j],
{
    broadcast use vstd::multiset::group_multiset_axioms;

    let a = s[i];
    let b = s[j];
    to_multiset_contains(s, a);
    to_multiset_contains(s, b);
    to_multiset_contains(t, a);
    to_multiset_contains(t, b);
    assert(s.contains(a));
    assert(s.contains(b));
    if a == b {
        let rest = s.remove(j);
        to_multiset_remove(s, j);
        to_multiset_contains(rest, a);
        let r = if i < j {
            i
        } else {
            i - 1
        };
        assert(rest[r] == a);
        assert(rest.contains(a));
        assert(t.to_multiset().count(a) >= 2);
        lemma_twice(t, a);
    } else {
        let x = choose|x: int| 0 <= x < t.len() && t[x] == a;
        let y = choose|y: int| 0 <= y < t.len() && t[y] == b;
        assert(t[x] == s[i] && t[y] == s[j] && x != y);
    }
}

/// Where one of the copies, in an order for batching, overlaps the copy
/// before it, two of the copies collide.
pub proof fn lemma_overlap_is_collision(copies: Seq<BufferCopy>, ordered: Seq<BufferCopy>, k: int)
    requires
        sorted(ordered),
        ordered.to_multiset() == copies.to_multiset(),
        overlaps(ordered, k),
    ensures
        !disjoint(copies),
{
    assert(copy_order(ordered[k - 1], ordered[k]) <= 0);
    assert(collide(ordered[k - 1], ordered[k]));
    lemma_places(ordered, copies, k - 1, k);
    let (i, j) = choose|i: int, j: int|
        0 <= i < copies.len() && 0 <= j < copies.len() && i != j && copies[i] == ordered[k - 1] && copies[j]
            == ordered[k];
    assert(collide(copies[i], copies[j]));
}

/// Among sorted copies, a copy that reaches beyond the start of a later
/// copy to the same buffer overlaps the copy next to it.
proof fn lemma_reaches(ordered: Seq<BufferCopy>, i: int, j: int)
    requires
        sorted(ordered),
        0 <= i < j < ordered.len(),
        ordered[i].dst_key == ordered[j].dst_key,
        ordered[i].dst_offset + ordered[i].size > ordered[j].dst_offset,
    ensures
        overlaps(ordered, i + 1),
{
    let a = ordered[i];
    let b = ordered[j];
    let next = ordered[i + 1];
    assert(copy_order(a, next) <= 0);
    a.dst_key.spec_key().lemma_eq(next.dst_key.spec_key());
    a.dst_key.lemma_key(next.dst_key);
    if i + 1 < j {
        assert(copy_order(next, b) <= 0);
    }
}

/// Where two of the copies clash, every order for batching has a copy that
/// overlaps the copy before it.
pub proof fn lemma_clash_overlaps(copies: Seq<BufferCopy>, ordered: Seq<BufferCopy>)
    requires
        sorted(ordered),
        ordered.to_multiset() == copies.to_multiset(),
        clashing(copies),
    ensures
        exists|k: int| overlaps(ordered, k),
{
    let (i, j) = choose|i: int, j: int|
        0 <= i < copies.len() && 0 <= j < copies.len() && i != j && clash(
            #[trigger] copies[i],
            #[trigger] copies[j],
        );
    lemma_places(copies, ordered, i, j);
    let (x, y) = choose|x: int, y: int|
        0 <= x < ordered.len() && 0 <= y < ordered.len() && x != y && ordered[x] == copies[i] && ordered[y]
            == copies[j];
    if x < y {
        lemma_reaches(ordered, x, y);
        assert(overlaps(ordered, x + 1));
    } else {
        assert(copy_order(ordered[y], ordered[x]) <= 0);
        lemma_reaches(ordered, y, x);
        assert(overlaps(ordered, y + 1));
    }
}

/// What is recorded for one submission of uploads.
pub struct UploadPlan {
    /// The copies in the order for batching.
    pub copies: Vec<BufferCopy>,
    /// The end of each batch, as a place in `copies`.
    pub batches: Vec<u32>,
}

/// The plan for a submission of the copies `copies`: the copies in the
/// order for batching, and the ends of the batches. Copies that overlap are
/// refused.
///
/// Copies of which none starts in the range of another are planned, and
/// copies of which two clash are refused. Where copies collide only in
/// that an empty copy starts where another copy does, the order in which
/// the sort leaves the two decides.
pub fn plan_upload(copies: Vec<BufferCopy>) -> (result: Result<UploadPlan, UploadError>)
    ensures
        copies@.len() <= u32::MAX && disjoint(copies@) ==> result is Ok,
        copies@.len() <= u32::MAX && clashing(copies@) ==> result matches Err(UploadError::Overlap(_)),
        result matches Err(UploadError::Overlap(_)) ==> copies@.len() <= u32::MAX && !disjoint(copies@),
        result matches Ok(plan) ==> {
            &&& sorted(plan.copies@)
            &&& plan.copies@.to_multiset() == copies@.to_multiset()
            &&& forall|i: int| !#[trigger] overlaps(plan.copies@, i)
            &&& plan.batches@ == if plan.copies@.len() == 0 {
                Seq::<u32>::empty()
            } else {
                batch_ends(plan.copies@, plan.copies@.len()).push(plan.copies@.len() as u32)
            }
        },
        result matches Err(e) ==> (e is TooMany <==> copies@.len() > u32::MAX),
{
    let mut copies = copies;
    let ghost before = copies@;
    order::sort_copies(&mut copies);
    proof {
        before.to_multiset_ensures();
        copies@.to_multiset_ensures();
    }
    proof {
        if clashing(before) {
            lemma_clash_overlaps(before, copies@);
        }
    }
    match build_batches(&copies) {
        Err(e) => {
            proof {
                if let UploadError::Overlap(i) = e {
                    lemma_overlap_is_collision(before, copies@, i as int);
                }
            }
            Err(e)
        },
        Ok(batches) => Ok(UploadPlan { copies, batches }),
    }
}

} // verus!
