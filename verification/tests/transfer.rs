use reify::resource::buffer::{
    Buffer, BufferInfo, BufferMemoryType, BufferStorageCold, BufferSyncState, SubmissionId,
};
use reify::resource::{Resource, ResourcePool};
use reify::transfer::{
    build_batches, plan_upload, uploaded_state, BufferBarrier, BufferCopy, CapacityError,
    UploadDst, UploadError, UploadPoolInfo, ACCESS_2_TRANSFER_WRITE, PIPELINE_STAGE_2_COPY,
};
use std::cmp::Ordering;

fn buffers(n: usize) -> Vec<Buffer> {
    let mut pool: ResourcePool<Buffer> = ResourcePool::with_capacity(n);
    let state = BufferSyncState { submission: None, stage_mask: 0, access_mask: 0 };
    let cold = BufferStorageCold {
        info: BufferInfo { size: 1024, usage: 0, class: BufferMemoryType::Download },
        mem: 0,
    };
    (0..n).map(|i| pool.create(i as u64, cold, state).unwrap()).collect()
}

fn copy(dst: Buffer, dst_offset: u64, size: u64) -> BufferCopy {
    BufferCopy { dst_key: dst, dst_handle: dst.key().parts().0 as u64 + 100, src_offset: 0, dst_offset, size }
}

#[test]
fn copies_are_ordered_by_buffer_then_offset() {
    let b = buffers(2);
    assert_eq!(copy(b[0], 8, 4).batch_order(&copy(b[1], 0, 4)), Ordering::Less);
    assert_eq!(copy(b[1], 0, 4).batch_order(&copy(b[0], 8, 4)), Ordering::Greater);
    assert_eq!(copy(b[0], 0, 4).batch_order(&copy(b[0], 8, 4)), Ordering::Less);
    assert_eq!(copy(b[0], 8, 4).batch_order(&copy(b[0], 0, 4)), Ordering::Greater);
    assert_eq!(copy(b[0], 8, 4).batch_order(&copy(b[0], 8, 16)), Ordering::Equal);
}

#[test]
fn upload_is_sorted_into_batches() {
    let b = buffers(3);
    let copies = vec![copy(b[2], 0, 4), copy(b[0], 16, 4), copy(b[1], 0, 8), copy(b[0], 0, 16), copy(b[2], 4, 4)];
    let plan = plan_upload(copies).unwrap();
    assert_eq!(
        plan.copies,
        vec![copy(b[0], 0, 16), copy(b[0], 16, 4), copy(b[1], 0, 8), copy(b[2], 0, 4), copy(b[2], 4, 4)]
    );
    assert_eq!(plan.batches, vec![2, 3, 5]);
    let single = plan_upload(vec![copy(b[1], 0, 8)]).unwrap();
    assert_eq!(single.batches, vec![1]);
    let empty = plan_upload(vec![]).unwrap();
    assert!(empty.copies.is_empty());
    assert!(empty.batches.is_empty());
}

#[test]
fn overlapping_copies_are_refused() {
    let b = buffers(2);
    let copies = vec![copy(b[1], 0, 8), copy(b[0], 0, 16), copy(b[0], 15, 4)];
    assert_eq!(plan_upload(copies).err(), Some(UploadError::Overlap(1)));
    // The same range twice in different buffers is fine.
    assert!(plan_upload(vec![copy(b[1], 0, 8), copy(b[0], 0, 8)]).is_ok());
    // A range that would end beyond the last offset overlaps what follows.
    let sorted = vec![copy(b[0], u64::MAX - 1, 4), copy(b[0], u64::MAX, 0)];
    assert_eq!(build_batches(&sorted), Err(UploadError::Overlap(1)));
    let touching = vec![copy(b[0], 0, 8), copy(b[0], 8, 8), copy(b[1], 0, 1)];
    assert_eq!(build_batches(&touching), Ok(vec![2, 3]));
}

#[test]
fn copies_wait_for_the_last_use_of_the_buffer() {
    let b = buffers(1);
    let state = BufferSyncState { submission: None, stage_mask: 0x8, access_mask: 0x20 };
    assert_eq!(
        copy(b[0], 32, 16).barrier(&state),
        BufferBarrier {
            buffer: 100,
            src_stage_mask: 0x8,
            src_access_mask: 0x20,
            dst_stage_mask: PIPELINE_STAGE_2_COPY,
            dst_access_mask: ACCESS_2_TRANSFER_WRITE,
            offset: 32,
            size: 16,
        }
    );
    assert_eq!(PIPELINE_STAGE_2_COPY, ash::vk::PipelineStageFlags2::COPY.as_raw());
    assert_eq!(ACCESS_2_TRANSFER_WRITE, ash::vk::AccessFlags2::TRANSFER_WRITE.as_raw());
    let submission = SubmissionId { queue_family: 0, queue_index: 0, timeline_value: 7 };
    let after = uploaded_state(submission);
    assert_eq!(after.submission, Some(submission));
    assert_eq!((after.stage_mask, after.access_mask), (PIPELINE_STAGE_2_COPY, ACCESS_2_TRANSFER_WRITE));
}

#[test]
fn upload_parameters() {
    let info = UploadPoolInfo { label: "uploads".to_string(), num_buffers: 2, buffer_size: 1 << 20 };
    assert_eq!(info.clone().label, "uploads");
    assert_eq!(CapacityError, CapacityError);
    let b = buffers(1);
    let dst = UploadDst { handle: 5, key: b[0], offset: 0 };
    assert_eq!(dst.key, b[0]);
}

#[test]
fn clashing_copies_are_refused_in_any_order() {
    let b = buffers(2);
    // One copy starts inside the other.
    for copies in [
        vec![copy(b[0], 0, 16), copy(b[0], 8, 4)],
        vec![copy(b[0], 8, 4), copy(b[0], 0, 16)],
        vec![copy(b[0], 8, 4), copy(b[1], 0, 4), copy(b[0], 0, 16), copy(b[0], 2, 1)],
    ] {
        assert!(matches!(plan_upload(copies), Err(UploadError::Overlap(_))));
    }
    // Two copies that are not empty start at the same place.
    for copies in [
        vec![copy(b[1], 4, 1), copy(b[1], 4, 2)],
        vec![copy(b[1], 4, 2), copy(b[1], 4, 1)],
        vec![copy(b[1], 4, 2), copy(b[1], 4, 2)],
    ] {
        assert_eq!(plan_upload(copies).err(), Some(UploadError::Overlap(1)));
    }
}

#[test]
fn disjoint_copies_are_planned() {
    let b = buffers(2);
    let copies = vec![copy(b[1], 8, 8), copy(b[0], 4, 4), copy(b[1], 0, 8), copy(b[0], 0, 4), copy(b[0], 8, 0)];
    let plan = plan_upload(copies).unwrap();
    assert_eq!(plan.batches, vec![3, 5]);
    assert_eq!(plan.copies[0], copy(b[0], 0, 4));
    assert_eq!(plan.copies[4], copy(b[1], 8, 8));
    // Empty copies at one place do not write into each other.
    let empty = plan_upload(vec![copy(b[0], 4, 0), copy(b[0], 4, 0)]).unwrap();
    assert_eq!(empty.batches, vec![2]);
}
