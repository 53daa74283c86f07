//! Buffers.

use crate::resource::{Resource, ResourceKey};
use crate::vk::{AccessFlags2, BufferUsageFlags, PipelineStageFlags2};
use vstd::prelude::*;

verus! {

/// A buffer of a pool.
#[derive(Copy, Clone, Debug, PartialEq, Eq, Hash, Structural)]
pub struct Buffer {
    key: ResourceKey,
}

/// What a buffer is used for, which decides the memory it gets.
#[derive(Copy, Clone, Debug, PartialEq, Eq, Structural)]
pub enum BufferMemoryType {
    /// Buffer is used for download of data from GPU to host.
    Download,
    /// Buffer is used for low-volume direct upload of constant data from host to GPU.
    UploadConstant,
    /// Buffer is used for staging host data for high-volume upload to GPU.
    UploadStaging,
}

/// Buffer resource metadata.
#[derive(Copy, Clone, Debug, PartialEq, Eq, Structural)]
pub struct BufferInfo {
    pub size: u64,
    pub usage: BufferUsageFlags,
    pub class: BufferMemoryType,
}

/// The hot storage of a buffer: its handle.
#[derive(Copy, Clone, Debug, PartialEq, Eq, Structural)]
pub struct BufferStorageHot {
    pub handle: u64,
}

/// The cold storage of a buffer: its metadata and the handle of its
/// memory.
#[derive(Copy, Clone, Debug, PartialEq, Eq, Structural)]
pub struct BufferStorageCold {
    pub info: BufferInfo,
    pub mem: u64,
}

/// How the last owner of a buffer left it: the last submission that used
/// it, as queue family and timeline value, and the stage and access of the
/// last use.
#[derive(Copy, Clone, Debug, PartialEq, Eq, Structural)]
pub struct BufferSyncState {
    pub submission: Option<SubmissionId>,
    pub stage_mask: PipelineStageFlags2,
    pub access_mask: AccessFlags2,
}

/// A submission to a queue: the queue, and the value that the timeline
/// semaphore of the queue reaches when the submission completes.
#[derive(Copy, Clone, Debug, PartialEq, Eq, Structural)]
pub struct SubmissionId {
    pub queue_family: u32,
    pub queue_index: u32,
    pub timeline_value: u64,
}

impl Resource for Buffer {
    type OwnerState = BufferSyncState;

    type Handle = u64;

    type Cold = BufferStorageCold;

    open spec fn spec_key(&self) -> ResourceKey {
        self.inner_key()
    }

    fn from_key(key: ResourceKey) -> (buffer: Buffer) {
        Buffer { key }
    }

    fn key(&self) -> (key: ResourceKey) {
        self.key
    }
}

impl Buffer {
    /// The key of the buffer.
    pub closed spec fn inner_key(&self) -> ResourceKey {
        self.key
    }

    /// A buffer is its key.
    pub proof fn lemma_key(self, other: Buffer)
        ensures
            self == other <==> self.spec_key() == other.spec_key(),
    {
    }
}

} // verus!
