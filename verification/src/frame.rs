//! The frames in flight: which frame may touch which set of per-frame
//! resources, and the barriers around the commands of a frame.
//!
//! Each slot holds the resources of one frame in flight: an
//! availability fence, two semaphores and a command buffer. The slots take
//! turns. Before a frame touches its slot, the fence of the slot is
//! awaited, so the GPU is done with the frame that used the slot before.

use crate::graph::runtime::ImageBarrier;
use crate::misc::{full_color_range, image_subresource_range_full_color};
use crate::vk::{
    ImageLayout, ACCESS_2_COLOR_ATTACHMENT_WRITE, IMAGE_LAYOUT_COLOR_ATTACHMENT_OPTIMAL,
    IMAGE_LAYOUT_PRESENT_SRC, IMAGE_LAYOUT_UNDEFINED, PIPELINE_STAGE_2_COLOR_ATTACHMENT_OUTPUT,
    QUEUE_FAMILY_IGNORED,
};
use vstd::prelude::*;

verus! {

/// The state of the availability fence of a slot.
#[derive(Copy, Clone, Debug, PartialEq, Eq, Structural)]
pub enum SlotState {
    /// The fence is signaled: the GPU does not use the slot.
    Signaled,
    /// The frame with this number was submitted with the slot, and its
    /// fence was not awaited since.
    Pending(u64),
}

/// How far the current frame has come.
#[derive(Copy, Clone, Debug, PartialEq, Eq, Structural)]
pub enum Phase {
    /// No frame is under way.
    Idle,
    /// The frame waits for the fence of its slot.
    AwaitingFence { frame: u64, slot: usize },
    /// The fence was awaited; the frame asks the swapchain for an image.
    AcquiringImage { frame: u64, slot: usize },
    /// The frame has its image and records commands.
    Recording { frame: u64, slot: usize, image: u32, suboptimal: bool },
}

/// What the swapchain answered to the request for the next image.
#[derive(Copy, Clone, Debug, PartialEq, Eq, Structural)]
pub enum AcquireOutcome {
    /// The image with this index is acquired.
    Success(u32),
    /// The image with this index is acquired; the swapchain no longer fits
    /// the surface exactly and should be recreated.
    Suboptimal(u32),
    /// The swapchain does not fit the surface any more; no image is
    /// acquired.
    OutOfDate,
}

/// Why a step of a frame was refused.
#[derive(Copy, Clone, Debug, PartialEq, Eq, Structural)]
pub enum FrameError {
    /// The step does not follow the step before it.
    OutOfOrder,
    /// The swapchain has to be recreated before a frame can be rendered.
    OutOfDate,
    /// The frame numbers are used up.
    Exhausted,
}

/// What is to be submitted and presented at the end of a frame.
#[derive(Copy, Clone, Debug, PartialEq, Eq, Structural)]
pub struct SubmitPlan {
    /// The barrier that is recorded last: it takes the swapchain image into
    /// the layout for presenting.
    pub post_render_barrier: ImageBarrier,
    /// The slot whose fence is reset and then signaled by the submission,
    /// whose image-available semaphore the submission waits for, and whose
    /// all-commands-complete semaphore it signals and the presentation
    /// waits for.
    pub slot: usize,
    /// The stage at which the submission waits and signals.
    pub stage_mask: u64,
    /// The index of the swapchain image that is presented.
    pub image_index: u32,
}

/// The barrier that is recorded first in a frame: it orders the color
/// output of this frame after that of the frame before, and takes the
/// swapchain image from an undefined layout into the layout of a color
/// attachment.
pub open spec fn pre_render_barrier(image: u64) -> ImageBarrier {
    ImageBarrier {
        image,
        src_stage_mask: PIPELINE_STAGE_2_COLOR_ATTACHMENT_OUTPUT,
        src_access_mask: ACCESS_2_COLOR_ATTACHMENT_WRITE,
        dst_stage_mask: PIPELINE_STAGE_2_COLOR_ATTACHMENT_OUTPUT,
        dst_access_mask: ACCESS_2_COLOR_ATTACHMENT_WRITE,
        old_layout: IMAGE_LAYOUT_UNDEFINED,
        new_layout: IMAGE_LAYOUT_COLOR_ATTACHMENT_OPTIMAL,
        src_queue_family_index: QUEUE_FAMILY_IGNORED,
        dst_queue_family_index: QUEUE_FAMILY_IGNORED,
        subresource_range: full_color_range(),
    }
}

/// The barrier that is recorded last in a frame: it makes the color writes
/// of the frame available and takes the swapchain image from the layout in
/// which the graph left it into the layout for presenting.
pub open spec fn post_render_barrier(image: u64, layout: ImageLayout) -> ImageBarrier {
    ImageBarrier {
        image,
        src_stage_mask: PIPELINE_STAGE_2_COLOR_ATTACHMENT_OUTPUT,
        src_access_mask: ACCESS_2_COLOR_ATTACHMENT_WRITE,
        dst_stage_mask: PIPELINE_STAGE_2_COLOR_ATTACHMENT_OUTPUT,
        dst_access_mask: 0,
        old_layout: layout,
        new_layout: IMAGE_LAYOUT_PRESENT_SRC,
        src_queue_family_index: QUEUE_FAMILY_IGNORED,
        dst_queue_family_index: QUEUE_FAMILY_IGNORED,
        subresource_range: full_color_range(),
    }
}

/// Two frames that share a slot and are no more than a round apart are
/// exactly one round apart.
proof fn lemma_same_turn(f: int, frame: int, n: int)
    requires
        n > 0,
        0 <= f < frame,
        frame - f <= n,
        f % n == frame % n,
    ensures
        f + n == frame,
{
    vstd::arithmetic::div_mod::lemma_fundamental_div_mod(f, n);
    vstd::arithmetic::div_mod::lemma_fundamental_div_mod(frame, n);
    let q = frame / n - f / n;
    assert(frame - f == n * q) by (nonlinear_arith)
        requires
            f == n * (f / n) + f % n,
            frame == n * (frame / n) + frame % n,
            f % n == frame % n,
            q == frame / n - f / n,
    ;
    assert(q == 1) by (nonlinear_arith)
        requires
            n > 0,
            0 < n * q <= n,
    ;
}

/// The frame one round after a frame shares its slot.
proof fn lemma_turn_after(f: int, n: int)
    requires
        n > 0,
        f >= 0,
    ensures
        (f + n) % n == f % n,
{
    vstd::arithmetic::div_mod::lemma_mod_add_multiples_vanish(f, n);
}

/// The slots of the frames in flight, and the frame that is under way.
pub struct FrameRing {
    current_frame: u64,
    phase: Phase,
    slots: Vec<SlotState>,
}

impl FrameRing {
    /// The number of the frame that was begun last.
    pub closed spec fn current_frame(&self) -> u64 {
        self.current_frame
    }

    /// How far the current frame has come.
    pub closed spec fn phase(&self) -> Phase {
        self.phase
    }

    /// The state of the fence of each slot.
    pub closed spec fn slots(&self) -> Seq<SlotState> {
        self.slots@
    }

    /// The slot of a frame: the slots take turns.
    pub open spec fn slot_of(&self, frame: u64) -> int {
        (frame as int) % (self.slots().len() as int)
    }

    /// A frame that is under way is the current frame and uses its own
    /// slot. A slot whose fence is pending was submitted with one of the
    /// last frames, as many as there are slots, and it is that frame's
    /// slot. While a frame asks for its image or records, the fence of
    /// its slot is signaled: nothing that the GPU still uses is touched.
    pub open spec fn wf(&self) -> bool {
        &&& self.slots().len() > 0
        &&& forall|k: int|
            0 <= k < self.slots().len() ==> (#[trigger] self.slots()[k] matches SlotState::Pending(f)
                ==> self.slot_of(f) == k && f <= self.current_frame() && self.current_frame() - f
                <= self.slots().len() && (self.current_frame() - f == self.slots().len()
                ==> self.phase() is AwaitingFence))
        &&& match self.phase() {
            Phase::Idle => true,
            Phase::AwaitingFence { frame, slot } => {
                &&& frame == self.current_frame()
                &&& slot == self.slot_of(frame)
                &&& self.slots()[slot as int] matches SlotState::Pending(f) ==> f < frame
            },
            Phase::AcquiringImage { frame, slot } => {
                &&& frame == self.current_frame()
                &&& slot == self.slot_of(frame)
                &&& self.slots()[slot as int] == SlotState::Signaled
            },
            Phase::Recording { frame, slot, image, suboptimal } => {
                &&& frame == self.current_frame()
                &&& slot == self.slot_of(frame)
                &&& self.slots()[slot as int] == SlotState::Signaled
            },
        }
    }

    /// The fence that a frame awaits before it touches its slot is the one
    /// that was signaled for the frame that many frames earlier as there
    /// are slots: the frame that used the slot last.
    pub proof fn lemma_frame_cycling(&self)
        requires
            self.wf(),
            self.phase() is AwaitingFence,
        ensures
            self.slots()[self.phase()->AwaitingFence_slot as int] matches SlotState::Pending(f) ==> f
                + self.slots().len() == self.phase()->AwaitingFence_frame,
    {
        let frame = self.phase()->AwaitingFence_frame;
        let slot = self.phase()->AwaitingFence_slot as int;
        let n = self.slots().len() as int;
        match self.slots()[slot] {
            SlotState::Pending(f) => {
                lemma_same_turn(f as int, frame as int, n);
            },
            SlotState::Signaled => {},
        }
    }

    /// A ring of `frames` slots, none of them in use.
    pub fn new(frames: usize) -> (ring: FrameRing)
        requires
            frames > 0,
        ensures
            ring.wf(),
            ring.slots().len() == frames,
            ring.current_frame() == 0,
            ring.phase() == Phase::Idle,
            forall|k: int| 0 <= k < frames ==> ring.slots()[k] == SlotState::Signaled,
    {
        let mut slots: Vec<SlotState> = Vec::new();
        let mut i: usize = 0;
        while i < frames
            invariant
                i <= frames,
                slots@.len() == i,
                forall|k: int| 0 <= k < i ==> slots@[k] == SlotState::Signaled,
            decreases frames - i,
        {
            slots.push(SlotState::Signaled);
            i += 1;
        }
        FrameRing { current_frame: 0, phase: Phase::Idle, slots }
    }

    /// The number of slots.
    pub fn num_frames(&self) -> (n: usize)
        ensures
            n == self.slots().len(),
    {
        self.slots.len()
    }

    /// Begins the next frame and tells which slot it uses. The fence of
    /// that slot has to be awaited next.
    pub fn begin_frame(&mut self) -> (slot: Result<usize, FrameError>)
        requires
            old(self).wf(),
        ensures
            final(self).wf(),
            final(self).slots() == old(self).slots(),
            slot is Ok <==> old(self).phase() == Phase::Idle && old(self).current_frame() < u64::MAX,
            slot matches Ok(k) ==> {
                &&& final(self).current_frame() == old(self).current_frame() + 1
                &&& k == final(self).slot_of(final(self).current_frame())
                &&& final(self).phase() == (Phase::AwaitingFence {
                    frame: final(self).current_frame(),
                    slot: k,
                })
            },
            slot matches Err(e) ==> {
                &&& *final(self) == *old(self)
                &&& e == if old(self).phase() != Phase::Idle {
                    FrameError::OutOfOrder
                } else {
                    FrameError::Exhausted
                }
            },
    {
        match self.phase {
            Phase::Idle => {},
            _ => {
                return Err(FrameError::OutOfOrder);
            },
        }
        if self.current_frame == u64::MAX {
            return Err(FrameError::Exhausted);
        }
        let frame = self.current_frame + 1;
        let slot = (frame % (self.slots.len() as u64)) as usize;
        proof {
            let n = self.slots@.len() as int;
            assert forall|k: int| 0 <= k < n implies (#[trigger] self.slots@[k] matches SlotState::Pending(f)
                ==> f < frame && (k != slot ==> frame - f < n)) by {
                match self.slots@[k] {
                    SlotState::Pending(f) => {
                        if k != slot && frame - f >= n {
                            lemma_turn_after(f as int, n);
                        }
                    },
                    SlotState::Signaled => {},
                }
            }
        }
        self.current_frame = frame;
        self.phase = Phase::AwaitingFence { frame, slot };
        Ok(slot)
    }

    /// How far the current frame has come.
    pub fn current_phase(&self) -> (phase: Phase)
        ensures
            phase == self.phase(),
    {
        self.phase
    }

    /// The number of the frame that was begun last.
    pub fn frame_number(&self) -> (frame: u64)
        ensures
            frame == self.current_frame(),
    {
        self.current_frame
    }

    /// The fence of the slot of the current frame was awaited: the GPU is
    /// done with the frame that used the slot before. The frame asks for
    /// its image next.
    pub fn fence_signaled(&mut self) -> (result: Result<usize, FrameError>)
        requires
            old(self).wf(),
        ensures
            final(self).wf(),
            final(self).current_frame() == old(self).current_frame(),
            result is Ok <==> old(self).phase() is AwaitingFence,
            result matches Ok(slot) ==> {
                &&& slot == old(self).phase()->AwaitingFence_slot
                &&& final(self).phase() == (Phase::AcquiringImage {
                    frame: old(self).phase()->AwaitingFence_frame,
                    slot,
                })
                &&& final(self).slots() == old(self).slots().update(slot as int, SlotState::Signaled)
            },
            result matches Err(e) ==> *final(self) == *old(self) && e == FrameError::OutOfOrder,
    {
        match self.phase {
            Phase::AwaitingFence { frame, slot } => {
                proof {
                    let n = self.slots@.len() as int;
                    assert forall|k: int| 0 <= k < n && k != slot implies (
                    #[trigger] self.slots@[k] matches SlotState::Pending(f) ==> self.current_frame - f
                        < n) by {
                        match self.slots@[k] {
                            SlotState::Pending(f) => {
                                if self.current_frame - f == n {
                                    lemma_turn_after(f as int, n);
                                }
                            },
                            SlotState::Signaled => {},
                        }
                    }
                }
                self.slots[slot] = SlotState::Signaled;
                self.phase = Phase::AcquiringImage { frame, slot };
                Ok(slot)
            },
            _ => Err(FrameError::OutOfOrder),
        }
    }

    /// The swapchain answered the request for an image. With an image the
    /// frame starts to record, and the barrier to record first is handed
    /// out; `image` is the handle of the acquired image. Without one the
    /// frame is over, and the swapchain has to be recreated.
    pub fn image_acquired(&mut self, outcome: AcquireOutcome, image: u64) -> (result: Result<
        ImageBarrier,
        FrameError,
    >)
        requires
            old(self).wf(),
        ensures
            final(self).wf(),
            final(self).current_frame() == old(self).current_frame(),
            final(self).slots() == old(self).slots(),
            result is Ok <==> old(self).phase() is AcquiringImage && outcome != AcquireOutcome::OutOfDate,
            result matches Ok(barrier) ==> {
                &&& barrier == pre_render_barrier(image)
                &&& final(self).phase() == (Phase::Recording {
                    frame: old(self).phase()->AcquiringImage_frame,
                    slot: old(self).phase()->AcquiringImage_slot,
                    image: match outcome {
                        AcquireOutcome::Success(index) => index,
                        AcquireOutcome::Suboptimal(index) => index,
                        AcquireOutcome::OutOfDate => 0,
                    },
                    suboptimal: outcome is Suboptimal,
                })
            },
            result matches Err(e) ==> {
                &&& e == if old(self).phase() is AcquiringImage {
                    FrameError::OutOfDate
                } else {
                    FrameError::OutOfOrder
                }
                &&& final(self).phase() == if old(self).phase() is AcquiringImage {
                    Phase::Idle
                } else {
                    old(self).phase()
                }
            },
    {
        match self.phase {
            Phase::AcquiringImage { frame, slot } => {
                let (index, suboptimal) = match outcome {
                    AcquireOutcome::Success(index) => (index, false),
                    AcquireOutcome::Suboptimal(index) => (index, true),
                    AcquireOutcome::OutOfDate => {
                        self.phase = Phase::Idle;
                        return Err(FrameError::OutOfDate);
                    },
                };
                self.phase = Phase::Recording { frame, slot, image: index, suboptimal };
                Ok(
                    ImageBarrier {
                        image,
                        src_stage_mask: PIPELINE_STAGE_2_COLOR_ATTACHMENT_OUTPUT,
                        src_access_mask: ACCESS_2_COLOR_ATTACHMENT_WRITE,
                        dst_stage_mask: PIPELINE_STAGE_2_COLOR_ATTACHMENT_OUTPUT,
                        dst_access_mask: ACCESS_2_COLOR_ATTACHMENT_WRITE,
                        old_layout: IMAGE_LAYOUT_UNDEFINED,
                        new_layout: IMAGE_LAYOUT_COLOR_ATTACHMENT_OPTIMAL,
                        src_queue_family_index: QUEUE_FAMILY_IGNORED,
                        dst_queue_family_index: QUEUE_FAMILY_IGNORED,
                        subresource_range: image_subresource_range_full_color(),
                    },
                )
            },
            _ => Err(FrameError::OutOfOrder),
        }
    }

    /// Ends the frame: says what is recorded last, submitted and presented.
    /// `image` is the handle of the swapchain image and `layout` the layout
    /// in which the graph left it. The fence of the slot is pending from
    /// now on.
    pub fn submit_and_present(&mut self, image: u64, swapchain_image_layout: ImageLayout) -> (result:
        Result<SubmitPlan, FrameError>)
        requires
            old(self).wf(),
        ensures
            final(self).wf(),
            final(self).current_frame() == old(self).current_frame(),
            result is Ok <==> old(self).phase() is Recording,
            result matches Ok(plan) ==> {
                &&& plan == (SubmitPlan {
                    post_render_barrier: post_render_barrier(image, swapchain_image_layout),
                    slot: old(self).phase()->Recording_slot,
                    stage_mask: PIPELINE_STAGE_2_COLOR_ATTACHMENT_OUTPUT,
                    image_index: old(self).phase()->Recording_image,
                })
                &&& final(self).phase() == Phase::Idle
                &&& final(self).slots() == old(self).slots().update(
                    plan.slot as int,
                    SlotState::Pending(old(self).current_frame()),
                )
            },
            result matches Err(e) ==> *final(self) == *old(self) && e == FrameError::OutOfOrder,
    {
        match self.phase {
            Phase::Recording { frame, slot, image: image_index, suboptimal } => {
                self.slots[slot] = SlotState::Pending(frame);
                self.phase = Phase::Idle;
                Ok(
                    SubmitPlan {
                        post_render_barrier: ImageBarrier {
                            image,
                            src_stage_mask: PIPELINE_STAGE_2_COLOR_ATTACHMENT_OUTPUT,
                            src_access_mask: ACCESS_2_COLOR_ATTACHMENT_WRITE,
                            dst_stage_mask: PIPELINE_STAGE_2_COLOR_ATTACHMENT_OUTPUT,
                            dst_access_mask: 0,
                            old_layout: swapchain_image_layout,
                            new_layout: IMAGE_LAYOUT_PRESENT_SRC,
                            src_queue_family_index: QUEUE_FAMILY_IGNORED,
                            dst_queue_family_index: QUEUE_FAMILY_IGNORED,
                            subresource_range: image_subresource_range_full_color(),
                        },
                        slot,
                        stage_mask: PIPELINE_STAGE_2_COLOR_ATTACHMENT_OUTPUT,
                        image_index,
                    },
                )
            },
            _ => Err(FrameError::OutOfOrder),
        }
    }
}

} // verus!
