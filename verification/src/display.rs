//! The display: how the swapchain is set up, and the frames that render to
//! it.
//!
//! The driver is asked which image to use for the next frame, and answers
//! with the index of an image of the swapchain. The fence and the
//! semaphore that order the writes of a frame after the driver's reads
//! belong to the frame, not to the image: the driver has to be told what to
//! signal before it says which image it hands out.

use crate::frame::{AcquireOutcome, FrameError, FrameRing, Phase, SlotState, SubmitPlan};
use crate::graph::runtime::ImageBarrier;
use crate::resource::image::{ImageExtent, ImageInfo, ImageTiling};
use crate::vk::{
    ColorSpace, Extent2D, Format, ImageLayout, ImageUsageFlags, PresentMode,
    SurfaceTransformFlags, COLOR_SPACE_SRGB_NONLINEAR, FORMAT_B8G8R8A8_SRGB,
    IMAGE_USAGE_COLOR_ATTACHMENT, IMAGE_USAGE_TRANSFER_DST, PIPELINE_STAGE_2_COLOR_ATTACHMENT_OUTPUT,
    PRESENT_MODE_FIFO, PRESENT_MODE_MAILBOX, SURFACE_TRANSFORM_IDENTITY,
};
use vstd::prelude::*;

verus! {

/// A format together with a color space.
#[derive(Copy, Clone, Debug, PartialEq, Eq, Structural)]
pub struct SurfaceFormat {
    pub format: Format,
    pub color_space: ColorSpace,
}

/// What a surface can do, as the GPU API reports it.
#[derive(Copy, Clone, Debug, PartialEq, Eq, Structural)]
pub struct SurfaceCapabilities {
    pub min_image_count: u32,
    /// The largest number of images, or zero for "no limit".
    pub max_image_count: u32,
    /// The size of the surface; a width and height of 2^32 - 1 say that the
    /// swapchain decides.
    pub current_extent: Extent2D,
    pub supported_transforms: SurfaceTransformFlags,
}

/// The parameters of a swapchain.
#[derive(Copy, Clone, Debug, PartialEq, Eq, Structural)]
pub struct SwapchainCreateInfo {
    pub min_image_count: u32,
    pub image_format: Format,
    pub image_color_space: ColorSpace,
    pub image_extent: Extent2D,
    pub image_array_layers: u32,
    pub image_usage: ImageUsageFlags,
    pub pre_transform: SurfaceTransformFlags,
    pub present_mode: PresentMode,
    pub clipped: bool,
    /// Whether the swapchain that it replaces is handed to the GPU API.
    pub replaces_old: bool,
}

/// What is known of the display once its swapchain is set up.
#[derive(Copy, Clone, Debug, PartialEq, Eq, Structural)]
pub struct DisplayInfo {
    pub min_image_count: u32,
    pub surface_format: SurfaceFormat,
    pub image_info: ImageInfo,
    pub present_mode: PresentMode,
}

/// Why a swapchain cannot be set up.
#[derive(Copy, Clone, Debug, PartialEq, Eq, Structural)]
pub enum DisplayError {
    /// The device cannot present to the surface.
    SurfaceNotSupported,
    /// The surface does not support the identity transform.
    IdentityTransformUnsupported,
    /// The surface reports no format.
    NoSurfaceFormat,
}

/// The number of images to ask for: three if the surface allows it, else
/// as near to three as it allows.
pub open spec fn wanted_image_count(caps: SurfaceCapabilities) -> u32 {
    let desired = if caps.min_image_count > 3 {
        caps.min_image_count
    } else {
        3u32
    };
    if caps.max_image_count == 0 || desired <= caps.max_image_count {
        desired
    } else {
        caps.max_image_count
    }
}

/// The preferred format.
pub open spec fn preferred_format() -> SurfaceFormat {
    SurfaceFormat { format: FORMAT_B8G8R8A8_SRGB, color_space: COLOR_SPACE_SRGB_NONLINEAR }
}

/// Is this the preferred format: BGRA with 8 bits each, sRGB, in the
/// non-linear sRGB color space?
pub open spec fn is_preferred(format: SurfaceFormat) -> bool {
    format.format == FORMAT_B8G8R8A8_SRGB && format.color_space == COLOR_SPACE_SRGB_NONLINEAR
}

/// The format to use: the first preferred one, or the first of all where
/// none is preferred.
pub open spec fn wanted_format(formats: Seq<SurfaceFormat>) -> SurfaceFormat {
    if exists|i: int| 0 <= i < formats.len() && is_preferred(#[trigger] formats[i]) {
        preferred_format()
    } else {
        formats[0]
    }
}

/// The size of the images: that of the surface, or that of the window
/// where the surface leaves it to the swapchain.
pub open spec fn wanted_extent(caps: SurfaceCapabilities, window: Extent2D) -> Extent2D {
    if caps.current_extent.width == u32::MAX && caps.current_extent.height == u32::MAX {
        window
    } else {
        caps.current_extent
    }
}

/// The presentation mode: mailbox where the surface has it, else
/// first-in-first-out, which every surface has.
pub open spec fn wanted_present_mode(modes: Seq<PresentMode>) -> PresentMode {
    if modes.contains(PRESENT_MODE_MAILBOX) {
        PRESENT_MODE_MAILBOX
    } else {
        PRESENT_MODE_FIFO
    }
}

/// The parameters of the swapchain for a surface with these capabilities,
/// formats and presentation modes, in a window of this size.
pub open spec fn swapchain_for(
    caps: SurfaceCapabilities,
    formats: Seq<SurfaceFormat>,
    modes: Seq<PresentMode>,
    window: Extent2D,
    replaces_old: bool,
) -> SwapchainCreateInfo {
    SwapchainCreateInfo {
        min_image_count: wanted_image_count(caps),
        image_format: wanted_format(formats).format,
        image_color_space: wanted_format(formats).color_space,
        image_extent: wanted_extent(caps, window),
        image_array_layers: 1,
        image_usage: IMAGE_USAGE_COLOR_ATTACHMENT | IMAGE_USAGE_TRANSFER_DST,
        pre_transform: SURFACE_TRANSFORM_IDENTITY,
        present_mode: wanted_present_mode(modes),
        clipped: true,
        replaces_old,
    }
}

/// What is known of a display with this swapchain.
pub open spec fn info_for(create: SwapchainCreateInfo) -> DisplayInfo {
    DisplayInfo {
        min_image_count: create.min_image_count,
        surface_format: SurfaceFormat {
            format: create.image_format,
            color_space: create.image_color_space,
        },
        image_info: ImageInfo {
            format: create.image_format,
            extent: ImageExtent::D2(create.image_extent),
            tiling: ImageTiling::Optimal,
            usage: IMAGE_USAGE_COLOR_ATTACHMENT,
        },
        present_mode: create.present_mode,
    }
}

/// Why the frame context could not be acquired, or with what reservation
/// it was.
#[derive(Copy, Clone, Debug, PartialEq, Eq, Structural)]
pub enum AcquireError {
    /// The swapchain is suboptimal for the current window surface.
    ///
    /// The frame can still be rendered and presented, but the application
    /// should recreate the display; this is the barrier to record first.
    Suboptimal(ImageBarrier),
    /// The swapchain is incompatible with the window surface.
    ///
    /// The application must recreate the display in order to render.
    OutOfDate,
    /// The step does not follow the step before it, or the display has no
    /// swapchain.
    OutOfOrder,
}

/// The display: its swapchain parameters and its frames in flight.
pub struct Display {
    info: Option<DisplayInfo>,
    frames: Option<FrameRing>,
    has_swapchain: bool,
}

impl Display {
    /// What is known of the display, once it has a swapchain.
    pub closed spec fn spec_info(&self) -> Option<DisplayInfo> {
        self.info
    }

    /// The frames in flight, once the swapchain has its images.
    pub closed spec fn frames(&self) -> Option<FrameRing> {
        self.frames
    }

    /// Was a swapchain created for this display before?
    pub closed spec fn has_swapchain(&self) -> bool {
        self.has_swapchain
    }

    pub open spec fn wf(&self) -> bool {
        self.frames() matches Some(ring) ==> ring.wf()
    }

    /// A display without a swapchain.
    pub fn create() -> (display: Display)
        ensures
            display.wf(),
            display.spec_info() is None,
            display.frames() is None,
            !display.has_swapchain(),
    {
        Display { info: None, frames: None, has_swapchain: false }
    }

    /// Chooses the parameters of a new swapchain.
    ///
    /// The surface must be supported by the device, it must support the
    /// identity transform, and it must report a format. The frames of the
    /// swapchain before are gone; the new swapchain replaces the old one.
    pub fn recreate(
        &mut self,
        surface_supported: bool,
        caps: &SurfaceCapabilities,
        formats: &Vec<SurfaceFormat>,
        modes: &Vec<PresentMode>,
        phys_window_extent: Extent2D,
    ) -> (result: Result<SwapchainCreateInfo, DisplayError>)
        requires
            old(self).wf(),
        ensures
            final(self).wf(),
            result is Ok <==> surface_supported && caps.supported_transforms
                & SURFACE_TRANSFORM_IDENTITY == SURFACE_TRANSFORM_IDENTITY && formats@.len() > 0,
            result matches Err(e) ==> {
                &&& *final(self) == *old(self)
                &&& e == if !surface_supported {
                    DisplayError::SurfaceNotSupported
                } else if caps.supported_transforms & SURFACE_TRANSFORM_IDENTITY
                    != SURFACE_TRANSFORM_IDENTITY {
                    DisplayError::IdentityTransformUnsupported
                } else {
                    DisplayError::NoSurfaceFormat
                }
            },
            result matches Ok(create) ==> {
                &&& create == swapchain_for(
                    *caps,
                    formats@,
                    modes@,
                    phys_window_extent,
                    old(self).has_swapchain(),
                )
                &&& final(self).spec_info() == Some(info_for(create))
                &&& final(self).frames() is None
                &&& final(self).has_swapchain()
            },
    {
        if !surface_supported {
            return Err(DisplayError::SurfaceNotSupported);
        }
        // This is highly unlikely, but implementations are not required to
        // support the identity transform.
        if caps.supported_transforms & SURFACE_TRANSFORM_IDENTITY != SURFACE_TRANSFORM_IDENTITY {
            return Err(DisplayError::IdentityTransformUnsupported);
        }
        if formats.len() == 0 {
            return Err(DisplayError::NoSurfaceFormat);
        }
        // Try to triple buffer if possible.
        let desired = if caps.min_image_count > 3 {
            caps.min_image_count
        } else {
            3
        };
        let min_image_count = if caps.max_image_count == 0 || desired <= caps.max_image_count {
            desired
        } else {
            caps.max_image_count
        };
        let surface_format = choose_format(formats);
        let image_extent = if caps.current_extent.width == u32::MAX && caps.current_extent.height
            == u32::MAX {
            phys_window_extent
        } else {
            caps.current_extent
        };
        let present_mode = if contains_mode(modes, PRESENT_MODE_MAILBOX) {
            PRESENT_MODE_MAILBOX
        } else {
            // Implementations are required to support FIFO.
            PRESENT_MODE_FIFO
        };
        let create = SwapchainCreateInfo {
            min_image_count,
            image_format: surface_format.format,
            image_color_space: surface_format.color_space,
            image_extent,
            image_array_layers: 1,
            image_usage: IMAGE_USAGE_COLOR_ATTACHMENT | IMAGE_USAGE_TRANSFER_DST,
            pre_transform: SURFACE_TRANSFORM_IDENTITY,
            present_mode,
            clipped: true,
            replaces_old: self.has_swapchain,
        };
        self.info = Some(
            DisplayInfo {
                min_image_count,
                surface_format,
                image_info: ImageInfo {
                    format: surface_format.format,
                    extent: ImageExtent::D2(image_extent),
                    tiling: ImageTiling::Optimal,
                    usage: IMAGE_USAGE_COLOR_ATTACHMENT,
                },
                present_mode,
            },
        );
        self.frames = None;
        self.has_swapchain = true;
        Ok(create)
    }

    /// The swapchain has `images` images: the display gets as many frames
    /// in flight.
    pub fn images_created(&mut self, images: usize)
        requires
            old(self).wf(),
            images > 0,
        ensures
            final(self).wf(),
            final(self).spec_info() == old(self).spec_info(),
            final(self).has_swapchain() == old(self).has_swapchain(),
            final(self).frames() is Some,
            final(self).frames()->0.slots().len() == images,
            final(self).frames()->0.phase() == Phase::Idle,
            final(self).frames()->0.current_frame() == 0,
            forall|k: int| 0 <= k < images ==> final(self).frames()->0.slots()[k] == SlotState::Signaled,
    {
        self.frames = Some(FrameRing::new(images));
    }

    /// What is known of the display.
    pub fn info(&self) -> (info: Option<DisplayInfo>)
        ensures
            info == self.spec_info(),
    {
        self.info
    }

    /// Begins the next frame: tells which slot it uses. The fence of the
    /// slot has to be awaited before anything else is done with it. A
    /// frame is not begun, and nothing changes, while the display has no
    /// frames or another frame is under way, nor once the frames are used
    /// up.
    pub fn begin_frame(&mut self) -> (slot: Result<usize, FrameError>)
        requires
            old(self).wf(),
        ensures
            final(self).wf(),
            final(self).spec_info() == old(self).spec_info(),
            final(self).has_swapchain() == old(self).has_swapchain(),
            slot is Ok <==> old(self).frames() is Some && old(self).frames()->0.phase() == Phase::Idle
                && old(self).frames()->0.current_frame() < u64::MAX,
            slot matches Err(e) ==> {
                &&& *final(self) == *old(self)
                &&& e == if old(self).frames() is None || old(self).frames()->0.phase() != Phase::Idle {
                    FrameError::OutOfOrder
                } else {
                    FrameError::Exhausted
                }
            },
            slot matches Ok(k) ==> {
                let before = old(self).frames()->0;
                let after = final(self).frames()->0;
                &&& final(self).frames() is Some
                &&& after.slots() == before.slots()
                &&& after.current_frame() == before.current_frame() + 1
                &&& k == after.slot_of(after.current_frame())
                &&& after.phase() == (Phase::AwaitingFence { frame: after.current_frame(), slot: k })
            },
    {
        match &mut self.frames {
            None => Err(FrameError::OutOfOrder),
            Some(ring) => ring.begin_frame(),
        }
    }

    /// The fence of the slot was awaited and the swapchain was asked for an
    /// image, with `outcome`; `image` is the handle of the acquired image.
    /// Hands out the barrier to record first. A suboptimal swapchain gives
    /// the barrier as well, with the notice that the display should be
    /// recreated. The slot of the frame is no longer pending. Nothing
    /// changes unless a frame awaits its fence.
    pub fn acquire_frame_context(&mut self, outcome: AcquireOutcome, image: u64) -> (result: Result<
        ImageBarrier,
        AcquireError,
    >)
        requires
            old(self).wf(),
        ensures
            final(self).wf(),
            final(self).spec_info() == old(self).spec_info(),
            result is Ok <==> (old(self).frames() is Some && old(self).frames()->0.phase() is AwaitingFence
                && outcome is Success),
            result matches Ok(barrier) ==> barrier == crate::frame::pre_render_barrier(image),
            result matches Err(e) ==> e == match old(self).frames() {
                None => AcquireError::OutOfOrder,
                Some(ring) => if !(ring.phase() is AwaitingFence) {
                    AcquireError::OutOfOrder
                } else if outcome is OutOfDate {
                    AcquireError::OutOfDate
                } else {
                    AcquireError::Suboptimal(crate::frame::pre_render_barrier(image))
                },
            },
            final(self).has_swapchain() == old(self).has_swapchain(),
            (old(self).frames() is None || !(old(self).frames()->0.phase() is AwaitingFence)) ==> *final(self)
                == *old(self),
            (old(self).frames() is Some && old(self).frames()->0.phase() is AwaitingFence) ==> (
            final(self).frames() is Some && final(self).frames()->0.current_frame() == old(
                self,
            ).frames()->0.current_frame() && final(self).frames()->0.slots() == old(
                self,
            ).frames()->0.slots().update(
                old(self).frames()->0.phase()->AwaitingFence_slot as int,
                SlotState::Signaled,
            ) && final(self).frames()->0.phase() == match outcome {
                AcquireOutcome::OutOfDate => Phase::Idle,
                AcquireOutcome::Success(index) => (Phase::Recording {
                    frame: old(self).frames()->0.current_frame(),
                    slot: old(self).frames()->0.phase()->AwaitingFence_slot,
                    image: index,
                    suboptimal: false,
                }),
                AcquireOutcome::Suboptimal(index) => (Phase::Recording {
                    frame: old(self).frames()->0.current_frame(),
                    slot: old(self).frames()->0.phase()->AwaitingFence_slot,
                    image: index,
                    suboptimal: true,
                }),
            }),
    {
        match &mut self.frames {
            None => Err(AcquireError::OutOfOrder),
            Some(ring) => {
                match ring.fence_signaled() {
                    Err(_) => {
                        return Err(AcquireError::OutOfOrder);
                    },
                    Ok(_) => {},
                }
                match ring.image_acquired(outcome, image) {
                    Err(_) => Err(AcquireError::OutOfDate),
                    Ok(barrier) => {
                        match outcome {
                            AcquireOutcome::Suboptimal(_) => Err(AcquireError::Suboptimal(barrier)),
                            _ => Ok(barrier),
                        }
                    },
                }
            },
        }
    }

    /// Ends the frame: says what is recorded last, submitted and presented.
    /// `image` is the handle of the swapchain image and
    /// `swapchain_image_layout` the layout in which the graph left it. The
    /// fence of the slot is pending from now on.
    pub fn submit_and_present(&mut self, image: u64, swapchain_image_layout: ImageLayout) -> (result:
        Result<SubmitPlan, FrameError>)
        requires
            old(self).wf(),
        ensures
            final(self).wf(),
            final(self).spec_info() == old(self).spec_info(),
            final(self).has_swapchain() == old(self).has_swapchain(),
            result is Ok <==> (old(self).frames() is Some && old(self).frames()->0.phase() is Recording),
            result matches Ok(plan) ==> {
                let before = old(self).frames()->0;
                &&& plan == (SubmitPlan {
                    post_render_barrier: crate::frame::post_render_barrier(image, swapchain_image_layout),
                    slot: before.phase()->Recording_slot,
                    stage_mask: PIPELINE_STAGE_2_COLOR_ATTACHMENT_OUTPUT,
                    image_index: before.phase()->Recording_image,
                })
                &&& final(self).frames() is Some
                &&& final(self).frames()->0.phase() == Phase::Idle
                &&& final(self).frames()->0.current_frame() == before.current_frame()
                &&& final(self).frames()->0.slots() == before.slots().update(
                    plan.slot as int,
                    SlotState::Pending(before.current_frame()),
                )
            },
            result matches Err(e) ==> e == FrameError::OutOfOrder && *final(self) == *old(self),
    {
        match &mut self.frames {
            None => Err(FrameError::OutOfOrder),
            Some(ring) => ring.submit_and_present(image, swapchain_image_layout),
        }
    }
}

/// The format to use among `formats`.
fn choose_format(formats: &Vec<SurfaceFormat>) -> (chosen: SurfaceFormat)
    requires
        formats@.len() > 0,
    ensures
        chosen == wanted_format(formats@),
{
    let mut i: usize = 0;
    while i < formats.len()
        invariant
            i <= formats@.len(),
            forall|j: int| 0 <= j < i ==> !is_preferred(#[trigger] formats@[j]),
        decreases formats@.len() - i,
    {
        let candidate = formats[i];
        if candidate.format == FORMAT_B8G8R8A8_SRGB && candidate.color_space
            == COLOR_SPACE_SRGB_NONLINEAR {
            assert(is_preferred(formats@[i as int]));
            return candidate;
        }
        i += 1;
    }
    formats[0]
}

/// Is `mode` among `modes`?
fn contains_mode(modes: &Vec<PresentMode>, mode: PresentMode) -> (found: bool)
    ensures
        found == modes@.contains(mode),
{
    let mut i: usize = 0;
    while i < modes.len()
        invariant
            i <= modes@.len(),
            forall|j: int| 0 <= j < i ==> modes@[j] != mode,
        decreases modes@.len() - i,
    {
        if modes[i] == mode {
            return true;
        }
        i += 1;
    }
    false
}

} // verus!
