//! The values of the GPU API that the framework reads and writes, as plain
//! integers.
//!
//! Flag sets are bit masks and enumerations are their numbers, each as the
//! GPU API defines it, so that a value goes to and from the API unchanged.

use vstd::prelude::*;

verus! {

/// A set of pipeline stages (64-bit, synchronization2).
pub type PipelineStageFlags2 = u64;

/// A set of memory access types (64-bit, synchronization2).
pub type AccessFlags2 = u64;

/// A set of image usages.
pub type ImageUsageFlags = u32;

/// A set of buffer usages.
pub type BufferUsageFlags = u32;

/// A set of image aspects.
pub type ImageAspectFlags = u32;

/// The number of an image layout.
pub type ImageLayout = i32;

/// The number of an image format.
pub type Format = i32;

/// The number of a color space.
pub type ColorSpace = i32;

/// The number of a presentation mode.
pub type PresentMode = i32;

/// A set of surface transforms.
pub type SurfaceTransformFlags = u32;

/// A width and a height in pixels.
#[derive(Clone, Copy, Debug, PartialEq, Eq, Structural)]
pub struct Extent2D {
    pub width: u32,
    pub height: u32,
}

/// A width, a height and a depth in texels.
#[derive(Clone, Copy, Debug, PartialEq, Eq, Structural)]
pub struct Extent3D {
    pub width: u32,
    pub height: u32,
    pub depth: u32,
}

pub const IMAGE_LAYOUT_UNDEFINED: ImageLayout = 0;

pub const IMAGE_LAYOUT_GENERAL: ImageLayout = 1;

pub const IMAGE_LAYOUT_COLOR_ATTACHMENT_OPTIMAL: ImageLayout = 2;

pub const IMAGE_LAYOUT_DEPTH_STENCIL_ATTACHMENT_OPTIMAL: ImageLayout = 3;

pub const IMAGE_LAYOUT_SHADER_READ_ONLY_OPTIMAL: ImageLayout = 5;

pub const IMAGE_LAYOUT_TRANSFER_SRC_OPTIMAL: ImageLayout = 6;

pub const IMAGE_LAYOUT_TRANSFER_DST_OPTIMAL: ImageLayout = 7;

pub const IMAGE_LAYOUT_PRESENT_SRC: ImageLayout = 1_000_001_002;

pub const IMAGE_LAYOUT_DEPTH_ATTACHMENT_OPTIMAL: ImageLayout = 1_000_241_000;

pub const PIPELINE_STAGE_2_NONE: PipelineStageFlags2 = 0;

pub const PIPELINE_STAGE_2_EARLY_FRAGMENT_TESTS: PipelineStageFlags2 = 0x100;

pub const PIPELINE_STAGE_2_LATE_FRAGMENT_TESTS: PipelineStageFlags2 = 0x200;

pub const PIPELINE_STAGE_2_COLOR_ATTACHMENT_OUTPUT: PipelineStageFlags2 = 0x400;

pub const PIPELINE_STAGE_2_BLIT: PipelineStageFlags2 = 0x4_0000_0000;

pub const ACCESS_2_NONE: AccessFlags2 = 0;

pub const ACCESS_2_COLOR_ATTACHMENT_READ: AccessFlags2 = 0x80;

pub const ACCESS_2_COLOR_ATTACHMENT_WRITE: AccessFlags2 = 0x100;

pub const ACCESS_2_DEPTH_STENCIL_ATTACHMENT_READ: AccessFlags2 = 0x200;

pub const ACCESS_2_DEPTH_STENCIL_ATTACHMENT_WRITE: AccessFlags2 = 0x400;

pub const ACCESS_2_TRANSFER_READ: AccessFlags2 = 0x800;

pub const ACCESS_2_TRANSFER_WRITE: AccessFlags2 = 0x1000;

pub const IMAGE_USAGE_TRANSFER_SRC: ImageUsageFlags = 0x1;

pub const IMAGE_USAGE_TRANSFER_DST: ImageUsageFlags = 0x2;

pub const IMAGE_USAGE_SAMPLED: ImageUsageFlags = 0x4;

pub const IMAGE_USAGE_STORAGE: ImageUsageFlags = 0x8;

pub const IMAGE_USAGE_COLOR_ATTACHMENT: ImageUsageFlags = 0x10;

pub const IMAGE_USAGE_DEPTH_STENCIL_ATTACHMENT: ImageUsageFlags = 0x20;

pub const IMAGE_ASPECT_COLOR: ImageAspectFlags = 0x1;

pub const IMAGE_ASPECT_DEPTH: ImageAspectFlags = 0x2;

pub const IMAGE_ASPECT_STENCIL: ImageAspectFlags = 0x4;

pub const FORMAT_UNDEFINED: Format = 0;

pub const FORMAT_B8G8R8A8_SRGB: Format = 50;

pub const FORMAT_D16_UNORM: Format = 124;

pub const FORMAT_X8_D24_UNORM_PACK32: Format = 125;

pub const FORMAT_D32_SFLOAT: Format = 126;

pub const FORMAT_S8_UINT: Format = 127;

pub const FORMAT_D16_UNORM_S8_UINT: Format = 128;

pub const FORMAT_D24_UNORM_S8_UINT: Format = 129;

pub const FORMAT_D32_SFLOAT_S8_UINT: Format = 130;

pub const COLOR_SPACE_SRGB_NONLINEAR: ColorSpace = 0;

pub const PRESENT_MODE_IMMEDIATE: PresentMode = 0;

pub const PRESENT_MODE_MAILBOX: PresentMode = 1;

pub const PRESENT_MODE_FIFO: PresentMode = 2;

pub const SURFACE_TRANSFORM_IDENTITY: SurfaceTransformFlags = 0x1;

/// The queue family index that stands for "no ownership transfer".
pub const QUEUE_FAMILY_IGNORED: u32 = 0xffff_ffff;

/// The mip level count that stands for "all remaining levels".
pub const REMAINING_MIP_LEVELS: u32 = 0xffff_ffff;

/// The array layer count that stands for "all remaining layers".
pub const REMAINING_ARRAY_LAYERS: u32 = 0xffff_ffff;

/// The 32-bit boolean that the GPU API uses for "true".
pub const TRUE: u32 = 1;

} // verus!
