//! Images: their descriptors, and what the framework keeps of a physical
//! image.

use crate::vk::{
    Extent3D, Extent2D, Format, ImageAspectFlags, ImageLayout, ImageUsageFlags, FORMAT_D16_UNORM,
    FORMAT_D16_UNORM_S8_UINT, FORMAT_D24_UNORM_S8_UINT, FORMAT_D32_SFLOAT,
    FORMAT_D32_SFLOAT_S8_UINT, FORMAT_S8_UINT, FORMAT_X8_D24_UNORM_PACK32, IMAGE_ASPECT_COLOR,
    IMAGE_ASPECT_DEPTH, IMAGE_ASPECT_STENCIL, IMAGE_LAYOUT_UNDEFINED,
};
use vstd::prelude::*;

verus! {

/// How the texels of an image are laid out in memory.
#[derive(Copy, Clone, Debug, PartialEq, Eq, Structural)]
pub enum ImageTiling {
    Optimal,
    Linear,
}

impl ImageTiling {
    /// The number of the tiling in the GPU API.
    pub fn as_raw(self) -> (raw: i32)
        ensures
            raw == match self {
                ImageTiling::Optimal => 0i32,
                ImageTiling::Linear => 1i32,
            },
    {
        match self {
            ImageTiling::Optimal => 0,
            ImageTiling::Linear => 1,
        }
    }
}

/// The size of an image.
#[derive(Copy, Clone, Debug, PartialEq, Eq, Structural)]
pub enum ImageExtent {
    D2(Extent2D),
}

impl ImageExtent {
    /// The extent of an image of `width` by `height` texels.
    pub fn from_size(width: u32, height: u32) -> (extent: ImageExtent)
        ensures
            extent == ImageExtent::D2(Extent2D { width, height }),
    {
        ImageExtent::D2(Extent2D { width, height })
    }

    pub fn as_2d(&self) -> (extent: Option<&Extent2D>)
        ensures
            extent == match self {
                ImageExtent::D2(x2d) => Some(x2d),
            },
    {
        match self {
            ImageExtent::D2(x2d) => Some(x2d),
        }
    }

    /// The number of the image type in the GPU API: two-dimensional.
    pub fn image_type(self) -> (raw: i32)
        ensures
            raw == 1,
    {
        match self {
            ImageExtent::D2(_) => 1,
        }
    }

    /// Width, height and depth; a two-dimensional image is one texel deep.
    pub fn as_3d(self) -> (size: Extent3D)
        ensures
            size == match self {
                ImageExtent::D2(x) => (Extent3D { width: x.width, height: x.height, depth: 1 }),
            },
    {
        match self {
            ImageExtent::D2(x) => Extent3D { width: x.width, height: x.height, depth: 1 },
        }
    }
}

/// The descriptor of an image.
#[derive(Copy, Clone, Debug, PartialEq, Eq, Structural)]
pub struct ImageInfo {
    pub format: Format,
    pub extent: ImageExtent,
    pub tiling: ImageTiling,
    pub usage: ImageUsageFlags,
}

/// The aspects of the images of a format: depth, stencil or both for the
/// depth and stencil formats, color for every other format.
pub open spec fn aspects_of(format: Format) -> ImageAspectFlags {
    if format == FORMAT_D16_UNORM || format == FORMAT_X8_D24_UNORM_PACK32 || format
        == FORMAT_D32_SFLOAT {
        IMAGE_ASPECT_DEPTH
    } else if format == FORMAT_S8_UINT {
        IMAGE_ASPECT_STENCIL
    } else if format == FORMAT_D16_UNORM_S8_UINT || format == FORMAT_D24_UNORM_S8_UINT || format
        == FORMAT_D32_SFLOAT_S8_UINT {
        IMAGE_ASPECT_DEPTH | IMAGE_ASPECT_STENCIL
    } else {
        IMAGE_ASPECT_COLOR
    }
}

/// What the framework adds to the formats of the GPU API.
pub trait FormatExt {
    /// The aspects of the images of the format.
    spec fn spec_aspects(self) -> ImageAspectFlags;

    fn aspects(self) -> (aspects: ImageAspectFlags)
        ensures
            aspects == self.spec_aspects(),
    ;
}

impl FormatExt for Format {
    open spec fn spec_aspects(self) -> ImageAspectFlags {
        aspects_of(self)
    }

    fn aspects(self) -> (aspects: ImageAspectFlags) {
        if self == FORMAT_D16_UNORM || self == FORMAT_X8_D24_UNORM_PACK32 || self
            == FORMAT_D32_SFLOAT {
            IMAGE_ASPECT_DEPTH
        } else if self == FORMAT_S8_UINT {
            IMAGE_ASPECT_STENCIL
        } else if self == FORMAT_D16_UNORM_S8_UINT || self == FORMAT_D24_UNORM_S8_UINT || self
            == FORMAT_D32_SFLOAT_S8_UINT {
            IMAGE_ASPECT_DEPTH | IMAGE_ASPECT_STENCIL
        } else {
            IMAGE_ASPECT_COLOR
        }
    }
}

/// A range of mip levels and array layers of some aspects of an image.
#[derive(Copy, Clone, Debug, PartialEq, Eq, Structural)]
pub struct ImageSubresourceRange {
    pub aspect_mask: ImageAspectFlags,
    pub base_mip_level: u32,
    pub level_count: u32,
    pub base_array_layer: u32,
    pub layer_count: u32,
}

/// The first mip level and array layer of the given aspects: all of an
/// image without mip levels and layers.
pub fn subresource_range_full(aspect_mask: ImageAspectFlags) -> (range: ImageSubresourceRange)
    ensures
        range == (ImageSubresourceRange {
            aspect_mask,
            base_mip_level: 0,
            level_count: 1,
            base_array_layer: 0,
            layer_count: 1,
        }),
{
    ImageSubresourceRange {
        aspect_mask,
        base_mip_level: 0,
        level_count: 1,
        base_array_layer: 0,
        layer_count: 1,
    }
}

/// The parameters with which an image is created in the GPU API.
#[derive(Copy, Clone, Debug, PartialEq, Eq, Structural)]
pub struct ImageCreateInfo {
    pub flags: u32,
    pub image_type: i32,
    pub format: Format,
    pub extent: Extent3D,
    pub mip_levels: u32,
    pub array_layers: u32,
    pub samples: u32,
    pub tiling: i32,
    pub usage: ImageUsageFlags,
    pub sharing_mode: i32,
    pub initial_layout: ImageLayout,
}

impl ImageCreateInfo {
    /// The creation parameters of an image with the descriptor `info`: one
    /// mip level, one layer, one sample, used by one queue family, in no
    /// layout yet.
    pub fn from_info(info: &ImageInfo) -> (create: ImageCreateInfo)
        ensures
            create == (ImageCreateInfo {
                flags: 0,
                image_type: 1,
                format: info.format,
                extent: match info.extent {
                    ImageExtent::D2(x) => (Extent3D { width: x.width, height: x.height, depth: 1 }),
                },
                mip_levels: 1,
                array_layers: 1,
                samples: 1,
                tiling: match info.tiling {
                    ImageTiling::Optimal => 0i32,
                    ImageTiling::Linear => 1i32,
                },
                usage: info.usage,
                sharing_mode: 0,
                initial_layout: IMAGE_LAYOUT_UNDEFINED,
            }),
    {
        ImageCreateInfo {
            flags: 0,
            image_type: info.extent.image_type(),
            format: info.format,
            extent: info.extent.as_3d(),
            mip_levels: 1,
            array_layers: 1,
            samples: 1,
            tiling: info.tiling.as_raw(),
            usage: info.usage,
            sharing_mode: 0,
            initial_layout: IMAGE_LAYOUT_UNDEFINED,
        }
    }
}

/// A physical image: its descriptor, its handle, and the handle of the view
/// of the whole image.
#[derive(Copy, Clone, Debug, PartialEq, Eq, Structural)]
pub struct Image {
    pub info: ImageInfo,
    pub handle: u64,
    pub default_view: u64,
}

} // verus!
