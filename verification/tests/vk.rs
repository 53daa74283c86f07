use ash::vk as api;
use reify::resource::image::{
    subresource_range_full, FormatExt, ImageCreateInfo, ImageExtent, ImageInfo, ImageTiling,
};
use reify::vk;

#[test]
fn layouts_are_those_of_the_api() {
    assert_eq!(vk::IMAGE_LAYOUT_UNDEFINED, api::ImageLayout::UNDEFINED.as_raw());
    assert_eq!(vk::IMAGE_LAYOUT_GENERAL, api::ImageLayout::GENERAL.as_raw());
    assert_eq!(vk::IMAGE_LAYOUT_COLOR_ATTACHMENT_OPTIMAL, api::ImageLayout::COLOR_ATTACHMENT_OPTIMAL.as_raw());
    assert_eq!(
        vk::IMAGE_LAYOUT_DEPTH_STENCIL_ATTACHMENT_OPTIMAL,
        api::ImageLayout::DEPTH_STENCIL_ATTACHMENT_OPTIMAL.as_raw()
    );
    assert_eq!(vk::IMAGE_LAYOUT_SHADER_READ_ONLY_OPTIMAL, api::ImageLayout::SHADER_READ_ONLY_OPTIMAL.as_raw());
    assert_eq!(vk::IMAGE_LAYOUT_TRANSFER_SRC_OPTIMAL, api::ImageLayout::TRANSFER_SRC_OPTIMAL.as_raw());
    assert_eq!(vk::IMAGE_LAYOUT_TRANSFER_DST_OPTIMAL, api::ImageLayout::TRANSFER_DST_OPTIMAL.as_raw());
    assert_eq!(vk::IMAGE_LAYOUT_PRESENT_SRC, api::ImageLayout::PRESENT_SRC_KHR.as_raw());
    assert_eq!(vk::IMAGE_LAYOUT_DEPTH_ATTACHMENT_OPTIMAL, api::ImageLayout::DEPTH_ATTACHMENT_OPTIMAL.as_raw());
}

#[test]
fn stages_and_accesses_are_those_of_the_api() {
    assert_eq!(vk::PIPELINE_STAGE_2_NONE, api::PipelineStageFlags2::NONE.as_raw());
    assert_eq!(
        vk::PIPELINE_STAGE_2_EARLY_FRAGMENT_TESTS,
        api::PipelineStageFlags2::EARLY_FRAGMENT_TESTS.as_raw()
    );
    assert_eq!(
        vk::PIPELINE_STAGE_2_LATE_FRAGMENT_TESTS,
        api::PipelineStageFlags2::LATE_FRAGMENT_TESTS.as_raw()
    );
    assert_eq!(
        vk::PIPELINE_STAGE_2_COLOR_ATTACHMENT_OUTPUT,
        api::PipelineStageFlags2::COLOR_ATTACHMENT_OUTPUT.as_raw()
    );
    assert_eq!(vk::PIPELINE_STAGE_2_BLIT, api::PipelineStageFlags2::BLIT.as_raw());
    assert_eq!(vk::ACCESS_2_NONE, api::AccessFlags2::NONE.as_raw());
    assert_eq!(vk::ACCESS_2_COLOR_ATTACHMENT_READ, api::AccessFlags2::COLOR_ATTACHMENT_READ.as_raw());
    assert_eq!(vk::ACCESS_2_COLOR_ATTACHMENT_WRITE, api::AccessFlags2::COLOR_ATTACHMENT_WRITE.as_raw());
    assert_eq!(
        vk::ACCESS_2_DEPTH_STENCIL_ATTACHMENT_READ,
        api::AccessFlags2::DEPTH_STENCIL_ATTACHMENT_READ.as_raw()
    );
    assert_eq!(
        vk::ACCESS_2_DEPTH_STENCIL_ATTACHMENT_WRITE,
        api::AccessFlags2::DEPTH_STENCIL_ATTACHMENT_WRITE.as_raw()
    );
    assert_eq!(vk::ACCESS_2_TRANSFER_READ, api::AccessFlags2::TRANSFER_READ.as_raw());
    assert_eq!(vk::ACCESS_2_TRANSFER_WRITE, api::AccessFlags2::TRANSFER_WRITE.as_raw());
}

#[test]
fn usages_and_aspects_are_those_of_the_api() {
    assert_eq!(vk::IMAGE_USAGE_TRANSFER_SRC, api::ImageUsageFlags::TRANSFER_SRC.as_raw());
    assert_eq!(vk::IMAGE_USAGE_TRANSFER_DST, api::ImageUsageFlags::TRANSFER_DST.as_raw());
    assert_eq!(vk::IMAGE_USAGE_SAMPLED, api::ImageUsageFlags::SAMPLED.as_raw());
    assert_eq!(vk::IMAGE_USAGE_STORAGE, api::ImageUsageFlags::STORAGE.as_raw());
    assert_eq!(vk::IMAGE_USAGE_COLOR_ATTACHMENT, api::ImageUsageFlags::COLOR_ATTACHMENT.as_raw());
    assert_eq!(
        vk::IMAGE_USAGE_DEPTH_STENCIL_ATTACHMENT,
        api::ImageUsageFlags::DEPTH_STENCIL_ATTACHMENT.as_raw()
    );
    assert_eq!(vk::IMAGE_ASPECT_COLOR, api::ImageAspectFlags::COLOR.as_raw());
    assert_eq!(vk::IMAGE_ASPECT_DEPTH, api::ImageAspectFlags::DEPTH.as_raw());
    assert_eq!(vk::IMAGE_ASPECT_STENCIL, api::ImageAspectFlags::STENCIL.as_raw());
}

#[test]
fn formats_and_the_rest_are_those_of_the_api() {
    assert_eq!(vk::FORMAT_UNDEFINED, api::Format::UNDEFINED.as_raw());
    assert_eq!(vk::FORMAT_B8G8R8A8_SRGB, api::Format::B8G8R8A8_SRGB.as_raw());
    assert_eq!(vk::FORMAT_D16_UNORM, api::Format::D16_UNORM.as_raw());
    assert_eq!(vk::FORMAT_X8_D24_UNORM_PACK32, api::Format::X8_D24_UNORM_PACK32.as_raw());
    assert_eq!(vk::FORMAT_D32_SFLOAT, api::Format::D32_SFLOAT.as_raw());
    assert_eq!(vk::FORMAT_S8_UINT, api::Format::S8_UINT.as_raw());
    assert_eq!(vk::FORMAT_D16_UNORM_S8_UINT, api::Format::D16_UNORM_S8_UINT.as_raw());
    assert_eq!(vk::FORMAT_D24_UNORM_S8_UINT, api::Format::D24_UNORM_S8_UINT.as_raw());
    assert_eq!(vk::FORMAT_D32_SFLOAT_S8_UINT, api::Format::D32_SFLOAT_S8_UINT.as_raw());
    assert_eq!(vk::COLOR_SPACE_SRGB_NONLINEAR, api::ColorSpaceKHR::SRGB_NONLINEAR.as_raw());
    assert_eq!(vk::PRESENT_MODE_IMMEDIATE, api::PresentModeKHR::IMMEDIATE.as_raw());
    assert_eq!(vk::PRESENT_MODE_MAILBOX, api::PresentModeKHR::MAILBOX.as_raw());
    assert_eq!(vk::PRESENT_MODE_FIFO, api::PresentModeKHR::FIFO.as_raw());
    assert_eq!(vk::SURFACE_TRANSFORM_IDENTITY, api::SurfaceTransformFlagsKHR::IDENTITY.as_raw());
    assert_eq!(vk::QUEUE_FAMILY_IGNORED, api::QUEUE_FAMILY_IGNORED);
    assert_eq!(vk::REMAINING_MIP_LEVELS, api::REMAINING_MIP_LEVELS);
    assert_eq!(vk::REMAINING_ARRAY_LAYERS, api::REMAINING_ARRAY_LAYERS);
    assert_eq!(vk::TRUE, api::TRUE);
}

#[test]
fn aspects_follow_the_format() {
    assert_eq!(vk::FORMAT_B8G8R8A8_SRGB.aspects(), vk::IMAGE_ASPECT_COLOR);
    assert_eq!(vk::FORMAT_UNDEFINED.aspects(), vk::IMAGE_ASPECT_COLOR);
    assert_eq!(vk::FORMAT_D16_UNORM.aspects(), vk::IMAGE_ASPECT_DEPTH);
    assert_eq!(vk::FORMAT_X8_D24_UNORM_PACK32.aspects(), vk::IMAGE_ASPECT_DEPTH);
    assert_eq!(vk::FORMAT_D32_SFLOAT.aspects(), vk::IMAGE_ASPECT_DEPTH);
    assert_eq!(vk::FORMAT_S8_UINT.aspects(), vk::IMAGE_ASPECT_STENCIL);
    for format in [vk::FORMAT_D16_UNORM_S8_UINT, vk::FORMAT_D24_UNORM_S8_UINT, vk::FORMAT_D32_SFLOAT_S8_UINT] {
        assert_eq!(format.aspects(), vk::IMAGE_ASPECT_DEPTH | vk::IMAGE_ASPECT_STENCIL);
    }
    assert_eq!(131.aspects(), vk::IMAGE_ASPECT_COLOR);
    assert_eq!(123.aspects(), vk::IMAGE_ASPECT_COLOR);
}

#[test]
fn image_creation_parameters() {
    let info = ImageInfo {
        format: vk::FORMAT_D32_SFLOAT,
        extent: ImageExtent::from_size(4, 3),
        tiling: ImageTiling::Linear,
        usage: vk::IMAGE_USAGE_DEPTH_STENCIL_ATTACHMENT,
    };
    let create = ImageCreateInfo::from_info(&info);
    assert_eq!(create.flags, api::ImageCreateFlags::empty().as_raw());
    assert_eq!(create.image_type, api::ImageType::TYPE_2D.as_raw());
    assert_eq!(create.format, vk::FORMAT_D32_SFLOAT);
    assert_eq!(create.extent, vk::Extent3D { width: 4, height: 3, depth: 1 });
    assert_eq!((create.mip_levels, create.array_layers), (1, 1));
    assert_eq!(create.samples, api::SampleCountFlags::TYPE_1.as_raw());
    assert_eq!(create.tiling, api::ImageTiling::LINEAR.as_raw());
    assert_eq!(ImageTiling::Optimal.as_raw(), api::ImageTiling::OPTIMAL.as_raw());
    assert_eq!(create.usage, vk::IMAGE_USAGE_DEPTH_STENCIL_ATTACHMENT);
    assert_eq!(create.sharing_mode, api::SharingMode::EXCLUSIVE.as_raw());
    assert_eq!(create.initial_layout, vk::IMAGE_LAYOUT_UNDEFINED);
    assert_eq!(info.extent.as_2d(), Some(&vk::Extent2D { width: 4, height: 3 }));
    let range = subresource_range_full(vk::IMAGE_ASPECT_DEPTH);
    assert_eq!(
        (range.aspect_mask, range.base_mip_level, range.level_count, range.base_array_layer, range.layer_count),
        (vk::IMAGE_ASPECT_DEPTH, 0, 1, 0, 1)
    );
    let full = reify::misc::image_subresource_range_full_color();
    assert_eq!(full.aspect_mask, vk::IMAGE_ASPECT_COLOR);
    assert_eq!(full.level_count, api::REMAINING_MIP_LEVELS);
    assert_eq!(full.layer_count, api::REMAINING_ARRAY_LAYERS);
}
