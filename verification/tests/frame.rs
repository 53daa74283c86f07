use reify::display::{
    AcquireError, Display, DisplayError, SurfaceCapabilities, SurfaceFormat, SwapchainCreateInfo,
};
use reify::frame::{AcquireOutcome, FrameError, FrameRing, Phase, SubmitPlan};
use reify::graph::runtime::ImageBarrier;
use reify::resource::image::{ImageExtent, ImageTiling};
use reify::vk;

fn caps(min: u32, max: u32) -> SurfaceCapabilities {
    SurfaceCapabilities {
        min_image_count: min,
        max_image_count: max,
        current_extent: vk::Extent2D { width: 640, height: 480 },
        supported_transforms: vk::SURFACE_TRANSFORM_IDENTITY | 0x2,
    }
}

fn bgra() -> SurfaceFormat {
    SurfaceFormat { format: vk::FORMAT_B8G8R8A8_SRGB, color_space: vk::COLOR_SPACE_SRGB_NONLINEAR }
}

fn window() -> vk::Extent2D {
    vk::Extent2D { width: 1024, height: 768 }
}

fn pre_render(image: u64) -> ImageBarrier {
    ImageBarrier {
        image,
        src_stage_mask: vk::PIPELINE_STAGE_2_COLOR_ATTACHMENT_OUTPUT,
        src_access_mask: vk::ACCESS_2_COLOR_ATTACHMENT_WRITE,
        dst_stage_mask: vk::PIPELINE_STAGE_2_COLOR_ATTACHMENT_OUTPUT,
        dst_access_mask: vk::ACCESS_2_COLOR_ATTACHMENT_WRITE,
        old_layout: vk::IMAGE_LAYOUT_UNDEFINED,
        new_layout: vk::IMAGE_LAYOUT_COLOR_ATTACHMENT_OPTIMAL,
        src_queue_family_index: vk::QUEUE_FAMILY_IGNORED,
        dst_queue_family_index: vk::QUEUE_FAMILY_IGNORED,
        subresource_range: reify::misc::image_subresource_range_full_color(),
    }
}

#[test]
fn frames_take_turns_on_the_slots() {
    let mut ring = FrameRing::new(2);
    assert_eq!(ring.num_frames(), 2);
    let mut slots = Vec::new();
    for frame in 1..=5u64 {
        let slot = ring.begin_frame().unwrap();
        slots.push(slot);
        assert_eq!(ring.frame_number(), frame);
        assert_eq!(ring.current_phase(), Phase::AwaitingFence { frame, slot });
        assert_eq!(ring.fence_signaled(), Ok(slot));
        let barrier = ring.image_acquired(AcquireOutcome::Success(frame as u32 % 3), 0x10).unwrap();
        assert_eq!(barrier, pre_render(0x10));
        assert_eq!(
            ring.current_phase(),
            Phase::Recording { frame, slot, image: frame as u32 % 3, suboptimal: false }
        );
        let plan = ring.submit_and_present(0x10, vk::IMAGE_LAYOUT_COLOR_ATTACHMENT_OPTIMAL).unwrap();
        assert_eq!(plan.slot, slot);
        assert_eq!(plan.image_index, frame as u32 % 3);
        assert_eq!(ring.current_phase(), Phase::Idle);
    }
    assert_eq!(slots, vec![1, 0, 1, 0, 1]);
}

#[test]
fn steps_out_of_order_are_refused() {
    let mut ring = FrameRing::new(3);
    assert_eq!(ring.fence_signaled(), Err(FrameError::OutOfOrder));
    assert_eq!(ring.image_acquired(AcquireOutcome::Success(0), 1), Err(FrameError::OutOfOrder));
    assert_eq!(ring.submit_and_present(1, 2), Err(FrameError::OutOfOrder));
    assert_eq!(ring.begin_frame(), Ok(1));
    assert_eq!(ring.begin_frame(), Err(FrameError::OutOfOrder));
    // Nothing is recorded before the fence of the slot was awaited.
    assert_eq!(ring.image_acquired(AcquireOutcome::Success(0), 1), Err(FrameError::OutOfOrder));
    assert_eq!(ring.submit_and_present(1, 2), Err(FrameError::OutOfOrder));
    assert_eq!(ring.fence_signaled(), Ok(1));
    assert_eq!(ring.submit_and_present(1, 2), Err(FrameError::OutOfOrder));
    assert!(ring.image_acquired(AcquireOutcome::Success(0), 1).is_ok());
    assert_eq!(ring.begin_frame(), Err(FrameError::OutOfOrder));
    assert!(ring.submit_and_present(1, 2).is_ok());
    assert_eq!(ring.begin_frame(), Ok(2));
}

#[test]
fn frame_ends_with_the_barrier_to_present() {
    let mut ring = FrameRing::new(2);
    ring.begin_frame().unwrap();
    ring.fence_signaled().unwrap();
    ring.image_acquired(AcquireOutcome::Suboptimal(2), 0x77).unwrap();
    assert_eq!(ring.current_phase(), Phase::Recording { frame: 1, slot: 1, image: 2, suboptimal: true });
    let plan = ring.submit_and_present(0x77, vk::IMAGE_LAYOUT_TRANSFER_DST_OPTIMAL).unwrap();
    assert_eq!(
        plan,
        SubmitPlan {
            post_render_barrier: ImageBarrier {
                image: 0x77,
                src_stage_mask: vk::PIPELINE_STAGE_2_COLOR_ATTACHMENT_OUTPUT,
                src_access_mask: vk::ACCESS_2_COLOR_ATTACHMENT_WRITE,
                dst_stage_mask: vk::PIPELINE_STAGE_2_COLOR_ATTACHMENT_OUTPUT,
                dst_access_mask: 0,
                old_layout: vk::IMAGE_LAYOUT_TRANSFER_DST_OPTIMAL,
                new_layout: vk::IMAGE_LAYOUT_PRESENT_SRC,
                src_queue_family_index: vk::QUEUE_FAMILY_IGNORED,
                dst_queue_family_index: vk::QUEUE_FAMILY_IGNORED,
                subresource_range: reify::misc::image_subresource_range_full_color(),
            },
            slot: 1,
            stage_mask: vk::PIPELINE_STAGE_2_COLOR_ATTACHMENT_OUTPUT,
            image_index: 2,
        }
    );
}

#[test]
fn out_of_date_swapchain_ends_the_frame() {
    let mut ring = FrameRing::new(2);
    ring.begin_frame().unwrap();
    ring.fence_signaled().unwrap();
    assert_eq!(ring.image_acquired(AcquireOutcome::OutOfDate, 0), Err(FrameError::OutOfDate));
    assert_eq!(ring.current_phase(), Phase::Idle);
    assert_eq!(ring.begin_frame(), Ok(0));
}

#[test]
fn display_prefers_triple_buffering_bgra_and_mailbox() {
    let mut display = Display::create();
    assert_eq!(display.info(), None);
    let formats = vec![SurfaceFormat { format: 37, color_space: 0 }, bgra()];
    let modes = vec![vk::PRESENT_MODE_FIFO, vk::PRESENT_MODE_MAILBOX];
    let create = display.recreate(true, &caps(2, 8), &formats, &modes, window()).unwrap();
    assert_eq!(
        create,
        SwapchainCreateInfo {
            min_image_count: 3,
            image_format: vk::FORMAT_B8G8R8A8_SRGB,
            image_color_space: vk::COLOR_SPACE_SRGB_NONLINEAR,
            image_extent: vk::Extent2D { width: 640, height: 480 },
            image_array_layers: 1,
            image_usage: vk::IMAGE_USAGE_COLOR_ATTACHMENT | vk::IMAGE_USAGE_TRANSFER_DST,
            pre_transform: vk::SURFACE_TRANSFORM_IDENTITY,
            present_mode: vk::PRESENT_MODE_MAILBOX,
            clipped: true,
            replaces_old: false,
        }
    );
    let info = display.info().unwrap();
    assert_eq!(info.min_image_count, 3);
    assert_eq!(info.surface_format, bgra());
    assert_eq!(info.present_mode, vk::PRESENT_MODE_MAILBOX);
    assert_eq!(info.image_info.extent, ImageExtent::from_size(640, 480));
    assert_eq!(info.image_info.tiling, ImageTiling::Optimal);
    assert_eq!(info.image_info.usage, vk::IMAGE_USAGE_COLOR_ATTACHMENT);
    // The second swapchain replaces the first.
    let again = display.recreate(true, &caps(2, 8), &formats, &modes, window()).unwrap();
    assert!(again.replaces_old);
}

#[test]
fn display_clamps_the_image_count() {
    let formats = vec![bgra()];
    let modes = vec![vk::PRESENT_MODE_FIFO];
    let count = |min: u32, max: u32| {
        Display::create().recreate(true, &caps(min, max), &formats, &modes, window()).unwrap().min_image_count
    };
    assert_eq!(count(1, 0), 3);
    assert_eq!(count(1, 2), 2);
    assert_eq!(count(3, 3), 3);
    assert_eq!(count(4, 0), 4);
    assert_eq!(count(4, 8), 4);
    assert_eq!(count(2, 3), 3);
}

#[test]
fn display_falls_back() {
    let mut display = Display::create();
    let formats = vec![SurfaceFormat { format: 37, color_space: 0 }, SurfaceFormat { format: 44, color_space: 0 }];
    let modes = vec![vk::PRESENT_MODE_IMMEDIATE, vk::PRESENT_MODE_FIFO];
    let mut surface = caps(2, 0);
    surface.current_extent = vk::Extent2D { width: u32::MAX, height: u32::MAX };
    let create = display.recreate(true, &surface, &formats, &modes, window()).unwrap();
    assert_eq!(create.image_format, 37);
    assert_eq!(create.present_mode, vk::PRESENT_MODE_FIFO);
    assert_eq!(create.image_extent, window());
    // Only both at their largest leave the size to the window.
    surface.current_extent = vk::Extent2D { width: u32::MAX, height: 5 };
    let create = display.recreate(true, &surface, &formats, &vec![], window()).unwrap();
    assert_eq!(create.image_extent, vk::Extent2D { width: u32::MAX, height: 5 });
    assert_eq!(create.present_mode, vk::PRESENT_MODE_FIFO);
}

#[test]
fn display_refuses_unusable_surfaces() {
    let formats = vec![bgra()];
    let modes = vec![vk::PRESENT_MODE_FIFO];
    let mut display = Display::create();
    assert_eq!(
        display.recreate(false, &caps(2, 0), &formats, &modes, window()),
        Err(DisplayError::SurfaceNotSupported)
    );
    let mut rotated = caps(2, 0);
    rotated.supported_transforms = 0x2;
    assert_eq!(
        display.recreate(true, &rotated, &formats, &modes, window()),
        Err(DisplayError::IdentityTransformUnsupported)
    );
    assert_eq!(
        display.recreate(true, &caps(2, 0), &vec![], &modes, window()),
        Err(DisplayError::NoSurfaceFormat)
    );
    assert_eq!(display.info(), None);
}

#[test]
fn suboptimal_frame_still_renders() {
    let mut display = Display::create();
    assert_eq!(display.begin_frame(), Err(FrameError::OutOfOrder));
    display.recreate(true, &caps(2, 0), &vec![bgra()], &vec![], window()).unwrap();
    assert_eq!(display.begin_frame(), Err(FrameError::OutOfOrder));
    display.images_created(3);
    assert_eq!(display.begin_frame(), Ok(1));
    assert_eq!(
        display.acquire_frame_context(AcquireOutcome::Suboptimal(1), 0x5),
        Err(AcquireError::Suboptimal(pre_render(0x5)))
    );
    // The frame goes on to be presented.
    let plan = display.submit_and_present(0x5, vk::IMAGE_LAYOUT_COLOR_ATTACHMENT_OPTIMAL).unwrap();
    assert_eq!(plan.image_index, 1);
    assert_eq!(plan.slot, 1);
    assert_eq!(display.begin_frame(), Ok(2));
    assert_eq!(display.acquire_frame_context(AcquireOutcome::Success(0), 0x6), Ok(pre_render(0x6)));
    assert!(display.submit_and_present(0x6, 2).is_ok());
    assert_eq!(display.begin_frame(), Ok(0));
    assert_eq!(display.acquire_frame_context(AcquireOutcome::OutOfDate, 0), Err(AcquireError::OutOfDate));
    assert_eq!(display.submit_and_present(0x6, 2), Err(FrameError::OutOfOrder));
    assert_eq!(display.acquire_frame_context(AcquireOutcome::Success(0), 0), Err(AcquireError::OutOfOrder));
    // After the swapchain is recreated the frames start over.
    display.recreate(true, &caps(2, 0), &vec![bgra()], &vec![], window()).unwrap();
    assert_eq!(display.begin_frame(), Err(FrameError::OutOfOrder));
    display.images_created(2);
    assert_eq!(display.begin_frame(), Ok(1));
}
