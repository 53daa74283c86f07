use reify::graph::builder::{GraphEditor, GraphError};
use reify::graph::runtime::{ImageBindings, RunContext};
use reify::graph::node::{Node, NodeContext};
use reify::graph::{GraphImage, GraphImageInfo, GraphNode};
use reify::ops::blit::{input_image, output_image, BlitNode, Offset3D};
use reify::ops::render_pass::{
    ClearColor, ClearDepthStencilValue, ColorAttachmentInfo, DepthStencilAttachmentInfo, LoadOp,
    PipelineCommands, Rect2D, RenderPass, RenderPassBuilder, RenderPassError, StoreOp, Viewport,
};
use reify::resource::image::{Image, ImageExtent, ImageInfo, ImageTiling};
use reify::resource::transient::TransientResources;
use reify::vk;

fn info(width: u32, height: u32) -> GraphImageInfo {
    GraphImageInfo { format: vk::FORMAT_B8G8R8A8_SRGB, extent: vk::Extent2D { width, height } }
}

fn black() -> ClearColor {
    ClearColor::Float(0f32.to_bits(), 0f32.to_bits(), 0f32.to_bits(), 1f32.to_bits())
}

fn color(label: &str) -> ColorAttachmentInfo {
    ColorAttachmentInfo {
        label: label.to_string(),
        format: None,
        load_op: LoadOp::Clear(black()),
        store_op: StoreOp::Store,
    }
}

fn pass(labels: &[&str]) -> RenderPass {
    RenderPass { color_attachments: labels.iter().map(|l| color(l)).collect(), depth_attachment: None }
}

fn target(width: u32, height: u32) -> Image {
    Image {
        info: ImageInfo {
            format: vk::FORMAT_B8G8R8A8_SRGB,
            extent: ImageExtent::from_size(width, height),
            tiling: ImageTiling::Optimal,
            usage: vk::IMAGE_USAGE_COLOR_ATTACHMENT,
        },
        handle: 0xabc,
        default_view: 0xdef,
    }
}

#[test]
fn load_and_store_ops() {
    assert_eq!(LoadOp::Clear(5u32).clear_value(), Some(5));
    assert_eq!(LoadOp::<u32>::Load.clear_value(), None);
    assert_eq!(LoadOp::<u32>::DontCare.clear_value(), None);
    assert_eq!(LoadOp::<u32>::Load.as_raw(), ash::vk::AttachmentLoadOp::LOAD.as_raw());
    assert_eq!(LoadOp::Clear(1u32).as_raw(), ash::vk::AttachmentLoadOp::CLEAR.as_raw());
    assert_eq!(LoadOp::<u32>::DontCare.as_raw(), ash::vk::AttachmentLoadOp::DONT_CARE.as_raw());
    assert_eq!(StoreOp::Store.as_raw(), ash::vk::AttachmentStoreOp::STORE.as_raw());
    assert_eq!(StoreOp::DontCare.as_raw(), ash::vk::AttachmentStoreOp::DONT_CARE.as_raw());
}

#[test]
fn attachment_without_clear_gets_the_unset_value() {
    let mut attachment = color("c");
    attachment.load_op = LoadOp::Load;
    attachment.store_op = StoreOp::DontCare;
    let info = attachment.rendering_attachment_info(9, vk::IMAGE_LAYOUT_COLOR_ATTACHMENT_OPTIMAL);
    assert_eq!(info.clear_value, ClearColor::Float(0, 0, 0, 0));
    assert_eq!((info.load_op, info.store_op, info.resolve_mode), (0, 1, 0));
    let depth = DepthStencilAttachmentInfo {
        label: "d".to_string(),
        format: Some(vk::FORMAT_D32_SFLOAT),
        load_op: LoadOp::Clear(ClearDepthStencilValue { depth: 1f32.to_bits(), stencil: 0 }),
        store_op: StoreOp::DontCare,
    };
    let info = depth.rendering_attachment_info(3, vk::IMAGE_LAYOUT_DEPTH_ATTACHMENT_OPTIMAL);
    assert_eq!(info.clear_value, ClearDepthStencilValue { depth: 0x3f80_0000, stencil: 0 });
    assert_eq!((info.image_view, info.image_layout, info.load_op), (3, vk::IMAGE_LAYOUT_DEPTH_ATTACHMENT_OPTIMAL, 1));
}

#[test]
fn clear_screen_pass() {
    let mut editor = GraphEditor::new();
    let swapchain = editor.add_image("swapchain".to_string(), info(800, 600));
    let builder = editor
        .add_render_pass("clear".to_string(), pass(&["out_color"]))
        .set_color_attachment("out_color".to_string(), swapchain, None)
        .unwrap();
    let (key, node) = builder.build(&mut editor).unwrap();
    assert_eq!(key.index(), 0);
    let slots = editor.node(key).unwrap();
    assert!(slots.inputs.images.is_empty());
    assert_eq!(slots.outputs.images.len(), 1);
    let output = &slots.outputs.images[0];
    assert_eq!(output.key, swapchain);
    assert_eq!(output.consumed, None);
    assert_eq!(output.access.stage_mask, vk::PIPELINE_STAGE_2_COLOR_ATTACHMENT_OUTPUT);
    assert_eq!(output.access.access_mask, vk::ACCESS_2_COLOR_ATTACHMENT_WRITE);
    assert_eq!(output.access.layout, vk::IMAGE_LAYOUT_COLOR_ATTACHMENT_OPTIMAL);
    assert_eq!(output.usage, vk::IMAGE_USAGE_COLOR_ATTACHMENT);

    let mut bindings = ImageBindings::with_capacity(1);
    bindings.set(swapchain, reify::graph::runtime::ImageBinding::Swapchain);
    let bank = TransientResources::new();
    let frame = target(800, 600);
    let cx = RunContext::new(&bindings, &bank, &frame);
    let commands = node.execute(&cx).unwrap();
    assert_eq!(commands.render_area, Rect2D { x: 0, y: 0, extent: vk::Extent2D { width: 800, height: 600 } });
    assert_eq!((commands.layer_count, commands.view_mask), (1, 0));
    assert_eq!(commands.color_attachments.len(), 1);
    let attachment = &commands.color_attachments[0];
    assert_eq!(attachment.image_view, 0xdef);
    assert_eq!(attachment.image_layout, vk::IMAGE_LAYOUT_COLOR_ATTACHMENT_OPTIMAL);
    assert_eq!(attachment.load_op, ash::vk::AttachmentLoadOp::CLEAR.as_raw());
    assert_eq!(attachment.store_op, ash::vk::AttachmentStoreOp::STORE.as_raw());
    assert_eq!(attachment.clear_value, ClearColor::Float(0, 0, 0, 0x3f80_0000));
    assert_eq!(commands.depth_attachment, None);
    assert!(commands.pipelines.is_empty());
}

#[test]
fn triangle_pass_covers_the_attachment() {
    let mut editor = GraphEditor::new();
    let swapchain = editor.add_image("swapchain".to_string(), info(640, 480));
    let (_, node) = RenderPassBuilder::new("triangle".to_string(), pass(&["out_color"]))
        .set_color_attachment("out_color".to_string(), swapchain, None)
        .unwrap()
        .add_graphics_pipeline(0x51)
        .add_graphics_pipeline(0x52)
        .build(&mut editor)
        .unwrap();
    let mut bindings = ImageBindings::with_capacity(1);
    bindings.set(swapchain, reify::graph::runtime::ImageBinding::Swapchain);
    let bank = TransientResources::new();
    let frame = target(640, 480);
    let cx = RunContext::new(&bindings, &bank, &frame);
    let commands = node.execute(&cx).unwrap();
    let area = Rect2D { x: 0, y: 0, extent: vk::Extent2D { width: 640, height: 480 } };
    let viewport = Viewport { x: 0, y: 0, width: 640, height: 480, min_depth: 0, max_depth: 1 };
    assert_eq!(
        commands.pipelines,
        vec![
            PipelineCommands { pipeline: 0x51, viewport, scissor: area },
            PipelineCommands { pipeline: 0x52, viewport, scissor: area },
        ]
    );
}

#[test]
fn depth_pass_has_two_outputs() {
    let mut editor = GraphEditor::new();
    let color_image = editor.add_image("color".to_string(), info(64, 64));
    let depth_image = editor.add_image(
        "depth".to_string(),
        GraphImageInfo { format: vk::FORMAT_D32_SFLOAT, extent: vk::Extent2D { width: 64, height: 64 } },
    );
    let depth = DepthStencilAttachmentInfo {
        label: "depth".to_string(),
        format: Some(vk::FORMAT_D32_SFLOAT),
        load_op: LoadOp::Clear(ClearDepthStencilValue { depth: 1f32.to_bits(), stencil: 0 }),
        store_op: StoreOp::DontCare,
    };
    let render_pass = RenderPass { color_attachments: vec![color("c")], depth_attachment: Some(depth) };
    let builder = RenderPassBuilder::new("depth".to_string(), render_pass)
        .set_color_attachment("c".to_string(), color_image, None)
        .unwrap()
        .set_depth_stencil_attachment(depth_image, None);
    let (key, node) = builder.build(&mut editor).unwrap();
    let outputs = &editor.node(key).unwrap().outputs.images;
    assert_eq!(outputs.len(), 2);
    assert_eq!(outputs[1].key, depth_image);
    assert_eq!(
        outputs[1].access.stage_mask,
        vk::PIPELINE_STAGE_2_EARLY_FRAGMENT_TESTS | vk::PIPELINE_STAGE_2_LATE_FRAGMENT_TESTS
    );
    assert_eq!(
        outputs[1].access.access_mask,
        vk::ACCESS_2_DEPTH_STENCIL_ATTACHMENT_READ | vk::ACCESS_2_DEPTH_STENCIL_ATTACHMENT_WRITE
    );
    assert_eq!(outputs[1].access.layout, vk::IMAGE_LAYOUT_DEPTH_STENCIL_ATTACHMENT_OPTIMAL);
    assert_eq!(outputs[1].usage, vk::IMAGE_USAGE_DEPTH_STENCIL_ATTACHMENT);

    // Both images are transient here.
    let bindings = ImageBindings::with_capacity(2);
    let mut bank = TransientResources::new();
    let frame = target(1, 1);
    assert!(node.execute(&RunContext::new(&bindings, &bank, &frame)).is_none());
    let mut color_target = target(64, 64);
    color_target.handle = 1;
    color_target.default_view = 2;
    let mut depth_target = target(64, 64);
    depth_target.info.format = vk::FORMAT_D32_SFLOAT;
    depth_target.handle = 3;
    depth_target.default_view = 4;
    bank.install(color_image, color_target);
    assert!(node.execute(&RunContext::new(&bindings, &bank, &frame)).is_none());
    bank.install(depth_image, depth_target);
    let commands = node.execute(&RunContext::new(&bindings, &bank, &frame)).unwrap();
    assert_eq!(commands.render_area.extent, vk::Extent2D { width: 64, height: 64 });
    assert_eq!(commands.color_attachments[0].image_view, 2);
    let depth_attachment = commands.depth_attachment.unwrap();
    assert_eq!(depth_attachment.image_view, 4);
    assert_eq!(depth_attachment.image_layout, vk::IMAGE_LAYOUT_DEPTH_ATTACHMENT_OPTIMAL);
    assert_eq!(depth_attachment.clear_value, ClearDepthStencilValue { depth: 0x3f80_0000, stencil: 0 });
    assert_eq!(depth_attachment.store_op, 1);
}

#[test]
fn pass_slots_are_checked() {
    let mut editor = GraphEditor::new();
    let a = editor.add_image("a".to_string(), info(1, 1));
    let b = editor.add_image("b".to_string(), info(1, 1));
    let builder = RenderPassBuilder::new("p".to_string(), pass(&["x", "y"]));
    let missing = builder.set_color_attachment("z".to_string(), a, None);
    assert_eq!(missing.err(), Some(RenderPassError::NoSuchSlot));
    let builder = RenderPassBuilder::new("p".to_string(), pass(&["x", "y"]))
        .set_color_attachment("y".to_string(), b, None)
        .unwrap();
    let twice = builder.set_color_attachment("y".to_string(), a, None);
    assert_eq!(twice.err(), Some(RenderPassError::SlotAlreadySet));
    // A pass with an attachment without images is not built.
    let builder = RenderPassBuilder::new("p".to_string(), pass(&["x", "y"]))
        .set_color_attachment("y".to_string(), b, None)
        .unwrap();
    assert_eq!(builder.build(&mut editor).err(), Some(RenderPassError::MissingAttachment));
    assert_eq!(editor.num_nodes(), 0);
    // The outputs follow the order of the pass, not the order of the calls.
    let builder = RenderPassBuilder::new("p".to_string(), pass(&["x", "y"]))
        .set_color_attachment("y".to_string(), b, None)
        .unwrap()
        .set_color_attachment("x".to_string(), a, Some(b))
        .unwrap();
    let (key, _) = builder.build(&mut editor).unwrap();
    let outputs = &editor.node(key).unwrap().outputs.images;
    assert_eq!((outputs[0].key, outputs[0].consumed), (a, Some(b)));
    assert_eq!((outputs[1].key, outputs[1].consumed), (b, None));
    // What the graph refuses comes through.
    let again = RenderPassBuilder::new("q".to_string(), pass(&["x"]))
        .set_color_attachment("x".to_string(), a, None)
        .unwrap()
        .build(&mut editor);
    assert_eq!(again.err(), Some(RenderPassError::Graph(GraphError::DuplicateProducer(a))));
    // A pass without color attachments records nothing.
    let (_, empty) = RenderPassBuilder::new("e".to_string(), pass(&[])).build(&mut editor).unwrap();
    let bindings = ImageBindings::with_capacity(0);
    let bank = TransientResources::new();
    let frame = target(1, 1);
    assert!(empty.execute(&RunContext::new(&bindings, &bank, &frame)).is_none());
}

#[test]
fn blit_node_slots_and_command() {
    let src = GraphImage::from_index(0);
    let dst = GraphImage::from_index(1);
    let input = input_image(src);
    assert_eq!(input.key, src);
    assert_eq!(input.access.stage_mask, vk::PIPELINE_STAGE_2_BLIT);
    assert_eq!(input.access.access_mask, vk::ACCESS_2_TRANSFER_READ);
    assert_eq!(input.access.layout, vk::IMAGE_LAYOUT_TRANSFER_SRC_OPTIMAL);
    assert_eq!(input.usage, vk::IMAGE_USAGE_TRANSFER_SRC);
    let output = output_image(dst, Some(src));
    assert_eq!((output.key, output.consumed), (dst, Some(src)));
    assert_eq!(output.access.stage_mask, vk::PIPELINE_STAGE_2_BLIT);
    assert_eq!(output.access.access_mask, vk::ACCESS_2_TRANSFER_WRITE);
    assert_eq!(output.access.layout, vk::IMAGE_LAYOUT_TRANSFER_DST_OPTIMAL);
    assert_eq!(output.usage, vk::IMAGE_USAGE_TRANSFER_DST);

    let node = BlitNode::new(src, dst, None);
    assert_eq!(node.inputs().images.len(), 1);
    assert_eq!(node.outputs().images.len(), 1);
    assert_eq!(node.outputs().images[0].consumed, None);
    let slots = GraphNode::copy_of(&node);
    assert_eq!(slots.inputs.images[0].key, src);
    assert_eq!(slots.outputs.images[0].key, dst);
    let from = target(800, 600);
    let to = target(1920, 1080);
    let command = node.execute(1, &from.info, 2, &to.info);
    assert_eq!((command.src_image, command.dst_image), (1, 2));
    assert_eq!(command.src_image_layout, vk::IMAGE_LAYOUT_TRANSFER_SRC_OPTIMAL);
    assert_eq!(command.dst_image_layout, vk::IMAGE_LAYOUT_TRANSFER_DST_OPTIMAL);
    assert_eq!(command.aspect_mask, vk::IMAGE_ASPECT_COLOR);
    assert_eq!((command.mip_level, command.base_array_layer, command.layer_count), (0, 0, 1));
    assert_eq!(command.src_start, Offset3D { x: 0, y: 0, z: 0 });
    assert_eq!(command.src_end, Offset3D { x: 800, y: 600, z: 1 });
    assert_eq!(command.dst_start, Offset3D { x: 0, y: 0, z: 0 });
    assert_eq!(command.dst_end, Offset3D { x: 1920, y: 1080, z: 1 });
}

#[test]
fn node_context_counts_debug_spans() {
    let bindings = ImageBindings::with_capacity(0);
    let mut bank = TransientResources::new();
    let image = GraphImage::from_index(0);
    bank.install(image, target(8, 4));
    let frame = target(1, 1);
    let mut cx = NodeContext::new(RunContext::new(&bindings, &bank, &frame));
    assert_eq!(cx.image(image), Some(0xabc));
    assert_eq!(cx.default_image_view(image), Some(0xdef));
    assert_eq!(cx.image_info(image).map(|i| i.extent), Some(ImageExtent::from_size(8, 4)));
    assert_eq!(cx.image(GraphImage::from_index(1)), None);
    assert!(!cx.exit_debug_span());
    assert!(cx.enter_debug_span());
    assert!(cx.enter_debug_span());
    assert!(cx.enter_debug_span());
    assert!(cx.exit_debug_span());
    assert_eq!(cx.exit_all_debug_spans(), 2);
    assert_eq!(cx.exit_all_debug_spans(), 0);
    assert!(!cx.exit_debug_span());
}

#[test]
fn editor_adds_a_blit() {
    let mut editor = GraphEditor::new();
    let info = GraphImageInfo { format: vk::FORMAT_B8G8R8A8_SRGB, extent: vk::Extent2D { width: 4, height: 4 } };
    let offscreen = editor.add_image("offscreen".to_string(), info);
    let swapchain = editor.add_image("swapchain".to_string(), info);
    let (key, blit) = editor.add_blit("blit".to_string(), offscreen, swapchain, None).unwrap();
    assert_eq!(key.index(), 0);
    assert_eq!(blit.inputs().images[0].key, offscreen);
    assert_eq!(blit.outputs().images[0].key, swapchain);
    assert_eq!(editor.node_label(key).map(String::as_str), Some("blit"));
    let slots = editor.node(key).unwrap();
    assert_eq!(slots.inputs.images[0].usage, vk::IMAGE_USAGE_TRANSFER_SRC);
    assert_eq!(slots.outputs.images[0].usage, vk::IMAGE_USAGE_TRANSFER_DST);
    // The swapchain image has its producer.
    assert_eq!(
        editor.add_blit("again".to_string(), offscreen, swapchain, None).err(),
        Some(GraphError::DuplicateProducer(swapchain))
    );
    assert_eq!(editor.num_nodes(), 1);
    let stranger = GraphImage::from_index(9);
    assert_eq!(
        editor.add_blit("far".to_string(), stranger, swapchain, None).err(),
        Some(GraphError::UnknownImage(stranger))
    );
}
