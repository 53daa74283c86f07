use reify::graph::builder::{GraphEditor, GraphError};
use reify::graph::runtime::{Command, ImageBarrier, ImageBinding, Runtime};
use reify::graph::{
    BufferAccess, Graph, GraphBuffer, GraphImage, GraphImageInfo, GraphKey, GraphNode, ImageAccess,
    ImageOpAccess, InputBuffer, InputImage, NodeDependency, OutputBuffer, OutputImage,
    OwnedNodeInputs, OwnedNodeOutputs,
};
use reify::ops::blit::BlitNode;
use reify::resource::image::{Image, ImageExtent, ImageInfo, ImageTiling};
use reify::resource::transient::TransientAction;
use reify::vk;

fn info(width: u32, height: u32) -> GraphImageInfo {
    GraphImageInfo { format: vk::FORMAT_B8G8R8A8_SRGB, extent: vk::Extent2D { width, height } }
}

fn color_access() -> ImageAccess {
    ImageAccess {
        stage_mask: vk::PIPELINE_STAGE_2_COLOR_ATTACHMENT_OUTPUT,
        access_mask: vk::ACCESS_2_COLOR_ATTACHMENT_WRITE,
        layout: vk::IMAGE_LAYOUT_COLOR_ATTACHMENT_OPTIMAL,
    }
}

fn color_output(key: GraphImage, consumed: Option<GraphImage>) -> OutputImage {
    OutputImage { key, consumed, access: color_access(), usage: vk::IMAGE_USAGE_COLOR_ATTACHMENT }
}

fn sampled_input(key: GraphImage, layout: i32) -> InputImage {
    InputImage {
        key,
        access: ImageAccess { stage_mask: 0x80, access_mask: 0x20, layout },
        usage: vk::IMAGE_USAGE_SAMPLED,
    }
}

fn node(inputs: Vec<InputImage>, outputs: Vec<OutputImage>) -> GraphNode {
    GraphNode { inputs: OwnedNodeInputs { images: inputs }, outputs: OwnedNodeOutputs { images: outputs } }
}

fn swapchain_target() -> Image {
    Image {
        info: ImageInfo {
            format: vk::FORMAT_B8G8R8A8_SRGB,
            extent: ImageExtent::from_size(800, 600),
            tiling: ImageTiling::Optimal,
            usage: vk::IMAGE_USAGE_COLOR_ATTACHMENT,
        },
        handle: 0xabc,
        default_view: 0xdef,
    }
}

fn order_of(graph: &Graph) -> Vec<usize> {
    graph.graph_order().iter().map(|k| graph.node_key(*k).index()).collect()
}

/// One image, one node that produces it.
fn clear_screen() -> (Graph, GraphImage, GraphKey) {
    let mut editor = GraphEditor::new();
    let swapchain = editor.add_image("swapchain".to_string(), info(800, 600));
    let pass = editor.add_node("clear".to_string(), node(vec![], vec![color_output(swapchain, None)])).unwrap();
    (editor.build(swapchain).unwrap(), swapchain, pass)
}

#[test]
fn clear_screen_records_one_initial_barrier_and_one_span() {
    let (graph, swapchain, pass) = clear_screen();
    assert_eq!(graph.swapchain_image(), swapchain);
    assert_eq!(graph.num_images(), 1);
    assert_eq!(order_of(&graph), vec![pass.index()]);
    let mut runtime = Runtime::new(graph);
    assert!(runtime.resolve_resources().is_empty());
    let commands = runtime.execute(&swapchain_target()).unwrap();
    assert_eq!(commands.len(), 4);
    assert_eq!(
        commands[0],
        Command::PipelineBarrier(vec![ImageBarrier {
            image: 0xabc,
            src_stage_mask: vk::PIPELINE_STAGE_2_COLOR_ATTACHMENT_OUTPUT,
            src_access_mask: vk::ACCESS_2_COLOR_ATTACHMENT_WRITE,
            dst_stage_mask: vk::PIPELINE_STAGE_2_COLOR_ATTACHMENT_OUTPUT,
            dst_access_mask: vk::ACCESS_2_COLOR_ATTACHMENT_WRITE,
            old_layout: vk::IMAGE_LAYOUT_UNDEFINED,
            new_layout: vk::IMAGE_LAYOUT_COLOR_ATTACHMENT_OPTIMAL,
            src_queue_family_index: vk::QUEUE_FAMILY_IGNORED,
            dst_queue_family_index: vk::QUEUE_FAMILY_IGNORED,
            subresource_range: reify::misc::image_subresource_range_full_color(),
        }])
    );
    assert_eq!(commands[1], Command::BeginDebugLabel(pass));
    assert_eq!(commands[2], Command::ExecuteNode(pass));
    assert_eq!(commands[3], Command::EndDebugLabel);
    let begins = commands.iter().filter(|c| matches!(c, Command::BeginDebugLabel(_))).count();
    let ends = commands.iter().filter(|c| matches!(c, Command::EndDebugLabel)).count();
    assert_eq!((begins, ends), (1, 1));
    assert_eq!(runtime.swapchain_image_layout(), vk::IMAGE_LAYOUT_COLOR_ATTACHMENT_OPTIMAL);
}

/// A pass renders to "offscreen", a blit copies "offscreen" to "swapchain".
fn blit_graph() -> (Graph, GraphImage, GraphImage, GraphKey, GraphKey) {
    let mut editor = GraphEditor::new();
    let offscreen = editor.add_image("offscreen".to_string(), info(800, 600));
    let swapchain = editor.add_image("swapchain".to_string(), info(800, 600));
    let pass = editor.add_node("pass".to_string(), node(vec![], vec![color_output(offscreen, None)])).unwrap();
    let blit = editor.add_node("blit".to_string(), BlitNode::new(offscreen, swapchain, None)).unwrap();
    (editor.build(swapchain).unwrap(), offscreen, swapchain, pass, blit)
}

#[test]
fn blit_graph_has_one_read_after_write_edge() {
    let (graph, offscreen, _swapchain, pass, blit) = blit_graph();
    assert_eq!(graph.num_live_nodes(), 2);
    assert_eq!(order_of(&graph), vec![pass.index(), blit.index()]);
    let order = graph.graph_order().clone();
    // The pass waits for nothing; the blit waits for the pass.
    assert!(graph.node_dependencies(order[0]).is_empty());
    let deps = graph.node_dependencies(order[1]);
    assert_eq!(deps.len(), 1);
    assert!(deps[0].buffers.is_empty());
    assert!(!deps[0].is_backedge);
    assert_eq!(deps[0].images.len(), 1);
    let barrier = &deps[0].images[0];
    assert_eq!(barrier.image, offscreen);
    assert_eq!(barrier.src_stage_mask, vk::PIPELINE_STAGE_2_COLOR_ATTACHMENT_OUTPUT);
    assert_eq!(barrier.dst_stage_mask, vk::PIPELINE_STAGE_2_BLIT);
    assert_eq!(barrier.src_access_mask, vk::ACCESS_2_COLOR_ATTACHMENT_WRITE);
    assert_eq!(barrier.dst_access_mask, vk::ACCESS_2_TRANSFER_READ);
    assert_eq!(barrier.old_layout, vk::IMAGE_LAYOUT_COLOR_ATTACHMENT_OPTIMAL);
    assert_eq!(barrier.new_layout, vk::IMAGE_LAYOUT_TRANSFER_SRC_OPTIMAL);
}

#[test]
fn blit_graph_usage_is_the_union_of_the_slots() {
    let (graph, offscreen, swapchain, _, _) = blit_graph();
    assert_eq!(
        graph.image_usage(offscreen),
        Some(vk::IMAGE_USAGE_COLOR_ATTACHMENT | vk::IMAGE_USAGE_TRANSFER_SRC)
    );
    assert_eq!(graph.image_usage(swapchain), Some(vk::IMAGE_USAGE_TRANSFER_DST));
    assert_eq!(graph.image_usage(GraphImage::from_index(2)), None);
    assert_eq!(graph.image_label(offscreen).map(|s| s.as_str()), Some("offscreen"));
    assert_eq!(graph.image_info(swapchain).map(|i| i.extent.width), Some(800));
}

#[test]
fn blit_graph_runs_with_a_transient_image() {
    let (graph, offscreen, swapchain, pass, blit) = blit_graph();
    let mut runtime = Runtime::new(graph);
    assert_eq!(runtime.transient_idx(), 0);
    // Nothing is recorded before the transient image is there.
    assert!(!runtime.is_resolved());
    assert_eq!(runtime.execute(&swapchain_target()), None);
    assert_eq!(runtime.transient_idx(), 0);
    let needed = runtime.resolve_resources();
    assert_eq!(needed.len(), 1);
    assert_eq!(needed[0].image, offscreen);
    assert_eq!(needed[0].action, TransientAction::Create);
    let wanted = ImageInfo {
        format: vk::FORMAT_B8G8R8A8_SRGB,
        extent: ImageExtent::from_size(800, 600),
        tiling: ImageTiling::Optimal,
        usage: vk::IMAGE_USAGE_COLOR_ATTACHMENT | vk::IMAGE_USAGE_TRANSFER_SRC,
    };
    assert_eq!(needed[0].info, wanted);
    // An image with another descriptor does not do.
    let wrong = Image { info: ImageInfo { usage: 0, ..wanted }, handle: 1, default_view: 2 };
    assert_eq!(runtime.install_transient(offscreen, wrong), None);
    assert!(!runtime.is_resolved());
    assert_eq!(runtime.resolve_resources()[0].action, TransientAction::Recreate);
    let image = Image { info: wanted, handle: 0x111, default_view: 0x222 };
    assert_eq!(runtime.install_transient(offscreen, image), Some(wrong));
    assert_eq!(runtime.resolve_resources()[0].action, TransientAction::Keep);
    assert!(runtime.is_resolved());

    let commands = runtime.execute(&swapchain_target()).unwrap();
    assert_eq!(commands.len(), 8);
    // The pass: the transient image leaves the undefined layout.
    match &commands[0] {
        Command::PipelineBarrier(barriers) => {
            assert_eq!(barriers.len(), 1);
            assert_eq!(barriers[0].image, 0x111);
            assert_eq!(barriers[0].old_layout, vk::IMAGE_LAYOUT_UNDEFINED);
            assert_eq!(barriers[0].new_layout, vk::IMAGE_LAYOUT_COLOR_ATTACHMENT_OPTIMAL);
            assert_eq!(barriers[0].subresource_range.aspect_mask, vk::IMAGE_ASPECT_COLOR);
            assert_eq!(barriers[0].subresource_range.level_count, 1);
            assert_eq!(barriers[0].subresource_range.layer_count, 1);
        }
        other => panic!("unexpected command {:?}", other),
    }
    assert_eq!(commands[1], Command::BeginDebugLabel(pass));
    assert_eq!(commands[2], Command::ExecuteNode(pass));
    assert_eq!(commands[3], Command::EndDebugLabel);
    // The blit: the swapchain image leaves the undefined layout, and the
    // transient image goes from the pass to the blit.
    match &commands[4] {
        Command::PipelineBarrier(barriers) => {
            assert_eq!(barriers.len(), 2);
            assert_eq!(barriers[0].image, 0xabc);
            assert_eq!(barriers[0].old_layout, vk::IMAGE_LAYOUT_UNDEFINED);
            assert_eq!(barriers[0].new_layout, vk::IMAGE_LAYOUT_TRANSFER_DST_OPTIMAL);
            assert_eq!(barriers[0].src_stage_mask, vk::PIPELINE_STAGE_2_BLIT);
            assert_eq!(barriers[0].dst_stage_mask, vk::PIPELINE_STAGE_2_BLIT);
            assert_eq!(barriers[0].src_access_mask, vk::ACCESS_2_TRANSFER_WRITE);
            assert_eq!(barriers[0].dst_access_mask, vk::ACCESS_2_TRANSFER_WRITE);
            assert_eq!(
                barriers[1],
                ImageBarrier {
                    image: 0x111,
                    src_stage_mask: vk::PIPELINE_STAGE_2_COLOR_ATTACHMENT_OUTPUT,
                    src_access_mask: vk::ACCESS_2_COLOR_ATTACHMENT_WRITE,
                    dst_stage_mask: vk::PIPELINE_STAGE_2_BLIT,
                    dst_access_mask: vk::ACCESS_2_TRANSFER_READ,
                    old_layout: vk::IMAGE_LAYOUT_COLOR_ATTACHMENT_OPTIMAL,
                    new_layout: vk::IMAGE_LAYOUT_TRANSFER_SRC_OPTIMAL,
                    src_queue_family_index: vk::QUEUE_FAMILY_IGNORED,
                    dst_queue_family_index: vk::QUEUE_FAMILY_IGNORED,
                    subresource_range: reify::misc::image_subresource_range_full_color(),
                }
            );
        }
        other => panic!("unexpected command {:?}", other),
    }
    assert_eq!(commands[5], Command::BeginDebugLabel(blit));
    assert_eq!(commands[6], Command::ExecuteNode(blit));
    assert_eq!(commands[7], Command::EndDebugLabel);
    let _ = swapchain;

    // The next frame uses the other set of transient images.
    assert_eq!(runtime.transient_idx(), 1);
    assert!(!runtime.is_resolved());
    assert_eq!(runtime.resolve_resources()[0].action, TransientAction::Create);
    assert_eq!(runtime.install_transient(offscreen, image), None);
    assert!(runtime.execute(&swapchain_target()).is_some());
    assert_eq!(runtime.transient_idx(), 0);
    assert!(runtime.is_resolved());
}

#[test]
fn binding_an_image_to_the_swapchain_needs_no_transient_image() {
    let (graph, offscreen, _, _, _) = blit_graph();
    let mut runtime = Runtime::new(graph);
    runtime.bind_image(offscreen, ImageBinding::Swapchain);
    assert!(runtime.resolve_resources().is_empty());
    assert!(runtime.is_resolved());
    let commands = runtime.execute(&swapchain_target()).unwrap();
    match &commands[0] {
        Command::PipelineBarrier(barriers) => assert_eq!(barriers[0].image, 0xabc),
        other => panic!("unexpected command {:?}", other),
    }
    runtime.bind_image(offscreen, ImageBinding::Transient);
    assert!(!runtime.is_resolved());
}

#[test]
fn cycle_is_refused() {
    // A supersedes X and produces Y; B supersedes Y and produces X.
    let mut editor = GraphEditor::new();
    let x = editor.add_image("x".to_string(), info(1, 1));
    let y = editor.add_image("y".to_string(), info(1, 1));
    editor.add_node("a".to_string(), node(vec![], vec![color_output(y, Some(x))])).unwrap();
    editor.add_node("b".to_string(), node(vec![], vec![color_output(x, Some(y))])).unwrap();
    assert_eq!(editor.build(y).err(), Some(GraphError::Cycle));
}

#[test]
fn node_that_reads_what_it_writes_is_a_cycle() {
    let mut editor = GraphEditor::new();
    let x = editor.add_image("x".to_string(), info(1, 1));
    editor.add_node("a".to_string(), node(vec![sampled_input(x, 5)], vec![color_output(x, None)])).unwrap();
    assert_eq!(editor.build(x).err(), Some(GraphError::Cycle));
}

#[test]
fn second_producer_is_refused() {
    let mut editor = GraphEditor::new();
    let x = editor.add_image("x".to_string(), info(1, 1));
    let first = editor.add_node("a".to_string(), node(vec![], vec![color_output(x, None)]));
    assert_eq!(first.map(|k| k.index()), Ok(0));
    let second = editor.add_node("b".to_string(), node(vec![], vec![color_output(x, None)]));
    assert_eq!(second.err(), Some(GraphError::DuplicateProducer(x)));
    assert_eq!(editor.num_nodes(), 1);
    // Two outputs of one node count as well.
    let y = editor.add_image("y".to_string(), info(1, 1));
    let twice = editor.add_node("c".to_string(), node(vec![], vec![color_output(y, None), color_output(y, None)]));
    assert_eq!(twice.err(), Some(GraphError::DuplicateProducer(y)));
    assert_eq!(editor.num_nodes(), 1);
    // The refused node left no trace: y can still be produced.
    assert!(editor.add_node("d".to_string(), node(vec![], vec![color_output(y, None)])).is_ok());
}

#[test]
fn second_consumer_is_refused() {
    let mut editor = GraphEditor::new();
    let x = editor.add_image("x".to_string(), info(1, 1));
    let y = editor.add_image("y".to_string(), info(1, 1));
    let z = editor.add_image("z".to_string(), info(1, 1));
    editor.add_node("a".to_string(), node(vec![], vec![color_output(x, None)])).unwrap();
    editor.add_node("b".to_string(), node(vec![], vec![color_output(y, Some(x))])).unwrap();
    let second = editor.add_node("c".to_string(), node(vec![], vec![color_output(z, Some(x))]));
    assert_eq!(second.err(), Some(GraphError::DuplicateConsumer(x)));
    assert_eq!(editor.num_nodes(), 2);
}

#[test]
fn unknown_images_are_refused() {
    let mut editor = GraphEditor::new();
    let x = editor.add_image("x".to_string(), info(1, 1));
    let ghost = GraphImage::from_index(7);
    assert_eq!(
        editor.add_node("a".to_string(), node(vec![sampled_input(ghost, 5)], vec![])).err(),
        Some(GraphError::UnknownImage(ghost))
    );
    assert_eq!(
        editor.add_node("a".to_string(), node(vec![], vec![color_output(ghost, None)])).err(),
        Some(GraphError::UnknownImage(ghost))
    );
    assert_eq!(
        editor.add_node("a".to_string(), node(vec![], vec![color_output(x, Some(ghost))])).err(),
        Some(GraphError::UnknownImage(ghost))
    );
    assert_eq!(editor.num_nodes(), 0);
    editor.add_node("a".to_string(), node(vec![], vec![color_output(x, None)])).unwrap();
    assert_eq!(editor.build(ghost).err(), Some(GraphError::UnknownImage(ghost)));
}

#[test]
fn final_image_needs_a_producer() {
    let mut editor = GraphEditor::new();
    let x = editor.add_image("x".to_string(), info(1, 1));
    assert_eq!(editor.build(x).err(), Some(GraphError::NoProducer(x)));
}

#[test]
fn read_image_needs_a_producer() {
    let mut editor = GraphEditor::new();
    let x = editor.add_image("x".to_string(), info(1, 1));
    let y = editor.add_image("y".to_string(), info(1, 1));
    editor.add_node("a".to_string(), node(vec![sampled_input(x, 5)], vec![color_output(y, None)])).unwrap();
    assert_eq!(editor.build(y).err(), Some(GraphError::NoProducer(x)));
}

#[test]
fn readers_with_different_layouts_are_refused() {
    let mut editor = GraphEditor::new();
    let x = editor.add_image("x".to_string(), info(1, 1));
    let y = editor.add_image("y".to_string(), info(1, 1));
    let z = editor.add_image("z".to_string(), info(1, 1));
    editor.add_node("p".to_string(), node(vec![], vec![color_output(x, None)])).unwrap();
    editor.add_node("r1".to_string(), node(vec![sampled_input(x, 5)], vec![color_output(y, None)])).unwrap();
    editor.add_node("r2".to_string(), node(vec![sampled_input(x, 1)], vec![color_output(z, None)])).unwrap();
    assert_eq!(editor.build(y).err(), Some(GraphError::ReaderLayoutMismatch(x)));
}

#[test]
fn readers_with_the_same_layout_are_accepted() {
    let mut editor = GraphEditor::new();
    let x = editor.add_image("x".to_string(), info(1, 1));
    let y = editor.add_image("y".to_string(), info(1, 1));
    let z = editor.add_image("z".to_string(), info(1, 1));
    let p = editor.add_node("p".to_string(), node(vec![], vec![color_output(x, None)])).unwrap();
    let r1 = editor.add_node("r1".to_string(), node(vec![sampled_input(x, 5)], vec![color_output(y, None)])).unwrap();
    editor.add_node("r2".to_string(), node(vec![sampled_input(x, 5)], vec![color_output(z, None)])).unwrap();
    // Only what the final image needs runs.
    let graph = editor.build(y).unwrap();
    assert_eq!(order_of(&graph), vec![p.index(), r1.index()]);
    assert_eq!(graph.node_label(r1).map(|s| s.as_str()), Some("r1"));
}

#[test]
fn superseding_waits_for_every_reader() {
    // p produces x; r1 and r2 read x; w supersedes x with y and reads what
    // r1 and r2 made of it.
    let mut editor = GraphEditor::new();
    let x = editor.add_image("x".to_string(), info(1, 1));
    let a = editor.add_image("a".to_string(), info(1, 1));
    let b = editor.add_image("b".to_string(), info(1, 1));
    let y = editor.add_image("y".to_string(), info(1, 1));
    let p = editor.add_node("p".to_string(), node(vec![], vec![color_output(x, None)])).unwrap();
    let r1 = editor.add_node("r1".to_string(), node(vec![sampled_input(x, 5)], vec![color_output(a, None)])).unwrap();
    let r2 = editor.add_node("r2".to_string(), node(vec![sampled_input(x, 5)], vec![color_output(b, None)])).unwrap();
    let w = editor
        .add_node(
            "w".to_string(),
            node(vec![sampled_input(a, 5), sampled_input(b, 5)], vec![color_output(y, Some(x))]),
        )
        .unwrap();
    let graph = editor.build(y).unwrap();
    let order = order_of(&graph);
    assert_eq!(order.len(), 4);
    let place = |k: GraphKey| order.iter().position(|&n| n == k.index()).unwrap();
    assert!(place(p) < place(r1));
    assert!(place(p) < place(r2));
    assert!(place(r1) < place(w));
    assert!(place(r2) < place(w));
    // w comes first in the dependency graph; towards each reader it has one
    // edge with the read-after-write barrier of its input and the
    // write-after-read barrier of its output.
    let first = graph.graph_order()[3];
    assert_eq!(graph.node_key(first), w);
    let deps = graph.node_dependencies(first);
    assert_eq!(deps.len(), 2);
    for dep in deps {
        assert_eq!(dep.images.len(), 2);
        let raw = &dep.images[0];
        assert_eq!(raw.src_access_mask, vk::ACCESS_2_COLOR_ATTACHMENT_WRITE);
        assert_eq!(raw.dst_access_mask, 0x20);
        assert_eq!(raw.old_layout, vk::IMAGE_LAYOUT_COLOR_ATTACHMENT_OPTIMAL);
        assert_eq!(raw.new_layout, 5);
        let war = &dep.images[1];
        assert_eq!(war.image, y);
        assert_eq!(war.src_stage_mask, 0x80);
        assert_eq!(war.dst_stage_mask, vk::PIPELINE_STAGE_2_COLOR_ATTACHMENT_OUTPUT);
        assert_eq!(war.src_access_mask, 0);
        assert_eq!(war.dst_access_mask, 0);
        assert_eq!(war.old_layout, 5);
        assert_eq!(war.new_layout, vk::IMAGE_LAYOUT_COLOR_ATTACHMENT_OPTIMAL);
    }
}

#[test]
fn superseding_an_unread_image_waits_for_its_producer() {
    let mut editor = GraphEditor::new();
    let x = editor.add_image("x".to_string(), info(1, 1));
    let y = editor.add_image("y".to_string(), info(1, 1));
    let p = editor.add_node("p".to_string(), node(vec![], vec![color_output(x, None)])).unwrap();
    let w = editor.add_node("w".to_string(), BlitNode::new(x, y, Some(x)));
    // The blit reads x, so x has a reader: write after read, towards itself.
    assert!(w.is_ok());
    assert_eq!(editor.build(y).err(), Some(GraphError::Cycle));

    let mut editor = GraphEditor::new();
    let x = editor.add_image("x".to_string(), info(1, 1));
    let y = editor.add_image("y".to_string(), info(1, 1));
    let producer = editor.add_node("p".to_string(), node(vec![], vec![color_output(x, None)])).unwrap();
    let w = editor
        .add_node(
            "w".to_string(),
            node(
                vec![],
                vec![OutputImage {
                    key: y,
                    consumed: Some(x),
                    access: ImageAccess { stage_mask: 0x1000, access_mask: 0x1000, layout: 7 },
                    usage: vk::IMAGE_USAGE_TRANSFER_DST,
                }],
            ),
        )
        .unwrap();
    let graph = editor.build(y).unwrap();
    assert_eq!(order_of(&graph), vec![producer.index(), w.index()]);
    let deps = graph.node_dependencies(graph.graph_order()[1]);
    assert_eq!(deps.len(), 1);
    assert_eq!(deps[0].images.len(), 1);
    let waw = &deps[0].images[0];
    assert_eq!(waw.image, y);
    assert_eq!(waw.src_stage_mask, vk::PIPELINE_STAGE_2_COLOR_ATTACHMENT_OUTPUT);
    assert_eq!(waw.dst_stage_mask, 0x1000);
    assert_eq!(waw.src_access_mask, vk::ACCESS_2_COLOR_ATTACHMENT_WRITE);
    assert_eq!(waw.dst_access_mask, 0x1000);
    assert_eq!(waw.old_layout, vk::IMAGE_LAYOUT_COLOR_ATTACHMENT_OPTIMAL);
    assert_eq!(waw.new_layout, 7);
    let _ = p;
    // An output that supersedes an image gets no initial barrier.
    let mut runtime = Runtime::new(graph);
    runtime.bind_image(x, ImageBinding::Swapchain);
    let commands = runtime.execute(&swapchain_target()).unwrap();
    match &commands[4] {
        Command::PipelineBarrier(barriers) => {
            assert_eq!(barriers.len(), 1);
            assert_eq!(barriers[0].old_layout, vk::IMAGE_LAYOUT_COLOR_ATTACHMENT_OPTIMAL);
        }
        other => panic!("unexpected command {:?}", other),
    }
}

#[test]
fn accesses_between_two_nodes_share_one_edge() {
    let mut editor = GraphEditor::new();
    let a = editor.add_image("a".to_string(), info(1, 1));
    let b = editor.add_image("b".to_string(), info(1, 1));
    let c = editor.add_image("c".to_string(), info(1, 1));
    editor
        .add_node("p".to_string(), node(vec![], vec![color_output(a, None), color_output(b, None)]))
        .unwrap();
    editor
        .add_node(
            "r".to_string(),
            node(vec![sampled_input(a, 5), sampled_input(b, 5)], vec![color_output(c, None)]),
        )
        .unwrap();
    let graph = editor.build(c).unwrap();
    let deps = graph.node_dependencies(graph.graph_order()[1]);
    assert_eq!(deps.len(), 1);
    assert_eq!(deps[0].images.len(), 2);
    assert_eq!(deps[0].images[0].image, a);
    assert_eq!(deps[0].images[1].image, b);
}

#[test]
fn buffers_are_registered() {
    let mut editor = GraphEditor::new();
    let first = editor.add_buffer("vertices".to_string(), reify::graph::GraphBufferInfo { size: 64 });
    let second = editor.add_buffer("indices".to_string(), reify::graph::GraphBufferInfo { size: 32 });
    assert_eq!(first.index(), 0);
    assert_eq!(second.index(), 1);
    assert_eq!(editor.num_buffers(), 2);
}

#[test]
fn compiled_graph_is_shared_by_its_clones() {
    let (graph, swapchain, pass) = clear_screen();
    let other = graph.clone();
    assert_eq!(other.swapchain_image(), swapchain);
    assert_eq!(order_of(&other), vec![pass.index()]);
    assert_eq!(other.final_producer().node_key, pass);
}

#[test]
fn access_history_gives_the_layouts() {
    let (graph, offscreen, swapchain, pass, blit) = blit_graph();
    let read = graph.image_access(offscreen).unwrap();
    assert_eq!(read.produced_by.unwrap().node_key, pass);
    assert_eq!(read.readers.len(), 1);
    assert_eq!(read.readers[0].node_key, blit);
    assert_eq!(read.produced_layout(), vk::IMAGE_LAYOUT_COLOR_ATTACHMENT_OPTIMAL);
    assert_eq!(read.read_layout(), vk::IMAGE_LAYOUT_TRANSFER_SRC_OPTIMAL);
    assert_eq!(read.consumed_layout(), None);
    let written = graph.image_access(swapchain).unwrap();
    assert_eq!(written.produced_by.unwrap().node_key, blit);
    assert!(written.readers.is_empty());
    // Nobody reads it: it stays as it was produced.
    assert_eq!(written.read_layout(), vk::IMAGE_LAYOUT_TRANSFER_DST_OPTIMAL);
    assert!(graph.image_access(GraphImage::from_index(2)).is_none());

    let mut editor = GraphEditor::new();
    let x = editor.add_image("x".to_string(), info(1, 1));
    let y = editor.add_image("y".to_string(), info(1, 1));
    editor.add_node("p".to_string(), node(vec![], vec![color_output(x, None)])).unwrap();
    editor.add_node("w".to_string(), BlitNode::new(x, y, Some(x))).unwrap();
    let history = editor.image_resources().access(x).unwrap();
    assert_eq!(history.consumed_layout(), Some(vk::IMAGE_LAYOUT_TRANSFER_DST_OPTIMAL));
}

#[test]
fn node_dependency_collects_barriers() {
    let image = GraphImage::from_index(3);
    let buffer = GraphBuffer::from_index(5);
    let first = ImageAccess { stage_mask: 0x400, access_mask: 0x100, layout: 2 };
    let op = ImageOpAccess { node_key: GraphKey::from_index(0), access: first };
    let mut dep = NodeDependency::default();
    assert!(!dep.is_backedge);

    dep.add_image_read_after_write(&sampled_input(image, 5), &op);
    let raw = dep.images[0];
    assert_eq!(raw.image, image);
    assert_eq!((raw.src_stage_mask, raw.dst_stage_mask), (0x400, 0x80));
    assert_eq!((raw.src_access_mask, raw.dst_access_mask), (0x100, 0x20));
    assert_eq!((raw.old_layout, raw.new_layout), (2, 5));

    dep.add_image_write_after_read(&color_output(image, None), &op);
    let war = dep.images[1];
    assert_eq!((war.src_stage_mask, war.dst_stage_mask), (0x400, vk::PIPELINE_STAGE_2_COLOR_ATTACHMENT_OUTPUT));
    assert_eq!((war.src_access_mask, war.dst_access_mask), (0, 0));
    assert_eq!((war.old_layout, war.new_layout), (2, vk::IMAGE_LAYOUT_COLOR_ATTACHMENT_OPTIMAL));

    dep.add_image_write_after_write(&color_output(image, None), &op);
    let waw = dep.images[2];
    assert_eq!((waw.src_stage_mask, waw.dst_stage_mask), (0x400, vk::PIPELINE_STAGE_2_COLOR_ATTACHMENT_OUTPUT));
    assert_eq!((waw.src_access_mask, waw.dst_access_mask), (0x100, vk::ACCESS_2_COLOR_ATTACHMENT_WRITE));
    assert_eq!((waw.old_layout, waw.new_layout), (2, vk::IMAGE_LAYOUT_COLOR_ATTACHMENT_OPTIMAL));
    assert_eq!(dep.images.len(), 3);

    let before = BufferAccess { stage_mask: 0x1000, access_mask: 0x800 };
    let after = BufferAccess { stage_mask: 0x8, access_mask: 0x2 };
    let input = InputBuffer { key: buffer, access: after, usage: 0x80 };
    let output = OutputBuffer { key: buffer, consumed: None, access: after, usage: 0x2 };
    dep.add_buffer_read_after_write(&input, &before);
    dep.add_buffer_write_after_read(&output, &before);
    dep.add_buffer_write_after_write(&output, &before);
    assert_eq!(dep.buffers.len(), 3);
    for barrier in &dep.buffers {
        assert_eq!(barrier.buffer, buffer);
        assert_eq!((barrier.src_stage_mask, barrier.dst_stage_mask), (0x1000, 0x8));
    }
    assert_eq!((dep.buffers[0].src_access_mask, dep.buffers[0].dst_access_mask), (0x800, 0x2));
    assert_eq!((dep.buffers[1].src_access_mask, dep.buffers[1].dst_access_mask), (0, 0));
    assert_eq!((dep.buffers[2].src_access_mask, dep.buffers[2].dst_access_mask), (0x800, 0x2));
    assert_eq!(dep.images.len(), 3);
}

#[test]
fn slots_are_lent_out_as_they_are() {
    let image = GraphImage::from_index(1);
    let slots = node(vec![sampled_input(image, 5)], vec![color_output(image, None), color_output(image, Some(image))]);
    let inputs = slots.inputs.as_node_inputs();
    assert_eq!(inputs.images.len(), 1);
    assert_eq!(inputs.images[0].key, image);
    assert_eq!(inputs.images[0].access.layout, 5);
    let outputs = slots.outputs.as_node_outputs();
    assert_eq!(outputs.images.len(), 2);
    assert_eq!(outputs.images[0].consumed, None);
    assert_eq!(outputs.images[1].consumed, Some(image));
}
