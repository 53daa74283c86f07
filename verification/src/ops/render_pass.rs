//! The render pass node: draws into color attachments and an optional
//! depth and stencil attachment with a list of graphics pipelines.

use crate::graph::builder::{first_complaint, verdicts, GraphEditor, GraphError};
use crate::graph::model::NodeModel;
use crate::graph::node::Node;
use crate::graph::runtime::RunContext;
use crate::graph::{
    GraphImage, GraphKey, GraphNode, ImageAccess, InputImage, NodeInputs, NodeOutputs, OutputImage,
    OwnedNodeInputs, OwnedNodeOutputs,
};
use crate::resource::image::ImageExtent;
use crate::vk::{
    Extent2D, Format, ImageLayout, ACCESS_2_COLOR_ATTACHMENT_WRITE,
    ACCESS_2_DEPTH_STENCIL_ATTACHMENT_READ, ACCESS_2_DEPTH_STENCIL_ATTACHMENT_WRITE,
    IMAGE_LAYOUT_COLOR_ATTACHMENT_OPTIMAL, IMAGE_LAYOUT_DEPTH_ATTACHMENT_OPTIMAL,
    IMAGE_LAYOUT_DEPTH_STENCIL_ATTACHMENT_OPTIMAL, IMAGE_USAGE_COLOR_ATTACHMENT,
    IMAGE_USAGE_DEPTH_STENCIL_ATTACHMENT, PIPELINE_STAGE_2_COLOR_ATTACHMENT_OUTPUT,
    PIPELINE_STAGE_2_EARLY_FRAGMENT_TESTS, PIPELINE_STAGE_2_LATE_FRAGMENT_TESTS,
};
use vstd::prelude::*;

verus! {

/// A value that an attachment can be cleared to.
pub trait ClearValue: Copy {
    /// The value that stands in where an attachment is not cleared.
    spec fn spec_unset() -> Self;

    fn unset() -> (value: Self)
        ensures
            value == Self::spec_unset(),
    ;
}

/// The color that a color attachment is cleared to. A floating-point
/// component is held as its bits.
#[derive(Copy, Clone, Debug, PartialEq, Eq, Structural)]
pub enum ClearColor {
    Float(u32, u32, u32, u32),
    SInt(i32, i32, i32, i32),
    UInt(u32, u32, u32, u32),
}

impl ClearValue for ClearColor {
    open spec fn spec_unset() -> ClearColor {
        ClearColor::Float(0, 0, 0, 0)
    }

    fn unset() -> (value: ClearColor) {
        ClearColor::Float(0, 0, 0, 0)
    }
}

/// The depth and stencil values that an attachment is cleared to. The
/// depth is held as the bits of a floating-point number.
#[derive(Copy, Clone, Debug, PartialEq, Eq, Structural)]
pub struct ClearDepthStencilValue {
    pub depth: u32,
    pub stencil: u32,
}

impl ClearValue for ClearDepthStencilValue {
    open spec fn spec_unset() -> ClearDepthStencilValue {
        ClearDepthStencilValue { depth: 0, stencil: 0 }
    }

    fn unset() -> (value: ClearDepthStencilValue) {
        ClearDepthStencilValue { depth: 0, stencil: 0 }
    }
}

/// What happens to the contents of an attachment when rendering begins.
#[derive(Copy, Clone, Debug, PartialEq, Eq)]
pub enum LoadOp<T> {
    Load,
    Clear(T),
    DontCare,
}

impl<T: Copy> LoadOp<T> {
    /// The value that the attachment is cleared to, if it is cleared.
    pub fn clear_value(&self) -> (value: Option<T>)
        ensures
            value == match *self {
                LoadOp::Clear(value) => Some(value),
                _ => None,
            },
    {
        match self {
            LoadOp::Clear(value) => Some(*value),
            _ => None,
        }
    }

    /// The number of the operation in the GPU API.
    pub fn as_raw(&self) -> (raw: i32)
        ensures
            raw == match *self {
                LoadOp::Load => 0i32,
                LoadOp::Clear(_) => 1i32,
                LoadOp::DontCare => 2i32,
            },
    {
        match self {
            LoadOp::Load => 0,
            LoadOp::Clear(_) => 1,
            LoadOp::DontCare => 2,
        }
    }
}

/// What happens to the contents of an attachment when rendering ends.
#[derive(Copy, Clone, Debug, PartialEq, Eq, Structural)]
pub enum StoreOp {
    Store,
    DontCare,
}

impl StoreOp {
    /// The number of the operation in the GPU API.
    pub fn as_raw(&self) -> (raw: i32)
        ensures
            raw == match *self {
                StoreOp::Store => 0i32,
                StoreOp::DontCare => 1i32,
            },
    {
        match self {
            StoreOp::Store => 0,
            StoreOp::DontCare => 1,
        }
    }
}

/// An attachment as the GPU API takes it when rendering begins.
#[derive(Copy, Clone, Debug, PartialEq, Eq)]
pub struct RenderingAttachmentInfo<T> {
    pub image_view: u64,
    pub image_layout: ImageLayout,
    pub resolve_mode: u32,
    pub load_op: i32,
    pub store_op: i32,
    pub clear_value: T,
}

/// An output attachment that a render pass declares.
pub struct OutputAttachmentInfo<T> {
    /// The label of the output attachment.
    ///
    /// This label is used to uniquely identify the output attachment among all the node's outputs.
    pub label: String,
    /// The image format of the output attachment.
    ///
    /// If `None`, the format is inferred.
    pub format: Option<Format>,
    /// The load operation for the attachment.
    pub load_op: LoadOp<T>,
    /// The store operation for the attachment.
    pub store_op: StoreOp,
}

impl<T: ClearValue> OutputAttachmentInfo<T> {
    /// The attachment with the view `image_view` of its image, in the
    /// layout `image_layout`.
    pub open spec fn attached(&self, image_view: u64, image_layout: ImageLayout) -> RenderingAttachmentInfo<
        T,
    > {
        RenderingAttachmentInfo {
            image_view,
            image_layout,
            resolve_mode: 0,
            load_op: match self.load_op {
                LoadOp::Load => 0i32,
                LoadOp::Clear(_) => 1i32,
                LoadOp::DontCare => 2i32,
            },
            store_op: match self.store_op {
                StoreOp::Store => 0i32,
                StoreOp::DontCare => 1i32,
            },
            clear_value: match self.load_op {
                LoadOp::Clear(value) => value,
                _ => T::spec_unset(),
            },
        }
    }

    pub fn rendering_attachment_info(&self, image_view: u64, image_layout: ImageLayout) -> (info:
        RenderingAttachmentInfo<T>)
        ensures
            info == self.attached(image_view, image_layout),
    {
        let clear_color = match self.load_op.clear_value() {
            Some(value) => value,
            None => T::unset(),
        };
        RenderingAttachmentInfo {
            image_view,
            image_layout,
            resolve_mode: 0,
            load_op: self.load_op.as_raw(),
            store_op: self.store_op.as_raw(),
            clear_value: clear_color,
        }
    }
}

pub type ColorAttachmentInfo = OutputAttachmentInfo<ClearColor>;

pub type DepthStencilAttachmentInfo = OutputAttachmentInfo<ClearDepthStencilValue>;

/// What a render pass declares: its color attachments and its depth and
/// stencil attachment.
pub struct RenderPass {
    pub color_attachments: Vec<ColorAttachmentInfo>,
    pub depth_attachment: Option<DepthStencilAttachmentInfo>,
}

/// The graph images of one output attachment.
#[derive(Copy, Clone, Debug)]
pub struct RenderPassOutputSlot {
    pub consume: Option<GraphImage>,
    pub produce: GraphImage,
}

/// The graph images that are attached to the attachments of a pass: for
/// each color attachment, in the order of the pass, the images if they are
/// set.
pub struct RenderPassSlots {
    color_attachments: Vec<Option<RenderPassOutputSlot>>,
    depth_stencil_attachment: Option<RenderPassOutputSlot>,
}

/// Why a render pass was refused.
#[derive(Debug, Clone, Copy, PartialEq, Eq)]
pub enum RenderPassError {
    /// The pass declares no color attachment with this label.
    NoSuchSlot,
    /// The color attachment with this label has its images already.
    SlotAlreadySet,
    /// A color attachment of the pass has no images.
    MissingAttachment,
    /// The graph refused the node.
    Graph(GraphError),
}

/// How a render pass writes a color attachment.
pub open spec fn color_output(slot: RenderPassOutputSlot) -> OutputImage {
    OutputImage {
        key: slot.produce,
        consumed: slot.consume,
        access: ImageAccess {
            stage_mask: PIPELINE_STAGE_2_COLOR_ATTACHMENT_OUTPUT,
            access_mask: ACCESS_2_COLOR_ATTACHMENT_WRITE,
            layout: IMAGE_LAYOUT_COLOR_ATTACHMENT_OPTIMAL,
        },
        usage: IMAGE_USAGE_COLOR_ATTACHMENT,
    }
}

/// How a render pass writes its depth and stencil attachment.
pub open spec fn depth_stencil_output(slot: RenderPassOutputSlot) -> OutputImage {
    OutputImage {
        key: slot.produce,
        consumed: slot.consume,
        access: ImageAccess {
            stage_mask: PIPELINE_STAGE_2_EARLY_FRAGMENT_TESTS | PIPELINE_STAGE_2_LATE_FRAGMENT_TESTS,
            access_mask: ACCESS_2_DEPTH_STENCIL_ATTACHMENT_READ
                | ACCESS_2_DEPTH_STENCIL_ATTACHMENT_WRITE,
            layout: IMAGE_LAYOUT_DEPTH_STENCIL_ATTACHMENT_OPTIMAL,
        },
        usage: IMAGE_USAGE_DEPTH_STENCIL_ATTACHMENT,
    }
}

/// The outputs of a pass with these images: one for each color attachment,
/// in the order of the pass, then one for the depth and stencil attachment
/// if it has images.
pub open spec fn pass_outputs(
    colors: Seq<Option<RenderPassOutputSlot>>,
    depth_stencil: Option<RenderPassOutputSlot>,
) -> Seq<OutputImage> {
    let color_outputs = Seq::new(colors.len(), |i: int| color_output(colors[i]->0));
    match depth_stencil {
        Some(slot) => color_outputs.push(depth_stencil_output(slot)),
        None => color_outputs,
    }
}

/// The slots of a render pass node: it reads nothing and writes its
/// attachments.
pub open spec fn pass_slots(
    colors: Seq<Option<RenderPassOutputSlot>>,
    depth_stencil: Option<RenderPassOutputSlot>,
) -> NodeModel {
    NodeModel { inputs: Seq::empty(), outputs: pass_outputs(colors, depth_stencil) }
}

/// The place of the first attachment with the label `label`, if there is
/// one.
pub open spec fn labelled(attachments: Seq<ColorAttachmentInfo>, label: Seq<char>, place: int) -> bool {
    &&& 0 <= place < attachments.len()
    &&& attachments[place].label@ == label
    &&& forall|i: int| 0 <= i < place ==> attachments[i].label@ != label
}

/// Builder of render pass nodes.
pub struct RenderPassBuilder {
    label: String,
    pass: RenderPass,
    slots: RenderPassSlots,
    pipelines: Vec<u64>,
}

impl RenderPassBuilder {
    /// The color attachments that the pass declares.
    pub closed spec fn attachments(&self) -> Seq<ColorAttachmentInfo> {
        self.pass.color_attachments@
    }

    /// The depth and stencil attachment that the pass declares.
    pub closed spec fn depth_attachment(&self) -> Option<DepthStencilAttachmentInfo> {
        self.pass.depth_attachment
    }

    /// The images of the color attachments, as far as they are set.
    pub closed spec fn color_slots(&self) -> Seq<Option<RenderPassOutputSlot>> {
        self.slots.color_attachments@
    }

    /// The images of the depth and stencil attachment, if they are set.
    pub closed spec fn depth_stencil_slot(&self) -> Option<RenderPassOutputSlot> {
        self.slots.depth_stencil_attachment
    }

    /// The handles of the pipelines, in the order in which they run.
    pub closed spec fn pipelines(&self) -> Seq<u64> {
        self.pipelines@
    }

    /// The label of the node.
    pub closed spec fn label(&self) -> String {
        self.label
    }

    /// There is one slot for each color attachment.
    pub open spec fn wf(&self) -> bool {
        self.color_slots().len() == self.attachments().len()
    }

    /// A builder for a node that runs `pass`; no attachment has images yet.
    pub fn new(label: String, pass: RenderPass) -> (builder: RenderPassBuilder)
        ensures
            builder.wf(),
            builder.label() == label,
            builder.attachments() == pass.color_attachments@,
            builder.depth_attachment() == pass.depth_attachment,
            forall|i: int| 0 <= i < builder.color_slots().len() ==> builder.color_slots()[i] is None,
            builder.depth_stencil_slot() is None,
            builder.pipelines().len() == 0,
    {
        let mut color_attachments: Vec<Option<RenderPassOutputSlot>> = Vec::new();
        let mut i: usize = 0;
        while i < pass.color_attachments.len()
            invariant
                i <= pass.color_attachments@.len(),
                color_attachments@.len() == i,
                forall|j: int| 0 <= j < i ==> color_attachments@[j] is None,
            decreases pass.color_attachments@.len() - i,
        {
            color_attachments.push(None);
            i += 1;
        }
        RenderPassBuilder {
            label,
            pass,
            slots: RenderPassSlots { color_attachments, depth_stencil_attachment: None },
            pipelines: Vec::new(),
        }
    }

    /// The place of the first color attachment with the label `label`.
    fn find_slot(&self, label: &String) -> (found: Option<usize>)
        ensures
            found matches Some(place) ==> labelled(self.attachments(), label@, place as int),
            found is None ==> forall|i: int|
                0 <= i < self.attachments().len() ==> self.attachments()[i].label@ != label@,
    {
        let mut i: usize = 0;
        while i < self.pass.color_attachments.len()
            invariant
                i <= self.pass.color_attachments@.len(),
                forall|j: int| 0 <= j < i ==> self.pass.color_attachments@[j].label@ != label@,
            decreases self.pass.color_attachments@.len() - i,
        {
            if self.pass.color_attachments[i].label == *label {
                return Some(i);
            }
            i += 1;
        }
        None
    }

    /// Attaches images to the color attachment with the label `label`: it
    /// produces `image` and supersedes `consume`.
    pub fn set_color_attachment(self, label: String, image: GraphImage, consume: Option<GraphImage>) -> (result:
        Result<RenderPassBuilder, RenderPassError>)
        requires
            self.wf(),
        ensures
            result matches Err(e) ==> e == if forall|i: int|
                0 <= i < self.attachments().len() ==> self.attachments()[i].label@ != label@ {
                RenderPassError::NoSuchSlot
            } else {
                RenderPassError::SlotAlreadySet
            },
            result matches Ok(builder) ==> exists|place: int|
                {
                    &&& #[trigger] labelled(self.attachments(), label@, place)
                    &&& self.color_slots()[place] is None
                    &&& builder.color_slots() == self.color_slots().update(
                        place,
                        Some(RenderPassOutputSlot { consume, produce: image }),
                    )
                    &&& builder.wf()
                    &&& builder.attachments() == self.attachments()
                    &&& builder.depth_attachment() == self.depth_attachment()
                    &&& builder.depth_stencil_slot() == self.depth_stencil_slot()
                    &&& builder.pipelines() == self.pipelines()
                    &&& builder.label() == self.label()
                },
            result is Ok <==> exists|place: int|
                #[trigger] labelled(self.attachments(), label@, place) && self.color_slots()[place] is None,
    {
        let place = match self.find_slot(&label) {
            None => {
                proof {
                    assert forall|place: int| !#[trigger] labelled(self.attachments(), label@, place) by {}
                }
                return Err(RenderPassError::NoSuchSlot);
            },
            Some(place) => place,
        };
        proof {
            assert forall|other: int| #[trigger] labelled(self.attachments(), label@, other) implies other
                == place by {}
        }
        if self.slots.color_attachments[place].is_some() {
            return Err(RenderPassError::SlotAlreadySet);
        }
        let mut builder = self;
        builder.slots.color_attachments[place] = Some(RenderPassOutputSlot { consume, produce: image });
        Ok(builder)
    }

    /// Attaches images to the depth and stencil attachment.
    pub fn set_depth_stencil_attachment(self, image: GraphImage, consume: Option<GraphImage>) -> (builder:
        RenderPassBuilder)
        ensures
            builder.depth_stencil_slot() == Some(RenderPassOutputSlot { produce: image, consume }),
            builder.color_slots() == self.color_slots(),
            builder.attachments() == self.attachments(),
            builder.depth_attachment() == self.depth_attachment(),
            builder.pipelines() == self.pipelines(),
            builder.label() == self.label(),
    {
        let mut builder = self;
        builder.slots.depth_stencil_attachment = Some(RenderPassOutputSlot { produce: image, consume });
        builder
    }

    /// Adds the pipeline with the handle `pipeline`; the pipelines run in
    /// the order in which they are added.
    pub fn add_graphics_pipeline(self, pipeline: u64) -> (builder: RenderPassBuilder)
        ensures
            builder.pipelines() == self.pipelines().push(pipeline),
            builder.color_slots() == self.color_slots(),
            builder.depth_stencil_slot() == self.depth_stencil_slot(),
            builder.attachments() == self.attachments(),
            builder.depth_attachment() == self.depth_attachment(),
            builder.label() == self.label(),
    {
        let mut builder = self;
        builder.pipelines.push(pipeline);
        builder
    }

    /// The outputs of the node, if every color attachment has its images.
    fn outputs(&self) -> (outputs: Option<Vec<OutputImage>>)
        requires
            self.wf(),
        ensures
            outputs is Some <==> forall|i: int|
                0 <= i < self.color_slots().len() ==> self.color_slots()[i] is Some,
            outputs matches Some(list) ==> list@ == pass_outputs(
                self.color_slots(),
                self.depth_stencil_slot(),
            ),
    {
        let mut outputs: Vec<OutputImage> = Vec::new();
        let mut i: usize = 0;
        while i < self.slots.color_attachments.len()
            invariant
                i <= self.slots.color_attachments@.len(),
                outputs@.len() == i,
                forall|j: int| 0 <= j < i ==> self.slots.color_attachments@[j] is Some,
                forall|j: int|
                    0 <= j < i ==> outputs@[j] == color_output(self.slots.color_attachments@[j]->0),
            decreases self.slots.color_attachments@.len() - i,
        {
            match self.slots.color_attachments[i] {
                None => {
                    return None;
                },
                Some(att) => {
                    outputs.push(
                        OutputImage {
                            key: att.produce,
                            consumed: att.consume,
                            access: ImageAccess {
                                stage_mask: PIPELINE_STAGE_2_COLOR_ATTACHMENT_OUTPUT,
                                access_mask: ACCESS_2_COLOR_ATTACHMENT_WRITE,
                                layout: IMAGE_LAYOUT_COLOR_ATTACHMENT_OPTIMAL,
                            },
                            usage: IMAGE_USAGE_COLOR_ATTACHMENT,
                        },
                    );
                },
            }
            i += 1;
        }
        let ghost colors = outputs@;
        match self.slots.depth_stencil_attachment {
            Some(att) => {
                outputs.push(
                    OutputImage {
                        key: att.produce,
                        consumed: att.consume,
                        access: ImageAccess {
                            stage_mask: PIPELINE_STAGE_2_EARLY_FRAGMENT_TESTS
                                | PIPELINE_STAGE_2_LATE_FRAGMENT_TESTS,
                            access_mask: ACCESS_2_DEPTH_STENCIL_ATTACHMENT_READ
                                | ACCESS_2_DEPTH_STENCIL_ATTACHMENT_WRITE,
                            layout: IMAGE_LAYOUT_DEPTH_STENCIL_ATTACHMENT_OPTIMAL,
                        },
                        usage: IMAGE_USAGE_DEPTH_STENCIL_ATTACHMENT,
                    },
                );
            },
            None => {},
        }
        proof {
            assert(colors =~= Seq::new(
                self.color_slots().len(),
                |i: int| color_output(self.color_slots()[i]->0),
            ));
            assert(outputs@ =~= pass_outputs(self.color_slots(), self.depth_stencil_slot()));
        }
        Some(outputs)
    }

    /// Adds the node to the graph. The node reads nothing and writes its
    /// attachments. A pass with a color attachment without images is
    /// refused; a pass whose color attachments all have their images is
    /// added unless the graph refuses a node with these slots, and then it
    /// is refused with the graph's first complaint. A refused pass leaves
    /// the graph as it was.
    pub fn build(self, graph: &mut GraphEditor) -> (result: Result<(GraphKey, RenderPassNode), RenderPassError>)
        requires
            self.wf(),
            old(graph).wf(),
            old(graph).nodes().len() < u32::MAX,
        ensures
            final(graph).wf(),
            result is Ok <==> (forall|i: int|
                0 <= i < self.color_slots().len() ==> (#[trigger] self.color_slots()[i]) is Some) && (forall|
                i: int,
            |
                0 <= i < verdicts(
                    old(graph).nodes(),
                    old(graph).images().infos().len(),
                    pass_slots(self.color_slots(), self.depth_stencil_slot()),
                ).len() ==> #[trigger] verdicts(
                    old(graph).nodes(),
                    old(graph).images().infos().len(),
                    pass_slots(self.color_slots(), self.depth_stencil_slot()),
                )[i] is None),
            result == Err::<(GraphKey, RenderPassNode), RenderPassError>(RenderPassError::MissingAttachment)
                <==> exists|i: int|
                0 <= i < self.color_slots().len() && (#[trigger] self.color_slots()[i]) is None,
            result matches Err(e) ==> *final(graph) == *old(graph) && (e == RenderPassError::MissingAttachment
                || e is Graph),
            result matches Err(RenderPassError::Graph(e)) ==> first_complaint(
                verdicts(
                    old(graph).nodes(),
                    old(graph).images().infos().len(),
                    pass_slots(self.color_slots(), self.depth_stencil_slot()),
                ),
                e,
            ),
            result matches Ok((key, node)) ==> {
                &&& key@ == old(graph).nodes().len()
                &&& final(graph).nodes() == old(graph).nodes().push(
                    pass_slots(self.color_slots(), self.depth_stencil_slot()),
                )
                &&& final(graph).node_labels() == old(graph).node_labels().insert(key@, self.label())
                &&& final(graph).images().infos() == old(graph).images().infos()
                &&& final(graph).images().labels() == old(graph).images().labels()
                &&& final(graph).buffers() == old(graph).buffers()
                &&& node.wf()
                &&& node.attachments() == self.attachments()
                &&& node.depth_attachment() == self.depth_attachment()
                &&& node.color_slots() == self.color_slots()
                &&& node.depth_stencil_slot() == self.depth_stencil_slot()
                &&& node.pipelines() == self.pipelines()
            },
    {
        let outputs = match self.outputs() {
            None => {
                return Err(RenderPassError::MissingAttachment);
            },
            Some(outputs) => outputs,
        };
        let node = RenderPassNode {
            pass: self.pass,
            slots: self.slots,
            pipelines: self.pipelines,
            inputs: OwnedNodeInputs { images: Vec::new() },
            outputs: OwnedNodeOutputs { images: outputs },
        };
        assert(node.declared_inputs() =~= Seq::<InputImage>::empty());
        let key = match graph.add_graph_node(self.label, GraphNode::copy_of(&node)) {
            Err(e) => {
                return Err(RenderPassError::Graph(e));
            },
            Ok(key) => key,
        };
        Ok((key, node))
    }
}

impl GraphEditor {
    /// A builder for a render pass node with the label `label`.
    pub fn add_render_pass(&self, label: String, render_pass: RenderPass) -> (builder: RenderPassBuilder)
        ensures
            builder.wf(),
            builder.label() == label,
            builder.attachments() == render_pass.color_attachments@,
            builder.depth_attachment() == render_pass.depth_attachment,
            forall|i: int| 0 <= i < builder.color_slots().len() ==> builder.color_slots()[i] is None,
            builder.depth_stencil_slot() is None,
            builder.pipelines().len() == 0,
    {
        RenderPassBuilder::new(label, render_pass)
    }
}

/// The vertex stage of a graphics pipeline: the shader as SPIR-V words, and
/// the name of its entry point.
#[derive(Clone, Debug)]
pub struct GraphicsPipelineVertexInfo {
    pub shader_spv: Vec<u32>,
    pub entry: String,
}

/// How a graphics pipeline assembles and rasterizes primitives; each
/// setting is its number in the GPU API.
#[derive(Copy, Clone, Debug, PartialEq, Eq, Structural)]
pub struct GraphicsPipelinePrimitiveInfo {
    pub topology: i32,
    pub primitive_restart_enable: bool,
    pub polygon_mode: i32,
    pub cull_mode: u32,
    pub front_face: i32,
}

/// The fragment stage of a graphics pipeline: the shader as SPIR-V words,
/// and the name of its entry point.
#[derive(Clone, Debug)]
pub struct GraphicsPipelineFragmentInfo {
    pub shader_spv: Vec<u32>,
    pub entry: String,
}

/// The formats of the attachments that a graphics pipeline renders to.
#[derive(Clone, Debug)]
pub struct GraphicsPipelineAttachmentInfo {
    pub color: Vec<Format>,
    pub depth: Format,
    pub stencil: Format,
}

/// How a graphics pipeline tests and writes depth. Without a comparison
/// the depth is not tested.
#[derive(Copy, Clone, Debug, PartialEq, Eq, Structural)]
pub struct GraphicsPipelineDepthStencilInfo {
    pub depth_write_enable: bool,
    pub compare_op: Option<i32>,
}

/// The number of the comparison that always passes.
pub const COMPARE_OP_ALWAYS: i32 = 7;

/// The depth state of a graphics pipeline, as the GPU API takes it.
#[derive(Copy, Clone, Debug, PartialEq, Eq, Structural)]
pub struct DepthState {
    pub depth_test_enable: bool,
    pub depth_write_enable: bool,
    pub depth_compare_op: i32,
}

impl GraphicsPipelineDepthStencilInfo {
    /// The depth state: the depth is tested where a comparison is given;
    /// where none is given, the comparison that always passes stands in.
    pub fn depth_state(&self) -> (state: DepthState)
        ensures
            state == (DepthState {
                depth_test_enable: self.compare_op is Some,
                depth_write_enable: self.depth_write_enable,
                depth_compare_op: match self.compare_op {
                    Some(op) => op,
                    None => COMPARE_OP_ALWAYS,
                },
            }),
    {
        DepthState {
            depth_test_enable: self.compare_op.is_some(),
            depth_write_enable: self.depth_write_enable,
            depth_compare_op: match self.compare_op {
                Some(op) => op,
                None => COMPARE_OP_ALWAYS,
            },
        }
    }
}

/// A rectangle of texels.
#[derive(Copy, Clone, Debug, PartialEq, Eq, Structural)]
pub struct Rect2D {
    pub x: i32,
    pub y: i32,
    pub extent: Extent2D,
}

/// The part of the framebuffer that is drawn to, and the range of depths.
/// The depths are whole numbers: zero and one.
#[derive(Copy, Clone, Debug, PartialEq, Eq, Structural)]
pub struct Viewport {
    pub x: u32,
    pub y: u32,
    pub width: u32,
    pub height: u32,
    pub min_depth: u32,
    pub max_depth: u32,
}

/// What is recorded for one pipeline of a render pass, inside a debug
/// label span of its own: the pipeline is bound to the graphics bind point,
/// viewport and scissor are set, and the pipeline records its draws.
#[derive(Copy, Clone, Debug, PartialEq, Eq, Structural)]
pub struct PipelineCommands {
    pub pipeline: u64,
    pub viewport: Viewport,
    pub scissor: Rect2D,
}

/// What is recorded for a render pass: rendering begins with the
/// attachments, the pipelines run in order, and rendering ends.
pub struct RenderPassCommands {
    pub render_area: Rect2D,
    pub layer_count: u32,
    pub view_mask: u32,
    pub color_attachments: Vec<RenderingAttachmentInfo<ClearColor>>,
    pub depth_attachment: Option<RenderingAttachmentInfo<ClearDepthStencilValue>>,
    pub pipelines: Vec<PipelineCommands>,
}

/// A render pass node of a graph.
pub struct RenderPassNode {
    pass: RenderPass,
    slots: RenderPassSlots,
    pipelines: Vec<u64>,
    inputs: OwnedNodeInputs,
    outputs: OwnedNodeOutputs,
}

impl Node for RenderPassNode {
    open spec fn slots(&self) -> NodeModel {
        NodeModel { inputs: self.declared_inputs(), outputs: self.declared_outputs() }
    }

    fn inputs(&self) -> (inputs: NodeInputs<'_>) {
        self.inputs.as_node_inputs()
    }

    fn outputs(&self) -> (outputs: NodeOutputs<'_>) {
        self.outputs.as_node_outputs()
    }
}

/// The viewport and scissor that cover `area`.
pub open spec fn covering(pipeline: u64, area: Rect2D) -> PipelineCommands {
    PipelineCommands {
        pipeline,
        viewport: Viewport {
            x: 0,
            y: 0,
            width: area.extent.width,
            height: area.extent.height,
            min_depth: 0,
            max_depth: 1,
        },
        scissor: area,
    }
}

impl RenderPassNode {
    /// The color attachments that the pass declares.
    pub closed spec fn attachments(&self) -> Seq<ColorAttachmentInfo> {
        self.pass.color_attachments@
    }

    /// The depth and stencil attachment that the pass declares.
    pub closed spec fn depth_attachment(&self) -> Option<DepthStencilAttachmentInfo> {
        self.pass.depth_attachment
    }

    /// The images of the color attachments.
    pub closed spec fn color_slots(&self) -> Seq<Option<RenderPassOutputSlot>> {
        self.slots.color_attachments@
    }

    /// The images of the depth and stencil attachment.
    pub closed spec fn depth_stencil_slot(&self) -> Option<RenderPassOutputSlot> {
        self.slots.depth_stencil_attachment
    }

    /// The handles of the pipelines, in the order in which they run.
    pub closed spec fn pipelines(&self) -> Seq<u64> {
        self.pipelines@
    }

    /// The inputs that the node declares.
    pub closed spec fn declared_inputs(&self) -> Seq<InputImage> {
        self.inputs.images@
    }

    /// The outputs that the node declares.
    pub closed spec fn declared_outputs(&self) -> Seq<OutputImage> {
        self.outputs.images@
    }

    /// Every color attachment has its images, and the node declares that
    /// it reads nothing and writes its attachments.
    pub open spec fn wf(&self) -> bool {
        &&& self.color_slots().len() == self.attachments().len()
        &&& forall|i: int| 0 <= i < self.color_slots().len() ==> self.color_slots()[i] is Some
        &&& self.declared_inputs() == Seq::<InputImage>::empty()
        &&& self.declared_outputs() == pass_outputs(self.color_slots(), self.depth_stencil_slot())
    }

    /// Can the node record: has it a color attachment, has the depth and
    /// stencil attachment images if the pass declares one, and is every
    /// attached image resolved, the first color attachment to an image in
    /// two dimensions?
    pub open spec fn ready(&self, cx: RunContext) -> bool {
        &&& self.attachments().len() > 0
        &&& forall|i: int|
            0 <= i < self.color_slots().len() ==> cx.resolver().image(
                (#[trigger] self.color_slots()[i])->0.produce@,
            ) is Some
        &&& self.depth_attachment() is Some ==> self.depth_stencil_slot() is Some
            && cx.resolver().image(self.depth_stencil_slot()->0.produce@) is Some
    }

    /// The area that the pass renders to: all of its first color
    /// attachment.
    pub open spec fn render_area(&self, cx: RunContext) -> Rect2D {
        Rect2D {
            x: 0,
            y: 0,
            extent: match cx.resolver().image(self.color_slots()[0]->0.produce@)->0.info.extent {
                ImageExtent::D2(extent) => extent,
            },
        }
    }

    /// The commands of the node: rendering begins on the whole of the
    /// first color attachment, with each color attachment in the layout
    /// for color attachments and the depth attachment in the layout for
    /// depth attachments; each pipeline runs with a viewport and a scissor
    /// that cover the render area; and rendering ends.
    pub fn execute(&self, cx: &RunContext) -> (commands: Option<RenderPassCommands>)
        requires
            self.wf(),
        ensures
            commands is Some <==> self.ready(*cx),
            commands matches Some(c) ==> {
                &&& c.render_area == self.render_area(*cx)
                &&& c.layer_count == 1
                &&& c.view_mask == 0
                &&& c.color_attachments@.len() == self.attachments().len()
                &&& forall|i: int|
                    0 <= i < c.color_attachments@.len() ==> #[trigger] c.color_attachments@[i]
                        == self.attachments()[i].attached(
                        cx.resolver().image(self.color_slots()[i]->0.produce@)->0.default_view,
                        IMAGE_LAYOUT_COLOR_ATTACHMENT_OPTIMAL,
                    )
                &&& c.depth_attachment == match self.depth_attachment() {
                    None => None,
                    Some(depth) => Some(
                        depth.attached(
                            cx.resolver().image(self.depth_stencil_slot()->0.produce@)->0.default_view,
                            IMAGE_LAYOUT_DEPTH_ATTACHMENT_OPTIMAL,
                        ),
                    ),
                }
                &&& c.pipelines@.len() == self.pipelines().len()
                &&& forall|i: int|
                    0 <= i < c.pipelines@.len() ==> #[trigger] c.pipelines@[i] == covering(
                        self.pipelines()[i],
                        self.render_area(*cx),
                    )
            },
    {
        if self.pass.color_attachments.len() == 0 {
            return None;
        }
        let mut color_attachments: Vec<RenderingAttachmentInfo<ClearColor>> = Vec::new();
        let mut i: usize = 0;
        while i < self.pass.color_attachments.len()
            invariant
                self.wf(),
                i <= self.pass.color_attachments@.len(),
                color_attachments@.len() == i,
                forall|j: int|
                    0 <= j < i ==> cx.resolver().image((#[trigger] self.color_slots()[j])->0.produce@) is Some,
                forall|j: int|
                    0 <= j < i ==> #[trigger] color_attachments@[j] == self.attachments()[j].attached(
                        cx.resolver().image(self.color_slots()[j]->0.produce@)->0.default_view,
                        IMAGE_LAYOUT_COLOR_ATTACHMENT_OPTIMAL,
                    ),
            decreases self.pass.color_attachments@.len() - i,
        {
            let att = &self.pass.color_attachments[i];
            assert(self.color_slots()[i as int] is Some);
            let slot = self.slots.color_attachments[i].unwrap();
            let view = match cx.default_image_view(slot.produce) {
                None => {
                    return None;
                },
                Some(view) => view,
            };
            color_attachments.push(att.rendering_attachment_info(view, IMAGE_LAYOUT_COLOR_ATTACHMENT_OPTIMAL));
            i += 1;
        }
        assert(self.color_slots()[0] is Some);
        let color_att_0 = self.slots.color_attachments[0].unwrap();
        let info = cx.image_info(color_att_0.produce).unwrap();
        let extent = match info.extent {
            ImageExtent::D2(extent) => extent,
        };
        let render_area = Rect2D { x: 0, y: 0, extent };
        let depth_attachment = match &self.pass.depth_attachment {
            None => None,
            Some(depth) => {
                let ds_slot = match self.slots.depth_stencil_attachment {
                    None => {
                        return None;
                    },
                    Some(slot) => slot,
                };
                let view = match cx.default_image_view(ds_slot.produce) {
                    None => {
                        return None;
                    },
                    Some(view) => view,
                };
                Some(depth.rendering_attachment_info(view, IMAGE_LAYOUT_DEPTH_ATTACHMENT_OPTIMAL))
            },
        };
        let mut pipelines: Vec<PipelineCommands> = Vec::new();
        let mut p: usize = 0;
        while p < self.pipelines.len()
            invariant
                p <= self.pipelines@.len(),
                pipelines@.len() == p,
                forall|j: int| 0 <= j < p ==> #[trigger] pipelines@[j] == covering(self.pipelines@[j], render_area),
            decreases self.pipelines@.len() - p,
        {
            pipelines.push(
                PipelineCommands {
                    pipeline: self.pipelines[p],
                    viewport: Viewport {
                        x: 0,
                        y: 0,
                        width: render_area.extent.width,
                        height: render_area.extent.height,
                        min_depth: 0,
                        max_depth: 1,
                    },
                    scissor: render_area,
                },
            );
            p += 1;
        }
        Some(
            RenderPassCommands {
                render_area,
                layer_count: 1,
                view_mask: 0,
                color_attachments,
                depth_attachment,
                pipelines,
            },
        )
    }
}

} // verus!
