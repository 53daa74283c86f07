//! The blit node: copies one image into another, scaling it.

use crate::graph::builder::{first_complaint, verdicts, GraphEditor, GraphError};
use crate::graph::model::NodeModel;
use crate::graph::node::Node;
use crate::graph::{
    GraphImage, GraphKey, GraphNode, ImageAccess, InputImage, NodeInputs, NodeOutputs, OutputImage,
    OwnedNodeInputs, OwnedNodeOutputs,
};
use crate::resource::image::{ImageExtent, ImageInfo};
use crate::vk::{
    Extent3D, ImageAspectFlags, ImageLayout, ACCESS_2_TRANSFER_READ, ACCESS_2_TRANSFER_WRITE,
    IMAGE_ASPECT_COLOR, IMAGE_LAYOUT_TRANSFER_DST_OPTIMAL, IMAGE_LAYOUT_TRANSFER_SRC_OPTIMAL,
    IMAGE_USAGE_TRANSFER_DST, IMAGE_USAGE_TRANSFER_SRC, PIPELINE_STAGE_2_BLIT,
};
use vstd::prelude::*;

verus! {

/// How a blit reads its source.
pub open spec fn blit_input(img: GraphImage) -> InputImage {
    InputImage {
        key: img,
        access: ImageAccess {
            stage_mask: PIPELINE_STAGE_2_BLIT,
            access_mask: ACCESS_2_TRANSFER_READ,
            layout: IMAGE_LAYOUT_TRANSFER_SRC_OPTIMAL,
        },
        usage: IMAGE_USAGE_TRANSFER_SRC,
    }
}

/// How a blit writes its destination.
pub open spec fn blit_output(img: GraphImage, consumed: Option<GraphImage>) -> OutputImage {
    OutputImage {
        key: img,
        consumed,
        access: ImageAccess {
            stage_mask: PIPELINE_STAGE_2_BLIT,
            access_mask: ACCESS_2_TRANSFER_WRITE,
            layout: IMAGE_LAYOUT_TRANSFER_DST_OPTIMAL,
        },
        usage: IMAGE_USAGE_TRANSFER_DST,
    }
}

/// How a blit reads its source.
pub fn input_image(img: GraphImage) -> (input: InputImage)
    ensures
        input == blit_input(img),
{
    InputImage {
        key: img,
        access: ImageAccess {
            stage_mask: PIPELINE_STAGE_2_BLIT,
            access_mask: ACCESS_2_TRANSFER_READ,
            layout: IMAGE_LAYOUT_TRANSFER_SRC_OPTIMAL,
        },
        usage: IMAGE_USAGE_TRANSFER_SRC,
    }
}

/// How a blit writes its destination.
pub fn output_image(img: GraphImage, consumed: Option<GraphImage>) -> (output: OutputImage)
    ensures
        output == blit_output(img, consumed),
{
    OutputImage {
        key: img,
        consumed,
        access: ImageAccess {
            stage_mask: PIPELINE_STAGE_2_BLIT,
            access_mask: ACCESS_2_TRANSFER_WRITE,
            layout: IMAGE_LAYOUT_TRANSFER_DST_OPTIMAL,
        },
        usage: IMAGE_USAGE_TRANSFER_DST,
    }
}

/// A corner of a region of an image.
#[derive(Copy, Clone, Debug, PartialEq, Eq, Structural)]
pub struct Offset3D {
    pub x: i32,
    pub y: i32,
    pub z: i32,
}

/// One blit of a region of one image into a region of another.
#[derive(Copy, Clone, Debug, PartialEq, Eq, Structural)]
pub struct BlitCommand {
    pub src_image: u64,
    pub src_image_layout: ImageLayout,
    pub dst_image: u64,
    pub dst_image_layout: ImageLayout,
    pub aspect_mask: ImageAspectFlags,
    pub mip_level: u32,
    pub base_array_layer: u32,
    pub layer_count: u32,
    pub src_start: Offset3D,
    pub src_end: Offset3D,
    pub dst_start: Offset3D,
    pub dst_end: Offset3D,
}

/// The far corner of the whole of an image of this size; a width or height
/// of 2^31 or more wraps around, as the conversion to the signed
/// coordinates of the GPU API does.
pub open spec fn far_corner(extent: ImageExtent) -> Offset3D {
    match extent {
        ImageExtent::D2(x2d) => (Offset3D { x: x2d.width as i32, y: x2d.height as i32, z: 1 }),
    }
}

/// The blit of the whole of the source into the whole of the destination.
pub open spec fn full_blit(src: u64, src_info: ImageInfo, dst: u64, dst_info: ImageInfo) -> BlitCommand {
    BlitCommand {
        src_image: src,
        src_image_layout: IMAGE_LAYOUT_TRANSFER_SRC_OPTIMAL,
        dst_image: dst,
        dst_image_layout: IMAGE_LAYOUT_TRANSFER_DST_OPTIMAL,
        aspect_mask: IMAGE_ASPECT_COLOR,
        mip_level: 0,
        base_array_layer: 0,
        layer_count: 1,
        src_start: Offset3D { x: 0, y: 0, z: 0 },
        src_end: far_corner(src_info.extent),
        dst_start: Offset3D { x: 0, y: 0, z: 0 },
        dst_end: far_corner(dst_info.extent),
    }
}

/// A node that blits image `src` into image `dst`.
pub struct BlitNode {
    src: GraphImage,
    dst: GraphImage,
    dst_consume: Option<GraphImage>,
    inputs: OwnedNodeInputs,
    outputs: OwnedNodeOutputs,
}

impl BlitNode {
    /// The image that is read.
    pub closed spec fn src(&self) -> GraphImage {
        self.src
    }

    /// The image that is written.
    pub closed spec fn dst(&self) -> GraphImage {
        self.dst
    }

    /// The inputs that the node declares.
    pub closed spec fn spec_inputs(&self) -> Seq<InputImage> {
        self.inputs.images@
    }

    /// The outputs that the node declares.
    pub closed spec fn spec_outputs(&self) -> Seq<OutputImage> {
        self.outputs.images@
    }

    /// A blit from `src` to `dst`; the output supersedes `consume`.
    pub fn new(src: GraphImage, dst: GraphImage, consume: Option<GraphImage>) -> (node: BlitNode)
        ensures
            node.src() == src,
            node.dst() == dst,
            node.spec_inputs() == seq![blit_input(src)],
            node.spec_outputs() == seq![blit_output(dst, consume)],
    {
        let mut inputs: Vec<InputImage> = Vec::new();
        inputs.push(input_image(src));
        let mut outputs: Vec<OutputImage> = Vec::new();
        outputs.push(output_image(dst, consume));
        let node = BlitNode {
            src,
            dst,
            dst_consume: consume,
            inputs: OwnedNodeInputs { images: inputs },
            outputs: OwnedNodeOutputs { images: outputs },
        };
        assert(node.inputs.images@ =~= seq![blit_input(src)]);
        assert(node.outputs.images@ =~= seq![blit_output(dst, consume)]);
        node
    }

    /// The slots agree with the images of the node.
    #[verifier::type_invariant]
    spec fn inv(&self) -> bool {
        &&& self.inputs.images@ == seq![blit_input(self.src)]
        &&& self.outputs.images@ == seq![blit_output(self.dst, self.dst_consume)]
    }

    /// The command of the node: one blit of the whole source into the whole
    /// destination. The images are given as they are resolved.
    pub fn execute(&self, src: u64, src_info: &ImageInfo, dst: u64, dst_info: &ImageInfo) -> (command:
        BlitCommand)
        ensures
            command == full_blit(src, *src_info, dst, *dst_info),
    {
        let src_end = match src_info.extent {
            ImageExtent::D2(x2d) => Offset3D {
                x: #[verifier::truncate] (x2d.width as i32),
                y: #[verifier::truncate] (x2d.height as i32),
                z: 1,
            },
        };
        let dst_end = match dst_info.extent {
            ImageExtent::D2(x2d) => Offset3D {
                x: #[verifier::truncate] (x2d.width as i32),
                y: #[verifier::truncate] (x2d.height as i32),
                z: 1,
            },
        };
        BlitCommand {
            src_image: src,
            src_image_layout: IMAGE_LAYOUT_TRANSFER_SRC_OPTIMAL,
            dst_image: dst,
            dst_image_layout: IMAGE_LAYOUT_TRANSFER_DST_OPTIMAL,
            aspect_mask: IMAGE_ASPECT_COLOR,
            mip_level: 0,
            base_array_layer: 0,
            layer_count: 1,
            src_start: Offset3D { x: 0, y: 0, z: 0 },
            src_end,
            dst_start: Offset3D { x: 0, y: 0, z: 0 },
            dst_end,
        }
    }
}

impl Node for BlitNode {
    open spec fn slots(&self) -> NodeModel {
        NodeModel { inputs: self.spec_inputs(), outputs: self.spec_outputs() }
    }

    fn inputs(&self) -> (inputs: NodeInputs<'_>) {
        self.inputs.as_node_inputs()
    }

    fn outputs(&self) -> (outputs: NodeOutputs<'_>) {
        self.outputs.as_node_outputs()
    }
}

/// The slots of a blit from `src` to `dst` that supersedes `consume`.
pub open spec fn blit_slots(src: GraphImage, dst: GraphImage, consume: Option<GraphImage>) -> NodeModel {
    NodeModel { inputs: seq![blit_input(src)], outputs: seq![blit_output(dst, consume)] }
}

impl GraphEditor {
    /// Adds a blit from `src` to `dst` that supersedes `consume`, and hands
    /// back its key with the node that records it. The blit is refused as
    /// any node with its slots is.
    pub fn add_blit(
        &mut self,
        label: String,
        src: GraphImage,
        dst: GraphImage,
        consume: Option<GraphImage>,
    ) -> (result: Result<(GraphKey, BlitNode), GraphError>)
        requires
            old(self).wf(),
            old(self).nodes().len() < u32::MAX,
        ensures
            final(self).wf(),
            final(self).images().infos() == old(self).images().infos(),
            final(self).images().labels() == old(self).images().labels(),
            final(self).buffers() == old(self).buffers(),
            result is Ok <==> forall|i: int|
                0 <= i < verdicts(
                    old(self).nodes(),
                    old(self).images().infos().len(),
                    blit_slots(src, dst, consume),
                ).len() ==> #[trigger] verdicts(
                    old(self).nodes(),
                    old(self).images().infos().len(),
                    blit_slots(src, dst, consume),
                )[i] is None,
            result matches Err(e) ==> {
                &&& first_complaint(
                    verdicts(old(self).nodes(), old(self).images().infos().len(), blit_slots(src, dst, consume)),
                    e,
                )
                &&& *final(self) == *old(self)
            },
            result matches Ok(added) ==> {
                &&& added.0@ == old(self).nodes().len()
                &&& final(self).nodes() == old(self).nodes().push(blit_slots(src, dst, consume))
                &&& final(self).node_labels() == old(self).node_labels().insert(added.0@, label)
                &&& added.1.src() == src
                &&& added.1.dst() == dst
                &&& added.1.spec_inputs() == blit_slots(src, dst, consume).inputs
                &&& added.1.spec_outputs() == blit_slots(src, dst, consume).outputs
            },
    {
        let node = BlitNode::new(src, dst, consume);
        let slots = GraphNode::copy_of(&node);
        assert(slots@ == blit_slots(src, dst, consume));
        match self.add_graph_node(label, slots) {
            Err(e) => Err(e),
            Ok(key) => Ok((key, node)),
        }
    }
}

} // verus!
