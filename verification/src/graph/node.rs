//! Nodes: what a node declares of itself, and what it sees while it
//! records its commands.

use crate::graph::model::NodeModel;
use crate::graph::runtime::RunContext;
use crate::graph::{
    GraphImage, GraphNode, InputImage, NodeInputs, NodeOutputs, OutputImage, OwnedNodeInputs,
    OwnedNodeOutputs,
};
use crate::resource::image::ImageInfo;
use vstd::prelude::*;

verus! {

/// A node of a render graph.
///
/// A node declares the images that it reads and writes, each with the way
/// in which it touches the image. What it declares stays the same for as
/// long as the node lives.
pub trait Node {
    /// The slots that the node declares.
    spec fn slots(&self) -> NodeModel;

    /// The images that the node reads.
    fn inputs(&self) -> (inputs: NodeInputs<'_>)
        ensures
            inputs.images@ == self.slots().inputs,
    ;

    /// The images that the node writes.
    fn outputs(&self) -> (outputs: NodeOutputs<'_>)
        ensures
            outputs.images@ == self.slots().outputs,
    ;
}

impl Node for GraphNode {
    open spec fn slots(&self) -> NodeModel {
        self@
    }

    fn inputs(&self) -> (inputs: NodeInputs<'_>) {
        self.inputs.as_node_inputs()
    }

    fn outputs(&self) -> (outputs: NodeOutputs<'_>) {
        self.outputs.as_node_outputs()
    }
}

impl GraphNode {
    /// The slots of `node`, copied.
    pub fn copy_of<N: Node>(node: &N) -> (copy: GraphNode)
        ensures
            copy@ == node.slots(),
    {
        let declared_inputs = node.inputs();
        let declared_outputs = node.outputs();
        let mut inputs: Vec<InputImage> = Vec::new();
        let mut i: usize = 0;
        while i < declared_inputs.images.len()
            invariant
                i <= declared_inputs.images@.len(),
                inputs@ == declared_inputs.images@.take(i as int),
            decreases declared_inputs.images@.len() - i,
        {
            inputs.push(declared_inputs.images[i]);
            assert(inputs@ =~= declared_inputs.images@.take(i + 1));
            i += 1;
        }
        let mut outputs: Vec<OutputImage> = Vec::new();
        let mut k: usize = 0;
        while k < declared_outputs.images.len()
            invariant
                k <= declared_outputs.images@.len(),
                outputs@ == declared_outputs.images@.take(k as int),
            decreases declared_outputs.images@.len() - k,
        {
            outputs.push(declared_outputs.images[k]);
            assert(outputs@ =~= declared_outputs.images@.take(k + 1));
            k += 1;
        }
        assert(inputs@ =~= node.slots().inputs);
        assert(outputs@ =~= node.slots().outputs);
        GraphNode { inputs: OwnedNodeInputs { images: inputs }, outputs: OwnedNodeOutputs { images: outputs } }
    }
}

/// Node-local context during graph execution.
///
/// Counts the debug label spans that the node opens, so that the spans
/// that the node leaves open can be closed when the node is done.
pub struct NodeContext<'run> {
    run_cx: RunContext<'run>,
    num_active_debug_spans: u32,
}

impl<'run> NodeContext<'run> {
    /// The state of the run.
    pub closed spec fn run(&self) -> RunContext<'run> {
        self.run_cx
    }

    /// The number of debug label spans that are open.
    pub closed spec fn active_spans(&self) -> u32 {
        self.num_active_debug_spans
    }

    /// A context without open spans.
    pub fn new(run_cx: RunContext<'run>) -> (cx: NodeContext<'run>)
        ensures
            cx.run() == run_cx,
            cx.active_spans() == 0,
    {
        NodeContext { run_cx, num_active_debug_spans: 0 }
    }

    /// The handle of the physical image of `image`.
    pub fn image(&self, image: GraphImage) -> (handle: Option<u64>)
        ensures
            handle == match self.run().resolver().image(image@) {
                Some(physical) => Some(physical.handle),
                None => None,
            },
    {
        self.run_cx.image(image)
    }

    /// The handle of the view of the whole physical image of `image`.
    pub fn default_image_view(&self, image: GraphImage) -> (view: Option<u64>)
        ensures
            view == match self.run().resolver().image(image@) {
                Some(physical) => Some(physical.default_view),
                None => None,
            },
    {
        self.run_cx.default_image_view(image)
    }

    /// The descriptor of the physical image of `image`.
    pub fn image_info(&self, image: GraphImage) -> (info: Option<ImageInfo>)
        ensures
            info == match self.run().resolver().image(image@) {
                Some(physical) => Some(physical.info),
                None => None,
            },
    {
        self.run_cx.image_info(image)
    }

    /// Counts a debug label span that is opened. Says whether the span may
    /// be opened: it may not once 2^32 - 1 spans are open.
    pub fn enter_debug_span(&mut self) -> (opened: bool)
        ensures
            final(self).run() == old(self).run(),
            opened == (old(self).active_spans() < u32::MAX),
            final(self).active_spans() == if opened {
                (old(self).active_spans() + 1) as u32
            } else {
                old(self).active_spans()
            },
    {
        if self.num_active_debug_spans == u32::MAX {
            return false;
        }
        self.num_active_debug_spans = self.num_active_debug_spans + 1;
        true
    }

    /// Counts a debug label span that is closed. Says whether there is a
    /// span to close; where none is open nothing is to be done.
    pub fn exit_debug_span(&mut self) -> (closed: bool)
        ensures
            final(self).run() == old(self).run(),
            closed == (old(self).active_spans() > 0),
            final(self).active_spans() == if closed {
                (old(self).active_spans() - 1) as u32
            } else {
                0u32
            },
    {
        if self.num_active_debug_spans == 0 {
            return false;
        }
        self.num_active_debug_spans = self.num_active_debug_spans - 1;
        true
    }

    /// Closes every span that is still open: says how many spans are to be
    /// closed.
    pub fn exit_all_debug_spans(&mut self) -> (stray: u32)
        ensures
            final(self).run() == old(self).run(),
            stray == old(self).active_spans(),
            final(self).active_spans() == 0,
    {
        let mut stray: u32 = 0;
        while self.num_active_debug_spans > 0
            invariant
                self.run_cx == old(self).run_cx,
                stray + self.num_active_debug_spans == old(self).num_active_debug_spans,
            decreases self.num_active_debug_spans,
        {
            let _ = self.exit_debug_span();
            stray = stray + 1;
        }
        stray
    }
}

} // verus!
