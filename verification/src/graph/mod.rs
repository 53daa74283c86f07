//! The render graph: its resources, the slots through which nodes touch
//! them, and the dependencies between nodes that follow from the slots.

use crate::arena::{Arena, ArenaMap, Key};
use crate::vk::{
    AccessFlags2, BufferUsageFlags, Extent2D, Format, ImageLayout, ImageUsageFlags,
    PipelineStageFlags2,
};
use vstd::prelude::*;

pub mod builder;
pub mod compile;
pub mod compiled;
pub mod model;
pub mod node;
pub mod runtime;

pub use builder::{GraphEditor, GraphError};
pub use compiled::Graph;


verus! {

/// A kind of graph resource: what an access to it records, and how its
/// usage flags add up.
pub trait Resource: Sized {
    /// How one node touches the resource.
    type Access: Copy;

    /// The usage flags of the resource.
    type Usage: Copy;

    /// The union of two sets of usage flags.
    spec fn spec_union(a: Self::Usage, b: Self::Usage) -> Self::Usage;

    /// The empty set of usage flags.
    spec fn spec_no_usage() -> Self::Usage;

    fn union(a: Self::Usage, b: Self::Usage) -> (r: Self::Usage)
        ensures
            r == Self::spec_union(a, b),
    ;

    fn no_usage() -> (r: Self::Usage)
        ensures
            r == Self::spec_no_usage(),
    ;
}

/// What the graph knows of an image: its format and size.
#[derive(Copy, Clone, Debug)]
pub struct GraphImageInfo {
    pub format: Format,
    pub extent: Extent2D,
}

/// What the graph knows of a buffer: its size in bytes.
#[derive(Copy, Clone, Debug)]
pub struct GraphBufferInfo {
    pub size: u64,
}

/// The declared inputs and outputs of one node of the graph.
#[derive(Debug)]
pub struct GraphNode {
    pub inputs: OwnedNodeInputs,
    pub outputs: OwnedNodeOutputs,
}

/// The key of a node in the graph.
pub type GraphKey = Key<GraphNode>;

/// The key of a buffer in the graph.
pub type GraphBuffer = Key<GraphBufferInfo>;

/// The key of an image in the graph.
pub type GraphImage = Key<GraphImageInfo>;

/// A record of a single image access.
#[derive(Copy, Clone, Debug, PartialEq, Eq, Structural)]
pub struct ImageAccess {
    /// The stage in which the access occurs.
    pub stage_mask: PipelineStageFlags2,
    /// The access type of the access.
    pub access_mask: AccessFlags2,
    /// The required layout of the image when the access is performed.
    pub layout: ImageLayout,
}

impl Default for ImageAccess {
    fn default() -> (access: ImageAccess)
        ensures
            access == (ImageAccess { stage_mask: 0, access_mask: 0, layout: 0 }),
    {
        ImageAccess { stage_mask: 0, access_mask: 0, layout: 0 }
    }
}

/// A record of a single buffer access.
#[derive(Copy, Clone, Debug, PartialEq, Eq, Structural)]
pub struct BufferAccess {
    /// The stage in which the access occurs.
    pub stage_mask: PipelineStageFlags2,
    /// The access type of the access.
    pub access_mask: AccessFlags2,
}

impl Default for BufferAccess {
    fn default() -> (access: BufferAccess)
        ensures
            access == (BufferAccess { stage_mask: 0, access_mask: 0 }),
    {
        BufferAccess { stage_mask: 0, access_mask: 0 }
    }
}

impl Resource for GraphBufferInfo {
    type Access = BufferAccess;

    type Usage = BufferUsageFlags;

    open spec fn spec_union(a: BufferUsageFlags, b: BufferUsageFlags) -> BufferUsageFlags {
        a | b
    }

    open spec fn spec_no_usage() -> BufferUsageFlags {
        0
    }

    fn union(a: BufferUsageFlags, b: BufferUsageFlags) -> (r: BufferUsageFlags) {
        a | b
    }

    fn no_usage() -> (r: BufferUsageFlags) {
        0
    }
}

impl Resource for GraphImageInfo {
    type Access = ImageAccess;

    type Usage = ImageUsageFlags;

    open spec fn spec_union(a: ImageUsageFlags, b: ImageUsageFlags) -> ImageUsageFlags {
        a | b
    }

    open spec fn spec_no_usage() -> ImageUsageFlags {
        0
    }

    fn union(a: ImageUsageFlags, b: ImageUsageFlags) -> (r: ImageUsageFlags) {
        a | b
    }

    fn no_usage() -> (r: ImageUsageFlags) {
        0
    }
}

/// An access to a resource together with the node that makes it.
#[derive(Debug)]
pub struct OpAccess<R: Resource> {
    pub node_key: GraphKey,
    pub access: R::Access,
}

impl<R: Resource> Clone for OpAccess<R> {
    fn clone(&self) -> (res: Self)
        ensures
            res == *self,
    {
        OpAccess { node_key: self.node_key, access: self.access }
    }
}

impl<R: Resource> Copy for OpAccess<R> {

}

pub type ImageOpAccess = OpAccess<GraphImageInfo>;

pub type BufferOpAccess = OpAccess<GraphBufferInfo>;

/// The access history of one resource: the node that produces it, the nodes
/// that read it, and the node whose output supersedes it.
pub struct OpAccesses<R: Resource> {
    pub produced_by: Option<OpAccess<R>>,
    pub readers: Vec<OpAccess<R>>,
    pub consumed_by: Option<OpAccess<R>>,
}

impl<R: Resource> OpAccesses<R> {
    pub fn new() -> (accesses: OpAccesses<R>)
        ensures
            accesses.produced_by is None,
            accesses.readers@.len() == 0,
            accesses.consumed_by is None,
    {
        OpAccesses { produced_by: None, readers: Vec::new(), consumed_by: None }
    }

    /// Records the producer; a resource has one at most.
    pub fn set_producer(&mut self, node_key: GraphKey, access: R::Access)
        requires
            old(self).produced_by is None,
        ensures
            final(self).produced_by == Some(OpAccess::<R> { node_key, access }),
            final(self).readers == old(self).readers,
            final(self).consumed_by == old(self).consumed_by,
    {
        self.produced_by = Some(OpAccess { node_key, access });
    }

    pub fn add_reader(&mut self, node_key: GraphKey, access: R::Access)
        ensures
            final(self).produced_by == old(self).produced_by,
            final(self).readers@ == old(self).readers@.push(OpAccess::<R> { node_key, access }),
            final(self).consumed_by == old(self).consumed_by,
    {
        self.readers.push(OpAccess { node_key, access });
    }

    /// Records the consumer; a resource has one at most.
    pub fn set_consumer(&mut self, node_key: GraphKey, access: R::Access)
        requires
            old(self).consumed_by is None,
        ensures
            final(self).produced_by == old(self).produced_by,
            final(self).readers == old(self).readers,
            final(self).consumed_by == Some(OpAccess::<R> { node_key, access }),
    {
        self.consumed_by = Some(OpAccess { node_key, access });
    }
}

impl OpAccesses<GraphImageInfo> {
    /// The readers agree on the layout in which they read the image.
    pub open spec fn readers_agree(&self) -> bool {
        forall|i: int|
            0 <= i < self.readers@.len() ==> (#[trigger] self.readers@[i]).access.layout
                == self.readers@[0].access.layout
    }

    /// The layout in which the producer leaves the image.
    pub fn produced_layout(&self) -> (layout: ImageLayout)
        requires
            self.produced_by is Some,
        ensures
            layout == self.produced_by->0.access.layout,
    {
        self.produced_by.unwrap().access.layout
    }

    /// The layout in which the image is read: that of its readers, which
    /// agree, or the layout in which it was produced where nobody reads it.
    pub fn read_layout(&self) -> (layout: ImageLayout)
        requires
            self.readers_agree(),
            self.readers@.len() == 0 ==> self.produced_by is Some,
        ensures
            layout == if self.readers@.len() > 0 {
                self.readers@[0].access.layout
            } else {
                self.produced_by->0.access.layout
            },
            forall|i: int| 0 <= i < self.readers@.len() ==> (#[trigger] self.readers@[i]).access.layout == layout,
    {
        if self.readers.len() == 0 {
            self.produced_layout()
        } else {
            self.readers[0].access.layout
        }
    }

    /// The layout in which the consumer takes the image, if it has one.
    pub fn consumed_layout(&self) -> (layout: Option<ImageLayout>)
        ensures
            layout == match self.consumed_by {
                Some(consumer) => Some(consumer.access.layout),
                None => None,
            },
    {
        match self.consumed_by {
            Some(consumer) => Some(consumer.access.layout),
            None => None,
        }
    }
}

/// A slot through which a node reads a resource.
#[derive(Debug)]
pub struct Input<R: Resource> {
    pub key: Key<R>,
    pub access: R::Access,
    pub usage: R::Usage,
}

impl<R: Resource> Clone for Input<R> {
    fn clone(&self) -> (res: Self)
        ensures
            res == *self,
    {
        Input { key: self.key, access: self.access, usage: self.usage }
    }
}

impl<R: Resource> Copy for Input<R> {

}

pub type InputBuffer = Input<GraphBufferInfo>;

pub type InputImage = Input<GraphImageInfo>;

/// A slot through which a node writes a resource. `consumed` names the
/// resource whose contents this output supersedes.
#[derive(Debug)]
pub struct Output<R: Resource> {
    pub key: Key<R>,
    pub consumed: Option<Key<R>>,
    pub access: R::Access,
    pub usage: R::Usage,
}

impl<R: Resource> Clone for Output<R> {
    fn clone(&self) -> (res: Self)
        ensures
            res == *self,
    {
        Output { key: self.key, consumed: self.consumed, access: self.access, usage: self.usage }
    }
}

impl<R: Resource> Copy for Output<R> {

}

pub type OutputBuffer = Output<GraphBufferInfo>;

pub type OutputImage = Output<GraphImageInfo>;

/// The inputs that a node declares.
#[derive(Debug)]
pub struct OwnedNodeInputs {
    pub images: Vec<InputImage>,
}

/// The outputs that a node declares.
#[derive(Debug)]
pub struct OwnedNodeOutputs {
    pub images: Vec<OutputImage>,
}

/// The inputs of a node, borrowed.
#[derive(Clone, Copy, Debug)]
pub struct NodeInputs<'node> {
    pub images: &'node [InputImage],
}

/// The outputs of a node, borrowed.
#[derive(Clone, Copy, Debug)]
pub struct NodeOutputs<'node> {
    pub images: &'node [OutputImage],
}

impl OwnedNodeInputs {
    /// The inputs as they are lent out.
    pub fn as_node_inputs(&self) -> (inputs: NodeInputs<'_>)
        ensures
            inputs.images@ == self.images@,
    {
        NodeInputs { images: self.images.as_slice() }
    }
}

impl OwnedNodeOutputs {
    /// The outputs as they are lent out.
    pub fn as_node_outputs(&self) -> (outputs: NodeOutputs<'_>)
        ensures
            outputs.images@ == self.images@,
    {
        NodeOutputs { images: self.images.as_slice() }
    }
}

/// The parameters of a barrier on a buffer between two nodes.
#[derive(Copy, Clone, Debug)]
pub struct BufferDependency {
    pub buffer: GraphBuffer,
    pub src_stage_mask: PipelineStageFlags2,
    pub dst_stage_mask: PipelineStageFlags2,
    pub src_access_mask: AccessFlags2,
    pub dst_access_mask: AccessFlags2,
}

/// The parameters of a barrier on an image between two nodes.
#[derive(Copy, Clone, Debug)]
pub struct ImageDependency {
    pub image: GraphImage,
    pub src_stage_mask: PipelineStageFlags2,
    pub dst_stage_mask: PipelineStageFlags2,
    pub src_access_mask: AccessFlags2,
    pub dst_access_mask: AccessFlags2,
    pub old_layout: ImageLayout,
    pub new_layout: ImageLayout,
}

/// The barrier that lets `reader` read what `writer` wrote: the writer's
/// stage, access and layout on the source side, the reader's on the
/// destination side.
pub open spec fn buffer_read_after_write(reader: InputBuffer, writer: BufferAccess) -> BufferDependency {
    BufferDependency {
        buffer: reader.key,
        src_stage_mask: writer.stage_mask,
        dst_stage_mask: reader.access.stage_mask,
        src_access_mask: writer.access_mask,
        dst_access_mask: reader.access.access_mask,
    }
}

/// The barrier that keeps `writer` from overwriting what `reader` still
/// reads: an execution dependency, without access masks.
pub open spec fn buffer_write_after_read(writer: OutputBuffer, reader: BufferAccess) -> BufferDependency {
    BufferDependency {
        buffer: writer.key,
        src_stage_mask: reader.stage_mask,
        dst_stage_mask: writer.access.stage_mask,
        src_access_mask: 0,
        dst_access_mask: 0,
    }
}

/// The barrier that orders the write of `second` after that of `first`.
pub open spec fn buffer_write_after_write(second: OutputBuffer, first: BufferAccess) -> BufferDependency {
    BufferDependency {
        buffer: second.key,
        src_stage_mask: first.stage_mask,
        dst_stage_mask: second.access.stage_mask,
        src_access_mask: first.access_mask,
        dst_access_mask: second.access.access_mask,
    }
}

/// The barrier that lets `reader` read what `writer` wrote: the writer's
/// stage, access and layout on the source side, the reader's on the
/// destination side.
pub open spec fn image_read_after_write(reader: InputImage, writer: ImageAccess) -> ImageDependency {
    ImageDependency {
        image: reader.key,
        src_stage_mask: writer.stage_mask,
        dst_stage_mask: reader.access.stage_mask,
        src_access_mask: writer.access_mask,
        dst_access_mask: reader.access.access_mask,
        old_layout: writer.layout,
        new_layout: reader.access.layout,
    }
}

/// The barrier that keeps `writer` from overwriting what `reader` still
/// reads: an execution dependency, without access masks, that takes the
/// image from the reader's layout to the writer's.
pub open spec fn image_write_after_read(writer: OutputImage, reader: ImageAccess) -> ImageDependency {
    ImageDependency {
        image: writer.key,
        src_stage_mask: reader.stage_mask,
        dst_stage_mask: writer.access.stage_mask,
        src_access_mask: 0,
        dst_access_mask: 0,
        old_layout: reader.layout,
        new_layout: writer.access.layout,
    }
}

/// The barrier that orders the write of `second` after that of `first`.
pub open spec fn image_write_after_write(second: OutputImage, first: ImageAccess) -> ImageDependency {
    ImageDependency {
        image: second.key,
        src_stage_mask: first.stage_mask,
        dst_stage_mask: second.access.stage_mask,
        src_access_mask: first.access_mask,
        dst_access_mask: second.access.access_mask,
        old_layout: first.layout,
        new_layout: second.access.layout,
    }
}

impl ImageDependency {
    /// The barrier that lets `reader` read what `writer` wrote.
    pub fn read_after_write(reader: &InputImage, writer: &ImageAccess) -> (dep: ImageDependency)
        ensures
            dep == image_read_after_write(*reader, *writer),
    {
        ImageDependency {
            image: reader.key,
            src_stage_mask: writer.stage_mask,
            dst_stage_mask: reader.access.stage_mask,
            src_access_mask: writer.access_mask,
            dst_access_mask: reader.access.access_mask,
            old_layout: writer.layout,
            new_layout: reader.access.layout,
        }
    }

    /// The barrier that keeps `writer` from overwriting what `reader` reads.
    pub fn write_after_read(writer: &OutputImage, reader: &ImageAccess) -> (dep: ImageDependency)
        ensures
            dep == image_write_after_read(*writer, *reader),
    {
        ImageDependency {
            image: writer.key,
            src_stage_mask: reader.stage_mask,
            dst_stage_mask: writer.access.stage_mask,
            src_access_mask: 0,
            dst_access_mask: 0,
            old_layout: reader.layout,
            new_layout: writer.access.layout,
        }
    }

    /// The barrier that orders the write of `second` after that of `first`.
    pub fn write_after_write(second: &OutputImage, first: &ImageAccess) -> (dep: ImageDependency)
        ensures
            dep == image_write_after_write(*second, *first),
    {
        ImageDependency {
            image: second.key,
            src_stage_mask: first.stage_mask,
            dst_stage_mask: second.access.stage_mask,
            src_access_mask: first.access_mask,
            dst_access_mask: second.access.access_mask,
            old_layout: first.layout,
            new_layout: second.access.layout,
        }
    }
}

/// A dependency between render graph nodes: the barriers that the
/// dependent node needs before it runs.
#[derive(Debug)]
pub struct NodeDependency {
    /// True iff this dependency connects operations in subsequent executions.
    pub is_backedge: bool,
    pub buffers: Vec<BufferDependency>,
    pub images: Vec<ImageDependency>,
}

impl Default for NodeDependency {
    fn default() -> (dep: NodeDependency)
        ensures
            !dep.is_backedge,
            dep.buffers@.len() == 0,
            dep.images@.len() == 0,
    {
        NodeDependency { is_backedge: false, buffers: Vec::new(), images: Vec::new() }
    }
}

impl NodeDependency {
    pub fn add_buffer_read_after_write(&mut self, reader: &InputBuffer, writer: &BufferAccess)
        ensures
            final(self).buffers@ == old(self).buffers@.push(buffer_read_after_write(*reader, *writer)),
            final(self).images == old(self).images,
            final(self).is_backedge == old(self).is_backedge,
    {
        self.buffers.push(
            BufferDependency {
                buffer: reader.key,
                src_stage_mask: writer.stage_mask,
                dst_stage_mask: reader.access.stage_mask,
                src_access_mask: writer.access_mask,
                dst_access_mask: reader.access.access_mask,
            },
        );
    }

    pub fn add_buffer_write_after_read(&mut self, writer: &OutputBuffer, reader: &BufferAccess)
        ensures
            final(self).buffers@ == old(self).buffers@.push(buffer_write_after_read(*writer, *reader)),
            final(self).images == old(self).images,
            final(self).is_backedge == old(self).is_backedge,
    {
        self.buffers.push(
            BufferDependency {
                buffer: writer.key,
                src_stage_mask: reader.stage_mask,
                dst_stage_mask: writer.access.stage_mask,
                src_access_mask: 0,
                dst_access_mask: 0,
            },
        );
    }

    pub fn add_buffer_write_after_write(&mut self, second: &OutputBuffer, first: &BufferAccess)
        ensures
            final(self).buffers@ == old(self).buffers@.push(buffer_write_after_write(*second, *first)),
            final(self).images == old(self).images,
            final(self).is_backedge == old(self).is_backedge,
    {
        self.buffers.push(
            BufferDependency {
                buffer: second.key,
                src_stage_mask: first.stage_mask,
                dst_stage_mask: second.access.stage_mask,
                src_access_mask: first.access_mask,
                dst_access_mask: second.access.access_mask,
            },
        );
    }

    pub fn add_image_read_after_write(&mut self, reader: &InputImage, writer: &ImageOpAccess)
        ensures
            final(self).images@ == old(self).images@.push(
                image_read_after_write(*reader, writer.access),
            ),
            final(self).buffers == old(self).buffers,
            final(self).is_backedge == old(self).is_backedge,
    {
        self.images.push(ImageDependency::read_after_write(reader, &writer.access));
    }

    pub fn add_image_write_after_read(&mut self, writer: &OutputImage, reader: &ImageOpAccess)
        ensures
            final(self).images@ == old(self).images@.push(
                image_write_after_read(*writer, reader.access),
            ),
            final(self).buffers == old(self).buffers,
            final(self).is_backedge == old(self).is_backedge,
    {
        self.images.push(ImageDependency::write_after_read(writer, &reader.access));
    }

    pub fn add_image_write_after_write(&mut self, second: &OutputImage, first: &ImageOpAccess)
        ensures
            final(self).images@ == old(self).images@.push(
                image_write_after_write(*second, first.access),
            ),
            final(self).buffers == old(self).buffers,
            final(self).is_backedge == old(self).is_backedge,
    {
        self.images.push(ImageDependency::write_after_write(second, &first.access));
    }
}

/// The resources of one kind in a graph, with their side tables.
pub struct Resources<R: Resource> {
    resources: Arena<R>,
    access: ArenaMap<Key<R>, OpAccesses<R>>,
    usage: ArenaMap<Key<R>, R::Usage>,
    labels: ArenaMap<Key<R>, String>,
}

impl<R: Resource> Resources<R> {
    /// The descriptors of the resources, by key.
    pub closed spec fn infos(&self) -> Seq<R> {
        self.resources@
    }

    /// The access history of each resource, by key.
    pub closed spec fn accesses(&self) -> Map<nat, OpAccesses<R>> {
        self.access@
    }

    /// The accumulated usage flags of each resource, by key.
    pub closed spec fn usages(&self) -> Map<nat, R::Usage> {
        self.usage@
    }

    /// The label of each resource, by key.
    pub closed spec fn labels(&self) -> Map<nat, String> {
        self.labels@
    }

    /// Every resource has an entry in each side table, and nothing else has.
    pub closed spec fn wf(&self) -> bool {
        &&& self.resources@.len() <= u32::MAX
        &&& self.access.wf()
        &&& self.usage.wf()
        &&& self.labels.wf()
        &&& forall|k: nat| self.access@.contains_key(k) <==> k < self.resources@.len()
        &&& forall|k: nat| self.usage@.contains_key(k) <==> k < self.resources@.len()
        &&& forall|k: nat| self.labels@.contains_key(k) <==> k < self.resources@.len()
    }

    /// What well-formedness says of the tables.
    pub proof fn lemma_wf(&self)
        requires
            self.wf(),
        ensures
            self.infos().len() <= u32::MAX,
            forall|k: nat| self.accesses().contains_key(k) <==> k < self.infos().len(),
            forall|k: nat| self.usages().contains_key(k) <==> k < self.infos().len(),
            forall|k: nat| self.labels().contains_key(k) <==> k < self.infos().len(),
    {
    }

    pub fn new() -> (resources: Resources<R>)
        ensures
            resources.wf(),
            resources.infos().len() == 0,
    {
        Resources {
            resources: Arena::new(),
            access: ArenaMap::new(),
            usage: ArenaMap::new(),
            labels: ArenaMap::new(),
        }
    }

    pub fn len(&self) -> (n: usize)
        ensures
            n == self.infos().len(),
    {
        self.resources.len()
    }

    /// Registers a resource: it has no accesses and no usage yet.
    pub fn add_resource(&mut self, label: String, info: R) -> (key: Key<R>)
        requires
            old(self).wf(),
            old(self).infos().len() < u32::MAX,
        ensures
            final(self).wf(),
            key@ == old(self).infos().len(),
            final(self).infos() == old(self).infos().push(info),
            final(self).accesses().dom() == old(self).accesses().dom().insert(key@),
            forall|k: nat| k != key@ ==> final(self).accesses()[k] == old(self).accesses()[k],
            final(self).accesses()[key@].produced_by is None,
            final(self).accesses()[key@].readers@.len() == 0,
            final(self).accesses()[key@].consumed_by is None,
            final(self).usages() == old(self).usages().insert(key@, R::spec_no_usage()),
            final(self).labels() == old(self).labels().insert(key@, label),
    {
        let key = self.resources.allocate(info);
        self.access.insert(key, OpAccesses::new());
        self.usage.insert(key, R::no_usage());
        self.labels.insert(key, label);
        assert(self.access@.dom() =~= old(self).access@.dom().insert(key@));
        key
    }

    /// Adds `usage` to the usage flags of `key`.
    pub fn add_usage(&mut self, key: Key<R>, usage: R::Usage)
        requires
            old(self).wf(),
            key@ < old(self).infos().len(),
        ensures
            final(self).wf(),
            final(self).infos() == old(self).infos(),
            final(self).accesses() == old(self).accesses(),
            final(self).labels() == old(self).labels(),
            final(self).usages() == old(self).usages().insert(
                key@,
                R::spec_union(old(self).usages()[key@], usage),
            ),
    {
        let slot = self.usage.index_mut(key);
        *slot = R::union(*slot, usage);
    }

    /// The descriptor of `key`.
    pub fn info(&self, key: Key<R>) -> (info: Option<&R>)
        ensures
            info == if key@ < self.infos().len() {
                Some(&self.infos()[key@ as int])
            } else {
                None
            },
    {
        self.resources.get(key)
    }

    /// The access history of `key`.
    pub fn access(&self, key: Key<R>) -> (accesses: Option<&OpAccesses<R>>)
        ensures
            accesses == if self.accesses().contains_key(key@) {
                Some(&self.accesses()[key@])
            } else {
                None
            },
    {
        self.access.get(key)
    }

    /// The access history of `key`, for writing.
    pub fn access_mut(&mut self, key: Key<R>) -> (accesses: &mut OpAccesses<R>)
        requires
            old(self).wf(),
            key@ < old(self).infos().len(),
        ensures
            final(self).wf(),
            *accesses == old(self).accesses()[key@],
            final(self).infos() == old(self).infos(),
            final(self).usages() == old(self).usages(),
            final(self).labels() == old(self).labels(),
            final(self).accesses() == old(self).accesses().insert(key@, *final(accesses)),
    {
        self.access.index_mut(key)
    }

    /// The accumulated usage flags of `key`.
    pub fn usage(&self, key: Key<R>) -> (usage: Option<R::Usage>)
        ensures
            usage == if self.usages().contains_key(key@) {
                Some(self.usages()[key@])
            } else {
                None
            },
    {
        match self.usage.get(key) {
            Some(u) => Some(*u),
            None => None,
        }
    }

    /// The label of `key`.
    pub fn label(&self, key: Key<R>) -> (label: Option<&String>)
        ensures
            label == if self.labels().contains_key(key@) {
                Some(&self.labels()[key@])
            } else {
                None
            },
    {
        self.labels.get(key)
    }
}

} // verus!
