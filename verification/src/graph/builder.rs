//! The graph editor: registers images, buffers and nodes, and keeps the
//! access history of each image as nodes are added.

use crate::arena::{Arena, ArenaMap, Key};
use crate::graph::compile::{compiled, lemma_compiled_acyclic, lemma_compiled_live, GraphBuilder};
use crate::graph::compiled::Graph;
use crate::graph::node::Node;
use crate::graph::model::{
    access_models, consumers, inputs_usage, is_used, lemma_history_nodes, lemma_history_push,
    lemma_node_deps_len, lemma_outputs_count_grows, lemma_schedulable_unique,
    lemma_slot_consumers_distinct, lemma_slot_producers_distinct, lemma_total_deps_grows,
    live_from, live_nodes, node_deps, node_models, output_slot_count, outputs_count,
    outputs_usage, producers, readers, readers_agree, schedulable, single_writers,
    slot_consumers, slot_producers, slot_readers, slots_in_range, total_deps, usage,
    used_images_produced, AccessModel, NodeModel,
};
use crate::graph::{
    GraphBuffer, GraphBufferInfo, GraphImage, GraphImageInfo, GraphKey, GraphNode, ImageOpAccess,
    InputImage, OutputImage, Resources,
};
use crate::vk::ImageUsageFlags;
use vstd::prelude::*;

verus! {

/// Why a graph was refused.
#[derive(Debug, Clone, Copy, PartialEq, Eq)]
pub enum GraphError {
    /// A slot, or the request to build, names an image that is not in the graph.
    UnknownImage(GraphImage),
    /// A second node wants to produce the image.
    DuplicateProducer(GraphImage),
    /// A second node wants to supersede the image.
    DuplicateConsumer(GraphImage),
    /// The image is needed, and no node produces it.
    NoProducer(GraphImage),
    /// Two readers of the image ask for different layouts.
    ReaderLayoutMismatch(GraphImage),
    /// The dependencies between the nodes form a cycle.
    Cycle,
    /// The nodes of the graph have more dependencies than can be numbered.
    Capacity,
}

/// What is wrong with input `i` of a new node, if anything: it must name an
/// image of the graph.
pub open spec fn input_verdict(images: nat, inputs: Seq<InputImage>, i: int) -> Option<GraphError> {
    if inputs[i].key@ >= images {
        Some(GraphError::UnknownImage(inputs[i].key))
    } else {
        None
    }
}

/// Does one of the first `upto` outputs supersede `image`?
pub open spec fn supersedes(outputs: Seq<OutputImage>, upto: int, image: nat) -> bool {
    exists|j: int|
        0 <= j < upto && (#[trigger] outputs[j]).consumed is Some && outputs[j].consumed->0@ == image
}

/// Does one of the first `upto` outputs produce `image`?
pub open spec fn produces(outputs: Seq<OutputImage>, upto: int, image: nat) -> bool {
    exists|j: int| 0 <= j < upto && (#[trigger] outputs[j]).key@ == image
}

/// What is wrong with output `k` of a new node, if anything. The images it
/// names must be in the graph; the image it supersedes must have no consumer
/// yet, neither in the graph nor among the outputs before it; and likewise
/// the image it produces must have no producer yet.
pub open spec fn output_verdict(
    nodes: Seq<NodeModel>,
    images: nat,
    outputs: Seq<OutputImage>,
    k: int,
) -> Option<GraphError> {
    let slot = outputs[k];
    if slot.key@ >= images {
        Some(GraphError::UnknownImage(slot.key))
    } else if slot.consumed is Some && slot.consumed->0@ >= images {
        Some(GraphError::UnknownImage(slot.consumed->0))
    } else if slot.consumed is Some && (consumers(nodes, nodes.len(), slot.consumed->0@).len() > 0
        || supersedes(outputs, k, slot.consumed->0@)) {
        Some(GraphError::DuplicateConsumer(slot.consumed->0))
    } else if producers(nodes, nodes.len(), slot.key@).len() > 0 || produces(outputs, k, slot.key@) {
        Some(GraphError::DuplicateProducer(slot.key))
    } else {
        None
    }
}

/// The verdicts on the slots of a new node, in the order in which the slots
/// are looked at: the inputs, then the outputs.
pub open spec fn verdicts(nodes: Seq<NodeModel>, images: nat, node: NodeModel) -> Seq<
    Option<GraphError>,
> {
    Seq::new(
        node.inputs.len() + node.outputs.len(),
        |i: int|
            if i < node.inputs.len() {
                input_verdict(images, node.inputs, i)
            } else {
                output_verdict(nodes, images, node.outputs, i - node.inputs.len())
            },
    )
}

/// `error` is the first complaint in `verdicts`.
pub open spec fn first_complaint(verdicts: Seq<Option<GraphError>>, error: GraphError) -> bool {
    exists|i: int|
        0 <= i < verdicts.len() && #[trigger] verdicts[i] == Some(error) && forall|j: int|
            0 <= j < i ==> verdicts[j] is None
}

/// The recorded writer of an image agrees with the list of the writes to it:
/// none where that list is empty, else the one write in it.
pub open spec fn writer_matches(recorded: Option<ImageOpAccess>, writes: Seq<AccessModel>) -> bool {
    match recorded {
        None => writes.len() == 0,
        Some(w) => writes.len() == 1 && writes[0] == w@,
    }
}

/// Builder of render graphs.
pub struct GraphEditor {
    buffers: Resources<GraphBufferInfo>,
    images: Resources<GraphImageInfo>,
    nodes: Arena<GraphNode>,
    node_labels: ArenaMap<GraphKey, String>,
}

impl GraphEditor {
    /// The slots of the nodes, by node key.
    pub closed spec fn nodes(&self) -> Seq<NodeModel> {
        node_models(self.nodes@)
    }

    /// The labels of the nodes, by node key.
    pub closed spec fn node_labels(&self) -> Map<nat, String> {
        self.node_labels@
    }

    /// The images and their side tables.
    pub closed spec fn images(&self) -> Resources<GraphImageInfo> {
        self.images
    }

    /// The buffers and their side tables.
    pub closed spec fn buffers(&self) -> Resources<GraphBufferInfo> {
        self.buffers
    }

    /// The side tables of `image` hold these reads, these writes and this
    /// usage.
    pub open spec fn tables_hold(
        &self,
        image: nat,
        reads: Seq<AccessModel>,
        produced: Seq<AccessModel>,
        consumed: Seq<AccessModel>,
        usage: ImageUsageFlags,
    ) -> bool {
        let recorded = self.images().accesses()[image];
        &&& access_models(recorded.readers@) == reads
        &&& writer_matches(recorded.produced_by, produced)
        &&& writer_matches(recorded.consumed_by, consumed)
        &&& self.images().usages()[image] == usage
    }

    /// The side tables of every image hold what follows from the slots of
    /// the nodes; every slot names an image of the graph; no image has two
    /// producers or two consumers; every node has a label.
    pub open spec fn wf(&self) -> bool {
        &&& self.images().wf()
        &&& self.buffers().wf()
        &&& self.labels_wf()
        &&& self.nodes().len() <= u32::MAX
        &&& forall|k: nat| #[trigger] self.node_labels().contains_key(k) <==> k < self.nodes().len()
        &&& slots_in_range(self.nodes(), self.images().infos().len())
        &&& single_writers(self.nodes())
        &&& forall|image: nat|
            image < self.images().infos().len() ==> #[trigger] self.tables_hold(
                image,
                readers(self.nodes(), self.nodes().len(), image),
                producers(self.nodes(), self.nodes().len(), image),
                consumers(self.nodes(), self.nodes().len(), image),
                usage(self.nodes(), self.nodes().len(), image),
            )
    }

    /// The table of node labels is well-formed.
    pub closed spec fn labels_wf(&self) -> bool {
        self.node_labels.wf()
    }

    /// An editor without images, buffers or nodes.
    pub fn new() -> (editor: GraphEditor)
        ensures
            editor.wf(),
            editor.nodes().len() == 0,
            editor.images().infos().len() == 0,
            editor.buffers().infos().len() == 0,
    {
        let editor = GraphEditor {
            buffers: Resources::new(),
            images: Resources::new(),
            nodes: Arena::new(),
            node_labels: ArenaMap::new(),
        };
        proof {
            editor.images.lemma_wf();
        }
        editor
    }

    /// The number of nodes.
    pub fn num_nodes(&self) -> (n: usize)
        ensures
            n == self.nodes().len(),
    {
        self.nodes.len()
    }

    /// The number of images.
    pub fn num_images(&self) -> (n: usize)
        ensures
            n == self.images().infos().len(),
    {
        self.images.len()
    }

    /// The number of buffers.
    pub fn num_buffers(&self) -> (n: usize)
        ensures
            n == self.buffers().infos().len(),
    {
        self.buffers.len()
    }

    /// The slots of node `key`.
    pub fn node(&self, key: GraphKey) -> (node: Option<&GraphNode>)
        ensures
            key@ >= self.nodes().len() ==> node is None,
            key@ < self.nodes().len() ==> node is Some && node->0@ == self.nodes()[key@ as int],
    {
        self.nodes.get(key)
    }

    /// The label of node `key`.
    pub fn node_label(&self, key: GraphKey) -> (label: Option<&String>)
        ensures
            label == if self.node_labels().contains_key(key@) {
                Some(&self.node_labels()[key@])
            } else {
                None
            },
    {
        self.node_labels.get(key)
    }

    /// The images with their side tables.
    pub fn image_resources(&self) -> (images: &Resources<GraphImageInfo>)
        ensures
            *images == self.images(),
    {
        &self.images
    }

    /// Registers a buffer.
    pub fn add_buffer(&mut self, label: String, info: GraphBufferInfo) -> (key: GraphBuffer)
        requires
            old(self).wf(),
            old(self).buffers().infos().len() < u32::MAX,
        ensures
            final(self).wf(),
            key@ == old(self).buffers().infos().len(),
            final(self).buffers().infos() == old(self).buffers().infos().push(info),
            final(self).buffers().labels() == old(self).buffers().labels().insert(key@, label),
            final(self).images() == old(self).images(),
            final(self).nodes() == old(self).nodes(),
            final(self).node_labels() == old(self).node_labels(),
    {
        let key = self.buffers.add_resource(label, info);
        proof {
            assert(self.node_labels() == old(self).node_labels());
            assert(self.nodes() == old(self).nodes());
            assert forall|image: nat| image < self.images().infos().len() implies #[trigger] self.tables_hold(
                image,
                readers(self.nodes(), self.nodes().len(), image),
                producers(self.nodes(), self.nodes().len(), image),
                consumers(self.nodes(), self.nodes().len(), image),
                usage(self.nodes(), self.nodes().len(), image),
            ) by {
                assert(old(self).tables_hold(
                    image,
                    readers(self.nodes(), self.nodes().len(), image),
                    producers(self.nodes(), self.nodes().len(), image),
                    consumers(self.nodes(), self.nodes().len(), image),
                    usage(self.nodes(), self.nodes().len(), image),
                ));
            }
        }
        key
    }

    /// Registers an image. No node touches it yet.
    pub fn add_image(&mut self, label: String, info: GraphImageInfo) -> (key: GraphImage)
        requires
            old(self).wf(),
            old(self).images().infos().len() < u32::MAX,
        ensures
            final(self).wf(),
            key@ == old(self).images().infos().len(),
            final(self).images().infos() == old(self).images().infos().push(info),
            final(self).images().labels() == old(self).images().labels().insert(key@, label),
            final(self).buffers() == old(self).buffers(),
            final(self).nodes() == old(self).nodes(),
            final(self).node_labels() == old(self).node_labels(),
    {
        proof {
            old(self).images.lemma_wf();
            old(self).lemma_untouched(old(self).images().infos().len());
        }
        let key = self.images.add_resource(label, info);
        proof {
            assert(self.node_labels() == old(self).node_labels());
            assert(self.nodes() == old(self).nodes());
            self.images.lemma_wf();
            let nodes = self.nodes();
            assert forall|image: nat| image < self.images().infos().len() implies #[trigger] self.tables_hold(
                image,
                readers(nodes, nodes.len(), image),
                producers(nodes, nodes.len(), image),
                consumers(nodes, nodes.len(), image),
                usage(nodes, nodes.len(), image),
            ) by {
                if image < key@ {
                    assert(old(self).tables_hold(
                        image,
                        readers(nodes, nodes.len(), image),
                        producers(nodes, nodes.len(), image),
                        consumers(nodes, nodes.len(), image),
                        usage(nodes, nodes.len(), image),
                    ));
                } else {
                    assert(image == key@);
                    let recorded = self.images().accesses()[image];
                    assert(recorded.readers@.len() == 0);
                    assert(access_models(recorded.readers@) =~= Seq::<AccessModel>::empty());
                    assert(readers(nodes, nodes.len(), image) =~= Seq::<AccessModel>::empty());
                    assert(access_models(recorded.readers@) == readers(nodes, nodes.len(), image));
                    assert(writer_matches(recorded.produced_by, producers(nodes, nodes.len(), image)));
                    assert(writer_matches(recorded.consumed_by, consumers(nodes, nodes.len(), image)));
                    assert(self.images().usages()[image] == 0);
                    assert(usage(nodes, nodes.len(), image) == 0);
                }
            }
            assert(slots_in_range(nodes, self.images().infos().len()));
        }
        key
    }

    /// No slot touches an image that is not in the graph.
    proof fn lemma_untouched(&self, image: nat)
        requires
            slots_in_range(self.nodes(), self.images().infos().len()),
            image >= self.images().infos().len(),
        ensures
            readers(self.nodes(), self.nodes().len(), image).len() == 0,
            producers(self.nodes(), self.nodes().len(), image).len() == 0,
            consumers(self.nodes(), self.nodes().len(), image).len() == 0,
            usage(self.nodes(), self.nodes().len(), image) == 0,
    {
        lemma_untouched_upto(self.nodes(), self.images().infos().len(), self.nodes().len(), image);
    }
}

/// Does one of the first `upto` outputs supersede `image`?
fn earlier_supersedes(outputs: &Vec<OutputImage>, upto: usize, image: GraphImage) -> (found: bool)
    requires
        upto <= outputs@.len(),
    ensures
        found == supersedes(outputs@, upto as int, image@),
{
    let mut j: usize = 0;
    while j < upto
        invariant
            j <= upto <= outputs@.len(),
            !supersedes(outputs@, j as int, image@),
        decreases upto - j,
    {
        match outputs[j].consumed {
            Some(c) => {
                if c == image {
                    assert(outputs@[j as int].consumed->0@ == image@);
                    return true;
                }
            },
            None => {},
        }
        j += 1;
    }
    false
}

/// Does one of the first `upto` outputs produce `image`?
fn earlier_produces(outputs: &Vec<OutputImage>, upto: usize, image: GraphImage) -> (found: bool)
    requires
        upto <= outputs@.len(),
    ensures
        found == produces(outputs@, upto as int, image@),
{
    let mut j: usize = 0;
    while j < upto
        invariant
            j <= upto <= outputs@.len(),
            !produces(outputs@, j as int, image@),
        decreases upto - j,
    {
        if outputs[j].key == image {
            assert(outputs@[j as int].key@ == image@);
            return true;
        }
        j += 1;
    }
    false
}

impl GraphEditor {
    /// The side tables hold the history of `before` and, of the node with
    /// the slots `node` that is being added at position `index`, the first
    /// `i` inputs and the first `o` outputs.
    spec fn applied(&self, before: Seq<NodeModel>, node: NodeModel, index: nat, i: nat, o: nat) -> bool {
        forall|image: nat|
            image < self.images().infos().len() ==> #[trigger] self.tables_hold(
                image,
                readers(before, before.len(), image) + slot_readers(node.inputs, i, index, image),
                producers(before, before.len(), image) + slot_producers(node.outputs, o, index, image),
                consumers(before, before.len(), image) + slot_consumers(node.outputs, o, index, image),
                outputs_usage(
                    inputs_usage(usage(before, before.len(), image), node.inputs, i, image),
                    node.outputs,
                    o,
                    image,
                ),
            )
    }

    /// Looks at the slots of a new node in order and reports the first
    /// complaint.
    fn check_node(&self, node: &GraphNode) -> (result: Result<(), GraphError>)
        requires
            self.wf(),
        ensures
            result is Ok <==> forall|i: int|
                0 <= i < verdicts(self.nodes(), self.images().infos().len(), node@).len()
                    ==> #[trigger] verdicts(self.nodes(), self.images().infos().len(), node@)[i] is None,
            result matches Err(e) ==> first_complaint(
                verdicts(self.nodes(), self.images().infos().len(), node@),
                e,
            ),
    {
        let ghost all = verdicts(self.nodes(), self.images().infos().len(), node@);
        let ghost nodes = self.nodes();
        let n_images = self.images.len();
        let inputs = &node.inputs.images;
        let outputs = &node.outputs.images;
        proof {
            self.images.lemma_wf();
        }
        let mut i: usize = 0;
        while i < inputs.len()
            invariant
                i <= inputs@.len(),
                inputs@ == node@.inputs,
                all == verdicts(self.nodes(), self.images().infos().len(), node@),
                n_images == self.images().infos().len(),
                forall|j: int| 0 <= j < i ==> #[trigger] all[j] is None,
            decreases inputs@.len() - i,
        {
            if inputs[i].key.index() >= n_images {
                proof {
                    assert(all[i as int] == Some(GraphError::UnknownImage(inputs@[i as int].key)));
                }
                return Err(GraphError::UnknownImage(inputs[i].key));
            }
            assert(all[i as int] is None);
            i += 1;
        }
        let ghost base = inputs@.len() as int;
        let mut k: usize = 0;
        while k < outputs.len()
            invariant
                self.wf(),
                nodes == self.nodes(),
                k <= outputs@.len(),
                inputs@ == node@.inputs,
                outputs@ == node@.outputs,
                base == inputs@.len(),
                all == verdicts(self.nodes(), self.images().infos().len(), node@),
                n_images == self.images().infos().len(),
                forall|j: int| 0 <= j < base + k ==> #[trigger] all[j] is None,
            decreases outputs@.len() - k,
        {
            let slot = outputs[k];
            let ghost verdict = output_verdict(nodes, n_images as nat, outputs@, k as int);
            assert(all[base + k] == verdict);
            if slot.key.index() >= n_images {
                return Err(GraphError::UnknownImage(slot.key));
            }
            match slot.consumed {
                Some(c) => {
                    if c.index() >= n_images {
                        return Err(GraphError::UnknownImage(c));
                    }
                    let recorded = self.images.access(c).unwrap();
                    assert(self.tables_hold(
                        c@,
                        readers(nodes, nodes.len(), c@),
                        producers(nodes, nodes.len(), c@),
                        consumers(nodes, nodes.len(), c@),
                        usage(nodes, nodes.len(), c@),
                    ));
                    if recorded.consumed_by.is_some() || earlier_supersedes(outputs, k, c) {
                        return Err(GraphError::DuplicateConsumer(c));
                    }
                },
                None => {},
            }
            let recorded = self.images.access(slot.key).unwrap();
            assert(self.tables_hold(
                slot.key@,
                readers(nodes, nodes.len(), slot.key@),
                producers(nodes, nodes.len(), slot.key@),
                consumers(nodes, nodes.len(), slot.key@),
                usage(nodes, nodes.len(), slot.key@),
            ));
            if recorded.produced_by.is_some() || earlier_produces(outputs, k, slot.key) {
                return Err(GraphError::DuplicateProducer(slot.key));
            }
            assert(verdict is None);
            k += 1;
        }
        Ok(())
    }
}

impl GraphEditor {
    /// Records the reads of the inputs of the node that is being added.
    fn apply_inputs(&mut self, node: &GraphNode, node_key: GraphKey, Ghost(before): Ghost<Seq<NodeModel>>)
        requires
            old(self).images().wf(),
            old(self).applied(before, node@, node_key@, 0, 0),
            forall|i: int|
                0 <= i < node@.inputs.len() ==> (#[trigger] node@.inputs[i]).key@ < old(
                    self,
                ).images().infos().len(),
        ensures
            final(self).images().wf(),
            final(self).applied(before, node@, node_key@, node@.inputs.len(), 0),
            final(self).images().infos() == old(self).images().infos(),
            final(self).images().labels() == old(self).images().labels(),
            final(self).buffers() == old(self).buffers(),
            final(self).nodes == old(self).nodes,
            final(self).node_labels == old(self).node_labels,
    {
        let inputs = &node.inputs.images;
        let ghost slots = node@;
        let ghost index = node_key@;
        let mut i: usize = 0;
        while i < inputs.len()
            invariant
                i <= inputs@.len(),
                inputs@ == slots.inputs,
                slots == node@,
                index == node_key@,
                self.images().wf(),
                self.applied(before, slots, index, i as nat, 0),
                forall|j: int|
                    0 <= j < slots.inputs.len() ==> (#[trigger] slots.inputs[j]).key@
                        < self.images().infos().len(),
                self.images().infos() == old(self).images().infos(),
                self.images().labels() == old(self).images().labels(),
                self.buffers() == old(self).buffers(),
                self.nodes == old(self).nodes,
                self.node_labels == old(self).node_labels,
            decreases inputs@.len() - i,
        {
            let input = inputs[i];
            let ghost prev = *self;
            assert(slots.inputs[i as int].key@ < self.images().infos().len());
            proof {
                self.images.lemma_wf();
            }
            self.images.add_usage(input.key, input.usage);
            let recorded = self.images.access_mut(input.key);
            recorded.add_reader(node_key, input.access);
            proof {
                self.images.lemma_wf();
                assert forall|image: nat| image < self.images().infos().len() implies #[trigger] self.tables_hold(
                    image,
                    readers(before, before.len(), image) + slot_readers(slots.inputs, (i + 1) as nat, index, image),
                    producers(before, before.len(), image) + slot_producers(slots.outputs, 0, index, image),
                    consumers(before, before.len(), image) + slot_consumers(slots.outputs, 0, index, image),
                    outputs_usage(
                        inputs_usage(usage(before, before.len(), image), slots.inputs, (i + 1) as nat, image),
                        slots.outputs,
                        0,
                        image,
                    ),
                ) by {
                    assert(prev.tables_hold(
                        image,
                        readers(before, before.len(), image) + slot_readers(slots.inputs, i as nat, index, image),
                        producers(before, before.len(), image) + slot_producers(slots.outputs, 0, index, image),
                        consumers(before, before.len(), image) + slot_consumers(slots.outputs, 0, index, image),
                        outputs_usage(
                            inputs_usage(usage(before, before.len(), image), slots.inputs, i as nat, image),
                            slots.outputs,
                            0,
                            image,
                        ),
                    ));
                    if image == input.key@ {
                        let was = prev.images().accesses()[image].readers@;
                        let now = self.images().accesses()[image].readers@;
                        let added = AccessModel { node: index, access: input.access };
                        assert(access_models(now) =~= access_models(was).push(added));
                        assert((readers(before, before.len(), image) + slot_readers(
                            slots.inputs,
                            i as nat,
                            index,
                            image,
                        )).push(added) =~= readers(before, before.len(), image) + slot_readers(
                            slots.inputs,
                            (i + 1) as nat,
                            index,
                            image,
                        ));
                    }
                }
            }
            i += 1;
        }
    }

    /// Records the writes of the outputs of the node that is being added.
    fn apply_outputs(&mut self, node: &GraphNode, node_key: GraphKey, Ghost(before): Ghost<Seq<NodeModel>>)
        requires
            old(self).images().wf(),
            old(self).applied(before, node@, node_key@, node@.inputs.len(), 0),
            forall|k: int|
                0 <= k < node@.outputs.len() ==> output_verdict(
                    before,
                    old(self).images().infos().len(),
                    node@.outputs,
                    k,
                ) is None,
        ensures
            final(self).images().wf(),
            final(self).applied(before, node@, node_key@, node@.inputs.len(), node@.outputs.len()),
            final(self).images().infos() == old(self).images().infos(),
            final(self).images().labels() == old(self).images().labels(),
            final(self).buffers() == old(self).buffers(),
            final(self).nodes == old(self).nodes,
            final(self).node_labels == old(self).node_labels,
    {
        let outputs = &node.outputs.images;
        let ghost slots = node@;
        let ghost index = node_key@;
        let ghost all_in = slots.inputs.len();
        let ghost n_images = self.images().infos().len();
        proof {
            assert forall|a: int, b: int| 0 <= a < b < slots.outputs.len() implies slots.outputs[a].key@
                != slots.outputs[b].key@ by {
                assert(output_verdict(before, n_images, slots.outputs, b) is None);
                if slots.outputs[a].key@ == slots.outputs[b].key@ {
                    assert(produces(slots.outputs, b, slots.outputs[b].key@));
                }
            }
            assert forall|a: int, b: int|
                0 <= a < b < slots.outputs.len() && slots.outputs[a].consumed is Some
                    && slots.outputs[b].consumed is Some implies slots.outputs[a].consumed->0@
                != slots.outputs[b].consumed->0@ by {
                assert(output_verdict(before, n_images, slots.outputs, b) is None);
                if slots.outputs[a].consumed->0@ == slots.outputs[b].consumed->0@ {
                    assert(supersedes(slots.outputs, b, slots.outputs[b].consumed->0@));
                }
            }
        }
        let mut k: usize = 0;
        while k < outputs.len()
            invariant
                k <= outputs@.len(),
                outputs@ == slots.outputs,
                slots == node@,
                index == node_key@,
                all_in == slots.inputs.len(),
                n_images == self.images().infos().len(),
                self.images().wf(),
                self.applied(before, slots, index, all_in, k as nat),
                forall|j: int|
                    0 <= j < slots.outputs.len() ==> output_verdict(before, n_images, slots.outputs, j) is None,
                forall|a: int, b: int|
                    0 <= a < b < slots.outputs.len() ==> slots.outputs[a].key@ != slots.outputs[b].key@,
                forall|a: int, b: int|
                    0 <= a < b < slots.outputs.len() && slots.outputs[a].consumed is Some
                        && slots.outputs[b].consumed is Some ==> slots.outputs[a].consumed->0@
                        != slots.outputs[b].consumed->0@,
                self.images().infos() == old(self).images().infos(),
                self.images().labels() == old(self).images().labels(),
                self.buffers() == old(self).buffers(),
                self.nodes == old(self).nodes,
                self.node_labels == old(self).node_labels,
            decreases outputs@.len() - k,
        {
            let output = outputs[k];
            let ghost prev = *self;
            let ghost added = AccessModel { node: index, access: output.access };
            proof {
                self.images.lemma_wf();
                assert(output_verdict(before, n_images, slots.outputs, k as int) is None);
            }
            self.images.add_usage(output.key, output.usage);
            let ghost mid = *self;
            match output.consumed {
                Some(c) => {
                    proof {
                        self.images.lemma_wf();
                        assert(prev.tables_hold(
                            c@,
                            readers(before, before.len(), c@) + slot_readers(slots.inputs, all_in, index, c@),
                            producers(before, before.len(), c@) + slot_producers(slots.outputs, k as nat, index, c@),
                            consumers(before, before.len(), c@) + slot_consumers(slots.outputs, k as nat, index, c@),
                            outputs_usage(
                                inputs_usage(usage(before, before.len(), c@), slots.inputs, all_in, c@),
                                slots.outputs,
                                k as nat,
                                c@,
                            ),
                        ));
                        lemma_slot_consumers_distinct(slots.outputs, k as nat, index, c@);
                        assert(!supersedes(slots.outputs, k as int, c@));
                    }
                    let recorded = self.images.access_mut(c);
                    recorded.set_consumer(node_key, output.access);
                },
                None => {},
            }
            let ghost late = *self;
            proof {
                self.images.lemma_wf();
                let p = output.key@;
                assert(prev.tables_hold(
                    p,
                    readers(before, before.len(), p) + slot_readers(slots.inputs, all_in, index, p),
                    producers(before, before.len(), p) + slot_producers(slots.outputs, k as nat, index, p),
                    consumers(before, before.len(), p) + slot_consumers(slots.outputs, k as nat, index, p),
                    outputs_usage(
                        inputs_usage(usage(before, before.len(), p), slots.inputs, all_in, p),
                        slots.outputs,
                        k as nat,
                        p,
                    ),
                ));
                lemma_slot_producers_distinct(slots.outputs, k as nat, index, p);
                assert(!produces(slots.outputs, k as int, p));
                assert(late.images().accesses()[p].produced_by == prev.images().accesses()[p].produced_by);
            }
            let recorded = self.images.access_mut(output.key);
            recorded.set_producer(node_key, output.access);
            proof {
                self.images.lemma_wf();
                assert forall|image: nat| image < self.images().infos().len() implies #[trigger] self.tables_hold(
                    image,
                    readers(before, before.len(), image) + slot_readers(slots.inputs, all_in, index, image),
                    producers(before, before.len(), image) + slot_producers(slots.outputs, (k + 1) as nat, index, image),
                    consumers(before, before.len(), image) + slot_consumers(slots.outputs, (k + 1) as nat, index, image),
                    outputs_usage(
                        inputs_usage(usage(before, before.len(), image), slots.inputs, all_in, image),
                        slots.outputs,
                        (k + 1) as nat,
                        image,
                    ),
                ) by {
                    assert(prev.tables_hold(
                        image,
                        readers(before, before.len(), image) + slot_readers(slots.inputs, all_in, index, image),
                        producers(before, before.len(), image) + slot_producers(slots.outputs, k as nat, index, image),
                        consumers(before, before.len(), image) + slot_consumers(slots.outputs, k as nat, index, image),
                        outputs_usage(
                            inputs_usage(usage(before, before.len(), image), slots.inputs, all_in, image),
                            slots.outputs,
                            k as nat,
                            image,
                        ),
                    ));
                    let was = prev.images().accesses()[image];
                    let now = self.images().accesses()[image];
                    assert(now.readers@ == was.readers@);
                    if image == output.key@ {
                        assert(now.produced_by == Some(ImageOpAccess { node_key, access: output.access }));
                        assert((producers(before, before.len(), image) + slot_producers(
                            slots.outputs,
                            k as nat,
                            index,
                            image,
                        )).push(added) =~= producers(before, before.len(), image) + slot_producers(
                            slots.outputs,
                            (k + 1) as nat,
                            index,
                            image,
                        ));
                    } else {
                        assert(now.produced_by == was.produced_by);
                    }
                    if output.consumed is Some && output.consumed->0@ == image {
                        assert(now.consumed_by == Some(ImageOpAccess { node_key, access: output.access }));
                        assert((consumers(before, before.len(), image) + slot_consumers(
                            slots.outputs,
                            k as nat,
                            index,
                            image,
                        )).push(added) =~= consumers(before, before.len(), image) + slot_consumers(
                            slots.outputs,
                            (k + 1) as nat,
                            index,
                            image,
                        ));
                    } else {
                        assert(now.consumed_by == was.consumed_by);
                    }
                }
            }
            k += 1;
        }
    }

    /// Adds a node: takes down the slots that it declares.
    ///
    /// The slots are looked at in order, the inputs first. The node is
    /// refused with the first complaint: a slot that names an image that is
    /// not in the graph, an output that supersedes an image that already has
    /// a consumer, or an output that produces an image that already has a
    /// producer. A refused node leaves the editor as it was.
    pub fn add_node<N: Node>(&mut self, label: String, node: N) -> (result: Result<GraphKey, GraphError>)
        requires
            old(self).wf(),
            old(self).nodes().len() < u32::MAX,
        ensures
            final(self).wf(),
            final(self).images().infos() == old(self).images().infos(),
            final(self).images().labels() == old(self).images().labels(),
            final(self).buffers() == old(self).buffers(),
            result is Ok <==> forall|i: int|
                0 <= i < verdicts(old(self).nodes(), old(self).images().infos().len(), node.slots()).len()
                    ==> #[trigger] verdicts(
                    old(self).nodes(),
                    old(self).images().infos().len(),
                    node.slots(),
                )[i] is None,
            result matches Err(e) ==> {
                &&& first_complaint(
                    verdicts(old(self).nodes(), old(self).images().infos().len(), node.slots()),
                    e,
                )
                &&& *final(self) == *old(self)
            },
            result matches Ok(key) ==> {
                &&& key@ == old(self).nodes().len()
                &&& final(self).nodes() == old(self).nodes().push(node.slots())
                &&& final(self).node_labels() == old(self).node_labels().insert(key@, label)
            },
    {
        self.add_graph_node(label, GraphNode::copy_of(&node))
    }

    /// Adds a node with the slots `node`, as [`GraphEditor::add_node`] does
    /// for the slots that a node declares.
    pub fn add_graph_node(&mut self, label: String, node: GraphNode) -> (result: Result<GraphKey, GraphError>)
        requires
            old(self).wf(),
            old(self).nodes().len() < u32::MAX,
        ensures
            final(self).wf(),
            final(self).images().infos() == old(self).images().infos(),
            final(self).images().labels() == old(self).images().labels(),
            final(self).buffers() == old(self).buffers(),
            result is Ok <==> forall|i: int|
                0 <= i < verdicts(old(self).nodes(), old(self).images().infos().len(), node@).len()
                    ==> #[trigger] verdicts(
                    old(self).nodes(),
                    old(self).images().infos().len(),
                    node@,
                )[i] is None,
            result matches Err(e) ==> {
                &&& first_complaint(verdicts(old(self).nodes(), old(self).images().infos().len(), node@), e)
                &&& *final(self) == *old(self)
            },
            result matches Ok(key) ==> {
                &&& key@ == old(self).nodes().len()
                &&& final(self).nodes() == old(self).nodes().push(node@)
                &&& final(self).node_labels() == old(self).node_labels().insert(key@, label)
            },
    {
        match self.check_node(&node) {
            Err(e) => {
                return Err(e);
            },
            Ok(()) => {},
        }
        let ghost before = self.nodes();
        let ghost slots = node@;
        let ghost n_images = self.images().infos().len();
        let ghost all = verdicts(before, n_images, slots);
        let node_key = self.nodes.next_key();
        proof {
            self.images.lemma_wf();
            assert forall|image: nat| image < n_images implies #[trigger] self.tables_hold(
                image,
                readers(before, before.len(), image) + slot_readers(slots.inputs, 0, node_key@, image),
                producers(before, before.len(), image) + slot_producers(slots.outputs, 0, node_key@, image),
                consumers(before, before.len(), image) + slot_consumers(slots.outputs, 0, node_key@, image),
                outputs_usage(
                    inputs_usage(usage(before, before.len(), image), slots.inputs, 0, image),
                    slots.outputs,
                    0,
                    image,
                ),
            ) by {
                assert(self.tables_hold(
                    image,
                    readers(before, before.len(), image),
                    producers(before, before.len(), image),
                    consumers(before, before.len(), image),
                    usage(before, before.len(), image),
                ));
                assert(readers(before, before.len(), image) + slot_readers(slots.inputs, 0, node_key@, image)
                    =~= readers(before, before.len(), image));
                assert(producers(before, before.len(), image) + slot_producers(slots.outputs, 0, node_key@, image)
                    =~= producers(before, before.len(), image));
                assert(consumers(before, before.len(), image) + slot_consumers(slots.outputs, 0, node_key@, image)
                    =~= consumers(before, before.len(), image));
            }
            assert forall|i: int| 0 <= i < slots.inputs.len() implies (#[trigger] slots.inputs[i]).key@
                < n_images by {
                assert(all[i] is None);
            }
            assert forall|k: int| 0 <= k < slots.outputs.len() implies output_verdict(
                before,
                n_images,
                slots.outputs,
                k,
            ) is None by {
                assert(all[slots.inputs.len() + k] is None);
            }
        }
        self.apply_inputs(&node, node_key, Ghost(before));
        self.apply_outputs(&node, node_key, Ghost(before));
        let ghost filled = *self;
        let key = self.nodes.allocate(node);
        self.node_labels.insert(key, label);
        proof {
            let after = self.nodes();
            assert(after =~= before.push(slots));
            self.images.lemma_wf();
            assert forall|image: nat| image < n_images implies #[trigger] self.tables_hold(
                image,
                readers(after, after.len(), image),
                producers(after, after.len(), image),
                consumers(after, after.len(), image),
                usage(after, after.len(), image),
            ) by {
                lemma_history_push(before, slots, image);
                assert(self.images() == filled.images());
                assert(filled.tables_hold(
                    image,
                    readers(before, before.len(), image) + slot_readers(
                        slots.inputs,
                        slots.inputs.len(),
                        node_key@,
                        image,
                    ),
                    producers(before, before.len(), image) + slot_producers(
                        slots.outputs,
                        slots.outputs.len(),
                        node_key@,
                        image,
                    ),
                    consumers(before, before.len(), image) + slot_consumers(
                        slots.outputs,
                        slots.outputs.len(),
                        node_key@,
                        image,
                    ),
                    outputs_usage(
                        inputs_usage(usage(before, before.len(), image), slots.inputs, slots.inputs.len(), image),
                        slots.outputs,
                        slots.outputs.len(),
                        image,
                    ),
                ));
            }
            assert(slots_in_range(after, n_images)) by {
                assert forall|n: int| 0 <= n < after.len() implies {
                    &&& forall|i: int|
                        0 <= i < (#[trigger] after[n]).inputs.len() ==> (#[trigger] after[n].inputs[i]).key@
                            < n_images
                    &&& forall|o: int|
                        0 <= o < after[n].outputs.len() ==> {
                            &&& (#[trigger] after[n].outputs[o]).key@ < n_images
                            &&& after[n].outputs[o].consumed matches Some(c) ==> c@ < n_images
                        }
                } by {
                    if n < before.len() {
                        assert(after[n] == before[n]);
                    } else {
                        assert(after[n] == slots);
                        assert forall|o: int| 0 <= o < slots.outputs.len() implies {
                            &&& (#[trigger] slots.outputs[o]).key@ < n_images
                            &&& slots.outputs[o].consumed matches Some(c) ==> c@ < n_images
                        } by {
                            assert(output_verdict(before, n_images, slots.outputs, o) is None);
                        }
                    }
                }
            }
            assert(single_writers(after)) by {
                assert forall|image: nat|
                    #![trigger producers(after, after.len(), image)]
                    #![trigger consumers(after, after.len(), image)]
                    producers(after, after.len(), image).len() <= 1 && consumers(
                        after,
                        after.len(),
                        image,
                    ).len() <= 1 by {
                    if image < n_images {
                        assert(self.tables_hold(
                            image,
                            readers(after, after.len(), image),
                            producers(after, after.len(), image),
                            consumers(after, after.len(), image),
                            usage(after, after.len(), image),
                        ));
                    } else {
                        lemma_untouched_upto(after, n_images, after.len(), image);
                    }
                }
            }
            assert(self.node_labels() == old(self).node_labels().insert(key@, label));
            assert forall|k: nat| #[trigger] self.node_labels().contains_key(k) <==> k < self.nodes().len() by {
                assert(old(self).node_labels().contains_key(k) <==> k < old(self).nodes().len());
            }
        }
        Ok(key)
    }
}

/// What is wrong with an image when the graph is built, if anything: an
/// image that is read or superseded needs a producer, and its readers must
/// ask for the same layout.
pub open spec fn image_verdict(nodes: Seq<NodeModel>, image: nat) -> Option<GraphError> {
    if is_used(nodes, image) && producers(nodes, nodes.len(), image).len() == 0 {
        Some(GraphError::NoProducer(Key::at(image)))
    } else if !readers_agree(nodes, image) {
        Some(GraphError::ReaderLayoutMismatch(Key::at(image)))
    } else {
        None
    }
}

/// The verdicts on a graph that is built for `final_image`, in the order
/// in which they are reached: the final image must be in the graph, it must
/// have a producer, and then each image in the order of the keys must be in
/// order.
pub open spec fn build_verdicts(nodes: Seq<NodeModel>, images: nat, final_image: GraphImage) -> Seq<
    Option<GraphError>,
> {
    Seq::new(
        images + 2,
        |i: int|
            if i == 0 {
                if final_image@ >= images {
                    Some(GraphError::UnknownImage(final_image))
                } else {
                    None
                }
            } else if i == 1 {
                if producers(nodes, nodes.len(), final_image@).len() == 0 {
                    Some(GraphError::NoProducer(final_image))
                } else {
                    None
                }
            } else {
                image_verdict(nodes, (i - 2) as nat)
            },
    )
}

impl GraphEditor {
    /// Looks at the images in the order of their keys and reports the first
    /// complaint.
    fn check_images(&self) -> (result: Result<(), GraphError>)
        requires
            self.wf(),
        ensures
            result is Ok <==> forall|image: nat|
                image < self.images().infos().len() ==> #[trigger] image_verdict(self.nodes(), image) is None,
            result matches Err(e) ==> exists|image: nat|
                {
                    &&& image < self.images().infos().len()
                    &&& #[trigger] image_verdict(self.nodes(), image) == Some(e)
                    &&& forall|earlier: nat| earlier < image ==> image_verdict(self.nodes(), earlier) is None
                },
    {
        let ghost nodes = self.nodes();
        let n = self.images.len();
        proof {
            self.images.lemma_wf();
        }
        let mut index: usize = 0;
        while index < n
            invariant
                self.wf(),
                nodes == self.nodes(),
                n == self.images().infos().len(),
                n <= u32::MAX,
                index <= n,
                forall|image: nat| image < index ==> #[trigger] image_verdict(nodes, image) is None,
            decreases n - index,
        {
            let key: GraphImage = Key::from_index(index as u32);
            let ghost image = index as nat;
            proof {
                self.images.lemma_wf();
                assert(self.tables_hold(
                    image,
                    readers(nodes, nodes.len(), image),
                    producers(nodes, nodes.len(), image),
                    consumers(nodes, nodes.len(), image),
                    usage(nodes, nodes.len(), image),
                ));
            }
            let recorded = self.images.access(key).unwrap();
            let ghost reads = readers(nodes, nodes.len(), image);
            assert(recorded.readers@.len() == reads.len());
            let used = recorded.readers.len() > 0 || recorded.consumed_by.is_some();
            if used && recorded.produced_by.is_none() {
                proof {
                    assert(image_verdict(nodes, image) == Some(GraphError::NoProducer(key)));
                }
                return Err(GraphError::NoProducer(key));
            }
            let mut r: usize = 1;
            while r < recorded.readers.len()
                invariant
                    1 <= r,
                    nodes == self.nodes(),
                    n == self.images().infos().len(),
                    index < n,
                    image == index,
                    key == Key::<GraphImageInfo>::at(image),
                    forall|earlier: nat| earlier < index ==> #[trigger] image_verdict(nodes, earlier) is None,
                    !(is_used(nodes, image) && producers(nodes, nodes.len(), image).len() == 0),
                    reads == readers(nodes, nodes.len(), image),
                    access_models(recorded.readers@) == reads,
                    forall|x: int| 0 <= x < r && x < reads.len() ==> (#[trigger] reads[x]).access.layout
                        == reads[0].access.layout,
                decreases recorded.readers@.len() - r,
            {
                assert(reads[r as int] == recorded.readers@[r as int]@);
                assert(reads[0] == recorded.readers@[0]@);
                if recorded.readers[r].access.layout != recorded.readers[0].access.layout {
                    proof {
                        assert(!readers_agree(nodes, image));
                        assert(image_verdict(nodes, image) == Some(GraphError::ReaderLayoutMismatch(key)));
                    }
                    return Err(GraphError::ReaderLayoutMismatch(key));
                }
                r += 1;
            }
            assert(readers_agree(nodes, image));
            assert(image_verdict(nodes, image) is None);
            index += 1;
        }
        Ok(())
    }

    /// The number of dependencies of all nodes together, if it is below
    /// 2^32 - 1.
    fn count_dependencies(&self) -> (total: Option<u32>)
        requires
            self.wf(),
        ensures
            total == if total_deps(self.nodes(), self.nodes().len()) < u32::MAX {
                Some(total_deps(self.nodes(), self.nodes().len()) as u32)
            } else {
                None
            },
    {
        let ghost nodes = self.nodes();
        let ghost n_images = self.images().infos().len();
        let count = self.nodes.len();
        let mut acc: usize = 0;
        let mut n: usize = 0;
        while n < count
            invariant
                self.wf(),
                nodes == self.nodes(),
                n_images == self.images().infos().len(),
                count == nodes.len(),
                n <= count,
                acc == total_deps(nodes, n as nat),
                acc < u32::MAX,
            decreases count - n,
        {
            let node = self.nodes.index(Key::from_index(n as u32));
            let ghost slots = nodes[n as int];
            assert(node@ == slots);
            proof {
                lemma_node_deps_len(nodes, n as nat);
                lemma_total_deps_grows(nodes, (n + 1) as nat, nodes.len());
                self.images.lemma_wf();
            }
            let inputs = node.inputs.images.len();
            if inputs >= 0xffff_ffff - acc {
                return None;
            }
            let mut here: usize = inputs;
            let outputs = &node.outputs.images;
            let mut k: usize = 0;
            while k < outputs.len()
                invariant
                    self.wf(),
                    nodes == self.nodes(),
                    n_images == self.images().infos().len(),
                    n < nodes.len(),
                    slots == nodes[n as int],
                    outputs@ == slots.outputs,
                    k <= outputs@.len(),
                    acc == total_deps(nodes, n as nat),
                    here == slots.inputs.len() + outputs_count(nodes, slots.outputs, k as nat),
                    acc + here < u32::MAX,
                    node_deps(nodes, n as nat).len() == slots.inputs.len() + outputs_count(
                        nodes,
                        slots.outputs,
                        slots.outputs.len(),
                    ),
                    total_deps(nodes, (n + 1) as nat) <= total_deps(nodes, nodes.len()),
                decreases outputs@.len() - k,
            {
                let brings = match outputs[k].consumed {
                    None => 0,
                    Some(consumed) => {
                        proof {
                            self.images.lemma_wf();
                            assert(slots.outputs[k as int].consumed->0@ < n_images);
                            assert(self.tables_hold(
                                consumed@,
                                readers(nodes, nodes.len(), consumed@),
                                producers(nodes, nodes.len(), consumed@),
                                consumers(nodes, nodes.len(), consumed@),
                                usage(nodes, nodes.len(), consumed@),
                            ));
                        }
                        let recorded = self.images.access(consumed).unwrap();
                        assert(recorded.readers@.len() == readers(nodes, nodes.len(), consumed@).len());
                        if recorded.readers.len() == 0 {
                            1
                        } else {
                            recorded.readers.len()
                        }
                    },
                };
                assert(brings == output_slot_count(nodes, slots.outputs[k as int]));
                proof {
                    lemma_outputs_count_grows(nodes, slots.outputs, (k + 1) as nat, slots.outputs.len());
                }
                if brings >= 0xffff_ffff - acc - here {
                    return None;
                }
                here = here + brings;
                k += 1;
            }
            acc = acc + here;
            n += 1;
        }
        Some(acc as u32)
    }

    /// Compiles the graph for `final_image`.
    ///
    /// The graph is refused with the first complaint about the final image
    /// or about any image. A graph whose nodes have 2^32 - 1 dependencies or
    /// more in all is refused as too large. Any other graph is compiled from
    /// the producer of the final image: the nodes that the final image
    /// needs, their dependencies, and an order in which they can run. Where
    /// they cannot be put in order, the dependencies form a cycle and the
    /// graph is refused.
    pub fn build(self, final_image: GraphImage) -> (result: Result<Graph, GraphError>)
        requires
            self.wf(),
        ensures
            (forall|i: int|
                0 <= i < build_verdicts(self.nodes(), self.images().infos().len(), final_image).len()
                    ==> #[trigger] build_verdicts(
                    self.nodes(),
                    self.images().infos().len(),
                    final_image,
                )[i] is None) <==> (result is Ok || result == Err::<Graph, GraphError>(GraphError::Cycle)
                || result == Err::<Graph, GraphError>(GraphError::Capacity)),
            result matches Err(e) ==> e == GraphError::Cycle || e == GraphError::Capacity
                || first_complaint(
                build_verdicts(self.nodes(), self.images().infos().len(), final_image),
                e,
            ),
            result matches Ok(graph) ==> {
                &&& graph.wf()
                &&& graph.editor() == self
                &&& graph.final_image() == final_image
                &&& schedulable(self.nodes(), graph.live())
            },
            result == Err::<Graph, GraphError>(GraphError::Capacity) ==> total_deps(
                self.nodes(),
                self.nodes().len(),
            ) >= u32::MAX,
            result is Ok || result == Err::<Graph, GraphError>(GraphError::Cycle) ==> total_deps(
                self.nodes(),
                self.nodes().len(),
            ) < u32::MAX,
            result == Err::<Graph, GraphError>(GraphError::Cycle) ==> forall|live: Seq<nat>|
                live_from(
                    self.nodes(),
                    producers(self.nodes(), self.nodes().len(), final_image@)[0].node,
                    live,
                ) ==> !schedulable(self.nodes(), live),
    {
        let ghost nodes = self.nodes();
        let ghost n_images = self.images().infos().len();
        let ghost all = build_verdicts(nodes, n_images, final_image);
        proof {
            self.images.lemma_wf();
        }
        let recorded = match self.images.access(final_image) {
            None => {
                assert(all[0] == Some(GraphError::UnknownImage(final_image)));
                return Err(GraphError::UnknownImage(final_image));
            },
            Some(recorded) => recorded,
        };
        assert(all[0] is None);
        proof {
            assert(self.tables_hold(
                final_image@,
                readers(nodes, nodes.len(), final_image@),
                producers(nodes, nodes.len(), final_image@),
                consumers(nodes, nodes.len(), final_image@),
                usage(nodes, nodes.len(), final_image@),
            ));
            lemma_history_nodes(nodes, nodes.len(), final_image@);
        }
        let final_node = match recorded.produced_by {
            None => {
                assert(all[1] == Some(GraphError::NoProducer(final_image)));
                return Err(GraphError::NoProducer(final_image));
            },
            Some(producer) => producer.node_key,
        };
        assert(all[1] is None);
        let ghost root = producers(nodes, nodes.len(), final_image@)[0].node;
        assert(final_node@ == root);
        match self.check_images() {
            Err(e) => {
                proof {
                    let image = choose|image: nat|
                        {
                            &&& image < n_images
                            &&& #[trigger] image_verdict(nodes, image) == Some(e)
                            &&& forall|earlier: nat| earlier < image ==> image_verdict(nodes, earlier) is None
                        };
                    assert(all[(image + 2) as int] == Some(e));
                    assert forall|j: int| 0 <= j < image + 2 implies all[j] is None by {
                        if j >= 2 {
                            assert(image_verdict(nodes, (j - 2) as nat) is None);
                        }
                    }
                }
                return Err(e);
            },
            Ok(()) => {},
        }
        proof {
            assert forall|i: int| 0 <= i < all.len() implies #[trigger] all[i] is None by {
                if i >= 2 {
                    assert(image_verdict(nodes, (i - 2) as nat) is None);
                }
            }
            assert(used_images_produced(nodes, n_images)) by {
                assert forall|image: nat| image < n_images && is_used(nodes, image) implies #[trigger] producers(
                    nodes,
                    nodes.len(),
                    image,
                ).len() > 0 by {
                    assert(image_verdict(nodes, image) is None);
                }
            }
        }
        if self.count_dependencies().is_none() {
            return Err(GraphError::Capacity);
        }
        let builder = GraphBuilder::new(&self, final_node);
        let graph = builder.build();
        proof {
            lemma_compiled_live(nodes, root, graph);
            lemma_compiled_acyclic(nodes, root, graph);
        }
        let order = match graph.toposort_reverse() {
            Err(_) => {
                proof {
                    assert forall|live: Seq<nat>| live_from(nodes, root, live) implies !schedulable(
                        nodes,
                        live,
                    ) by {
                        if schedulable(nodes, live) {
                            lemma_schedulable_unique(nodes, root, live, live_nodes(graph@));
                        }
                    }
                }
                return Err(GraphError::Cycle);
            },
            Ok(order) => order,
        };
        let frozen = Graph::freeze(self, final_image, graph, order);
        Ok(frozen)
    }
}

/// An image has one producer at most: a node with an output that produces
/// an image which has a producer already is refused.
pub proof fn lemma_second_producer_refused(nodes: Seq<NodeModel>, images: nat, node: NodeModel, k: int)
    requires
        0 <= k < node.outputs.len(),
        producers(nodes, nodes.len(), node.outputs[k].key@).len() > 0,
    ensures
        exists|i: int|
            0 <= i < verdicts(nodes, images, node).len() && #[trigger] verdicts(nodes, images, node)[i] is Some,
{
    let i = node.inputs.len() + k;
    assert(verdicts(nodes, images, node)[i] == output_verdict(nodes, images, node.outputs, k));
    assert(verdicts(nodes, images, node)[i] is Some);
}

/// An image has one consumer at most: a node with an output that
/// supersedes an image which has a consumer already is refused.
pub proof fn lemma_second_consumer_refused(nodes: Seq<NodeModel>, images: nat, node: NodeModel, k: int)
    requires
        0 <= k < node.outputs.len(),
        node.outputs[k].consumed is Some,
        consumers(nodes, nodes.len(), node.outputs[k].consumed->0@).len() > 0,
    ensures
        exists|i: int|
            0 <= i < verdicts(nodes, images, node).len() && #[trigger] verdicts(nodes, images, node)[i] is Some,
{
    let i = node.inputs.len() + k;
    assert(verdicts(nodes, images, node)[i] == output_verdict(nodes, images, node.outputs, k));
    assert(verdicts(nodes, images, node)[i] is Some);
}

/// Readers must agree on the layout: a graph in which two readers of an
/// image ask for different layouts is not built.
pub proof fn lemma_reader_layouts_must_agree(
    nodes: Seq<NodeModel>,
    images: nat,
    final_image: GraphImage,
    image: nat,
    a: int,
    b: int,
)
    requires
        image < images,
        0 <= a < readers(nodes, nodes.len(), image).len(),
        0 <= b < readers(nodes, nodes.len(), image).len(),
        readers(nodes, nodes.len(), image)[a].access.layout != readers(
            nodes,
            nodes.len(),
            image,
        )[b].access.layout,
    ensures
        exists|i: int|
            0 <= i < build_verdicts(nodes, images, final_image).len() && #[trigger] build_verdicts(
                nodes,
                images,
                final_image,
            )[i] is Some,
{
    crate::graph::model::lemma_readers_disagree(nodes, image, a, b);
    let i = (image + 2) as int;
    assert(build_verdicts(nodes, images, final_image)[i] == image_verdict(nodes, image));
    assert(build_verdicts(nodes, images, final_image)[i] is Some);
}

/// Slots that name none of the images from `images` on leave no trace on
/// such an image.
pub proof fn lemma_untouched_slots(node: NodeModel, index: nat, images: nat, image: nat, acc: ImageUsageFlags, i: nat, o: nat)
    requires
        forall|j: int| 0 <= j < node.inputs.len() ==> (#[trigger] node.inputs[j]).key@ < images,
        forall|j: int|
            0 <= j < node.outputs.len() ==> {
                &&& (#[trigger] node.outputs[j]).key@ < images
                &&& node.outputs[j].consumed matches Some(c) ==> c@ < images
            },
        image >= images,
        i <= node.inputs.len(),
        o <= node.outputs.len(),
    ensures
        slot_readers(node.inputs, i, index, image).len() == 0,
        slot_producers(node.outputs, o, index, image).len() == 0,
        slot_consumers(node.outputs, o, index, image).len() == 0,
        inputs_usage(acc, node.inputs, i, image) == acc,
        outputs_usage(acc, node.outputs, o, image) == acc,
    decreases i + o,
{
    if i > 0 {
        lemma_untouched_slots(node, index, images, image, acc, (i - 1) as nat, o);
        assert(node.inputs[i - 1].key@ < images);
    } else if o > 0 {
        lemma_untouched_slots(node, index, images, image, acc, i, (o - 1) as nat);
        assert(node.outputs[o - 1].key@ < images);
    }
}

/// Nodes whose slots name none of the images from `images` on leave no
/// trace on such an image.
pub proof fn lemma_untouched_upto(nodes: Seq<NodeModel>, images: nat, upto: nat, image: nat)
    requires
        slots_in_range(nodes, images),
        image >= images,
        upto <= nodes.len(),
    ensures
        readers(nodes, upto, image).len() == 0,
        producers(nodes, upto, image).len() == 0,
        consumers(nodes, upto, image).len() == 0,
        usage(nodes, upto, image) == 0,
    decreases upto,
{
    if upto > 0 {
        lemma_untouched_upto(nodes, images, (upto - 1) as nat, image);
        let node = nodes[upto - 1];
        lemma_untouched_slots(node, (upto - 1) as nat, images, image, 0, node.inputs.len(), node.outputs.len());
    }
}

} // verus!
