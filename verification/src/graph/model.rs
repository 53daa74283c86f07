//! What a graph means: the access history, the usage flags and the
//! dependencies that follow from the slots of its nodes.
//!
//! Everything here is stated over the list of nodes in the order of their
//! keys. A function that takes `upto` looks at the first `upto` entries of
//! the list that stands before it.

use crate::depgraph::GraphModel;
use crate::graph::{
    image_read_after_write, image_write_after_read, image_write_after_write, GraphKey, GraphNode,
    ImageAccess, ImageDependency, ImageOpAccess, InputImage, NodeDependency, OutputImage,
};
use crate::vk::ImageUsageFlags;
use vstd::prelude::*;

verus! {

/// The slots of one node.
pub struct NodeModel {
    pub inputs: Seq<InputImage>,
    pub outputs: Seq<OutputImage>,
}

/// One access to an image: the position of the node and how it touches the
/// image.
pub struct AccessModel {
    pub node: nat,
    pub access: ImageAccess,
}

/// A dependency of a node: the node that it waits for, and the barrier
/// between the two.
pub struct Dependency {
    pub target: nat,
    pub barrier: ImageDependency,
}

impl View for GraphNode {
    type V = NodeModel;

    open spec fn view(&self) -> NodeModel {
        NodeModel { inputs: self.inputs.images@, outputs: self.outputs.images@ }
    }
}

impl View for ImageOpAccess {
    type V = AccessModel;

    open spec fn view(&self) -> AccessModel {
        AccessModel { node: self.node_key@, access: self.access }
    }
}

/// The views of a list of access records.
pub open spec fn access_models(records: Seq<ImageOpAccess>) -> Seq<AccessModel> {
    Seq::new(records.len(), |i: int| records[i]@)
}

/// The views of a list of nodes.
pub open spec fn node_models(nodes: Seq<GraphNode>) -> Seq<NodeModel> {
    Seq::new(nodes.len(), |i: int| nodes[i]@)
}

/// The reads of `image` among the first `upto` inputs of node `node`.
pub open spec fn slot_readers(inputs: Seq<InputImage>, upto: nat, node: nat, image: nat) -> Seq<
    AccessModel,
>
    decreases upto,
{
    if upto == 0 {
        Seq::empty()
    } else {
        let before = slot_readers(inputs, (upto - 1) as nat, node, image);
        let slot = inputs[upto - 1];
        if slot.key@ == image {
            before.push(AccessModel { node, access: slot.access })
        } else {
            before
        }
    }
}

/// The reads of `image` by the first `upto` nodes, in the order of the nodes
/// and of their inputs.
pub open spec fn readers(nodes: Seq<NodeModel>, upto: nat, image: nat) -> Seq<AccessModel>
    decreases upto,
{
    if upto == 0 {
        Seq::empty()
    } else {
        let node = nodes[upto - 1];
        readers(nodes, (upto - 1) as nat, image) + slot_readers(
            node.inputs,
            node.inputs.len(),
            (upto - 1) as nat,
            image,
        )
    }
}

/// The writes that produce `image` among the first `upto` outputs of node
/// `node`.
pub open spec fn slot_producers(
    outputs: Seq<OutputImage>,
    upto: nat,
    node: nat,
    image: nat,
) -> Seq<AccessModel>
    decreases upto,
{
    if upto == 0 {
        Seq::empty()
    } else {
        let before = slot_producers(outputs, (upto - 1) as nat, node, image);
        let slot = outputs[upto - 1];
        if slot.key@ == image {
            before.push(AccessModel { node, access: slot.access })
        } else {
            before
        }
    }
}

/// The writes that produce `image` in the first `upto` nodes.
pub open spec fn producers(nodes: Seq<NodeModel>, upto: nat, image: nat) -> Seq<AccessModel>
    decreases upto,
{
    if upto == 0 {
        Seq::empty()
    } else {
        let node = nodes[upto - 1];
        producers(nodes, (upto - 1) as nat, image) + slot_producers(
            node.outputs,
            node.outputs.len(),
            (upto - 1) as nat,
            image,
        )
    }
}

/// The writes that supersede `image` among the first `upto` outputs of node
/// `node`.
pub open spec fn slot_consumers(
    outputs: Seq<OutputImage>,
    upto: nat,
    node: nat,
    image: nat,
) -> Seq<AccessModel>
    decreases upto,
{
    if upto == 0 {
        Seq::empty()
    } else {
        let before = slot_consumers(outputs, (upto - 1) as nat, node, image);
        let slot = outputs[upto - 1];
        if slot.consumed matches Some(c) && c@ == image {
            before.push(AccessModel { node, access: slot.access })
        } else {
            before
        }
    }
}

/// The writes that supersede `image` in the first `upto` nodes.
pub open spec fn consumers(nodes: Seq<NodeModel>, upto: nat, image: nat) -> Seq<AccessModel>
    decreases upto,
{
    if upto == 0 {
        Seq::empty()
    } else {
        let node = nodes[upto - 1];
        consumers(nodes, (upto - 1) as nat, image) + slot_consumers(
            node.outputs,
            node.outputs.len(),
            (upto - 1) as nat,
            image,
        )
    }
}

/// `acc` joined with the usage that the first `upto` inputs contribute to
/// `image`.
pub open spec fn inputs_usage(
    acc: ImageUsageFlags,
    inputs: Seq<InputImage>,
    upto: nat,
    image: nat,
) -> ImageUsageFlags
    decreases upto,
{
    if upto == 0 {
        acc
    } else {
        let before = inputs_usage(acc, inputs, (upto - 1) as nat, image);
        let slot = inputs[upto - 1];
        if slot.key@ == image {
            before | slot.usage
        } else {
            before
        }
    }
}

/// `acc` joined with the usage that the first `upto` outputs contribute to
/// `image`. An output contributes to the image that it produces.
pub open spec fn outputs_usage(
    acc: ImageUsageFlags,
    outputs: Seq<OutputImage>,
    upto: nat,
    image: nat,
) -> ImageUsageFlags
    decreases upto,
{
    if upto == 0 {
        acc
    } else {
        let before = outputs_usage(acc, outputs, (upto - 1) as nat, image);
        let slot = outputs[upto - 1];
        if slot.key@ == image {
            before | slot.usage
        } else {
            before
        }
    }
}

/// The usage flags of `image`: the union of what every slot of the first
/// `upto` nodes contributes to it.
pub open spec fn usage(nodes: Seq<NodeModel>, upto: nat, image: nat) -> ImageUsageFlags
    decreases upto,
{
    if upto == 0 {
        0
    } else {
        let node = nodes[upto - 1];
        outputs_usage(
            inputs_usage(usage(nodes, (upto - 1) as nat, image), node.inputs, node.inputs.len(), image),
            node.outputs,
            node.outputs.len(),
            image,
        )
    }
}

/// Every slot of the first `upto` nodes names an image below `images`.
pub open spec fn slots_in_range(nodes: Seq<NodeModel>, images: nat) -> bool {
    forall|n: int|
        0 <= n < nodes.len() ==> {
            &&& forall|i: int|
                0 <= i < (#[trigger] nodes[n]).inputs.len() ==> (#[trigger] nodes[n].inputs[i]).key@
                    < images
            &&& forall|o: int|
                0 <= o < nodes[n].outputs.len() ==> {
                    &&& (#[trigger] nodes[n].outputs[o]).key@ < images
                    &&& nodes[n].outputs[o].consumed matches Some(c) ==> c@ < images
                }
        }
}

/// No image has two producers, and none has two consumers.
pub open spec fn single_writers(nodes: Seq<NodeModel>) -> bool {
    forall|image: nat|
        #![trigger producers(nodes, nodes.len(), image)]
        #![trigger consumers(nodes, nodes.len(), image)]
        producers(nodes, nodes.len(), image).len() <= 1 && consumers(
            nodes,
            nodes.len(),
            image,
        ).len() <= 1
}

/// The image is read or superseded by some node.
pub open spec fn is_used(nodes: Seq<NodeModel>, image: nat) -> bool {
    readers(nodes, nodes.len(), image).len() > 0 || consumers(nodes, nodes.len(), image).len() > 0
}

/// All readers of the image ask for the same layout.
pub open spec fn readers_agree(nodes: Seq<NodeModel>, image: nat) -> bool {
    let all = readers(nodes, nodes.len(), image);
    forall|i: int| 0 <= i < all.len() ==> (#[trigger] all[i]).access.layout == all[0].access.layout
}

/// The dependencies that the first `upto` inputs of a node bring: each input
/// waits for the producer of its image.
pub open spec fn input_deps(nodes: Seq<NodeModel>, inputs: Seq<InputImage>, upto: nat) -> Seq<
    Dependency,
>
    decreases upto,
{
    if upto == 0 {
        Seq::empty()
    } else {
        let slot = inputs[upto - 1];
        let producer = producers(nodes, nodes.len(), slot.key@)[0];
        input_deps(nodes, inputs, (upto - 1) as nat).push(
            Dependency {
                target: producer.node,
                barrier: image_read_after_write(slot, producer.access),
            },
        )
    }
}

/// The dependencies of a write on the first `upto` of the reads in `reads`.
pub open spec fn write_after_reads(writer: OutputImage, reads: Seq<AccessModel>, upto: nat) -> Seq<
    Dependency,
>
    decreases upto,
{
    if upto == 0 {
        Seq::empty()
    } else {
        let read = reads[upto - 1];
        write_after_reads(writer, reads, (upto - 1) as nat).push(
            Dependency { target: read.node, barrier: image_write_after_read(writer, read.access) },
        )
    }
}

/// The dependencies that one output brings. An output that supersedes an
/// image waits for every reader of that image, or for its producer where
/// nobody reads it; any other output waits for nothing.
pub open spec fn output_slot_deps(nodes: Seq<NodeModel>, slot: OutputImage) -> Seq<Dependency> {
    match slot.consumed {
        None => Seq::empty(),
        Some(consumed) => {
            let reads = readers(nodes, nodes.len(), consumed@);
            if reads.len() == 0 {
                let producer = producers(nodes, nodes.len(), consumed@)[0];
                seq![
                    Dependency {
                        target: producer.node,
                        barrier: image_write_after_write(slot, producer.access),
                    },
                ]
            } else {
                write_after_reads(slot, reads, reads.len())
            }
        },
    }
}

/// The dependencies that the first `upto` outputs of a node bring.
pub open spec fn output_deps(nodes: Seq<NodeModel>, outputs: Seq<OutputImage>, upto: nat) -> Seq<
    Dependency,
>
    decreases upto,
{
    if upto == 0 {
        Seq::empty()
    } else {
        output_deps(nodes, outputs, (upto - 1) as nat) + output_slot_deps(nodes, outputs[upto - 1])
    }
}

/// The dependencies of node `node`: those of its inputs, then those of its
/// outputs.
pub open spec fn node_deps(nodes: Seq<NodeModel>, node: nat) -> Seq<Dependency> {
    let slots = nodes[node as int];
    input_deps(nodes, slots.inputs, slots.inputs.len()) + output_deps(
        nodes,
        slots.outputs,
        slots.outputs.len(),
    )
}

/// The nodes that the first `upto` dependencies wait for, each once, in the
/// order in which they come up first.
pub open spec fn targets(deps: Seq<Dependency>, upto: nat) -> Seq<nat>
    decreases upto,
{
    if upto == 0 {
        Seq::empty()
    } else {
        let before = targets(deps, (upto - 1) as nat);
        let target = deps[upto - 1].target;
        if before.contains(target) {
            before
        } else {
            before.push(target)
        }
    }
}

/// The barriers towards `target` among the first `upto` dependencies.
pub open spec fn barriers_to(deps: Seq<Dependency>, upto: nat, target: nat) -> Seq<
    ImageDependency,
>
    decreases upto,
{
    if upto == 0 {
        Seq::empty()
    } else {
        let before = barriers_to(deps, (upto - 1) as nat, target);
        if deps[upto - 1].target == target {
            before.push(deps[upto - 1].barrier)
        } else {
            before
        }
    }
}

/// What the first `upto` nodes tell of an image does not depend on the
/// nodes that follow.
pub proof fn lemma_history_of_prefix(nodes: Seq<NodeModel>, more: Seq<NodeModel>, upto: nat, image: nat)
    requires
        upto <= nodes.len(),
    ensures
        readers(nodes + more, upto, image) == readers(nodes, upto, image),
        producers(nodes + more, upto, image) == producers(nodes, upto, image),
        consumers(nodes + more, upto, image) == consumers(nodes, upto, image),
        usage(nodes + more, upto, image) == usage(nodes, upto, image),
    decreases upto,
{
    if upto > 0 {
        lemma_history_of_prefix(nodes, more, (upto - 1) as nat, image);
        assert((nodes + more)[upto - 1] == nodes[upto - 1]);
    }
}

/// What one more node adds to the history of an image.
pub proof fn lemma_history_push(nodes: Seq<NodeModel>, node: NodeModel, image: nat)
    ensures
        readers(nodes.push(node), nodes.len() + 1, image) == readers(nodes, nodes.len(), image)
            + slot_readers(node.inputs, node.inputs.len(), nodes.len(), image),
        producers(nodes.push(node), nodes.len() + 1, image) == producers(nodes, nodes.len(), image)
            + slot_producers(node.outputs, node.outputs.len(), nodes.len(), image),
        consumers(nodes.push(node), nodes.len() + 1, image) == consumers(nodes, nodes.len(), image)
            + slot_consumers(node.outputs, node.outputs.len(), nodes.len(), image),
        usage(nodes.push(node), nodes.len() + 1, image) == outputs_usage(
            inputs_usage(usage(nodes, nodes.len(), image), node.inputs, node.inputs.len(), image),
            node.outputs,
            node.outputs.len(),
            image,
        ),
{
    assert(nodes.push(node) =~= nodes + seq![node]);
    lemma_history_of_prefix(nodes, seq![node], nodes.len(), image);
    assert(nodes.push(node)[nodes.len() as int] == node);
}

/// Outputs that produce pairwise different images produce each image once
/// at most: once where one of them names it, else not at all.
pub proof fn lemma_slot_producers_distinct(outputs: Seq<OutputImage>, upto: nat, node: nat, image: nat)
    requires
        upto <= outputs.len(),
        forall|a: int, b: int| 0 <= a < b < outputs.len() ==> outputs[a].key@ != outputs[b].key@,
    ensures
        slot_producers(outputs, upto, node, image).len() <= 1,
        slot_producers(outputs, upto, node, image).len() == 1 <==> exists|j: int|
            0 <= j < upto && (#[trigger] outputs[j]).key@ == image,
        forall|j: int|
            0 <= j < upto && (#[trigger] outputs[j]).key@ == image ==> slot_producers(
                outputs,
                upto,
                node,
                image,
            )[0] == (AccessModel { node, access: outputs[j].access }),
    decreases upto,
{
    if upto > 0 {
        lemma_slot_producers_distinct(outputs, (upto - 1) as nat, node, image);
        let before = slot_producers(outputs, (upto - 1) as nat, node, image);
        if outputs[upto - 1].key@ == image {
            if before.len() == 1 {
                let j = choose|j: int| 0 <= j < upto - 1 && (#[trigger] outputs[j]).key@ == image;
                assert(outputs[j].key@ != outputs[upto - 1].key@);
            }
        } else {
            if exists|j: int| 0 <= j < upto && (#[trigger] outputs[j]).key@ == image {
                let j = choose|j: int| 0 <= j < upto && (#[trigger] outputs[j]).key@ == image;
                assert(j < upto - 1);
            }
        }
    }
}

/// Outputs that supersede pairwise different images supersede each image
/// once at most: once where one of them names it, else not at all.
pub proof fn lemma_slot_consumers_distinct(outputs: Seq<OutputImage>, upto: nat, node: nat, image: nat)
    requires
        upto <= outputs.len(),
        forall|a: int, b: int|
            0 <= a < b < outputs.len() && outputs[a].consumed is Some && outputs[b].consumed is Some
                ==> outputs[a].consumed->0@ != outputs[b].consumed->0@,
    ensures
        slot_consumers(outputs, upto, node, image).len() <= 1,
        slot_consumers(outputs, upto, node, image).len() == 1 <==> exists|j: int|
            0 <= j < upto && (#[trigger] outputs[j]).consumed is Some && outputs[j].consumed->0@
                == image,
        forall|j: int|
            0 <= j < upto && (#[trigger] outputs[j]).consumed is Some && outputs[j].consumed->0@
                == image ==> slot_consumers(outputs, upto, node, image)[0] == (AccessModel {
                node,
                access: outputs[j].access,
            }),
    decreases upto,
{
    if upto > 0 {
        lemma_slot_consumers_distinct(outputs, (upto - 1) as nat, node, image);
        let before = slot_consumers(outputs, (upto - 1) as nat, node, image);
        let last = outputs[upto - 1];
        if last.consumed is Some && last.consumed->0@ == image {
            if before.len() == 1 {
                let j = choose|j: int|
                    0 <= j < upto - 1 && (#[trigger] outputs[j]).consumed is Some
                        && outputs[j].consumed->0@ == image;
                assert(outputs[j].consumed->0@ != outputs[upto - 1].consumed->0@);
            }
        } else {
            if exists|j: int|
                0 <= j < upto && (#[trigger] outputs[j]).consumed is Some && outputs[j].consumed->0@
                    == image {
                let j = choose|j: int|
                    0 <= j < upto && (#[trigger] outputs[j]).consumed is Some
                        && outputs[j].consumed->0@ == image;
                assert(j < upto - 1);
            }
        }
    }
}

/// The model of a compiled dependency graph: its nodes stand for nodes of
/// the render graph, and its edges carry the barriers between them.
pub type DepModel = GraphModel<GraphKey, NodeDependency>;

/// The render graph nodes that the nodes of the dependency graph stand for.
pub open spec fn live_nodes(graph: DepModel) -> Seq<nat> {
    Seq::new(graph.nodes.len(), |i: int| graph.nodes[i]@)
}

/// Edge `e` leads from `node` to the node that stands for `target`, and
/// carries exactly the image barriers `barriers`.
pub open spec fn edge_stands_for(
    graph: DepModel,
    e: int,
    node: nat,
    target: nat,
    barriers: Seq<ImageDependency>,
) -> bool {
    &&& 0 <= e < graph.edges.len()
    &&& graph.edges[e].0 == node
    &&& graph.edges[e].1 < graph.nodes.len()
    &&& graph.nodes[graph.edges[e].1 as int]@ == target
    &&& graph.weights[e].images@ == barriers
    &&& graph.weights[e].buffers@.len() == 0
    &&& !graph.weights[e].is_backedge
}

/// The edges `out` that leave `node` stand for the dependencies `deps`: one
/// edge for each node that `deps` waits for, in the order in which those
/// nodes come up first, with the barriers towards that node in the order of
/// `deps`.
pub open spec fn edges_stand_for(graph: DepModel, out: Seq<nat>, node: nat, deps: Seq<Dependency>) -> bool {
    &&& out.len() == targets(deps, deps.len()).len()
    &&& forall|k: int|
        0 <= k < out.len() ==> #[trigger] edge_stands_for(
            graph,
            out[k] as int,
            node,
            targets(deps, deps.len())[k],
            barriers_to(deps, deps.len(), targets(deps, deps.len())[k]),
        )
}

/// The targets and barriers of the first `upto` dependencies do not depend
/// on the dependencies that follow.
pub proof fn lemma_groups_of_prefix(deps: Seq<Dependency>, more: Seq<Dependency>, upto: nat, target: nat)
    requires
        upto <= deps.len(),
    ensures
        targets(deps + more, upto) == targets(deps, upto),
        barriers_to(deps + more, upto, target) == barriers_to(deps, upto, target),
    decreases upto,
{
    if upto > 0 {
        lemma_groups_of_prefix(deps, more, (upto - 1) as nat, target);
        assert((deps + more)[upto - 1] == deps[upto - 1]);
    }
}

/// What one more dependency adds to the targets and to the barriers.
pub proof fn lemma_groups_push(deps: Seq<Dependency>, dep: Dependency, target: nat)
    ensures
        targets(deps.push(dep), deps.len() + 1) == if targets(deps, deps.len()).contains(dep.target) {
            targets(deps, deps.len())
        } else {
            targets(deps, deps.len()).push(dep.target)
        },
        barriers_to(deps.push(dep), deps.len() + 1, target) == if dep.target == target {
            barriers_to(deps, deps.len(), target).push(dep.barrier)
        } else {
            barriers_to(deps, deps.len(), target)
        },
{
    assert(deps.push(dep) =~= deps + seq![dep]);
    lemma_groups_of_prefix(deps, seq![dep], deps.len(), target);
    lemma_groups_of_prefix(deps, seq![dep], deps.len(), dep.target);
    assert(deps.push(dep)[deps.len() as int] == dep);
}

/// The targets are pairwise different; a node is among them exactly where a
/// dependency waits for it, and only then are there barriers towards it.
pub proof fn lemma_targets(deps: Seq<Dependency>, upto: nat)
    requires
        upto <= deps.len(),
    ensures
        targets(deps, upto).no_duplicates(),
        forall|x: int| 0 <= x < upto ==> targets(deps, upto).contains((#[trigger] deps[x]).target),
        forall|t: nat|
            targets(deps, upto).contains(t) ==> exists|x: int|
                0 <= x < upto && (#[trigger] deps[x]).target == t,
        forall|t: nat| !targets(deps, upto).contains(t) ==> barriers_to(deps, upto, t).len() == 0,
    decreases upto,
{
    if upto > 0 {
        lemma_targets(deps, (upto - 1) as nat);
        let before = targets(deps, (upto - 1) as nat);
        let now = targets(deps, upto);
        let last = deps[upto - 1].target;
        assert forall|x: int| 0 <= x < upto implies now.contains((#[trigger] deps[x]).target) by {
            if x < upto - 1 {
                assert(before.contains(deps[x].target));
                let i = choose|i: int| 0 <= i < before.len() && before[i] == deps[x].target;
                assert(now[i] == deps[x].target);
            } else {
                if before.contains(last) {
                } else {
                    assert(now[before.len() as int] == last);
                }
            }
        }
        assert forall|t: nat| now.contains(t) implies exists|x: int|
            0 <= x < upto && (#[trigger] deps[x]).target == t by {
            let i = choose|i: int| 0 <= i < now.len() && now[i] == t;
            if i < before.len() {
                assert(before[i] == t);
                assert(before.contains(t));
                let x = choose|x: int| 0 <= x < upto - 1 && (#[trigger] deps[x]).target == t;
                assert(deps[x].target == t);
            } else {
                assert(deps[upto - 1].target == t);
            }
        }
        assert forall|t: nat| !now.contains(t) implies barriers_to(deps, upto, t).len() == 0 by {
            if before.contains(t) {
                let i = choose|i: int| 0 <= i < before.len() && before[i] == t;
                assert(now[i] == t);
            }
            if last == t {
                assert(now.contains(deps[upto - 1].target));
            }
        }
    }
}

/// Every image that is read or superseded has a producer.
pub open spec fn used_images_produced(nodes: Seq<NodeModel>, images: nat) -> bool {
    forall|image: nat|
        image < images && is_used(nodes, image) ==> #[trigger] producers(
            nodes,
            nodes.len(),
            image,
        ).len() > 0
}

/// The reads of a node's inputs are recorded under the node's position.
pub proof fn lemma_slot_readers_node(inputs: Seq<InputImage>, upto: nat, index: nat, image: nat)
    requires
        upto <= inputs.len(),
    ensures
        forall|x: int|
            0 <= x < slot_readers(inputs, upto, index, image).len() ==> (#[trigger] slot_readers(
                inputs,
                upto,
                index,
                image,
            )[x]).node == index,
    decreases upto,
{
    if upto > 0 {
        lemma_slot_readers_node(inputs, (upto - 1) as nat, index, image);
        let before = slot_readers(inputs, (upto - 1) as nat, index, image);
        let now = slot_readers(inputs, upto, index, image);
        assert forall|x: int| 0 <= x < now.len() implies (#[trigger] now[x]).node == index by {
            if x < before.len() {
                assert(now[x] == before[x]);
            }
        }
    }
}

/// The writes of a node's outputs are recorded under the node's position.
pub proof fn lemma_slot_writers_node(outputs: Seq<OutputImage>, upto: nat, index: nat, image: nat)
    requires
        upto <= outputs.len(),
    ensures
        forall|x: int|
            0 <= x < slot_producers(outputs, upto, index, image).len() ==> (
            #[trigger] slot_producers(outputs, upto, index, image)[x]).node == index,
        forall|x: int|
            0 <= x < slot_consumers(outputs, upto, index, image).len() ==> (
            #[trigger] slot_consumers(outputs, upto, index, image)[x]).node == index,
    decreases upto,
{
    if upto > 0 {
        lemma_slot_writers_node(outputs, (upto - 1) as nat, index, image);
        let before = slot_producers(outputs, (upto - 1) as nat, index, image);
        let now = slot_producers(outputs, upto, index, image);
        assert forall|x: int| 0 <= x < now.len() implies (#[trigger] now[x]).node == index by {
            if x < before.len() {
                assert(now[x] == before[x]);
            }
        }
        let before = slot_consumers(outputs, (upto - 1) as nat, index, image);
        let now = slot_consumers(outputs, upto, index, image);
        assert forall|x: int| 0 <= x < now.len() implies (#[trigger] now[x]).node == index by {
            if x < before.len() {
                assert(now[x] == before[x]);
            }
        }
    }
}

/// The accesses that the first `upto` nodes make are recorded under
/// positions below `upto`.
pub proof fn lemma_history_nodes(nodes: Seq<NodeModel>, upto: nat, image: nat)
    requires
        upto <= nodes.len(),
    ensures
        forall|x: int|
            0 <= x < readers(nodes, upto, image).len() ==> (#[trigger] readers(nodes, upto, image)[x]).node
                < upto,
        forall|x: int|
            0 <= x < producers(nodes, upto, image).len() ==> (#[trigger] producers(
                nodes,
                upto,
                image,
            )[x]).node < upto,
        forall|x: int|
            0 <= x < consumers(nodes, upto, image).len() ==> (#[trigger] consumers(
                nodes,
                upto,
                image,
            )[x]).node < upto,
    decreases upto,
{
    if upto > 0 {
        lemma_history_nodes(nodes, (upto - 1) as nat, image);
        let node = nodes[upto - 1];
        lemma_slot_readers_node(node.inputs, node.inputs.len(), (upto - 1) as nat, image);
        lemma_slot_writers_node(node.outputs, node.outputs.len(), (upto - 1) as nat, image);
        let earlier = readers(nodes, (upto - 1) as nat, image);
        let now = readers(nodes, upto, image);
        assert forall|x: int| 0 <= x < now.len() implies (#[trigger] now[x]).node < upto by {
            if x < earlier.len() {
                assert(now[x] == earlier[x]);
            } else {
                assert(now[x] == slot_readers(node.inputs, node.inputs.len(), (upto - 1) as nat, image)[x
                    - earlier.len()]);
            }
        }
        let earlier = producers(nodes, (upto - 1) as nat, image);
        let now = producers(nodes, upto, image);
        assert forall|x: int| 0 <= x < now.len() implies (#[trigger] now[x]).node < upto by {
            if x < earlier.len() {
                assert(now[x] == earlier[x]);
            } else {
                assert(now[x] == slot_producers(node.outputs, node.outputs.len(), (upto - 1) as nat, image)[x
                    - earlier.len()]);
            }
        }
        let earlier = consumers(nodes, (upto - 1) as nat, image);
        let now = consumers(nodes, upto, image);
        assert forall|x: int| 0 <= x < now.len() implies (#[trigger] now[x]).node < upto by {
            if x < earlier.len() {
                assert(now[x] == earlier[x]);
            } else {
                assert(now[x] == slot_consumers(node.outputs, node.outputs.len(), (upto - 1) as nat, image)[x
                    - earlier.len()]);
            }
        }
    }
}

/// An input that names an image shows among the reads of its node.
pub proof fn lemma_slot_reader_listed(inputs: Seq<InputImage>, upto: nat, node: nat, i: int)
    requires
        0 <= i < upto <= inputs.len(),
    ensures
        slot_readers(inputs, upto, node, inputs[i].key@).len() > 0,
    decreases upto,
{
    if i < upto - 1 {
        lemma_slot_reader_listed(inputs, (upto - 1) as nat, node, i);
    }
}

/// An output that supersedes an image shows among the consumers of its node.
pub proof fn lemma_slot_consumer_listed(outputs: Seq<OutputImage>, upto: nat, node: nat, o: int)
    requires
        0 <= o < upto <= outputs.len(),
        outputs[o].consumed is Some,
    ensures
        slot_consumers(outputs, upto, node, outputs[o].consumed->0@).len() > 0,
    decreases upto,
{
    if o < upto - 1 {
        lemma_slot_consumer_listed(outputs, (upto - 1) as nat, node, o);
    }
}

/// An output that produces an image shows among the producers of its node.
pub proof fn lemma_slot_producer_listed(outputs: Seq<OutputImage>, upto: nat, node: nat, o: int)
    requires
        0 <= o < upto <= outputs.len(),
    ensures
        slot_producers(outputs, upto, node, outputs[o].key@).len() > 0,
    decreases upto,
{
    if o < upto - 1 {
        lemma_slot_producer_listed(outputs, (upto - 1) as nat, node, o);
    }
}

/// An image that a slot of one of the first `upto` nodes reads or
/// supersedes is used, and one that a slot produces has a producer.
pub proof fn lemma_slot_listed(nodes: Seq<NodeModel>, upto: nat, n: int)
    requires
        0 <= n < upto <= nodes.len(),
    ensures
        forall|i: int|
            0 <= i < nodes[n].inputs.len() ==> readers(nodes, upto, (#[trigger] nodes[n].inputs[i]).key@).len()
                > 0,
        forall|o: int|
            0 <= o < nodes[n].outputs.len() && (#[trigger] nodes[n].outputs[o]).consumed is Some
                ==> consumers(nodes, upto, nodes[n].outputs[o].consumed->0@).len() > 0,
        forall|o: int|
            0 <= o < nodes[n].outputs.len() ==> producers(
                nodes,
                upto,
                (#[trigger] nodes[n].outputs[o]).key@,
            ).len() > 0,
    decreases upto,
{
    if n < upto - 1 {
        lemma_slot_listed(nodes, (upto - 1) as nat, n);
    } else {
        let node = nodes[n];
        assert forall|i: int| 0 <= i < node.inputs.len() implies readers(
            nodes,
            upto,
            (#[trigger] node.inputs[i]).key@,
        ).len() > 0 by {
            lemma_slot_reader_listed(node.inputs, node.inputs.len(), n as nat, i);
        }
        assert forall|o: int|
            0 <= o < node.outputs.len() && (#[trigger] node.outputs[o]).consumed is Some implies consumers(
            nodes,
            upto,
            node.outputs[o].consumed->0@,
        ).len() > 0 by {
            lemma_slot_consumer_listed(node.outputs, node.outputs.len(), n as nat, o);
        }
        assert forall|o: int| 0 <= o < node.outputs.len() implies producers(
            nodes,
            upto,
            (#[trigger] node.outputs[o]).key@,
        ).len() > 0 by {
            lemma_slot_producer_listed(node.outputs, node.outputs.len(), n as nat, o);
        }
    }
}

/// A node that stands before node `i` of `live` waits for it.
pub open spec fn waited_for(nodes: Seq<NodeModel>, live: Seq<nat>, i: int) -> bool {
    exists|j: int, x: int|
        0 <= j < i && 0 <= x < node_deps(nodes, live[j]).len() && (#[trigger] node_deps(
            nodes,
            live[j],
        )[x]).target == live[i]
}

/// `live` lists the nodes that `root` needs: `root` itself first, each
/// node once, with every node that a listed node waits for, and no node
/// that nothing listed before it waits for.
pub open spec fn live_from(nodes: Seq<NodeModel>, root: nat, live: Seq<nat>) -> bool {
    &&& live.len() > 0
    &&& live[0] == root
    &&& live.no_duplicates()
    &&& forall|i: int| 0 <= i < live.len() ==> #[trigger] live[i] < nodes.len()
    &&& forall|i: int, x: int|
        0 <= i < live.len() && 0 <= x < node_deps(nodes, live[i]).len() ==> live.contains(
            (#[trigger] node_deps(nodes, live[i])[x]).target,
        )
    &&& forall|i: int| 0 < i < live.len() ==> #[trigger] waited_for(nodes, live, i)
}

/// `rank` numbers the nodes so that each node of `live` has a lower number
/// than every node that it waits for.
pub open spec fn ranks_respect(nodes: Seq<NodeModel>, live: Seq<nat>, rank: Seq<nat>) -> bool {
    &&& rank.len() == nodes.len()
    &&& forall|i: int, x: int|
        0 <= i < live.len() && 0 <= x < node_deps(nodes, live[i]).len() ==> rank[live[i] as int]
            < rank[(#[trigger] node_deps(nodes, live[i])[x]).target as int]
}

/// The nodes of `live` can run in some order in which each node stands
/// after the nodes that it waits for: no node waits for itself, directly or
/// through others.
pub open spec fn schedulable(nodes: Seq<NodeModel>, live: Seq<nat>) -> bool {
    exists|rank: Seq<nat>| ranks_respect(nodes, live, rank)
}

/// Two lists of the nodes that `root` needs hold the same nodes.
pub proof fn lemma_live_unique(nodes: Seq<NodeModel>, root: nat, a: Seq<nat>, b: Seq<nat>, i: int)
    requires
        live_from(nodes, root, a),
        live_from(nodes, root, b),
        0 <= i < a.len(),
    ensures
        b.contains(a[i]),
    decreases i,
{
    if i == 0 {
        assert(b[0] == a[0]);
    } else {
        assert(waited_for(nodes, a, i));
        let (j, x) = choose|j: int, x: int|
            0 <= j < i && 0 <= x < node_deps(nodes, a[j]).len() && (#[trigger] node_deps(
                nodes,
                a[j],
            )[x]).target == a[i];
        lemma_live_unique(nodes, root, a, b, j);
        let p = choose|p: int| 0 <= p < b.len() && b[p] == a[j];
        assert(b.contains(node_deps(nodes, b[p])[x].target));
    }
}

/// Whether the nodes that `root` needs can be scheduled does not depend on
/// how they are listed.
pub proof fn lemma_schedulable_unique(nodes: Seq<NodeModel>, root: nat, a: Seq<nat>, b: Seq<nat>)
    requires
        live_from(nodes, root, a),
        live_from(nodes, root, b),
        schedulable(nodes, a),
    ensures
        schedulable(nodes, b),
{
    let rank = choose|rank: Seq<nat>| ranks_respect(nodes, a, rank);
    assert forall|i: int, x: int|
        0 <= i < b.len() && 0 <= x < node_deps(nodes, b[i]).len() implies rank[b[i] as int] < rank[(
    #[trigger] node_deps(nodes, b[i])[x]).target as int] by {
        lemma_live_unique(nodes, root, b, a, i);
        let p = choose|p: int| 0 <= p < a.len() && a[p] == b[i];
        assert(rank[a[p] as int] < rank[node_deps(nodes, a[p])[x].target as int]);
    }
    assert(ranks_respect(nodes, b, rank));
}

/// `dep` is what input `i` of node `node` asks for: the node waits for the
/// producer of the image that the input reads, and the barrier between them
/// has exactly the producer's stage, access and layout on the source side
/// and the input's on the destination side.
pub open spec fn is_read_after_write(nodes: Seq<NodeModel>, node: nat, dep: Dependency, i: int) -> bool {
    let slot = nodes[node as int].inputs[i];
    let producer = producers(nodes, nodes.len(), slot.key@)[0];
    &&& 0 <= i < nodes[node as int].inputs.len()
    &&& dep.target == producer.node
    &&& dep.barrier == image_read_after_write(slot, producer.access)
}

/// `dep` is what output `o` of node `node` asks for where nobody reads the
/// image that it supersedes: the node waits for the producer of that image,
/// and the barrier has exactly the producer's stage, access and layout on
/// the source side and the output's on the destination side.
pub open spec fn is_write_after_write(nodes: Seq<NodeModel>, node: nat, dep: Dependency, o: int) -> bool {
    let slot = nodes[node as int].outputs[o];
    let producer = producers(nodes, nodes.len(), slot.consumed->0@)[0];
    &&& 0 <= o < nodes[node as int].outputs.len()
    &&& slot.consumed is Some
    &&& readers(nodes, nodes.len(), slot.consumed->0@).len() == 0
    &&& dep.target == producer.node
    &&& dep.barrier == image_write_after_write(slot, producer.access)
}

/// `dep` is what output `o` of node `node` asks for on account of reader
/// `r` of the image that it supersedes: the node waits for the reader, and
/// the barrier has the reader's stage and layout on the source side, the
/// output's on the destination side, and no access masks.
pub open spec fn is_write_after_read(
    nodes: Seq<NodeModel>,
    node: nat,
    dep: Dependency,
    o: int,
    r: int,
) -> bool {
    let slot = nodes[node as int].outputs[o];
    let reads = readers(nodes, nodes.len(), slot.consumed->0@);
    &&& 0 <= o < nodes[node as int].outputs.len()
    &&& slot.consumed is Some
    &&& 0 <= r < reads.len()
    &&& dep.target == reads[r].node
    &&& dep.barrier == image_write_after_read(slot, reads[r].access)
}

/// `dep` is one of the three kinds of dependency, for some slot of `node`.
pub open spec fn is_declared(nodes: Seq<NodeModel>, node: nat, dep: Dependency) -> bool {
    ||| exists|i: int| #[trigger] is_read_after_write(nodes, node, dep, i)
    ||| exists|o: int| #[trigger] is_write_after_write(nodes, node, dep, o)
    ||| exists|o: int, r: int| #[trigger] is_write_after_read(nodes, node, dep, o, r)
}

/// Every dependency that the inputs bring is a read-after-write dependency
/// of one of them.
proof fn lemma_input_deps_declared(nodes: Seq<NodeModel>, node: nat, upto: nat, x: int)
    requires
        node < nodes.len(),
        upto <= nodes[node as int].inputs.len(),
        0 <= x < input_deps(nodes, nodes[node as int].inputs, upto).len(),
    ensures
        is_declared(nodes, node, input_deps(nodes, nodes[node as int].inputs, upto)[x]),
        input_deps(nodes, nodes[node as int].inputs, upto).len() == upto,
    decreases upto,
{
    let inputs = nodes[node as int].inputs;
    if upto > 0 {
        let before = input_deps(nodes, inputs, (upto - 1) as nat);
        if upto > 1 {
            lemma_input_deps_declared(nodes, node, (upto - 1) as nat, 0);
        }
        if x < upto - 1 {
            lemma_input_deps_declared(nodes, node, (upto - 1) as nat, x);
            assert(input_deps(nodes, inputs, upto)[x] == before[x]);
        } else {
            assert(is_read_after_write(nodes, node, input_deps(nodes, inputs, upto)[x], upto - 1));
        }
    }
}

/// Every dependency of a write on reads is a write-after-read dependency.
proof fn lemma_write_after_reads_declared(
    nodes: Seq<NodeModel>,
    node: nat,
    o: int,
    upto: nat,
    x: int,
)
    requires
        node < nodes.len(),
        0 <= o < nodes[node as int].outputs.len(),
        nodes[node as int].outputs[o].consumed is Some,
        upto <= readers(nodes, nodes.len(), nodes[node as int].outputs[o].consumed->0@).len(),
        0 <= x < write_after_reads(
            nodes[node as int].outputs[o],
            readers(nodes, nodes.len(), nodes[node as int].outputs[o].consumed->0@),
            upto,
        ).len(),
    ensures
        is_declared(
            nodes,
            node,
            write_after_reads(
                nodes[node as int].outputs[o],
                readers(nodes, nodes.len(), nodes[node as int].outputs[o].consumed->0@),
                upto,
            )[x],
        ),
        write_after_reads(
            nodes[node as int].outputs[o],
            readers(nodes, nodes.len(), nodes[node as int].outputs[o].consumed->0@),
            upto,
        ).len() == upto,
    decreases upto,
{
    let slot = nodes[node as int].outputs[o];
    let reads = readers(nodes, nodes.len(), slot.consumed->0@);
    if upto > 0 {
        let before = write_after_reads(slot, reads, (upto - 1) as nat);
        if upto > 1 {
            lemma_write_after_reads_declared(nodes, node, o, (upto - 1) as nat, 0);
        }
        if x < upto - 1 {
            lemma_write_after_reads_declared(nodes, node, o, (upto - 1) as nat, x);
            assert(write_after_reads(slot, reads, upto)[x] == before[x]);
        } else {
            assert(is_write_after_read(nodes, node, write_after_reads(slot, reads, upto)[x], o, upto - 1));
        }
    }
}

/// Every dependency that the outputs bring is a write-after-write or a
/// write-after-read dependency of one of them.
proof fn lemma_output_deps_declared(nodes: Seq<NodeModel>, node: nat, upto: nat, x: int)
    requires
        node < nodes.len(),
        upto <= nodes[node as int].outputs.len(),
        0 <= x < output_deps(nodes, nodes[node as int].outputs, upto).len(),
    ensures
        is_declared(nodes, node, output_deps(nodes, nodes[node as int].outputs, upto)[x]),
    decreases upto,
{
    let outputs = nodes[node as int].outputs;
    if upto > 0 {
        let before = output_deps(nodes, outputs, (upto - 1) as nat);
        let slot = outputs[upto - 1];
        let last = output_slot_deps(nodes, slot);
        if x < before.len() {
            lemma_output_deps_declared(nodes, node, (upto - 1) as nat, x);
            assert(output_deps(nodes, outputs, upto)[x] == before[x]);
        } else {
            let y = x - before.len();
            assert(output_deps(nodes, outputs, upto)[x] == last[y]);
            let consumed = slot.consumed->0;
            let reads = readers(nodes, nodes.len(), consumed@);
            if reads.len() == 0 {
                assert(is_write_after_write(nodes, node, last[y], upto - 1));
            } else {
                lemma_write_after_reads_declared(nodes, node, upto - 1, reads.len(), y);
            }
        }
    }
}

/// No barrier is made up: every dependency of a node is one of the three
/// kinds, for one of the node's slots, with exactly the declared stage
/// masks, access masks and layouts.
pub proof fn lemma_dependencies_declared(nodes: Seq<NodeModel>, node: nat, x: int)
    requires
        node < nodes.len(),
        0 <= x < node_deps(nodes, node).len(),
    ensures
        is_declared(nodes, node, node_deps(nodes, node)[x]),
{
    let slots = nodes[node as int];
    let first = input_deps(nodes, slots.inputs, slots.inputs.len());
    if x < first.len() {
        lemma_input_deps_declared(nodes, node, slots.inputs.len(), x);
        assert(node_deps(nodes, node)[x] == first[x]);
    } else {
        lemma_output_deps_declared(nodes, node, slots.outputs.len(), x - first.len());
        assert(node_deps(nodes, node)[x] == output_deps(nodes, slots.outputs, slots.outputs.len())[x
            - first.len()]);
    }
}

/// The barrier of a dependency of a node is on an image that a slot of the
/// node names, so on an image of the graph.
pub proof fn lemma_dependency_image(nodes: Seq<NodeModel>, images: nat, node: nat, x: int)
    requires
        slots_in_range(nodes, images),
        node < nodes.len(),
        0 <= x < node_deps(nodes, node).len(),
    ensures
        node_deps(nodes, node)[x].barrier.image@ < images,
{
    lemma_dependencies_declared(nodes, node, x);
    let dep = node_deps(nodes, node)[x];
    let slots = nodes[node as int];
    if exists|i: int| #[trigger] is_read_after_write(nodes, node, dep, i) {
        let i = choose|i: int| #[trigger] is_read_after_write(nodes, node, dep, i);
        assert(slots.inputs[i].key@ < images);
    } else if exists|o: int| #[trigger] is_write_after_write(nodes, node, dep, o) {
        let o = choose|o: int| #[trigger] is_write_after_write(nodes, node, dep, o);
        assert(slots.outputs[o].key@ < images);
    } else {
        let (o, r) = choose|o: int, r: int| #[trigger] is_write_after_read(nodes, node, dep, o, r);
        assert(slots.outputs[o].key@ < images);
    }
}

/// The barriers towards a node are barriers of dependencies that wait for
/// that node.
pub proof fn lemma_barriers_from_deps(deps: Seq<Dependency>, upto: nat, target: nat, y: int)
    requires
        upto <= deps.len(),
        0 <= y < barriers_to(deps, upto, target).len(),
    ensures
        exists|x: int|
            0 <= x < upto && (#[trigger] deps[x]).target == target && deps[x].barrier == barriers_to(
                deps,
                upto,
                target,
            )[y],
    decreases upto,
{
    if upto > 0 {
        let before = barriers_to(deps, (upto - 1) as nat, target);
        if y < before.len() {
            lemma_barriers_from_deps(deps, (upto - 1) as nat, target, y);
            let x = choose|x: int|
                0 <= x < upto - 1 && (#[trigger] deps[x]).target == target && deps[x].barrier
                    == before[y];
            assert(deps[x].barrier == barriers_to(deps, upto, target)[y]);
        } else {
            assert(deps[upto - 1].barrier == barriers_to(deps, upto, target)[y]);
        }
    }
}

/// Does input `i` of node `n` contribute a usage flag of `mask` to
/// `image`?
pub open spec fn input_contributes(nodes: Seq<NodeModel>, image: nat, mask: u32, n: int, i: int) -> bool {
    &&& 0 <= n < nodes.len()
    &&& 0 <= i < nodes[n].inputs.len()
    &&& nodes[n].inputs[i].key@ == image
    &&& nodes[n].inputs[i].usage & mask != 0
}

/// Does output `o` of node `n` contribute a usage flag of `mask` to
/// `image`?
pub open spec fn output_contributes(nodes: Seq<NodeModel>, image: nat, mask: u32, n: int, o: int) -> bool {
    &&& 0 <= n < nodes.len()
    &&& 0 <= o < nodes[n].outputs.len()
    &&& nodes[n].outputs[o].key@ == image
    &&& nodes[n].outputs[o].usage & mask != 0
}

/// Does a slot of one of the first `upto` nodes contribute a usage flag of
/// `mask` to `image`?
pub open spec fn contributed(nodes: Seq<NodeModel>, upto: nat, image: nat, mask: u32) -> bool {
    ||| exists|n: int, i: int| n < upto && #[trigger] input_contributes(nodes, image, mask, n, i)
    ||| exists|n: int, o: int| n < upto && #[trigger] output_contributes(nodes, image, mask, n, o)
}

/// A flag is in a union exactly where it is in one of the two sides.
proof fn lemma_flag_of_union(a: u32, b: u32, mask: u32)
    ensures
        (a | b) & mask != 0 <==> (a & mask != 0 || b & mask != 0),
{
    assert((a | b) & mask != 0 <==> (a & mask != 0 || b & mask != 0)) by (bit_vector);
}

/// The usage that inputs add holds a flag exactly where the usage before
/// held it or one of the inputs contributes it.
proof fn lemma_inputs_usage_flags(
    nodes: Seq<NodeModel>,
    n: int,
    acc: ImageUsageFlags,
    upto: nat,
    image: nat,
    mask: u32,
)
    requires
        0 <= n < nodes.len(),
        upto <= nodes[n].inputs.len(),
    ensures
        inputs_usage(acc, nodes[n].inputs, upto, image) & mask != 0 <==> (acc & mask != 0 || exists|i: int|
            i < upto && #[trigger] input_contributes(nodes, image, mask, n, i)),
    decreases upto,
{
    let inputs = nodes[n].inputs;
    if upto > 0 {
        lemma_inputs_usage_flags(nodes, n, acc, (upto - 1) as nat, image, mask);
        let before = inputs_usage(acc, inputs, (upto - 1) as nat, image);
        let slot = inputs[upto - 1];
        lemma_flag_of_union(before, slot.usage, mask);
        if exists|i: int| i < upto - 1 && #[trigger] input_contributes(nodes, image, mask, n, i) {
            let i = choose|i: int| i < upto - 1 && #[trigger] input_contributes(nodes, image, mask, n, i);
            assert(input_contributes(nodes, image, mask, n, i));
        }
        if input_contributes(nodes, image, mask, n, upto - 1) {
        }
        if exists|i: int| i < upto && #[trigger] input_contributes(nodes, image, mask, n, i) {
            let i = choose|i: int| i < upto && #[trigger] input_contributes(nodes, image, mask, n, i);
            if i < upto - 1 {
                assert(input_contributes(nodes, image, mask, n, i));
            }
        }
    }
}

/// The usage that outputs add holds a flag exactly where the usage before
/// held it or one of the outputs contributes it.
proof fn lemma_outputs_usage_flags(
    nodes: Seq<NodeModel>,
    n: int,
    acc: ImageUsageFlags,
    upto: nat,
    image: nat,
    mask: u32,
)
    requires
        0 <= n < nodes.len(),
        upto <= nodes[n].outputs.len(),
    ensures
        outputs_usage(acc, nodes[n].outputs, upto, image) & mask != 0 <==> (acc & mask != 0 || exists|
            o: int,
        | o < upto && #[trigger] output_contributes(nodes, image, mask, n, o)),
    decreases upto,
{
    let outputs = nodes[n].outputs;
    if upto > 0 {
        lemma_outputs_usage_flags(nodes, n, acc, (upto - 1) as nat, image, mask);
        let before = outputs_usage(acc, outputs, (upto - 1) as nat, image);
        let slot = outputs[upto - 1];
        lemma_flag_of_union(before, slot.usage, mask);
        if exists|o: int| o < upto - 1 && #[trigger] output_contributes(nodes, image, mask, n, o) {
            let o = choose|o: int| o < upto - 1 && #[trigger] output_contributes(nodes, image, mask, n, o);
            assert(output_contributes(nodes, image, mask, n, o));
        }
        if output_contributes(nodes, image, mask, n, upto - 1) {
        }
        if exists|o: int| o < upto && #[trigger] output_contributes(nodes, image, mask, n, o) {
            let o = choose|o: int| o < upto && #[trigger] output_contributes(nodes, image, mask, n, o);
            if o < upto - 1 {
                assert(output_contributes(nodes, image, mask, n, o));
            }
        }
    }
}

/// The usage flags of an image are the union of what the slots contribute:
/// a flag is set exactly where a slot that names the image has it.
pub proof fn lemma_usage_is_union(nodes: Seq<NodeModel>, upto: nat, image: nat, mask: u32)
    requires
        upto <= nodes.len(),
    ensures
        usage(nodes, upto, image) & mask != 0 <==> contributed(nodes, upto, image, mask),
    decreases upto,
{
    if upto == 0 {
        assert(0u32 & mask == 0) by (bit_vector);
    } else {
        let n = upto - 1;
        let node = nodes[n];
        let before = usage(nodes, (upto - 1) as nat, image);
        let mid = inputs_usage(before, node.inputs, node.inputs.len(), image);
        lemma_usage_is_union(nodes, (upto - 1) as nat, image, mask);
        lemma_inputs_usage_flags(nodes, n, before, node.inputs.len(), image, mask);
        lemma_outputs_usage_flags(nodes, n, mid, node.outputs.len(), image, mask);
        if contributed(nodes, (upto - 1) as nat, image, mask) {
            if exists|m: int, i: int| m < upto - 1 && #[trigger] input_contributes(nodes, image, mask, m, i) {
                let (m, i) = choose|m: int, i: int|
                    m < upto - 1 && #[trigger] input_contributes(nodes, image, mask, m, i);
                assert(m < upto && input_contributes(nodes, image, mask, m, i));
            } else {
                let (m, o) = choose|m: int, o: int|
                    m < upto - 1 && #[trigger] output_contributes(nodes, image, mask, m, o);
                assert(m < upto && output_contributes(nodes, image, mask, m, o));
            }
        }
        if exists|i: int| i < node.inputs.len() && #[trigger] input_contributes(nodes, image, mask, n, i) {
            let i = choose|i: int|
                i < node.inputs.len() && #[trigger] input_contributes(nodes, image, mask, n, i);
            assert(n < upto && input_contributes(nodes, image, mask, n, i));
        }
        if exists|o: int| o < node.outputs.len() && #[trigger] output_contributes(nodes, image, mask, n, o) {
            let o = choose|o: int|
                o < node.outputs.len() && #[trigger] output_contributes(nodes, image, mask, n, o);
            assert(n < upto && output_contributes(nodes, image, mask, n, o));
        }
        if contributed(nodes, upto, image, mask) {
            if exists|m: int, i: int| m < upto && #[trigger] input_contributes(nodes, image, mask, m, i) {
                let (m, i) = choose|m: int, i: int|
                    m < upto && #[trigger] input_contributes(nodes, image, mask, m, i);
                if m < upto - 1 {
                    assert(input_contributes(nodes, image, mask, m, i));
                } else {
                    assert(i < node.inputs.len() && input_contributes(nodes, image, mask, n, i));
                }
            } else {
                let (m, o) = choose|m: int, o: int|
                    m < upto && #[trigger] output_contributes(nodes, image, mask, m, o);
                if m < upto - 1 {
                    assert(output_contributes(nodes, image, mask, m, o));
                } else {
                    assert(o < node.outputs.len() && output_contributes(nodes, image, mask, n, o));
                }
            }
        }
    }
}

/// Two readers that ask for different layouts do not agree.
pub proof fn lemma_readers_disagree(nodes: Seq<NodeModel>, image: nat, a: int, b: int)
    requires
        0 <= a < readers(nodes, nodes.len(), image).len(),
        0 <= b < readers(nodes, nodes.len(), image).len(),
        readers(nodes, nodes.len(), image)[a].access.layout != readers(
            nodes,
            nodes.len(),
            image,
        )[b].access.layout,
    ensures
        !readers_agree(nodes, image),
{
    let all = readers(nodes, nodes.len(), image);
    if readers_agree(nodes, image) {
        assert(all[a].access.layout == all[0].access.layout);
        assert(all[b].access.layout == all[0].access.layout);
    }
}

/// The number of dependencies of the first `upto` nodes in all.
pub open spec fn total_deps(nodes: Seq<NodeModel>, upto: nat) -> nat
    decreases upto,
{
    if upto == 0 {
        0
    } else {
        total_deps(nodes, (upto - 1) as nat) + node_deps(nodes, (upto - 1) as nat).len()
    }
}

/// The number of dependencies of the first `upto` nodes of `live` in all.
pub open spec fn live_deps(nodes: Seq<NodeModel>, live: Seq<nat>, upto: nat) -> nat
    decreases upto,
{
    if upto == 0 {
        0
    } else {
        live_deps(nodes, live, (upto - 1) as nat) + node_deps(nodes, live[upto - 1]).len()
    }
}

/// What the first `upto` nodes of a list have does not depend on the nodes
/// that follow in the list.
pub proof fn lemma_live_deps_prefix(nodes: Seq<NodeModel>, a: Seq<nat>, b: Seq<nat>, upto: nat)
    requires
        upto <= a.len(),
        upto <= b.len(),
        forall|i: int| 0 <= i < upto ==> a[i] == b[i],
    ensures
        live_deps(nodes, a, upto) == live_deps(nodes, b, upto),
    decreases upto,
{
    if upto > 0 {
        lemma_live_deps_prefix(nodes, a, b, (upto - 1) as nat);
    }
}

/// Taking a node out of a list takes its dependencies out of the sum.
proof fn lemma_live_deps_remove(nodes: Seq<NodeModel>, live: Seq<nat>, at: int)
    requires
        0 <= at < live.len(),
    ensures
        live_deps(nodes, live, live.len()) == live_deps(nodes, live.remove(at), (live.len() - 1) as nat)
            + node_deps(nodes, live[at]).len(),
    decreases live.len(),
{
    let shorter = live.remove(at);
    let n = live.len();
    if at == n - 1 {
        lemma_live_deps_prefix(nodes, live, shorter, (n - 1) as nat);
    } else {
        let init = live.drop_last();
        lemma_live_deps_remove(nodes, init, at);
        lemma_live_deps_prefix(nodes, live, init, (n - 1) as nat);
        assert(init.remove(at) =~= shorter.drop_last());
        lemma_live_deps_prefix(nodes, shorter, shorter.drop_last(), (n - 2) as nat);
        assert(shorter[n - 2] == live[n - 1]);
        assert(init[at] == live[at]);
    }
}

/// Pairwise different nodes have no more dependencies together than all
/// nodes have.
pub proof fn lemma_live_deps_bounded(nodes: Seq<NodeModel>, live: Seq<nat>, upto: nat)
    requires
        live.no_duplicates(),
        forall|i: int| 0 <= i < live.len() ==> #[trigger] live[i] < upto,
    ensures
        live_deps(nodes, live, live.len()) <= total_deps(nodes, upto),
    decreases upto,
{
    if live.len() > 0 {
        if upto == 0 {
            assert(live[0] < upto);
        } else if exists|i: int| 0 <= i < live.len() && #[trigger] live[i] == upto - 1 {
            let at = choose|i: int| 0 <= i < live.len() && #[trigger] live[i] == upto - 1;
            let rest = live.remove(at);
            assert forall|j: int| 0 <= j < rest.len() implies #[trigger] rest[j] < upto - 1 by {
                if j < at {
                    assert(rest[j] == live[j]);
                } else {
                    assert(rest[j] == live[j + 1]);
                }
            }
            assert(rest.no_duplicates()) by {
                assert forall|a: int, b: int|
                    0 <= a < rest.len() && 0 <= b < rest.len() && a != b implies rest[a] != rest[b] by {
                    let a2 = if a < at {
                        a
                    } else {
                        a + 1
                    };
                    let b2 = if b < at {
                        b
                    } else {
                        b + 1
                    };
                    assert(rest[a] == live[a2]);
                    assert(rest[b] == live[b2]);
                }
            }
            lemma_live_deps_bounded(nodes, rest, (upto - 1) as nat);
            lemma_live_deps_remove(nodes, live, at);
        } else {
            assert forall|j: int| 0 <= j < live.len() implies #[trigger] live[j] < upto - 1 by {
                assert(live[j] < upto);
            }
            lemma_live_deps_bounded(nodes, live, (upto - 1) as nat);
        }
    }
}

/// The number of dependencies that one output brings.
pub open spec fn output_slot_count(nodes: Seq<NodeModel>, slot: OutputImage) -> nat {
    match slot.consumed {
        None => 0,
        Some(consumed) => {
            let reads = readers(nodes, nodes.len(), consumed@).len();
            if reads == 0 {
                1
            } else {
                reads
            }
        },
    }
}

/// The number of dependencies that the first `upto` outputs bring.
pub open spec fn outputs_count(nodes: Seq<NodeModel>, outputs: Seq<OutputImage>, upto: nat) -> nat
    decreases upto,
{
    if upto == 0 {
        0
    } else {
        outputs_count(nodes, outputs, (upto - 1) as nat) + output_slot_count(nodes, outputs[upto - 1])
    }
}

/// A write depends on each read once.
pub proof fn lemma_write_after_reads_len(writer: OutputImage, reads: Seq<AccessModel>, upto: nat)
    ensures
        write_after_reads(writer, reads, upto).len() == upto,
    decreases upto,
{
    if upto > 0 {
        lemma_write_after_reads_len(writer, reads, (upto - 1) as nat);
    }
}

/// How many dependencies the inputs and outputs of a node bring: one for
/// each input, and for each output that supersedes an image one for each
/// reader of the image, or one where nobody reads it.
pub proof fn lemma_deps_len(nodes: Seq<NodeModel>, node: NodeModel, i: nat, o: nat)
    requires
        i <= node.inputs.len(),
        o <= node.outputs.len(),
    ensures
        input_deps(nodes, node.inputs, i).len() == i,
        output_deps(nodes, node.outputs, o).len() == outputs_count(nodes, node.outputs, o),
        outputs_count(nodes, node.outputs, o) <= outputs_count(nodes, node.outputs, node.outputs.len()),
    decreases i + o,
{
    if i > 0 {
        lemma_deps_len(nodes, node, (i - 1) as nat, o);
    } else {
        if o > 0 {
            lemma_deps_len(nodes, node, i, (o - 1) as nat);
            let slot = node.outputs[o - 1];
            if slot.consumed is Some {
                let reads = readers(nodes, nodes.len(), slot.consumed->0@);
                lemma_write_after_reads_len(slot, reads, reads.len());
            }
        }
        lemma_outputs_count_grows(nodes, node.outputs, o, node.outputs.len());
    }
}

/// More outputs bring no fewer dependencies.
pub proof fn lemma_outputs_count_grows(nodes: Seq<NodeModel>, outputs: Seq<OutputImage>, a: nat, b: nat)
    requires
        a <= b,
    ensures
        outputs_count(nodes, outputs, a) <= outputs_count(nodes, outputs, b),
    decreases b,
{
    if a < b {
        lemma_outputs_count_grows(nodes, outputs, a, (b - 1) as nat);
    }
}

/// The number of dependencies of a node.
pub proof fn lemma_node_deps_len(nodes: Seq<NodeModel>, node: nat)
    ensures
        node_deps(nodes, node).len() == nodes[node as int].inputs.len() + outputs_count(
            nodes,
            nodes[node as int].outputs,
            nodes[node as int].outputs.len(),
        ),
{
    let slots = nodes[node as int];
    lemma_deps_len(nodes, slots, slots.inputs.len(), slots.outputs.len());
}

/// More nodes have no fewer dependencies.
pub proof fn lemma_live_deps_grows(nodes: Seq<NodeModel>, live: Seq<nat>, a: nat, b: nat)
    requires
        a <= b,
    ensures
        live_deps(nodes, live, a) <= live_deps(nodes, live, b),
    decreases b,
{
    if a < b {
        lemma_live_deps_grows(nodes, live, a, (b - 1) as nat);
    }
}

/// More nodes have no fewer dependencies.
pub proof fn lemma_total_deps_grows(nodes: Seq<NodeModel>, a: nat, b: nat)
    requires
        a <= b,
    ensures
        total_deps(nodes, a) <= total_deps(nodes, b),
    decreases b,
{
    if a < b {
        lemma_total_deps_grows(nodes, a, (b - 1) as nat);
    }
}

} // verus!
