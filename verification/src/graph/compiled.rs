//! The compiled graph: the graph as the editor left it, the dependencies
//! between the nodes that the final image needs, and the order in which
//! those nodes run.

use crate::arena::Key;
use crate::depgraph::{positions, DepGraph};
use crate::graph::builder::GraphEditor;
use crate::graph::compile::compiled;
use crate::graph::model::{
    lemma_targets, barriers_to, edge_stands_for, edges_stand_for, lemma_barriers_from_deps, lemma_dependency_image,
    node_deps, targets, consumers, live_nodes, producers, readers, usage, used_images_produced, NodeModel,
};
use crate::graph::{
    GraphImage, GraphImageInfo, GraphKey, GraphNode, ImageOpAccess, NodeDependency, OpAccesses,
};
use crate::vk::ImageUsageFlags;
use std::sync::Arc;
use vstd::prelude::*;

verus! {

/// A compiled render graph. It does not change any more, and its clones
/// share one copy.
pub struct Graph {
    inner: Arc<GraphInner>,
}

/// What a compiled graph holds.
pub struct GraphInner {
    swapchain_image: GraphImage,
    editor: GraphEditor,
    graph: DepGraph<GraphKey, NodeDependency>,
    graph_order: Vec<Key<GraphKey>>,
}

/// Another handle to the same compiled graph.
///
/// Calls `Arc::clone` of std, which hands out one more pointer to the value
/// that the given pointer shares; the value itself is not copied or changed.
#[verifier::external_body]
fn share(inner: &Arc<GraphInner>) -> (shared: Arc<GraphInner>)
    ensures
        *shared == **inner,
{
    Arc::clone(inner)
}

impl Clone for Graph {
    fn clone(&self) -> (res: Self)
        ensures
            res.editor() == self.editor(),
            res.dep_graph() == self.dep_graph(),
            res.order() == self.order(),
            res.final_image() == self.final_image(),
    {
        Graph { inner: share(&self.inner) }
    }
}

impl Graph {
    /// The graph as the editor left it.
    pub closed spec fn editor(&self) -> GraphEditor {
        self.inner.editor
    }

    /// The dependencies between the nodes that the final image needs.
    pub closed spec fn dep_graph(&self) -> DepGraph<GraphKey, NodeDependency> {
        self.inner.graph
    }

    /// The order in which the nodes of the dependency graph run.
    pub closed spec fn order(&self) -> Seq<nat> {
        positions(self.inner.graph_order@)
    }

    /// The image that the graph is compiled for.
    pub closed spec fn final_image(&self) -> GraphImage {
        self.inner.swapchain_image
    }

    /// The slots of the nodes of the render graph, by node key.
    pub open spec fn nodes(&self) -> Seq<NodeModel> {
        self.editor().nodes()
    }

    /// The render graph nodes that run, by their key in the dependency
    /// graph.
    pub open spec fn live(&self) -> Seq<nat> {
        live_nodes(self.dep_graph()@)
    }

    /// The graph is what compiling the editor's graph for the final image
    /// gives, and the order sorts its dependency graph: each node stands
    /// after all the nodes that it waits for.
    pub open spec fn wf(&self) -> bool {
        &&& self.editor().wf()
        &&& used_images_produced(self.nodes(), self.editor().images().infos().len())
        &&& self.final_image()@ < self.editor().images().infos().len()
        &&& producers(self.nodes(), self.nodes().len(), self.final_image()@).len() == 1
        &&& compiled(
            self.nodes(),
            producers(self.nodes(), self.nodes().len(), self.final_image()@)[0].node,
            self.dep_graph(),
        )
        &&& self.dep_graph()@.reverse_sorted_by(self.order())
    }

    /// Freezes a compiled graph.
    pub fn freeze(
        editor: GraphEditor,
        final_image: GraphImage,
        graph: DepGraph<GraphKey, NodeDependency>,
        graph_order: Vec<Key<GraphKey>>,
    ) -> (frozen: Graph)
        ensures
            frozen.editor() == editor,
            frozen.dep_graph() == graph,
            frozen.order() == positions(graph_order@),
            frozen.final_image() == final_image,
    {
        Graph {
            inner: Arc::new(GraphInner { swapchain_image: final_image, editor, graph, graph_order }),
        }
    }

    /// The image that the graph is compiled for.
    pub fn swapchain_image(&self) -> (image: GraphImage)
        ensures
            image == self.final_image(),
    {
        self.inner.swapchain_image
    }

    /// The number of images of the graph.
    pub fn num_images(&self) -> (n: usize)
        ensures
            n == self.editor().images().infos().len(),
    {
        self.inner.editor.num_images()
    }

    /// The number of nodes that run.
    pub fn num_live_nodes(&self) -> (n: usize)
        ensures
            n == self.live().len(),
    {
        self.inner.graph.num_nodes()
    }

    /// The keys of the nodes of the dependency graph, in the order in which
    /// they run.
    pub fn graph_order(&self) -> (order: &Vec<Key<GraphKey>>)
        ensures
            positions(order@) == self.order(),
    {
        &self.inner.graph_order
    }

    /// The render graph node that node `key` of the dependency graph stands
    /// for.
    pub fn node_key(&self, key: Key<GraphKey>) -> (node: GraphKey)
        requires
            self.wf(),
            key@ < self.live().len(),
        ensures
            node@ == self.live()[key@ as int],
            node@ < self.nodes().len(),
    {
        proof {
            self.inner.graph.lemma_wf();
            assert(self.live()[key@ as int] < self.nodes().len());
        }
        *self.inner.graph.node(key)
    }

    /// The slots of node `key` of the render graph.
    pub fn node(&self, key: GraphKey) -> (node: Option<&GraphNode>)
        ensures
            key@ >= self.nodes().len() ==> node is None,
            key@ < self.nodes().len() ==> node is Some && node->0@ == self.nodes()[key@ as int],
    {
        self.inner.editor.node(key)
    }

    /// The dependencies of node `key` of the dependency graph: the weights
    /// of the edges that leave it, in the order of the edges.
    pub fn node_dependencies(&self, key: Key<GraphKey>) -> (deps: Vec<&NodeDependency>)
        requires
            self.wf(),
            key@ < self.live().len(),
        ensures
            deps@.len() == self.dep_graph().out_edges(key@).len(),
            forall|i: int|
                0 <= i < deps@.len() ==> *(#[trigger] deps@[i]) == self.dep_graph()@.weights[self.dep_graph().out_edges(
                    key@,
                )[i] as int],
    {
        proof {
            self.inner.graph.lemma_wf();
        }
        self.inner.graph.outgoing_deps(key)
    }

    /// The descriptor of image `key`.
    pub fn image_info(&self, key: GraphImage) -> (info: Option<&GraphImageInfo>)
        ensures
            info == if key@ < self.editor().images().infos().len() {
                Some(&self.editor().images().infos()[key@ as int])
            } else {
                None
            },
    {
        self.inner.editor.image_resources().info(key)
    }

    /// The usage flags of image `key`: the union of what every slot that
    /// names the image contributes.
    pub fn image_usage(&self, key: GraphImage) -> (flags: Option<ImageUsageFlags>)
        requires
            self.wf(),
        ensures
            flags == if key@ < self.editor().images().infos().len() {
                Some(usage(self.nodes(), self.nodes().len(), key@))
            } else {
                None
            },
    {
        proof {
            self.editor().images().lemma_wf();
            if key@ < self.editor().images().infos().len() {
                assert(self.editor().tables_hold(
                    key@,
                    readers(self.nodes(), self.nodes().len(), key@),
                    producers(self.nodes(), self.nodes().len(), key@),
                    consumers(self.nodes(), self.nodes().len(), key@),
                    usage(self.nodes(), self.nodes().len(), key@),
                ));
            }
        }
        self.inner.editor.image_resources().usage(key)
    }

    /// The access history of image `key`.
    pub fn image_access(&self, key: GraphImage) -> (accesses: Option<&OpAccesses<GraphImageInfo>>)
        ensures
            accesses == if self.editor().images().accesses().contains_key(key@) {
                Some(&self.editor().images().accesses()[key@])
            } else {
                None
            },
    {
        self.inner.editor.image_resources().access(key)
    }

    /// The label of image `key`.
    pub fn image_label(&self, key: GraphImage) -> (label: Option<&String>)
        ensures
            label == if self.editor().images().labels().contains_key(key@) {
                Some(&self.editor().images().labels()[key@])
            } else {
                None
            },
    {
        self.inner.editor.image_resources().label(key)
    }

    /// The label of node `key`.
    pub fn node_label(&self, key: GraphKey) -> (label: Option<&String>)
        ensures
            label == if self.editor().node_labels().contains_key(key@) {
                Some(&self.editor().node_labels()[key@])
            } else {
                None
            },
    {
        self.inner.editor.node_label(key)
    }

    /// The write that produces the final image.
    pub fn final_producer(&self) -> (producer: ImageOpAccess)
        requires
            self.wf(),
        ensures
            producer@ == producers(self.nodes(), self.nodes().len(), self.final_image()@)[0],
    {
        let key = self.inner.swapchain_image;
        proof {
            self.editor().images().lemma_wf();
            assert(self.editor().tables_hold(
                key@,
                readers(self.nodes(), self.nodes().len(), key@),
                producers(self.nodes(), self.nodes().len(), key@),
                consumers(self.nodes(), self.nodes().len(), key@),
                usage(self.nodes(), self.nodes().len(), key@),
            ));
        }
        self.inner.editor.image_resources().access(key).unwrap().produced_by.unwrap()
    }
}

impl Graph {
    /// The node of the dependency graph at place `p` of the order stands
    /// for a node of the render graph.
    pub proof fn lemma_order(&self, p: int)
        requires
            self.wf(),
            0 <= p < self.order().len(),
        ensures
            self.order()[p] < self.live().len(),
            self.live()[self.order()[p] as int] < self.nodes().len(),
            self.order().len() == self.live().len(),
    {
    }

    /// Every barrier on an edge of the dependency graph is on an image of
    /// the graph.
    pub proof fn lemma_barrier_images(&self, i: nat, k: int, y: int)
        requires
            self.wf(),
            i < self.live().len(),
            0 <= k < self.dep_graph().out_edges(i).len(),
            0 <= y < self.dep_graph()@.weights[self.dep_graph().out_edges(i)[k] as int].images@.len(),
        ensures
            self.dep_graph()@.weights[self.dep_graph().out_edges(i)[k] as int].images@[y].image@
                < self.editor().images().infos().len(),
    {
        let nodes = self.nodes();
        let v = self.live()[i as int];
        let deps = node_deps(nodes, v);
        let ts = targets(deps, deps.len());
        let out = self.dep_graph().out_edges(i);
        assert(edges_stand_for(self.dep_graph()@, out, i, deps));
        assert(edge_stands_for(
            self.dep_graph()@,
            out[k] as int,
            i,
            ts[k],
            barriers_to(deps, deps.len(), ts[k]),
        ));
        lemma_barriers_from_deps(deps, deps.len(), ts[k], y);
        let x = choose|x: int|
            0 <= x < deps.len() && (#[trigger] deps[x]).target == ts[k] && deps[x].barrier
                == barriers_to(deps, deps.len(), ts[k])[y];
        lemma_dependency_image(nodes, self.editor().images().infos().len(), v, x);
    }

    /// Dependencies run first: the node that a node at place `p` of the
    /// order waits for through its dependency `x` stands at an earlier
    /// place.
    pub proof fn lemma_dependencies_run_first(&self, p: int, x: int)
        requires
            self.wf(),
            0 <= p < self.order().len(),
            0 <= x < node_deps(self.nodes(), self.live()[self.order()[p] as int]).len(),
        ensures
            exists|q: int|
                0 <= q < p && self.live()[#[trigger] self.order()[q] as int] == node_deps(
                    self.nodes(),
                    self.live()[self.order()[p] as int],
                )[x].target,
    {
        let nodes = self.nodes();
        let i = self.order()[p];
        let v = self.live()[i as int];
        let deps = node_deps(nodes, v);
        let ts = targets(deps, deps.len());
        let out = self.dep_graph().out_edges(i);
        lemma_targets(deps, deps.len());
        assert(ts.contains(deps[x].target));
        let k = choose|k: int| 0 <= k < ts.len() && ts[k] == deps[x].target;
        assert(edges_stand_for(self.dep_graph()@, out, i, deps));
        assert(edge_stands_for(
            self.dep_graph()@,
            out[k] as int,
            i,
            ts[k],
            barriers_to(deps, deps.len(), ts[k]),
        ));
        let e = out[k] as int;
        let j = self.dep_graph()@.edges[e].1;
        assert(self.order().contains(j));
        let q = choose|q: int| 0 <= q < self.order().len() && self.order()[q] == j;
        assert(self.order()[p] == self.dep_graph()@.edges[e].0);
        assert(self.order()[q] == self.dep_graph()@.edges[e].1);
        assert(q < p);
    }
}

} // verus!
