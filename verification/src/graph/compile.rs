//! The graph compiler: finds the nodes that the final image depends on and
//! the dependencies between them.

use crate::arena::{ArenaMap, Key};
use crate::depgraph::{lemma_distinct_below, DepGraph};
use crate::graph::builder::GraphEditor;
use crate::graph::model::{
    access_models, barriers_to, consumers, edge_stands_for, edges_stand_for, input_deps, lemma_deps_len,
    lemma_groups_push, lemma_history_nodes, lemma_live_deps_bounded, lemma_live_deps_grows,
    lemma_live_deps_prefix, lemma_live_unique, lemma_node_deps_len, lemma_outputs_count_grows,
    lemma_slot_listed, lemma_targets, lemma_write_after_reads_len, live_deps, live_from,
    live_nodes, node_deps, output_deps, output_slot_deps, outputs_count, producers,
    ranks_respect, readers, schedulable, targets, total_deps, usage, used_images_produced,
    waited_for, write_after_reads, Dependency, NodeModel,
};
use crate::graph::{GraphKey, ImageDependency, NodeDependency};
use vstd::prelude::*;

verus! {

/// The state of one compilation: the dependency graph as far as it is
/// found, and where each node of the render graph stands in it.
pub struct GraphBuilder<'a> {
    editor: &'a GraphEditor,
    dep_graph: DepGraph<GraphKey, NodeDependency>,
    arena_to_depgraph: ArenaMap<GraphKey, Key<GraphKey>>,
    parents: Ghost<Seq<(nat, nat)>>,
}

/// Node `i` of `live` was found through dependency `parent.1` of the node
/// at `parent.0`, which stands before it. The dependencies of the node at
/// `done` are `deps`; those of another node are all that it has.
pub open spec fn found_through(
    nodes: Seq<NodeModel>,
    live: Seq<nat>,
    i: int,
    parent: (nat, nat),
    done: nat,
    deps: Seq<Dependency>,
) -> bool {
    let list = if parent.0 == done {
        deps
    } else {
        node_deps(nodes, live[parent.0 as int])
    };
    &&& parent.0 <= done
    &&& parent.0 < i
    &&& parent.1 < list.len()
    &&& list[parent.1 as int].target == live[i]
}

impl<'a> GraphBuilder<'a> {
    /// The editor whose graph is compiled.
    pub closed spec fn editor(&self) -> GraphEditor {
        *self.editor
    }

    /// The dependency graph as far as it is found.
    pub closed spec fn graph(&self) -> DepGraph<GraphKey, NodeDependency> {
        self.dep_graph
    }

    /// The map from render graph nodes to nodes of the dependency graph
    /// agrees with the dependency graph.
    pub closed spec fn indexed(&self) -> bool {
        let live = live_nodes(self.dep_graph@);
        let map = self.arena_to_depgraph@;
        &&& forall|i: int|
            0 <= i < live.len() ==> (#[trigger] live[i]) < self.editor.nodes().len()
                && map.contains_key(live[i]) && map[live[i]]@ == i
        &&& forall|k: nat|
            #[trigger] map.contains_key(k) ==> map[k]@ < live.len() && live[map[k]@ as int] == k
    }

    /// The first `done` nodes of the dependency graph are visited, and of
    /// the node at `done` the dependencies `deps` are entered.
    pub closed spec fn visiting(&self, done: nat, deps: Seq<Dependency>) -> bool {
        let graph = self.dep_graph@;
        let live = live_nodes(graph);
        let nodes = self.editor.nodes();
        &&& self.dep_graph.wf()
        &&& self.arena_to_depgraph.wf()
        &&& self.indexed()
        &&& done < live.len()
        &&& forall|i: nat|
            i < done ==> edges_stand_for(
                graph,
                #[trigger] self.dep_graph.out_edges(i),
                i,
                node_deps(nodes, live[i as int]),
            )
        &&& edges_stand_for(graph, self.dep_graph.out_edges(done), done, deps)
        &&& forall|i: nat| done < i < live.len() ==> (#[trigger] self.dep_graph.out_edges(i)).len() == 0
        &&& self.parents@.len() == live.len()
        &&& forall|i: int|
            0 < i < live.len() ==> found_through(nodes, live, i, #[trigger] self.parents@[i], done, deps)
        &&& graph.edges.len() <= live_deps(nodes, live, done) + deps.len()
    }

    /// A compilation that starts at node `init`.
    pub fn new(editor: &'a GraphEditor, init: GraphKey) -> (builder: GraphBuilder<'a>)
        requires
            editor.wf(),
            init@ < editor.nodes().len(),
        ensures
            builder.editor() == *editor,
            builder.visiting(0, Seq::empty()),
            live_nodes(builder.graph()@) == seq![init@],
    {
        let mut dep_graph: DepGraph<GraphKey, NodeDependency> = DepGraph::new();
        let mut arena_to_depgraph: ArenaMap<GraphKey, Key<GraphKey>> = ArenaMap::new();
        let key = dep_graph.add_node(init);
        arena_to_depgraph.insert(init, key);
        let ghost root = Seq::<(nat, nat)>::empty().push((0nat, 0nat));
        let builder = GraphBuilder { editor, dep_graph, arena_to_depgraph, parents: Ghost(root) };
        proof {
            assert(live_nodes(builder.dep_graph@) =~= seq![init@]);
            let deps = Seq::<Dependency>::empty();
            assert(targets(deps, 0).len() == 0);
        }
        builder
    }

    /// Enters one dependency of the node that is being visited: the node at
    /// `head` waits for `target`, with `barrier` between them. A target that
    /// is new to the dependency graph is added to it.
    fn add_dependency(
        &mut self,
        head: Key<GraphKey>,
        target: GraphKey,
        barrier: ImageDependency,
        Ghost(deps): Ghost<Seq<Dependency>>,
    )
        requires
            old(self).editor().wf(),
            old(self).visiting(head@, deps),
            target@ < old(self).editor().nodes().len(),
            total_deps(old(self).editor().nodes(), old(self).editor().nodes().len()) < u32::MAX,
            deps.len() < node_deps(
                old(self).editor().nodes(),
                live_nodes(old(self).graph()@)[head@ as int],
            ).len(),
        ensures
            final(self).editor == old(self).editor,
            final(self).visiting(head@, deps.push(Dependency { target: target@, barrier })),
            live_nodes(final(self).graph()@).len() >= live_nodes(old(self).graph()@).len(),
            forall|i: int|
                0 <= i < live_nodes(old(self).graph()@).len() ==> live_nodes(final(self).graph()@)[i]
                    == live_nodes(old(self).graph()@)[i],
    {
        let ghost nodes = self.editor.nodes();
        let ghost graph0 = self.dep_graph@;
        let ghost live0 = live_nodes(graph0);
        let ghost out0 = self.dep_graph.out_edges(head@);
        let ghost ts0 = targets(deps, deps.len());
        let ghost dep = Dependency { target: target@, barrier };
        let ghost deps1 = deps.push(dep);
        let ghost known = self.arena_to_depgraph@.contains_key(target@);
        let ghost before = *self;
        proof {
            self.dep_graph.lemma_wf();
            lemma_targets(deps, deps.len());
            lemma_groups_push(deps, dep, target@);
        }
        let dst = match self.arena_to_depgraph.get(target) {
            Some(k) => *k,
            None => {
                proof {
                    let wider = live0.push(target@);
                    assert(wider.no_duplicates()) by {
                        assert forall|a: int, b: int|
                            0 <= a < wider.len() && 0 <= b < wider.len() && a != b implies wider[a]
                            != wider[b] by {
                            if a < live0.len() && b < live0.len() {
                                assert(self.arena_to_depgraph@[live0[a]]@ == a);
                                assert(self.arena_to_depgraph@[live0[b]]@ == b);
                            } else if a < live0.len() {
                                assert(self.arena_to_depgraph@.contains_key(live0[a]));
                            } else {
                                assert(self.arena_to_depgraph@.contains_key(live0[b]));
                            }
                        }
                    }
                    assert forall|a: int| 0 <= a < wider.len() implies #[trigger] wider[a] < nodes.len() by {
                        if a < live0.len() {
                            assert(live0[a] < nodes.len());
                        }
                    }
                    lemma_distinct_below(wider, nodes.len());
                }
                let k = self.dep_graph.add_node(target);
                self.arena_to_depgraph.insert(target, k);
                self.parents = Ghost(self.parents@.push((head@, deps.len())));
                k
            },
        };
        let ghost graph1 = self.dep_graph@;
        let ghost live1 = live_nodes(graph1);
        proof {
            assert(live1 =~= if known {
                live0
            } else {
                live0.push(target@)
            });
            assert(live1[dst@ as int] == target@);
            assert(graph1.edges == graph0.edges);
            assert(graph1.weights == graph0.weights);
        }
        let found = self.dep_graph.find_edge(head, dst);
        let edge = match found {
            Some(e) => e,
            None => {
                proof {
                    // The edges are no more than the dependencies entered so
                    // far, and those are fewer than all dependencies.
                    let done = head@;
                    self.lemma_live_distinct();
                    lemma_live_deps_prefix(nodes, live0, live1, done);
                    lemma_live_deps_grows(nodes, live1, done + 1, live1.len());
                    lemma_live_deps_bounded(nodes, live1, nodes.len());
                    assert(live1[done as int] == live0[done as int]);
                }
                self.dep_graph.add_edge(head, dst, NodeDependency::default())
            },
        };
        let ghost graph2 = self.dep_graph@;
        let ghost out2 = self.dep_graph.out_edges(head@);
        let weight = self.dep_graph.weight_mut(edge);
        weight.images.push(barrier);
        proof {
            let graph3 = self.dep_graph@;
            let live3 = live_nodes(graph3);
            let out3 = self.dep_graph.out_edges(head@);
            let ts1 = targets(deps1, deps1.len());
            assert(live3 =~= live1);
            assert(out3 == out2);
            assert(graph3.edges == graph2.edges);
            assert(graph3.nodes == graph1.nodes);
            // The edge that was found or made, and the targets after the step.
            if found is Some {
                assert(graph0.edges[edge@ as int] == (head@, dst@));
                assert(out0.contains(edge@));
                let k = choose|k: int| 0 <= k < out0.len() && out0[k] == edge@;
                assert(edge_stands_for(
                    graph0,
                    out0[k] as int,
                    head@,
                    ts0[k],
                    barriers_to(deps, deps.len(), ts0[k]),
                ));
                assert(dst@ < graph0.nodes.len());
                assert(live0[dst@ as int] == target@);
                assert(ts0[k] == target@);
                assert(ts0.contains(target@));
                assert(ts1 == ts0);
                assert(out3 == out0);
            } else {
                if ts0.contains(target@) {
                    let k = choose|k: int| 0 <= k < ts0.len() && ts0[k] == target@;
                    assert(edge_stands_for(
                        graph0,
                        out0[k] as int,
                        head@,
                        ts0[k],
                        barriers_to(deps, deps.len(), ts0[k]),
                    ));
                    let j = graph0.edges[out0[k] as int].1;
                    assert(live0[j as int] == target@);
                    assert(before.arena_to_depgraph@[live0[j as int]]@ == j);
                    assert(graph1.edges[out0[k] as int] == (head@, dst@));
                    assert(false);
                }
                assert(ts1 == ts0.push(target@));
                assert(out3 == out0.push(edge@));
            }
            assert forall|k: int| 0 <= k < out3.len() implies #[trigger] edge_stands_for(
                graph3,
                out3[k] as int,
                head@,
                ts1[k],
                barriers_to(deps1, deps1.len(), ts1[k]),
            ) by {
                lemma_groups_push(deps, dep, ts1[k]);
                if k < out0.len() {
                    assert(edge_stands_for(
                        graph0,
                        out0[k] as int,
                        head@,
                        ts0[k],
                        barriers_to(deps, deps.len(), ts0[k]),
                    ));
                    assert(ts1[k] == ts0[k]);
                    let e = out0[k] as int;
                    assert(graph3.edges[e] == graph0.edges[e]);
                    assert(graph3.nodes[graph0.edges[e].1 as int] == graph0.nodes[graph0.edges[e].1 as int]);
                    if e == edge@ {
                        assert(live0[graph0.edges[e].1 as int] == ts0[k]);
                        assert(ts0[k] == target@);
                    } else {
                        assert(graph3.weights[e] == graph0.weights[e]);
                        if ts0[k] == target@ {
                            assert(found is Some);
                            let k2 = choose|k2: int| 0 <= k2 < out0.len() && out0[k2] == edge@;
                            assert(edge_stands_for(
                                graph0,
                                out0[k2] as int,
                                head@,
                                ts0[k2],
                                barriers_to(deps, deps.len(), ts0[k2]),
                            ));
                            assert(live0[dst@ as int] == target@);
                            assert(ts0[k2] == target@);
                            assert(k2 == k);
                        }
                    }
                } else {
                    assert(found is None);
                    assert(out3[k] == edge@);
                    assert(ts1[k] == target@);
                    assert(barriers_to(deps, deps.len(), target@).len() == 0);
                    assert(graph3.weights[edge@ as int].images@ =~= barriers_to(deps1, deps1.len(), target@));
                }
            }
            assert(edges_stand_for(graph3, out3, head@, deps1));
            assert forall|i: nat| i < head@ implies edges_stand_for(
                graph3,
                #[trigger] self.dep_graph.out_edges(i),
                i,
                node_deps(nodes, live3[i as int]),
            ) by {
                let out = before.dep_graph.out_edges(i);
                let full = node_deps(nodes, live0[i as int]);
                assert(self.dep_graph.out_edges(i) == out);
                assert(edges_stand_for(graph0, out, i, full));
                assert forall|k: int| 0 <= k < out.len() implies #[trigger] edge_stands_for(
                    graph3,
                    out[k] as int,
                    i,
                    targets(full, full.len())[k],
                    barriers_to(full, full.len(), targets(full, full.len())[k]),
                ) by {
                    assert(edge_stands_for(
                        graph0,
                        out[k] as int,
                        i,
                        targets(full, full.len())[k],
                        barriers_to(full, full.len(), targets(full, full.len())[k]),
                    ));
                    let e = out[k] as int;
                    assert(graph3.edges[e] == graph0.edges[e]);
                    assert(graph3.weights[e] == graph0.weights[e]);
                    assert(graph3.nodes[graph0.edges[e].1 as int] == graph0.nodes[graph0.edges[e].1 as int]);
                }
            }
            assert forall|i: int| 0 < i < live3.len() implies found_through(
                nodes,
                live3,
                i,
                #[trigger] self.parents@[i],
                head@,
                deps1,
            ) by {
                if i < live0.len() {
                    assert(found_through(nodes, live0, i, before.parents@[i], head@, deps));
                    assert(self.parents@[i] == before.parents@[i]);
                    let parent = before.parents@[i];
                    if parent.0 == head@ {
                        assert(deps1[parent.1 as int] == deps[parent.1 as int]);
                    }
                } else {
                    assert(self.parents@[i] == (head@, deps.len()));
                    assert(deps1[deps.len() as int] == dep);
                }
            }
            assert(self.indexed()) by {
                let map = self.arena_to_depgraph@;
                assert forall|i: int| 0 <= i < live3.len() implies (#[trigger] live3[i]) < self.editor.nodes().len()
                    && map.contains_key(live3[i]) && map[live3[i]]@ == i by {
                    if i < live0.len() {
                        assert(live0[i] < nodes.len());
                        assert(before.arena_to_depgraph@[live0[i]]@ == i);
                    }
                }
                assert forall|k: nat| #[trigger] map.contains_key(k) implies map[k]@ < live3.len()
                    && live3[map[k]@ as int] == k by {
                    if before.arena_to_depgraph@.contains_key(k) {
                        assert(before.arena_to_depgraph@[k]@ < live0.len());
                    }
                }
            }
            lemma_live_deps_prefix(nodes, live0, live3, head@);
        }
    }
}

/// The dependency graph `graph` is what compiling the nodes `nodes` from the
/// node `root` gives. Its first node stands for `root`; its nodes stand for
/// pairwise different nodes of the render graph; the edges that leave a
/// node stand for the dependencies of the node it stands for; and every
/// node but the first is one that a node before it waits for.
pub open spec fn compiled(
    nodes: Seq<NodeModel>,
    root: nat,
    graph: DepGraph<GraphKey, NodeDependency>,
) -> bool {
    let live = live_nodes(graph@);
    &&& graph.wf()
    &&& live.len() > 0
    &&& live[0] == root
    &&& live.no_duplicates()
    &&& forall|i: int| 0 <= i < live.len() ==> #[trigger] live[i] < nodes.len()
    &&& forall|i: nat|
        i < live.len() ==> edges_stand_for(
            graph@,
            #[trigger] graph.out_edges(i),
            i,
            node_deps(nodes, live[i as int]),
        )
    &&& forall|i: int| 0 < i < live.len() ==> #[trigger] waited_for(nodes, live, i)
}

impl<'a> GraphBuilder<'a> {
    /// Enters the dependencies of the node at `head`: for each input the
    /// producer of its image, and for each output that supersedes an image
    /// the readers of that image, or its producer where nobody reads it.
    fn visit(&mut self, head: Key<GraphKey>)
        requires
            old(self).editor().wf(),
            used_images_produced(old(self).editor().nodes(), old(self).editor().images().infos().len()),
            total_deps(old(self).editor().nodes(), old(self).editor().nodes().len()) < u32::MAX,
            old(self).visiting(head@, Seq::empty()),
        ensures
            final(self).editor == old(self).editor,
            final(self).visiting(
                head@,
                node_deps(old(self).editor().nodes(), live_nodes(old(self).graph()@)[head@ as int]),
            ),
            live_nodes(final(self).graph()@).len() >= live_nodes(old(self).graph()@).len(),
            forall|i: int|
                0 <= i < live_nodes(old(self).graph()@).len() ==> live_nodes(final(self).graph()@)[i]
                    == live_nodes(old(self).graph()@)[i],
    {
        let editor = self.editor;
        let ghost nodes = editor.nodes();
        let ghost n_images = editor.images().infos().len();
        let ghost live0 = live_nodes(self.dep_graph@);
        proof {
            self.dep_graph.lemma_wf();
        }
        let node_key = *self.dep_graph.node(head);
        let ghost v = node_key@;
        assert(v == live0[head@ as int]);
        assert(v < nodes.len());
        let node = editor.node(node_key).unwrap();
        let ghost slots = nodes[v as int];
        let images = editor.image_resources();
        let inputs = &node.inputs.images;
        let outputs = &node.outputs.images;
        proof {
            images.lemma_wf();
            lemma_slot_listed(nodes, nodes.len(), v as int);
        }
        let ghost mut deps: Seq<Dependency> = Seq::empty();
        let mut i: usize = 0;
        while i < inputs.len()
            invariant
                self.editor == old(self).editor,
                editor == self.editor,
                editor.wf(),
                used_images_produced(nodes, n_images),
                total_deps(nodes, nodes.len()) < u32::MAX,
                live0[head@ as int] == v,
                head@ < live0.len(),
                nodes == editor.nodes(),
                n_images == editor.images().infos().len(),
                *images == editor.images(),
                v < nodes.len(),
                slots == nodes[v as int],
                inputs@ == slots.inputs,
                i <= inputs@.len(),
                deps == input_deps(nodes, slots.inputs, i as nat),
                self.visiting(head@, deps),
                live_nodes(self.dep_graph@).len() >= live0.len(),
                forall|x: int| 0 <= x < live0.len() ==> live_nodes(self.dep_graph@)[x] == live0[x],
                forall|x: int|
                    0 <= x < slots.inputs.len() ==> readers(
                        nodes,
                        nodes.len(),
                        (#[trigger] slots.inputs[x]).key@,
                    ).len() > 0,
            decreases inputs@.len() - i,
        {
            let input = inputs[i];
            let ghost image = input.key@;
            proof {
                images.lemma_wf();
                assert(slots.inputs[i as int].key@ < n_images);
                assert(readers(nodes, nodes.len(), slots.inputs[i as int].key@).len() > 0);
                assert(producers(nodes, nodes.len(), image).len() > 0);
                assert(editor.tables_hold(
                    image,
                    readers(nodes, nodes.len(), image),
                    producers(nodes, nodes.len(), image),
                    consumers(nodes, nodes.len(), image),
                    usage(nodes, nodes.len(), image),
                ));
                lemma_history_nodes(nodes, nodes.len(), image);
            }
            let recorded = images.access(input.key).unwrap();
            let producer = recorded.produced_by.unwrap();
            let barrier = ImageDependency::read_after_write(&input, &producer.access);
            proof {
                lemma_deps_len(nodes, slots, i as nat, 0);
                lemma_node_deps_len(nodes, v);
                assert(live_nodes(self.dep_graph@)[head@ as int] == v);
            }
            self.add_dependency(head, producer.node_key, barrier, Ghost(deps));
            proof {
                deps = deps.push(Dependency { target: producer.node_key@, barrier });
            }
            i += 1;
        }
        let ghost from_inputs = deps;
        let mut k: usize = 0;
        while k < outputs.len()
            invariant
                self.editor == old(self).editor,
                editor == self.editor,
                editor.wf(),
                used_images_produced(nodes, n_images),
                total_deps(nodes, nodes.len()) < u32::MAX,
                live0[head@ as int] == v,
                head@ < live0.len(),
                nodes == editor.nodes(),
                n_images == editor.images().infos().len(),
                *images == editor.images(),
                v < nodes.len(),
                slots == nodes[v as int],
                outputs@ == slots.outputs,
                k <= outputs@.len(),
                from_inputs == input_deps(nodes, slots.inputs, slots.inputs.len()),
                deps == from_inputs + output_deps(nodes, slots.outputs, k as nat),
                self.visiting(head@, deps),
                live_nodes(self.dep_graph@).len() >= live0.len(),
                forall|x: int| 0 <= x < live0.len() ==> live_nodes(self.dep_graph@)[x] == live0[x],
                forall|x: int|
                    0 <= x < slots.outputs.len() && (#[trigger] slots.outputs[x]).consumed is Some
                        ==> consumers(nodes, nodes.len(), slots.outputs[x].consumed->0@).len() > 0,
            decreases outputs@.len() - k,
        {
            let output = outputs[k];
            let ghost base = deps;
            match output.consumed {
                None => {
                    proof {
                        assert(output_slot_deps(nodes, slots.outputs[k as int]) =~= Seq::<Dependency>::empty());
                        assert(deps =~= from_inputs + output_deps(nodes, slots.outputs, (k + 1) as nat));
                    }
                },
                Some(consumed) => {
                    let ghost image = consumed@;
                    proof {
                        images.lemma_wf();
                        assert(slots.outputs[k as int].consumed->0@ < n_images);
                        assert(consumers(nodes, nodes.len(), slots.outputs[k as int].consumed->0@).len() > 0);
                        assert(producers(nodes, nodes.len(), image).len() > 0);
                        assert(editor.tables_hold(
                            image,
                            readers(nodes, nodes.len(), image),
                            producers(nodes, nodes.len(), image),
                            consumers(nodes, nodes.len(), image),
                            usage(nodes, nodes.len(), image),
                        ));
                        lemma_history_nodes(nodes, nodes.len(), image);
                    }
                    let recorded = images.access(consumed).unwrap();
                    let ghost reads = readers(nodes, nodes.len(), image);
                    if recorded.readers.len() == 0 {
                        let producer = recorded.produced_by.unwrap();
                        let barrier = ImageDependency::write_after_write(&output, &producer.access);
                        proof {
                            lemma_deps_len(nodes, slots, slots.inputs.len(), k as nat);
                            lemma_outputs_count_grows(nodes, slots.outputs, (k + 1) as nat, slots.outputs.len());
                            lemma_node_deps_len(nodes, v);
                            assert(live_nodes(self.dep_graph@)[head@ as int] == v);
                        }
                        self.add_dependency(head, producer.node_key, barrier, Ghost(deps));
                        proof {
                            deps = deps.push(Dependency { target: producer.node_key@, barrier });
                            assert(deps =~= base + output_slot_deps(nodes, slots.outputs[k as int]));
                        }
                    } else {
                        let mut r: usize = 0;
                        while r < recorded.readers.len()
                            invariant
                                self.editor == old(self).editor,
                                editor == self.editor,
                                editor.wf(),
                                nodes == editor.nodes(),
                                total_deps(nodes, nodes.len()) < u32::MAX,
                                live0[head@ as int] == v,
                                head@ < live0.len(),
                                slots == nodes[v as int],
                                k < slots.outputs.len(),
                                output == slots.outputs[k as int],
                                output.consumed == Some(consumed),
                                image == consumed@,
                                reads.len() > 0,
                                from_inputs == input_deps(nodes, slots.inputs, slots.inputs.len()),
                                base == from_inputs + output_deps(nodes, slots.outputs, k as nat),
                                v < nodes.len(),
                                r <= recorded.readers@.len(),
                                reads == readers(nodes, nodes.len(), image),
                                access_models(recorded.readers@) == reads,
                                forall|x: int| 0 <= x < reads.len() ==> (#[trigger] reads[x]).node < nodes.len(),
                                deps == base + write_after_reads(output, reads, r as nat),
                                self.visiting(head@, deps),
                                live_nodes(self.dep_graph@).len() >= live0.len(),
                                forall|x: int|
                                    0 <= x < live0.len() ==> live_nodes(self.dep_graph@)[x] == live0[x],
                            decreases recorded.readers@.len() - r,
                        {
                            let reader = recorded.readers[r];
                            assert(reads[r as int] == reader@);
                            assert(reads[r as int].node < nodes.len());
                            let barrier = ImageDependency::write_after_read(&output, &reader.access);
                            proof {
                                lemma_deps_len(nodes, slots, slots.inputs.len(), k as nat);
                                lemma_write_after_reads_len(output, reads, r as nat);
                                lemma_outputs_count_grows(
                                    nodes,
                                    slots.outputs,
                                    (k + 1) as nat,
                                    slots.outputs.len(),
                                );
                                lemma_node_deps_len(nodes, v);
                                assert(live_nodes(self.dep_graph@)[head@ as int] == v);
                            }
                            self.add_dependency(head, reader.node_key, barrier, Ghost(deps));
                            proof {
                                deps = deps.push(Dependency { target: reader.node_key@, barrier });
                                assert(deps =~= base + write_after_reads(output, reads, (r + 1) as nat));
                            }
                            r += 1;
                        }
                        proof {
                            assert(recorded.readers@.len() == reads.len());
                            assert(deps == base + output_slot_deps(nodes, slots.outputs[k as int]));
                        }
                    }
                    proof {
                        assert(deps =~= from_inputs + output_deps(nodes, slots.outputs, (k + 1) as nat));
                    }
                },
            }
            k += 1;
        }
        proof {
            assert(deps == node_deps(nodes, v));
        }
    }

    /// Compiles the graph: visits the node it started at and every node
    /// that a visited node waits for, each once, in the order in which they
    /// are found.
    pub fn build(self) -> (graph: DepGraph<GraphKey, NodeDependency>)
        requires
            self.editor().wf(),
            used_images_produced(self.editor().nodes(), self.editor().images().infos().len()),
            total_deps(self.editor().nodes(), self.editor().nodes().len()) < u32::MAX,
            self.visiting(0, Seq::empty()),
        ensures
            compiled(self.editor().nodes(), live_nodes(self.graph()@)[0], graph),
    {
        let ghost nodes = self.editor.nodes();
        let ghost root = live_nodes(self.dep_graph@)[0];
        let ghost start = self;
        let mut this = self;
        let mut head: usize = 0;
        loop
            invariant_except_break
                this.visiting(head as nat, Seq::empty()),
            invariant
                this.editor == start.editor,
                nodes == this.editor.nodes(),
                this.editor().wf(),
                used_images_produced(nodes, this.editor().images().infos().len()),
                total_deps(nodes, nodes.len()) < u32::MAX,
                head < live_nodes(this.dep_graph@).len(),
                live_nodes(this.dep_graph@)[0] == root,
                nodes.len() <= u32::MAX,
            ensures
                this.visiting(head as nat, node_deps(nodes, live_nodes(this.dep_graph@)[head as int])),
                head + 1 == live_nodes(this.dep_graph@).len(),
            decreases nodes.len() - head,
        {
            proof {
                this.lemma_live_distinct();
            }
            let ghost live0 = live_nodes(this.dep_graph@);
            this.visit(Key::from_index(head as u32));
            proof {
                this.lemma_live_distinct();
                assert(live_nodes(this.dep_graph@)[head as int] == live0[head as int]);
            }
            if head + 1 >= this.dep_graph.num_nodes() {
                break;
            }
            proof {
                this.lemma_next(head as nat);
            }
            head += 1;
        }
        proof {
            this.lemma_compiled(head as nat);
        }
        this.dep_graph
    }

    /// The nodes of the dependency graph stand for pairwise different nodes
    /// of the render graph, so they are no more than those.
    proof fn lemma_live_distinct(&self)
        requires
            self.indexed(),
        ensures
            live_nodes(self.dep_graph@).no_duplicates(),
            live_nodes(self.dep_graph@).len() <= self.editor.nodes().len(),
            forall|i: int|
                0 <= i < live_nodes(self.dep_graph@).len() ==> #[trigger] live_nodes(self.dep_graph@)[i]
                    < self.editor.nodes().len(),
    {
        let live = live_nodes(self.dep_graph@);
        assert forall|a: int, b: int| 0 <= a < live.len() && 0 <= b < live.len() && a != b implies live[a]
            != live[b] by {
            assert(self.arena_to_depgraph@[live[a]]@ == a);
            assert(self.arena_to_depgraph@[live[b]]@ == b);
        }
        lemma_distinct_below(live, self.editor.nodes().len());
    }

    /// After the visit of the node at `done`, the visit of the next node
    /// can start.
    proof fn lemma_next(&self, done: nat)
        requires
            self.visiting(done, node_deps(self.editor.nodes(), live_nodes(self.dep_graph@)[done as int])),
            done + 1 < live_nodes(self.dep_graph@).len(),
        ensures
            self.visiting(done + 1, Seq::empty()),
    {
        let nodes = self.editor.nodes();
        let live = live_nodes(self.dep_graph@);
        let full = node_deps(nodes, live[done as int]);
        let empty = Seq::<Dependency>::empty();
        assert(targets(empty, 0).len() == 0);
        assert(self.dep_graph.out_edges(done + 1).len() == 0);
        assert forall|i: int| 0 < i < live.len() implies found_through(
            nodes,
            live,
            i,
            #[trigger] self.parents@[i],
            done + 1,
            empty,
        ) by {
            assert(found_through(nodes, live, i, self.parents@[i], done, full));
        }
    }

    /// After the visit of the last node, the graph is compiled.
    proof fn lemma_compiled(&self, done: nat)
        requires
            self.visiting(done, node_deps(self.editor.nodes(), live_nodes(self.dep_graph@)[done as int])),
            done + 1 == live_nodes(self.dep_graph@).len(),
        ensures
            compiled(self.editor.nodes(), live_nodes(self.dep_graph@)[0], self.dep_graph),
    {
        let nodes = self.editor.nodes();
        let live = live_nodes(self.dep_graph@);
        let full = node_deps(nodes, live[done as int]);
        self.lemma_live_distinct();
        assert forall|i: int| 0 < i < live.len() implies #[trigger] waited_for(nodes, live, i) by {
            assert(found_through(nodes, live, i, self.parents@[i], done, full));
            let parent = self.parents@[i];
            let j = parent.0 as int;
            let x = parent.1 as int;
            assert(node_deps(nodes, live[j])[x].target == live[i]);
        }
    }
}

/// The nodes of a compiled graph are the nodes that its root needs.
pub proof fn lemma_compiled_live(
    nodes: Seq<NodeModel>,
    root: nat,
    graph: DepGraph<GraphKey, NodeDependency>,
)
    requires
        compiled(nodes, root, graph),
    ensures
        live_from(nodes, root, live_nodes(graph@)),
{
    let live = live_nodes(graph@);
    assert forall|i: int, x: int|
        0 <= i < live.len() && 0 <= x < node_deps(nodes, live[i]).len() implies live.contains(
        (#[trigger] node_deps(nodes, live[i])[x]).target,
    ) by {
        let deps = node_deps(nodes, live[i]);
        let ts = targets(deps, deps.len());
        let out = graph.out_edges(i as nat);
        lemma_targets(deps, deps.len());
        assert(ts.contains(deps[x].target));
        let k = choose|k: int| 0 <= k < ts.len() && ts[k] == deps[x].target;
        assert(edges_stand_for(graph@, out, i as nat, deps));
        assert(edge_stands_for(graph@, out[k] as int, i as nat, ts[k], barriers_to(deps, deps.len(), ts[k])));
        let j = graph@.edges[out[k] as int].1 as int;
        assert(live[j] == deps[x].target);
    }
}

/// The dependency graph of a compiled graph has a cycle exactly where its
/// nodes cannot be scheduled.
pub proof fn lemma_compiled_acyclic(
    nodes: Seq<NodeModel>,
    root: nat,
    graph: DepGraph<GraphKey, NodeDependency>,
)
    requires
        compiled(nodes, root, graph),
    ensures
        graph@.acyclic() <==> schedulable(nodes, live_nodes(graph@)),
{
    let live = live_nodes(graph@);
    graph.lemma_wf();
    if graph@.acyclic() {
        let r = choose|r: Seq<nat>| graph@.ranked_by(r);
        let rank = Seq::new(
            nodes.len(),
            |v: int|
                if live.contains(v as nat) {
                    r[live.index_of(v as nat)]
                } else {
                    0nat
                },
        );
        assert forall|i: int, x: int|
            0 <= i < live.len() && 0 <= x < node_deps(nodes, live[i]).len() implies rank[live[i] as int]
            < rank[(#[trigger] node_deps(nodes, live[i])[x]).target as int] by {
            let deps = node_deps(nodes, live[i]);
            let ts = targets(deps, deps.len());
            let out = graph.out_edges(i as nat);
            lemma_targets(deps, deps.len());
            assert(ts.contains(deps[x].target));
            let k = choose|k: int| 0 <= k < ts.len() && ts[k] == deps[x].target;
            assert(edges_stand_for(graph@, out, i as nat, deps));
            assert(edge_stands_for(graph@, out[k] as int, i as nat, ts[k], barriers_to(deps, deps.len(), ts[k])));
            let e = out[k] as int;
            let j = graph@.edges[e].1 as int;
            assert(live[j] == deps[x].target);
            assert(graph@.edges[e].0 == i);
            assert(r[i] < r[j]);
            assert(live.contains(live[i]));
            assert(live.contains(live[j]));
            assert(live.index_of(live[i]) == i);
            assert(live.index_of(live[j]) == j);
        }
        assert(ranks_respect(nodes, live, rank));
    }
    if schedulable(nodes, live) {
        let rank = choose|rank: Seq<nat>| ranks_respect(nodes, live, rank);
        let r = Seq::new(live.len(), |i: int| rank[live[i] as int]);
        assert forall|e: int| 0 <= e < graph@.edges.len() implies r[(#[trigger] graph@.edges[e]).0 as int]
            < r[graph@.edges[e].1 as int] by {
            let i = graph@.edges[e].0;
            let out = graph.out_edges(i);
            assert(out.contains(e as nat));
            let k = choose|k: int| 0 <= k < out.len() && out[k] == e as nat;
            let deps = node_deps(nodes, live[i as int]);
            let ts = targets(deps, deps.len());
            assert(edges_stand_for(graph@, out, i, deps));
            assert(edge_stands_for(graph@, out[k] as int, i, ts[k], barriers_to(deps, deps.len(), ts[k])));
            lemma_targets(deps, deps.len());
            assert(ts.contains(ts[k]));
            let x = choose|x: int| 0 <= x < deps.len() && (#[trigger] deps[x]).target == ts[k];
            assert(rank[live[i as int] as int] < rank[node_deps(nodes, live[i as int])[x].target as int]);
        }
        assert(graph@.ranked_by(r));
    }
}

} // verus!
