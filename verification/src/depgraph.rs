//! Generic dependency graph.
//!
//! Nodes and edges carry weights. An edge from `src` to `dst` says that `src`
//! depends on `dst`, so in the order that [`DepGraph::toposort_reverse`]
//! computes, `dst` stands before `src`.

use crate::arena::{Arena, Key};
use vstd::prelude::*;

verus! {

/// A directed edge between two nodes of a [`DepGraph`].
#[derive(Debug)]
pub struct Edge<V> {
    src: Key<V>,
    dst: Key<V>,
}

impl<V> Clone for Edge<V> {
    fn clone(&self) -> (res: Self)
        ensures
            res == *self,
    {
        Edge { src: self.src, dst: self.dst }
    }
}

impl<V> Copy for Edge<V> {

}

/// The key of an edge of a [`DepGraph`] whose nodes weigh `V`.
pub type EdgeKey<V> = Key<Edge<V>>;

/// The sort met a cycle: no order of the nodes respects every edge.
#[derive(Debug, PartialEq, Eq, Clone, Copy)]
pub struct CycleError;

/// What a dependency graph holds.
pub struct GraphModel<V, E> {
    /// The node weights, by node key.
    pub nodes: Seq<V>,
    /// The edges as pairs of node positions, source first, by edge key.
    pub edges: Seq<(nat, nat)>,
    /// The edge weights, by edge key.
    pub weights: Seq<E>,
}

impl<V, E> GraphModel<V, E> {
    /// Every edge joins two nodes of the graph, and has a weight.
    pub open spec fn wf(self) -> bool {
        &&& self.weights.len() == self.edges.len()
        &&& forall|e: int|
            0 <= e < self.edges.len() ==> (#[trigger] self.edges[e]).0 < self.nodes.len()
                && self.edges[e].1 < self.nodes.len()
    }

    /// Is there an edge from `src` to `dst`?
    pub open spec fn has_edge(self, src: nat, dst: nat) -> bool {
        exists|e: int| 0 <= e < self.edges.len() && #[trigger] self.edges[e] == (src, dst)
    }

    /// `rank` gives every node a number so that along each edge the number
    /// grows.
    pub open spec fn ranked_by(self, rank: Seq<nat>) -> bool {
        &&& rank.len() == self.nodes.len()
        &&& forall|e: int|
            0 <= e < self.edges.len() ==> rank[(#[trigger] self.edges[e]).0 as int]
                < rank[self.edges[e].1 as int]
    }

    /// The graph has no cycle: its nodes can be numbered so that along each
    /// edge the number grows.
    pub open spec fn acyclic(self) -> bool {
        exists|rank: Seq<nat>| self.ranked_by(rank)
    }

    /// `walk` is a closed walk: a non-empty run of edges, each starting where
    /// the one before ended, and the first starting where the last ends.
    pub open spec fn closed_walk(self, walk: Seq<int>) -> bool {
        &&& walk.len() > 0
        &&& forall|i: int| 0 <= i < walk.len() ==> 0 <= #[trigger] walk[i] < self.edges.len()
        &&& forall|i: int|
            0 <= i < walk.len() - 1 ==> self.edges[#[trigger] walk[i]].1 == self.edges[walk[i
                + 1]].0
        &&& self.edges[walk.last()].1 == self.edges[walk[0]].0
    }

    /// `order` lists every node once, and each edge's target before its
    /// source.
    pub open spec fn reverse_sorted_by(self, order: Seq<nat>) -> bool {
        &&& order.len() == self.nodes.len()
        &&& order.no_duplicates()
        &&& forall|i: int| 0 <= i < order.len() ==> #[trigger] order[i] < self.nodes.len()
        &&& forall|n: nat| n < self.nodes.len() ==> order.contains(n)
        &&& forall|e: int, i: int, j: int|
            0 <= e < self.edges.len() && 0 <= i < order.len() && 0 <= j < order.len()
                && #[trigger] order[i] == (#[trigger] self.edges[e]).0 && #[trigger] order[j]
                == self.edges[e].1 ==> j < i
    }

    /// Along a walk the rank grows.
    proof fn lemma_rank_grows_along_walk(self, rank: Seq<nat>, walk: Seq<int>, upto: int)
        requires
            self.wf(),
            self.ranked_by(rank),
            self.closed_walk(walk),
            0 <= upto < walk.len(),
        ensures
            rank[self.edges[walk[0]].0 as int] < rank[self.edges[walk[upto]].1 as int],
        decreases upto,
    {
        if upto > 0 {
            self.lemma_rank_grows_along_walk(rank, walk, upto - 1);
            assert(self.edges[walk[upto - 1]].1 == self.edges[walk[upto]].0);
        }
    }

    /// A graph with a closed walk is not acyclic.
    pub proof fn lemma_closed_walk_is_cycle(self, walk: Seq<int>)
        requires
            self.wf(),
            self.closed_walk(walk),
        ensures
            !self.acyclic(),
    {
        if self.acyclic() {
            let rank = choose|rank: Seq<nat>| self.ranked_by(rank);
            self.lemma_rank_grows_along_walk(rank, walk, walk.len() - 1);
        }
    }

    /// A graph that some order sorts is acyclic.
    pub proof fn lemma_sorted_is_acyclic(self, order: Seq<nat>)
        requires
            self.wf(),
            self.reverse_sorted_by(order),
        ensures
            self.acyclic(),
    {
        let rank = Seq::new(
            self.nodes.len(),
            |n: int| (order.len() - 1 - order.index_of(n as nat)) as nat,
        );
        assert forall|e: int| 0 <= e < self.edges.len() implies rank[(
        #[trigger] self.edges[e]).0 as int] < rank[self.edges[e].1 as int] by {
            let s = self.edges[e].0;
            let d = self.edges[e].1;
            assert(order.contains(s));
            assert(order.contains(d));
            let i = order.index_of(s);
            let j = order.index_of(d);
            assert(order[i] == self.edges[e].0);
            assert(order[j] == self.edges[e].1);
        }
        assert(self.ranked_by(rank));
    }
}

/// A directed graph with weights on its nodes and edges.
pub struct DepGraph<V, E> {
    nodes: Arena<V>,
    adjacency: Vec<Vec<EdgeKey<V>>>,
    inv_adjacency: Vec<Vec<EdgeKey<V>>>,
    edges: Arena<Edge<V>>,
    edge_weights: Vec<E>,
}

impl<V, E> View for DepGraph<V, E> {
    type V = GraphModel<V, E>;

    closed spec fn view(&self) -> GraphModel<V, E> {
        GraphModel {
            nodes: self.nodes@,
            edges: Seq::new(self.edges@.len(), |e: int| (self.edges@[e].src@, self.edges@[e].dst@)),
            weights: self.edge_weights@,
        }
    }
}

/// The edge keys of a list, as positions.
pub open spec fn positions<T>(keys: Seq<Key<T>>) -> Seq<nat> {
    Seq::new(keys.len(), |i: int| keys[i]@)
}

impl<V, E> DepGraph<V, E> {
    /// The keys in `list` are those of the edges at `node`, ascending; `out`
    /// says at which end of the edge the node stands.
    spec fn lists_edges_at(&self, list: Seq<EdgeKey<V>>, node: nat, out: bool) -> bool {
        &&& forall|i: int|
            0 <= i < list.len() ==> (#[trigger] list[i])@ < self.edges@.len() && (if out {
                self.edges@[list[i]@ as int].src@
            } else {
                self.edges@[list[i]@ as int].dst@
            }) == node
        &&& forall|i: int, j: int| 0 <= i < j < list.len() ==> list[i]@ < list[j]@
        &&& forall|e: int|
            0 <= e < self.edges@.len() && (if out {
                (#[trigger] self.edges@[e]).src@
            } else {
                self.edges@[e].dst@
            }) == node ==> exists|i: int| 0 <= i < list.len() && (#[trigger] list[i])@ == e
    }

    /// The adjacency lists agree with the edges.
    pub closed spec fn wf(&self) -> bool {
        &&& self.nodes@.len() <= u32::MAX
        &&& self.edges@.len() <= u32::MAX
        &&& self.adjacency@.len() == self.nodes@.len()
        &&& self.inv_adjacency@.len() == self.nodes@.len()
        &&& self.edge_weights@.len() == self.edges@.len()
        &&& forall|e: int|
            0 <= e < self.edges@.len() ==> (#[trigger] self.edges@[e]).src@ < self.nodes@.len()
                && self.edges@[e].dst@ < self.nodes@.len()
        &&& forall|n: int|
            0 <= n < self.nodes@.len() ==> self.lists_edges_at(
                (#[trigger] self.adjacency@[n])@,
                n as nat,
                true,
            )
        &&& forall|n: int|
            0 <= n < self.nodes@.len() ==> self.lists_edges_at(
                (#[trigger] self.inv_adjacency@[n])@,
                n as nat,
                false,
            )
    }

    /// The edges that leave `node`, in the order in which they were added.
    pub closed spec fn out_edges(&self, node: nat) -> Seq<nat> {
        positions(self.adjacency@[node as int]@)
    }

    /// A well-formed graph has a well-formed model, and `out_edges` lists
    /// exactly the edges that leave a node, ascending.
    pub proof fn lemma_wf(&self)
        requires
            self.wf(),
        ensures
            self@.wf(),
            self@.nodes.len() <= u32::MAX,
            self@.edges.len() <= u32::MAX,
            forall|n: nat, i: int|
                n < self@.nodes.len() && 0 <= i < self.out_edges(n).len() ==> (
                #[trigger] self.out_edges(n)[i]) < self@.edges.len() && self@.edges[self.out_edges(
                    n,
                )[i] as int].0 == n,
            forall|n: nat, i: int, j: int|
                n < self@.nodes.len() && 0 <= i < j < self.out_edges(n).len() ==> self.out_edges(
                    n,
                )[i] < self.out_edges(n)[j],
            forall|e: int|
                0 <= e < self@.edges.len() ==> self.out_edges((#[trigger] self@.edges[e]).0).contains(
                    e as nat,
                ),
    {
        assert forall|n: nat, i: int|
            n < self@.nodes.len() && 0 <= i < self.out_edges(n).len() implies (
        #[trigger] self.out_edges(n)[i]) < self@.edges.len() && self@.edges[self.out_edges(
            n,
        )[i] as int].0 == n by {
            assert(self.lists_edges_at(self.adjacency@[n as int]@, n, true));
            assert(self.adjacency@[n as int]@[i]@ < self.edges@.len());
        }
        assert forall|n: nat, i: int, j: int|
            n < self@.nodes.len() && 0 <= i < j < self.out_edges(n).len() implies self.out_edges(
            n,
        )[i] < self.out_edges(n)[j] by {
            assert(self.lists_edges_at(self.adjacency@[n as int]@, n, true));
        }
        assert forall|e: int| 0 <= e < self@.edges.len() implies self.out_edges(
            (#[trigger] self@.edges[e]).0,
        ).contains(e as nat) by {
            let n = self.edges@[e].src@;
            assert(self.lists_edges_at(self.adjacency@[n as int]@, n, true));
            let list = self.adjacency@[n as int]@;
            let i = choose|i: int| 0 <= i < list.len() && (#[trigger] list[i])@ == e;
            assert(self.out_edges(n)[i] == e as nat);
        }
    }

    pub fn new() -> (graph: DepGraph<V, E>)
        ensures
            graph.wf(),
            graph@.nodes.len() == 0,
            graph@.edges.len() == 0,
    {
        DepGraph {
            nodes: Arena::new(),
            adjacency: Vec::new(),
            inv_adjacency: Vec::new(),
            edges: Arena::new(),
            edge_weights: Vec::new(),
        }
    }

    /// The number of nodes.
    pub fn num_nodes(&self) -> (n: usize)
        ensures
            n == self@.nodes.len(),
    {
        self.nodes.len()
    }

    /// The number of edges.
    pub fn num_edges(&self) -> (n: usize)
        ensures
            n == self@.edges.len(),
    {
        self.edges.len()
    }

    /// Adds a node without edges.
    pub fn add_node(&mut self, node: V) -> (key: Key<V>)
        requires
            old(self).wf(),
            old(self)@.nodes.len() < u32::MAX,
        ensures
            final(self).wf(),
            key@ == old(self)@.nodes.len(),
            final(self)@.nodes == old(self)@.nodes.push(node),
            final(self)@.edges == old(self)@.edges,
            final(self)@.weights == old(self)@.weights,
            forall|n: nat| n < old(self)@.nodes.len() ==> final(self).out_edges(n) == old(
                self,
            ).out_edges(n),
            final(self).out_edges(key@).len() == 0,
    {
        let key = self.nodes.allocate(node);
        self.adjacency.push(Vec::new());
        self.inv_adjacency.push(Vec::new());
        proof {
            assert(self@.edges =~= old(self)@.edges);
            assert forall|n: int| 0 <= n < self.nodes@.len() implies self.lists_edges_at(
                (#[trigger] self.adjacency@[n])@,
                n as nat,
                true,
            ) by {
                if n < old(self).nodes@.len() {
                    assert(old(self).lists_edges_at(old(self).adjacency@[n]@, n as nat, true));
                }
            }
            assert forall|n: int| 0 <= n < self.nodes@.len() implies self.lists_edges_at(
                (#[trigger] self.inv_adjacency@[n])@,
                n as nat,
                false,
            ) by {
                if n < old(self).nodes@.len() {
                    assert(old(self).lists_edges_at(old(self).inv_adjacency@[n]@, n as nat, false));
                }
            }
        }
        key
    }

    /// The weight of node `key`.
    pub fn node(&self, key: Key<V>) -> (node: &V)
        requires
            key@ < self@.nodes.len(),
        ensures
            *node == self@.nodes[key@ as int],
    {
        self.nodes.index(key)
    }

    /// The two ends of edge `key`: source and target.
    pub fn endpoints(&self, key: EdgeKey<V>) -> (ends: (Key<V>, Key<V>))
        requires
            key@ < self@.edges.len(),
        ensures
            (ends.0@, ends.1@) == self@.edges[key@ as int],
    {
        let edge = self.edges.index(key);
        (edge.src, edge.dst)
    }

    /// The weight of edge `key`.
    pub fn weight(&self, key: EdgeKey<V>) -> (weight: &E)
        requires
            self.wf(),
            key@ < self@.edges.len(),
        ensures
            *weight == self@.weights[key@ as int],
    {
        &self.edge_weights[key.index()]
    }

    /// The weight of edge `key`, for writing.
    pub fn weight_mut(&mut self, key: EdgeKey<V>) -> (weight: &mut E)
        requires
            old(self).wf(),
            key@ < old(self)@.edges.len(),
        ensures
            final(self).wf(),
            *weight == old(self)@.weights[key@ as int],
            final(self)@.nodes == old(self)@.nodes,
            final(self)@.edges == old(self)@.edges,
            final(self)@.weights == old(self)@.weights.update(key@ as int, *final(weight)),
            forall|n: nat| final(self).out_edges(n) == old(self).out_edges(n),
    {
        &mut self.edge_weights[key.index()]
    }
}

impl<V, E> DepGraph<V, E> {
    /// Adds an edge from `src` to `dst`: `src` depends on `dst`.
    ///
    /// An edge that closes a cycle is accepted here; the sort reports it.
    pub fn add_edge(&mut self, src: Key<V>, dst: Key<V>, dependency: E) -> (key: EdgeKey<V>)
        requires
            old(self).wf(),
            src@ < old(self)@.nodes.len(),
            dst@ < old(self)@.nodes.len(),
            old(self)@.edges.len() < u32::MAX,
        ensures
            final(self).wf(),
            key@ == old(self)@.edges.len(),
            final(self)@.nodes == old(self)@.nodes,
            final(self)@.edges == old(self)@.edges.push((src@, dst@)),
            final(self)@.weights == old(self)@.weights.push(dependency),
            final(self).out_edges(src@) == old(self).out_edges(src@).push(key@),
            forall|n: nat|
                n != src@ && n < old(self)@.nodes.len() ==> final(self).out_edges(n) == old(
                    self,
                ).out_edges(n),
    {
        let key = self.edges.allocate(Edge { src, dst });
        self.edge_weights.push(dependency);
        self.adjacency[src.index()].push(key);
        self.inv_adjacency[dst.index()].push(key);
        proof {
            assert(self@.edges =~= old(self)@.edges.push((src@, dst@)));
            assert(self.out_edges(src@) =~= old(self).out_edges(src@).push(key@));
            assert forall|n: int| 0 <= n < self.nodes@.len() implies self.lists_edges_at(
                (#[trigger] self.adjacency@[n])@,
                n as nat,
                true,
            ) by {
                let before = old(self).adjacency@[n]@;
                let list = self.adjacency@[n]@;
                assert(old(self).lists_edges_at(before, n as nat, true));
                assert forall|e: int|
                    0 <= e < self.edges@.len() && (#[trigger] self.edges@[e]).src@
                        == n as nat implies exists|i: int|
                    0 <= i < list.len() && (#[trigger] list[i])@ == e by {
                    if e < old(self).edges@.len() {
                        assert(old(self).edges@[e].src@ == n as nat);
                        let i = choose|i: int| 0 <= i < before.len() && (#[trigger] before[i])@ == e;
                        assert(list[i]@ == e);
                    } else {
                        assert(list[list.len() - 1]@ == e);
                    }
                }
            }
            assert forall|n: int| 0 <= n < self.nodes@.len() implies self.lists_edges_at(
                (#[trigger] self.inv_adjacency@[n])@,
                n as nat,
                false,
            ) by {
                let before = old(self).inv_adjacency@[n]@;
                let list = self.inv_adjacency@[n]@;
                assert(old(self).lists_edges_at(before, n as nat, false));
                assert forall|e: int|
                    0 <= e < self.edges@.len() && (#[trigger] self.edges@[e]).dst@
                        == n as nat implies exists|i: int|
                    0 <= i < list.len() && (#[trigger] list[i])@ == e by {
                    if e < old(self).edges@.len() {
                        assert(old(self).edges@[e].dst@ == n as nat);
                        let i = choose|i: int| 0 <= i < before.len() && (#[trigger] before[i])@ == e;
                        assert(list[i]@ == e);
                    } else {
                        assert(list[list.len() - 1]@ == e);
                    }
                }
            }
        }
        key
    }

    /// The edge from `src` to `dst`; of several, the one added last.
    pub fn find_edge(&self, src: Key<V>, dst: Key<V>) -> (found: Option<EdgeKey<V>>)
        requires
            self.wf(),
            src@ < self@.nodes.len(),
        ensures
            found is None <==> !self@.has_edge(src@, dst@),
            found matches Some(key) ==> {
                &&& key@ < self@.edges.len()
                &&& self@.edges[key@ as int] == (src@, dst@)
                &&& forall|e: int|
                    key@ < e < self@.edges.len() ==> #[trigger] self@.edges[e] != (src@, dst@)
            },
    {
        let list = &self.adjacency[src.index()];
        assert(self.lists_edges_at(list@, src@, true));
        let mut i: usize = list.len();
        while i > 0
            invariant
                self.wf(),
                src@ < self.nodes@.len(),
                list == &self.adjacency@[src@ as int],
                self.lists_edges_at(list@, src@, true),
                i <= list@.len(),
                forall|j: int| i <= j < list@.len() ==> self.edges@[(#[trigger] list@[j])@ as int].dst@ != dst@,
            decreases i,
        {
            i -= 1;
            let key = list[i];
            let edge = self.edges.index(key);
            if edge.dst == dst {
                proof {
                    assert(self@.edges[key@ as int] == (src@, dst@));
                    assert forall|e: int| key@ < e < self@.edges.len() implies #[trigger] self@.edges[e]
                        != (src@, dst@) by {
                        if self@.edges[e] == (src@, dst@) {
                            assert(self.edges@[e].src@ == src@);
                            let j = choose|j: int| 0 <= j < list@.len() && (#[trigger] list@[j])@ == e;
                            if j <= i {
                                assert(list@[j]@ <= list@[i as int]@);
                            }
                        }
                    }
                }
                return Some(key);
            }
        }
        proof {
            if self@.has_edge(src@, dst@) {
                let e = choose|e: int| 0 <= e < self@.edges.len() && #[trigger] self@.edges[e] == (src@, dst@);
                assert(self.edges@[e].src@ == src@);
                let j = choose|j: int| 0 <= j < list@.len() && (#[trigger] list@[j])@ == e;
                assert(self.edges@[list@[j]@ as int].dst@ != dst@);
            }
        }
        None
    }

    /// The weights of the edges that leave `key`, in the order in which the
    /// edges were added.
    pub fn outgoing_deps(&self, key: Key<V>) -> (deps: Vec<&E>)
        requires
            self.wf(),
            key@ < self@.nodes.len(),
        ensures
            deps@.len() == self.out_edges(key@).len(),
            forall|i: int|
                0 <= i < deps@.len() ==> *(#[trigger] deps@[i]) == self@.weights[self.out_edges(
                    key@,
                )[i] as int],
    {
        let list = &self.adjacency[key.index()];
        assert(self.lists_edges_at(list@, key@, true));
        let mut deps: Vec<&E> = Vec::new();
        let mut i: usize = 0;
        while i < list.len()
            invariant
                self.wf(),
                key@ < self.nodes@.len(),
                list == &self.adjacency@[key@ as int],
                self.lists_edges_at(list@, key@, true),
                i <= list@.len(),
                deps@.len() == i,
                forall|j: int|
                    0 <= j < i ==> *(#[trigger] deps@[j]) == self.edge_weights@[list@[j]@ as int],
            decreases list@.len() - i,
        {
            let edge_key = list[i];
            assert(list@[i as int]@ < self.edges@.len());
            deps.push(&self.edge_weights[edge_key.index()]);
            i += 1;
        }
        deps
    }
}

impl<V, E: Default> DepGraph<V, E> {
    /// The weight of the edge from `src` to `dst`, for writing; an edge with
    /// the default weight is added first where there is none.
    pub fn edge_mut_or_default(&mut self, src: Key<V>, dst: Key<V>) -> (weight: &mut E)
        requires
            old(self).wf(),
            src@ < old(self)@.nodes.len(),
            dst@ < old(self)@.nodes.len(),
            old(self)@.edges.len() < u32::MAX,
        ensures
            final(self).wf(),
            final(self)@.nodes == old(self)@.nodes,
            old(self)@.has_edge(src@, dst@) ==> exists|key: int|
                {
                    &&& 0 <= key < old(self)@.edges.len()
                    &&& #[trigger] old(self)@.edges[key] == (src@, dst@)
                    &&& forall|e: int|
                        key < e < old(self)@.edges.len() ==> #[trigger] old(self)@.edges[e] != (
                            src@,
                            dst@,
                        )
                    &&& *weight == old(self)@.weights[key]
                    &&& final(self)@.edges == old(self)@.edges
                    &&& final(self)@.weights == old(self)@.weights.update(key, *final(weight))
                    &&& forall|n: nat| final(self).out_edges(n) == old(self).out_edges(n)
                },
            !old(self)@.has_edge(src@, dst@) ==> {
                &&& call_ensures(E::default, (), *weight)
                &&& final(self)@.edges == old(self)@.edges.push((src@, dst@))
                &&& final(self)@.weights == old(self)@.weights.push(*final(weight))
                &&& final(self).out_edges(src@) == old(self).out_edges(src@).push(
                    old(self)@.edges.len(),
                )
                &&& forall|n: nat|
                    n != src@ && n < old(self)@.nodes.len() ==> final(self).out_edges(n) == old(
                        self,
                    ).out_edges(n)
            },
    {
        let key = match self.find_edge(src, dst) {
            Some(key) => key,
            None => self.add_edge(src, dst, E::default()),
        };
        proof {
            let mid = self@.weights;
            assert forall|w: E| #[trigger] mid.update(key@ as int, w) == if old(self)@.has_edge(src@, dst@) {
                old(self)@.weights.update(key@ as int, w)
            } else {
                old(self)@.weights.push(w)
            } by {
                if old(self)@.has_edge(src@, dst@) {
                } else {
                    assert(mid.update(key@ as int, w) =~= old(self)@.weights.push(w));
                }
            }
        }
        self.weight_mut(key)
    }
}

/// Distinct numbers below `n` are at most `n` many.
pub proof fn lemma_distinct_below(s: Seq<nat>, n: nat)
    requires
        s.no_duplicates(),
        forall|i: int| 0 <= i < s.len() ==> #[trigger] s[i] < n,
    ensures
        s.len() <= n,
    decreases n,
{
    if s.len() > 0 {
        if n == 0 {
            assert(s[0] < n);
        } else if exists|i: int| 0 <= i < s.len() && #[trigger] s[i] == n - 1 {
            let i = choose|i: int| 0 <= i < s.len() && #[trigger] s[i] == n - 1;
            let t = s.remove(i);
            assert forall|j: int| 0 <= j < t.len() implies #[trigger] t[j] < n - 1 by {
                if j < i {
                    assert(t[j] == s[j]);
                } else {
                    assert(t[j] == s[j + 1]);
                }
            }
            assert(t.no_duplicates()) by {
                assert forall|a: int, b: int|
                    0 <= a < t.len() && 0 <= b < t.len() && a != b implies t[a] != t[b] by {
                    let a2 = if a < i {
                        a
                    } else {
                        a + 1
                    };
                    let b2 = if b < i {
                        b
                    } else {
                        b + 1
                    };
                    assert(t[a] == s[a2]);
                    assert(t[b] == s[b2]);
                }
            }
            lemma_distinct_below(t, (n - 1) as nat);
        } else {
            assert forall|j: int| 0 <= j < s.len() implies #[trigger] s[j] < n - 1 by {
                assert(s[j] < n);
            }
            lemma_distinct_below(s, (n - 1) as nat);
        }
    }
}

/// A list that holds every number below `n` has at least `n` entries.
pub proof fn lemma_covers_below(s: Seq<nat>, n: nat)
    requires
        forall|x: nat| x < n ==> s.contains(x),
    ensures
        s.len() >= n,
    decreases n,
{
    if n > 0 {
        let last = (n - 1) as nat;
        assert(s.contains(last));
        let i = choose|i: int| 0 <= i < s.len() && s[i] == last;
        let t = s.remove(i);
        assert forall|x: nat| x < last implies t.contains(x) by {
            assert(s.contains(x));
            let j = choose|j: int| 0 <= j < s.len() && s[j] == x;
            if j < i {
                assert(t[j] == x);
            } else {
                assert(t[j - 1] == x);
            }
        }
        lemma_covers_below(t, last);
    }
}

impl<V, E> DepGraph<V, E> {
    spec fn src_of(&self, e: int) -> int {
        self.edges@[e].src@ as int
    }

    spec fn dst_of(&self, e: int) -> int {
        self.edges@[e].dst@ as int
    }

    /// `pos` tells where each node stands in `order`, or -1 for a node that
    /// does not stand there yet.
    spec fn placed(&self, order: Seq<Key<V>>, pos: Seq<int>) -> bool {
        &&& pos.len() == self.nodes@.len()
        &&& forall|q: int|
            0 <= q < order.len() ==> (#[trigger] order[q])@ < self.nodes@.len() && pos[order[q]@ as int]
                == q
        &&& forall|y: int|
            0 <= y < self.nodes@.len() ==> -1 <= #[trigger] pos[y] < order.len() && (pos[y] >= 0
                ==> order[pos[y]]@ == y)
    }

    /// Every edge into a placed node is seen, and comes from a node that
    /// stands earlier.
    spec fn targets_ready(&self, seen: Seq<bool>, pos: Seq<int>) -> bool {
        forall|e: int|
            0 <= e < self.edges@.len() && pos[self.dst_of(e)] >= 0 ==> #[trigger] seen[e] && 0
                <= pos[self.src_of(e)] < pos[self.dst_of(e)]
    }

    /// Every node below `upto` that is not placed has an unseen edge into it.
    spec fn blocked(&self, seen: Seq<bool>, pos: Seq<int>, blocker: Seq<int>, upto: int) -> bool {
        &&& blocker.len() == self.nodes@.len()
        &&& forall|y: int|
            0 <= y < upto && #[trigger] pos[y] < 0 ==> 0 <= blocker[y] < self.edges@.len()
                && self.dst_of(blocker[y]) == y && !seen[blocker[y]]
    }

    /// Where every unplaced node has an unseen edge into it that comes from
    /// an unplaced node, no ranking of the nodes exists while a node is
    /// unplaced.
    proof fn lemma_stuck(
        &self,
        seen: Seq<bool>,
        pos: Seq<int>,
        blocker: Seq<int>,
        rank: Seq<nat>,
        y: int,
    )
        requires
            self.wf(),
            pos.len() == self.nodes@.len(),
            seen.len() == self.edges@.len(),
            self.blocked(seen, pos, blocker, self.nodes@.len() as int),
            forall|e: int|
                0 <= e < self.edges@.len() && pos[self.src_of(e)] >= 0 ==> #[trigger] seen[e],
            0 <= y < self.nodes@.len(),
            pos[y] < 0,
        ensures
            !self@.ranked_by(rank),
        decreases rank[y],
    {
        if self@.ranked_by(rank) {
            let e = blocker[y];
            assert(!seen[e]);
            let x = self.src_of(e);
            assert(self.edges@[e].src@ < self.nodes@.len());
            assert(pos[x] < 0);
            assert(self@.edges[e] == (x as nat, y as nat));
            assert(rank[x] < rank[y]);
            self.lemma_stuck(seen, pos, blocker, rank, x);
        }
    }

    /// The node that is reached from `start` in `k` steps, each step going
    /// from a node to the source of the edge that blocks it.
    spec fn chain(&self, blocker: Seq<int>, start: int, k: nat) -> int
        decreases k,
    {
        if k == 0 {
            start
        } else {
            self.src_of(blocker[self.chain(blocker, start, (k - 1) as nat)])
        }
    }

    /// Every node on the chain from an unplaced node is unplaced.
    proof fn lemma_chain_unplaced(
        &self,
        seen: Seq<bool>,
        pos: Seq<int>,
        blocker: Seq<int>,
        start: int,
        k: nat,
    )
        requires
            self.wf(),
            pos.len() == self.nodes@.len(),
            seen.len() == self.edges@.len(),
            self.blocked(seen, pos, blocker, self.nodes@.len() as int),
            forall|e: int|
                0 <= e < self.edges@.len() && pos[self.src_of(e)] >= 0 ==> #[trigger] seen[e],
            0 <= start < self.nodes@.len(),
            pos[start] < 0,
        ensures
            0 <= self.chain(blocker, start, k) < self.nodes@.len(),
            pos[self.chain(blocker, start, k)] < 0,
        decreases k,
    {
        if k > 0 {
            self.lemma_chain_unplaced(seen, pos, blocker, start, (k - 1) as nat);
            let y = self.chain(blocker, start, (k - 1) as nat);
            let e = blocker[y];
            assert(!seen[e]);
            assert(self.edges@[e].src@ < self.nodes@.len());
        }
    }

    /// Where every unplaced node has an unseen edge into it that comes from
    /// an unplaced node, and a node is unplaced, the graph has a closed
    /// walk: the chain from the unplaced node comes back to a node that it
    /// passed, since there are only so many nodes.
    proof fn lemma_stuck_walk(&self, seen: Seq<bool>, pos: Seq<int>, blocker: Seq<int>, start: int)
        requires
            self.wf(),
            pos.len() == self.nodes@.len(),
            seen.len() == self.edges@.len(),
            self.blocked(seen, pos, blocker, self.nodes@.len() as int),
            forall|e: int|
                0 <= e < self.edges@.len() && pos[self.src_of(e)] >= 0 ==> #[trigger] seen[e],
            0 <= start < self.nodes@.len(),
            pos[start] < 0,
        ensures
            exists|walk: Seq<int>| self@.closed_walk(walk),
    {
        let n = self.nodes@.len();
        let passed = Seq::new(n + 1, |k: int| self.chain(blocker, start, k as nat) as nat);
        assert forall|k: int| 0 <= k < passed.len() implies #[trigger] passed[k] < n by {
            self.lemma_chain_unplaced(seen, pos, blocker, start, k as nat);
        }
        if passed.no_duplicates() {
            lemma_distinct_below(passed, n);
        }
        let (a, b) = choose|a: int, b: int|
            0 <= a < passed.len() && 0 <= b < passed.len() && a != b && passed[a] == passed[b];
        let i = if a < b {
            a
        } else {
            b
        };
        let j = if a < b {
            b
        } else {
            a
        };
        let walk = Seq::new((j - i) as nat, |t: int| blocker[self.chain(blocker, start, (j - 1 - t) as nat)]);
        assert forall|t: int| 0 <= t < walk.len() implies {
            &&& 0 <= #[trigger] walk[t] < self@.edges.len()
            &&& self@.edges[walk[t]].1 == self.chain(blocker, start, (j - 1 - t) as nat)
            &&& self@.edges[walk[t]].0 == self.chain(blocker, start, (j - t) as nat)
        } by {
            let k = (j - 1 - t) as nat;
            self.lemma_chain_unplaced(seen, pos, blocker, start, k);
            let y = self.chain(blocker, start, k);
            assert(self.dst_of(blocker[y]) == y);
            assert(self.chain(blocker, start, (k + 1) as nat) == self.src_of(blocker[y]));
        }
        assert forall|t: int| 0 <= t < walk.len() - 1 implies self@.edges[#[trigger] walk[t]].1
            == self@.edges[walk[t + 1]].0 by {
            assert(0 <= walk[t + 1] < self@.edges.len());
        }
        assert(0 <= walk[0] < self@.edges.len());
        assert(0 <= walk[walk.len() - 1] < self@.edges.len());
        assert(self@.edges[walk.last()].1 == self.chain(blocker, start, i as nat));
        assert(self@.edges[walk[0]].0 == self.chain(blocker, start, j as nat));
        assert(passed[i] == passed[j]);
        assert(self@.closed_walk(walk));
    }

    /// The first unseen edge in `list`, if there is one.
    fn first_unseen(&self, list: &Vec<EdgeKey<V>>, seen: &Vec<bool>) -> (found: Option<usize>)
        requires
            seen@.len() == self.edges@.len(),
            forall|i: int| 0 <= i < list@.len() ==> (#[trigger] list@[i])@ < self.edges@.len(),
        ensures
            found is None ==> forall|i: int| 0 <= i < list@.len() ==> seen@[(#[trigger] list@[i])@ as int],
            found matches Some(i) ==> i < list@.len() && !seen@[list@[i as int]@ as int],
    {
        let mut i: usize = 0;
        while i < list.len()
            invariant
                seen@.len() == self.edges@.len(),
                forall|j: int| 0 <= j < list@.len() ==> (#[trigger] list@[j])@ < self.edges@.len(),
                i <= list@.len(),
                forall|j: int| 0 <= j < i ==> seen@[(#[trigger] list@[j])@ as int],
            decreases list@.len() - i,
        {
            if !seen[list[i].index()] {
                return Some(i);
            }
            i += 1;
        }
        None
    }

    /// Sorts the nodes so that every edge's target stands before its source.
    ///
    /// Starts from the nodes that no edge leads to, and places a node as soon
    /// as every edge into it comes from a placed node; the result is that
    /// order reversed. Fails where an edge is left over at the end, which is
    /// where the graph has a cycle: a closed walk along its edges.
    pub fn toposort_reverse(&self) -> (result: Result<Vec<Key<V>>, CycleError>)
        requires
            self.wf(),
        ensures
            result is Ok <==> self@.acyclic(),
            result is Err <==> exists|walk: Seq<int>| self@.closed_walk(walk),
            result matches Ok(order) ==> self@.reverse_sorted_by(positions(order@)),
    {
        let n = self.nodes.len();
        let m = self.edges.len();
        let mut seen: Vec<bool> = Vec::with_capacity(m);
        let mut i: usize = 0;
        while i < m
            invariant
                i <= m,
                seen@.len() == i,
                forall|e: int| 0 <= e < i ==> !seen@[e],
            decreases m - i,
        {
            seen.push(false);
            i += 1;
        }
        let mut order: Vec<Key<V>> = Vec::with_capacity(n);
        let ghost mut pos: Seq<int> = Seq::new(n as nat, |y: int| -1);
        let ghost mut blocker: Seq<int> = Seq::new(n as nat, |y: int| -1);
        let mut x: usize = 0;
        while x < n
            invariant
                self.wf(),
                n == self.nodes@.len(),
                m == self.edges@.len(),
                x <= n,
                seen@.len() == m,
                forall|e: int| 0 <= e < m ==> !seen@[e],
                self.placed(order@, pos),
                self.blocked(seen@, pos, blocker, x as int),
                forall|y: int| x <= y < n ==> pos[y] == -1,
                forall|y: int| 0 <= y < n && #[trigger] pos[y] >= 0 ==> self.inv_adjacency@[y]@.len() == 0,
            decreases n - x,
        {
            let list = &self.inv_adjacency[x];
            assert(self.lists_edges_at(list@, x as nat, false));
            if list.len() == 0 {
                order.push(Key::from_index(x as u32));
                proof {
                    pos = pos.update(x as int, order@.len() - 1);
                }
            } else {
                proof {
                    blocker = blocker.update(x as int, list@[0]@ as int);
                }
            }
            x += 1;
        }
        proof {
            assert(self.targets_ready(seen@, pos)) by {
                assert forall|e: int|
                    0 <= e < self.edges@.len() && pos[self.dst_of(e)] >= 0 implies #[trigger] seen@[e]
                    && 0 <= pos[self.src_of(e)] < pos[self.dst_of(e)] by {
                    let d = self.dst_of(e);
                    assert(self.lists_edges_at(self.inv_adjacency@[d]@, d as nat, false));
                    assert(self.edges@[e].dst@ == d as nat);
                }
            }
        }
        let mut head: usize = 0;
        while head < order.len()
            invariant
                self.wf(),
                n == self.nodes@.len(),
                m == self.edges@.len(),
                head <= order@.len(),
                seen@.len() == m,
                self.placed(order@, pos),
                self.targets_ready(seen@, pos),
                self.blocked(seen@, pos, blocker, n as int),
                forall|e: int| 0 <= e < m && #[trigger] seen@[e] ==> 0 <= pos[self.src_of(e)] < head,
                forall|e: int| 0 <= e < m && 0 <= pos[self.src_of(e)] < head ==> #[trigger] seen@[e],
            decreases n - head,
        {
            proof {
                let keys = positions(order@);
                assert(keys.no_duplicates()) by {
                    assert forall|a: int, b: int|
                        0 <= a < keys.len() && 0 <= b < keys.len() && a != b implies keys[a]
                        != keys[b] by {
                        assert(pos[order@[a]@ as int] == a);
                        assert(pos[order@[b]@ as int] == b);
                    }
                }
                assert forall|a: int| 0 <= a < keys.len() implies #[trigger] keys[a] < n by {
                    assert(order@[a]@ < self.nodes@.len());
                }
                lemma_distinct_below(keys, n as nat);
            }
            let node = order[head];
            let list = &self.adjacency[node.index()];
            assert(self.lists_edges_at(list@, node@, true));
            let mut k: usize = 0;
            while k < list.len()
                invariant
                    self.wf(),
                    n == self.nodes@.len(),
                    m == self.edges@.len(),
                    head < order@.len(),
                    node == order@[head as int],
                    list == &self.adjacency@[node@ as int],
                    self.lists_edges_at(list@, node@, true),
                    k <= list@.len(),
                    seen@.len() == m,
                    self.placed(order@, pos),
                    self.targets_ready(seen@, pos),
                    self.blocked(seen@, pos, blocker, n as int),
                    forall|e: int|
                        0 <= e < m && #[trigger] seen@[e] ==> 0 <= pos[self.src_of(e)] <= head && (
                        pos[self.src_of(e)] == head ==> k > 0 && e <= list@[k - 1]@),
                    forall|e: int|
                        0 <= e < m && 0 <= pos[self.src_of(e)] < head ==> #[trigger] seen@[e],
                    forall|j: int| 0 <= j < k ==> seen@[(#[trigger] list@[j])@ as int],
                decreases list@.len() - k,
            {
                let edge_key = list[k];
                let ghost e = edge_key@ as int;
                assert(list@[k as int]@ < self.edges@.len());
                assert(self.src_of(e) == node@);
                assert(pos[node@ as int] == head);
                assert(!seen@[e]) by {
                    if seen@[e] {
                        assert(k > 0 && e <= list@[k - 1]@);
                    }
                }
                let ghost seen_before = seen@;
                seen.set(edge_key.index(), true);
                let target = self.edges.index(edge_key).dst;
                let ghost d = target@ as int;
                assert(d == self.dst_of(e));
                assert(pos[d] < 0);
                let in_list = &self.inv_adjacency[target.index()];
                assert(self.lists_edges_at(in_list@, d as nat, false));
                let waiting = self.first_unseen(in_list, &seen);
                let ghost pos_before = pos;
                let ghost blocker_before = blocker;
                match waiting {
                    None => {
                        order.push(target);
                        proof {
                            pos = pos.update(d, order@.len() - 1);
                        }
                    },
                    Some(w) => {
                        proof {
                            blocker = blocker.update(d, in_list@[w as int]@ as int);
                        }
                    },
                }
                proof {
                    assert(self.placed(order@, pos)) by {
                        assert forall|q: int| 0 <= q < order@.len() implies (#[trigger] order@[q])@
                            < self.nodes@.len() && pos[order@[q]@ as int] == q by {
                            if waiting is None && q == order@.len() - 1 {
                            } else {
                                assert(pos_before[order@[q]@ as int] == q);
                            }
                        }
                        assert forall|y: int| 0 <= y < self.nodes@.len() implies -1 <= #[trigger] pos[y]
                            < order@.len() && (pos[y] >= 0 ==> order@[pos[y]]@ == y) by {
                            assert(-1 <= pos_before[y]);
                        }
                    }
                    assert(self.targets_ready(seen@, pos)) by {
                        assert forall|e2: int|
                            0 <= e2 < self.edges@.len() && pos[self.dst_of(e2)] >= 0 implies #[trigger] seen@[e2]
                            && 0 <= pos[self.src_of(e2)] < pos[self.dst_of(e2)] by {
                            let d2 = self.dst_of(e2);
                            assert(self.edges@[e2].dst@ < self.nodes@.len());
                            assert(self.edges@[e2].src@ < self.nodes@.len());
                            if d2 == d {
                                assert(waiting is None);
                                assert(self.edges@[e2].dst@ == d as nat);
                                let j = choose|j: int|
                                    0 <= j < in_list@.len() && (#[trigger] in_list@[j])@ == e2;
                                assert(seen@[in_list@[j]@ as int]);
                                if e2 != e {
                                    assert(seen_before[e2]);
                                }
                                assert(0 <= pos_before[self.src_of(e2)] <= head);
                                assert(self.src_of(e2) != d);
                            } else {
                                assert(pos_before[d2] >= 0);
                                assert(seen_before[e2]);
                                assert(self.src_of(e2) != d) by {
                                    assert(0 <= pos_before[self.src_of(e2)]);
                                }
                            }
                        }
                    }
                    assert(self.blocked(seen@, pos, blocker, n as int)) by {
                        assert forall|y: int| 0 <= y < n && #[trigger] pos[y] < 0 implies 0 <= blocker[y]
                            < self.edges@.len() && self.dst_of(blocker[y]) == y && !seen@[blocker[y]] by {
                            if y == d {
                                assert(waiting is Some);
                            } else {
                                assert(pos_before[y] < 0);
                                assert(blocker_before[y] != e);
                            }
                        }
                    }
                    assert forall|e2: int| 0 <= e2 < m && #[trigger] seen@[e2] implies 0 <= pos[self.src_of(
                        e2,
                    )] <= head && (pos[self.src_of(e2)] == head ==> k + 1 > 0 && e2 <= list@[k as int]@) by {
                        assert(self.edges@[e2].src@ < self.nodes@.len());
                        if e2 == e {
                        } else {
                            assert(seen_before[e2]);
                            assert(0 <= pos_before[self.src_of(e2)] <= head);
                            assert(self.src_of(e2) != d);
                            if pos_before[self.src_of(e2)] == head {
                                assert(k > 0 && e2 <= list@[k - 1]@);
                                assert(list@[k - 1]@ < list@[k as int]@);
                            }
                        }
                    }
                    assert forall|e2: int|
                        0 <= e2 < m && 0 <= pos[self.src_of(e2)] < head implies #[trigger] seen@[e2] by {
                        assert(self.edges@[e2].src@ < self.nodes@.len());
                        if self.src_of(e2) == d {
                            assert(pos[d] >= 0 ==> pos[d] == order@.len() - 1);
                        } else {
                            assert(seen_before[e2]);
                        }
                    }
                    assert forall|j: int| 0 <= j < k + 1 implies seen@[(#[trigger] list@[j])@ as int] by {
                        if j < k {
                            assert(seen_before[list@[j]@ as int]);
                        }
                    }
                }
                k += 1;
            }
            proof {
                assert forall|e: int| 0 <= e < m && 0 <= pos[self.src_of(e)] < head + 1 implies #[trigger] seen@[e] by {
                    assert(self.edges@[e].src@ < self.nodes@.len());
                    if pos[self.src_of(e)] == head {
                        assert(self.src_of(e) == node@);
                        let j = choose|j: int| 0 <= j < list@.len() && (#[trigger] list@[j])@ == e;
                        assert(seen@[list@[j]@ as int]);
                    }
                }
            }
            head += 1;
        }
        let unseen = self.first_unseen_flag(&seen);
        match unseen {
            Some(e0) => {
                proof {
                    if self@.acyclic() {
                        let rank = choose|rank: Seq<nat>| self@.ranked_by(rank);
                        let y = self.src_of(e0 as int);
                        assert(self.edges@[e0 as int].src@ < self.nodes@.len());
                        assert forall|e: int|
                            0 <= e < self.edges@.len() && pos[self.src_of(e)] >= 0 implies #[trigger] seen@[e] by {
                            assert(self.edges@[e].src@ < self.nodes@.len());
                        }
                        self.lemma_stuck(seen@, pos, blocker, rank, y);
                    }
                    assert(self.edges@[e0 as int].src@ < self.nodes@.len());
                    assert forall|e: int|
                        0 <= e < self.edges@.len() && pos[self.src_of(e)] >= 0 implies #[trigger] seen@[e] by {
                        assert(self.edges@[e].src@ < self.nodes@.len());
                    }
                    self.lemma_stuck_walk(seen@, pos, blocker, self.src_of(e0 as int));
                }
                Err(CycleError)
            },
            None => {
                let mut sorted: Vec<Key<V>> = Vec::with_capacity(n);
                let mut r: usize = order.len();
                while r > 0
                    invariant
                        r <= order@.len(),
                        sorted@.len() == order@.len() - r,
                        forall|j: int| 0 <= j < sorted@.len() ==> #[trigger] sorted@[j] == order@[order@.len() - 1 - j],
                    decreases r,
                {
                    r -= 1;
                    sorted.push(order[r]);
                }
                proof {
                    let model = self@;
                    let result = positions(sorted@);
                    let len = order@.len() as int;
                    assert forall|y: int| 0 <= y < n implies #[trigger] pos[y] >= 0 by {
                        if pos[y] < 0 {
                            assert(!seen@[blocker[y]]);
                        }
                    }
                    assert forall|j: int| 0 <= j < len implies #[trigger] result[j] == order@[len - 1 - j]@ by {
                        assert(sorted@[j] == order@[len - 1 - j]);
                    }
                    assert forall|j: int| 0 <= j < len implies pos[#[trigger] result[j] as int] == len - 1 - j by {
                        assert(result[j] == order@[len - 1 - j]@);
                        assert(pos[order@[len - 1 - j]@ as int] == len - 1 - j);
                    }
                    assert(result.no_duplicates()) by {
                        assert forall|a: int, b: int|
                            0 <= a < result.len() && 0 <= b < result.len() && a != b implies result[a]
                            != result[b] by {
                            assert(pos[result[a] as int] == len - 1 - a);
                            assert(pos[result[b] as int] == len - 1 - b);
                        }
                    }
                    assert forall|j: int| 0 <= j < result.len() implies #[trigger] result[j] < model.nodes.len() by {
                        assert(result[j] == order@[len - 1 - j]@);
                        assert(order@[len - 1 - j]@ < self.nodes@.len());
                    }
                    assert forall|y: nat| y < model.nodes.len() implies result.contains(y) by {
                        assert(pos[y as int] >= 0);
                        let q = pos[y as int];
                        assert(order@[q]@ == y);
                        assert(result[len - 1 - q] == y);
                    }
                    lemma_distinct_below(result, model.nodes.len());
                    lemma_covers_below(result, model.nodes.len());
                    assert forall|e: int, a: int, b: int|
                        0 <= e < model.edges.len() && 0 <= a < result.len() && 0 <= b < result.len()
                            && #[trigger] result[a] == (#[trigger] model.edges[e]).0 && #[trigger] result[b]
                            == model.edges[e].1 implies b < a by {
                        assert(pos[result[a] as int] == len - 1 - a);
                        assert(pos[result[b] as int] == len - 1 - b);
                        assert(self.src_of(e) == result[a]);
                        assert(self.dst_of(e) == result[b]);
                        assert(seen@[e]);
                    }
                    assert(model.reverse_sorted_by(result));
                    self.lemma_wf();
                    model.lemma_sorted_is_acyclic(result);
                    assert forall|walk: Seq<int>| !model.closed_walk(walk) by {
                        if model.closed_walk(walk) {
                            model.lemma_closed_walk_is_cycle(walk);
                        }
                    }
                }
                Ok(sorted)
            },
        }
    }

    /// The first flag in `seen` that is not set, if there is one.
    fn first_unseen_flag(&self, seen: &Vec<bool>) -> (found: Option<usize>)
        ensures
            found is None ==> forall|e: int| 0 <= e < seen@.len() ==> seen@[e],
            found matches Some(e) ==> e < seen@.len() && !seen@[e as int],
    {
        let mut e: usize = 0;
        while e < seen.len()
            invariant
                e <= seen@.len(),
                forall|j: int| 0 <= j < e ==> seen@[j],
            decreases seen@.len() - e,
        {
            if !seen[e] {
                return Some(e);
            }
            e += 1;
        }
        None
    }
}

} // verus!
