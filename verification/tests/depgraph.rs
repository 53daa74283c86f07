use reify::arena::Key;
use reify::depgraph::{CycleError, DepGraph};

fn indices(order: &[Key<&'static str>]) -> Vec<usize> {
    order.iter().map(|k| k.index()).collect()
}

#[test]
fn sort_puts_targets_before_sources() {
    // d depends on b and c, which depend on a.
    let mut graph: DepGraph<&'static str, u32> = DepGraph::new();
    let a = graph.add_node("a");
    let b = graph.add_node("b");
    let c = graph.add_node("c");
    let d = graph.add_node("d");
    let db = graph.add_edge(d, b, 1);
    graph.add_edge(d, c, 2);
    graph.add_edge(b, a, 3);
    graph.add_edge(c, a, 4);
    assert_eq!(graph.num_nodes(), 4);
    assert_eq!(graph.num_edges(), 4);
    assert_eq!(graph.endpoints(db), (d, b));
    let order = graph.toposort_reverse().unwrap();
    assert_eq!(indices(&order), vec![0, 2, 1, 3]);
    assert_eq!(*graph.node(order[0]), "a");
    assert_eq!(*graph.node(order[3]), "d");
    for (src, dst) in [(d, b), (d, c), (b, a), (c, a)] {
        let at = |k: Key<&'static str>| order.iter().position(|n| *n == k).unwrap();
        assert!(at(dst) < at(src));
    }
}

#[test]
fn sort_of_unconnected_nodes_keeps_them_all() {
    let mut graph: DepGraph<&'static str, u32> = DepGraph::new();
    graph.add_node("a");
    graph.add_node("b");
    graph.add_node("c");
    let order = graph.toposort_reverse().unwrap();
    assert_eq!(indices(&order), vec![2, 1, 0]);
    let empty: DepGraph<&'static str, u32> = DepGraph::new();
    assert_eq!(empty.toposort_reverse().map(|o| o.len()), Ok(0));
}

#[test]
fn sort_fails_on_cycles() {
    let mut graph: DepGraph<&'static str, u32> = DepGraph::new();
    let a = graph.add_node("a");
    let b = graph.add_node("b");
    let c = graph.add_node("c");
    graph.add_edge(a, b, 0);
    graph.add_edge(b, c, 0);
    assert!(graph.toposort_reverse().is_ok());
    graph.add_edge(c, a, 0);
    assert_eq!(graph.toposort_reverse().err(), Some(CycleError));

    let mut two: DepGraph<&'static str, u32> = DepGraph::new();
    let a = two.add_node("a");
    let b = two.add_node("b");
    two.add_edge(a, b, 0);
    two.add_edge(b, a, 0);
    assert_eq!(two.toposort_reverse().err(), Some(CycleError));

    let mut own: DepGraph<&'static str, u32> = DepGraph::new();
    let a = own.add_node("a");
    own.add_node("b");
    own.add_edge(a, a, 0);
    assert_eq!(own.toposort_reverse().err(), Some(CycleError));
}

#[test]
fn sort_fails_on_a_cycle_beside_a_sound_part() {
    let mut graph: DepGraph<&'static str, u32> = DepGraph::new();
    let a = graph.add_node("a");
    let b = graph.add_node("b");
    let c = graph.add_node("c");
    let d = graph.add_node("d");
    graph.add_edge(a, b, 0);
    graph.add_edge(c, d, 0);
    graph.add_edge(d, c, 0);
    assert_eq!(graph.toposort_reverse().err(), Some(CycleError));
}

#[test]
fn edge_weights_are_upserted() {
    let mut graph: DepGraph<&'static str, Vec<u32>> = DepGraph::new();
    let a = graph.add_node("a");
    let b = graph.add_node("b");
    let c = graph.add_node("c");
    assert_eq!(graph.find_edge(a, b), None);
    graph.edge_mut_or_default(a, b).push(1);
    graph.edge_mut_or_default(a, c).push(2);
    graph.edge_mut_or_default(a, b).push(3);
    assert_eq!(graph.num_edges(), 2);
    let deps = graph.outgoing_deps(a);
    assert_eq!(deps, vec![&vec![1, 3], &vec![2]]);
    assert!(graph.outgoing_deps(b).is_empty());
    let ab = graph.find_edge(a, b).unwrap();
    assert_eq!(ab.index(), 0);
    assert_eq!(graph.weight(ab), &vec![1, 3]);
    graph.weight_mut(ab).clear();
    assert!(graph.weight(ab).is_empty());
    assert_eq!(graph.find_edge(b, a), None);
    // Of parallel edges the last one is found.
    let second = graph.add_edge(a, b, vec![9]);
    assert_eq!(graph.find_edge(a, b), Some(second));
}
