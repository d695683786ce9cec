use problemreductions::ungraph::UndirectedGraph;

#[test]
fn undirected_graph_keeps_nodes_and_edges_in_order() {
    let g = UndirectedGraph::new(5, vec![(0, 1), (3, 2), (1, 4), (2, 2)]);
    assert_eq!(g.num_vertices(), 5);
    assert_eq!(g.num_edges(), 4);
    assert_eq!(g.edges(), vec![(0, 1), (3, 2), (1, 4), (2, 2)]);
    let empty = UndirectedGraph::new(3, vec![]);
    assert_eq!(empty.num_vertices(), 3);
    assert_eq!(empty.num_edges(), 0);
    assert!(empty.edges().is_empty());
}

#[test]
fn undirected_graph_adjacency() {
    let g = UndirectedGraph::new(5, vec![(0, 1), (3, 2), (1, 4), (2, 2)]);
    assert!(g.has_edge(0, 1));
    assert!(g.has_edge(1, 0));
    assert!(g.has_edge(2, 3));
    assert!(g.has_edge(2, 2));
    assert!(!g.has_edge(0, 4));
    assert!(!g.has_edge(4, 4));
    assert!(!g.has_edge(0, 7));
    assert!(!g.has_edge(usize::MAX, 1));
}

#[test]
fn undirected_graph_neighbors() {
    let g = UndirectedGraph::new(5, vec![(0, 1), (3, 2), (1, 4), (2, 2), (1, 3)]);
    let mut n1 = g.neighbors(1);
    n1.sort();
    assert_eq!(n1, vec![0, 3, 4]);
    let mut n2 = g.neighbors(2);
    n2.sort();
    assert_eq!(n2, vec![2, 3]);
    assert!(g.neighbors(4) == vec![1]);
    assert!(g.neighbors(9).is_empty());
}

#[test]
fn undirected_graph_clone() {
    let g = UndirectedGraph::new(3, vec![(0, 1), (1, 2)]);
    let h = g.clone();
    assert_eq!(h.num_vertices(), 3);
    assert_eq!(h.edges(), vec![(0, 1), (1, 2)]);
}
