use unitconvert::graph::{Graph, GraphOperationError};

#[test]
fn graph_two_nodes_no_edges() {
    let mut graph = Graph::<i32, i32>::default();

    let n0 = graph.add_node(1);
    let n1 = graph.add_node(2);

    assert_eq!(graph.get_edge_weight(n0, n1), None);
    assert_eq!(graph.get_edge_weight(n1, n0), None);
}

#[test]
fn graph_two_nodes_with_single_edge() {
    let mut graph = Graph::default();

    let n0 = graph.add_node(1);
    let n1 = graph.add_node(2);

    _ = graph.add_edge(n0, n1, 5);

    assert_eq!(graph.get_edge_weight(n0, n1), Some(&5));
    assert_eq!(graph.get_edge_weight(n1, n0), None);
}

#[test]
fn graph_multiple_nodes_multiple_edges() {
    let mut graph = Graph::default();

    let n0 = graph.add_node(1);
    let n1 = graph.add_node(2);
    let n2 = graph.add_node(3);
    let n3 = graph.add_node(4);

    _ = graph.add_edge(n0, n1, 6);
    _ = graph.add_edge(n1, n0, 5);
    _ = graph.add_edge(n2, n1, 2);
    _ = graph.add_edge(n3, n0, 10);

    assert_eq!(graph.get_edge_weight(n0, n1), Some(&6));
    assert_eq!(graph.get_edge_weight(n1, n0), Some(&5));
    assert_eq!(graph.get_edge_weight(n2, n1), Some(&2));
    assert_eq!(graph.get_edge_weight(n1, n2), None);
    assert_eq!(graph.get_edge_weight(n3, n0), Some(&10));
    assert_eq!(graph.get_edge_weight(n0, n3), None);
}

#[test]
fn graph_add_invalid_edges_no_nodes() {
    let mut graph = Graph::default();

    let n0 = graph.add_node(1);
    let n1 = graph.add_node(2);
    let n2 = n1 + 1;

    let e0 = graph.add_edge(n2, n1, 4);
    let e1 = graph.add_edge(n0, n2, 7);

    assert_eq!(e0, Err(GraphOperationError::NodeDoesNotExist));
    assert_eq!(e1, Err(GraphOperationError::NodeDoesNotExist));
    assert_eq!(graph.get_edge_weight(n0, n2), None);
}

#[test]
fn graph_add_duplicate_nodes() {
    let mut graph = Graph::default();

    let n0 = graph.add_node(1);
    let n1 = graph.add_node(2);
    _ = graph.add_edge(n0, n1, 5);

    let actual = graph.add_node(1);
    assert_eq!(actual, n0);
}

#[test]
fn graph_shortest_path_dijkstra() {
    let mut graph = Graph::default();

    let n0 = graph.add_node(1);
    let n1 = graph.add_node(2);
    let n2 = graph.add_node(3);
    let n3 = graph.add_node(4);
    let n4 = graph.add_node(5);

    _ = graph.add_edge(n0, n1, 25);
    _ = graph.add_edge(n1, n3, 30);
    _ = graph.add_edge(n1, n2, 25);
    _ = graph.add_edge(n2, n3, 30);
    _ = graph.add_edge(n3, n4, 40);

    let actual = graph.shortest_path(n0, n3);
    assert_eq!(actual, vec![(&2, &25), (&4, &30)]);
}

#[test]
fn graph_shortest_path_direct_path() {
    let mut graph = Graph::default();

    let n0 = graph.add_node(1);
    let n1 = graph.add_node(2);
    let n2 = graph.add_node(3);

    _ = graph.add_edge(n0, n2, 25);
    _ = graph.add_edge(n0, n1, 5);
    _ = graph.add_edge(n1, n2, 10);

    let actual = graph.shortest_path(n0, n2);
    assert_eq!(actual, vec![(&3, &25)]);
}

#[test]
fn graph_shortest_path_single_edge() {
    let mut graph = Graph::default();

    let n0 = graph.add_node(1);
    let n1 = graph.add_node(2);
    _ = graph.add_edge(n0, n1, 30);

    let actual = graph.shortest_path(n0, n1);
    assert_eq!(actual, vec![(&2, &30)])
}
