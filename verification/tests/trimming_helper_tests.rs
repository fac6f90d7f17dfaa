use cuckatoo::trimming::{EdgeBitmap, NodeBitmap};
use cuckatoo::types::{Edge, Node};

#[test]
fn test_edge_bitmap_creation() {
    let edges = vec![
        Edge::new(Node::new(0), Node::new(1)),
        Edge::new(Node::new(1), Node::new(2)),
        Edge::new(Node::new(2), Node::new(3)),
    ];

    let bitmap = EdgeBitmap::new(&edges);
    assert_eq!(bitmap.active_count(), 3);
    assert!(bitmap.is_edge_active(edges[0]));
}

#[test]
fn test_node_bitmap_creation() {
    let edges = vec![
        Edge::new(Node::new(0), Node::new(1)),
        Edge::new(Node::new(1), Node::new(2)),
    ];

    let bitmap = NodeBitmap::new(&edges);
    assert_eq!(bitmap.get_degree(Node::new(0)), 1);
    assert_eq!(bitmap.get_degree(Node::new(1)), 2);
    assert_eq!(bitmap.get_degree(Node::new(2)), 1);
}

#[test]
fn test_leaf_node_detection() {
    let edges = vec![
        Edge::new(Node::new(0), Node::new(1)),
        Edge::new(Node::new(1), Node::new(2)),
    ];

    let bitmap = NodeBitmap::new(&edges);
    let leaf_nodes = bitmap.get_leaf_nodes();

    assert_eq!(leaf_nodes.len(), 2);
    assert!(leaf_nodes.contains(&Node::new(0)));
    assert!(leaf_nodes.contains(&Node::new(2)));
}

#[test]
fn edge_bitmap_removal_and_queries() {
    let edges = vec![
        Edge::new(Node::new(0), Node::new(1)),
        Edge::new(Node::new(1), Node::new(2)),
        Edge::new(Node::new(2), Node::new(3)),
        Edge::new(Node::new(0), Node::new(1)),
    ];
    let mut bitmap = EdgeBitmap::new(&edges);
    // Duplicates collapse in the active set.
    assert_eq!(bitmap.active_count(), 3);

    bitmap.remove_edge(edges[1]);
    assert_eq!(bitmap.active_count(), 2);
    assert!(!bitmap.is_edge_active(edges[1]));
    assert!(bitmap.is_edge_active(edges[0]));

    let touching_two = bitmap.get_edges_for_node(Node::new(2));
    assert_eq!(touching_two.len(), 1);
    assert_eq!(touching_two[0], edges[2]);

    let surviving = bitmap.get_surviving_edges();
    assert_eq!(surviving.len(), 2);
}

#[test]
fn node_bitmap_decrement_and_removal() {
    let edges = vec![
        Edge::new(Node::new(0), Node::new(1)),
        Edge::new(Node::new(1), Node::new(2)),
    ];
    let mut bitmap = NodeBitmap::new(&edges);
    assert_eq!(bitmap.active_count(), 3);

    bitmap.decrement_degree(Node::new(1));
    assert_eq!(bitmap.get_degree(Node::new(1)), 1);
    bitmap.decrement_degree(Node::new(1));
    assert_eq!(bitmap.get_degree(Node::new(1)), 0);
    bitmap.decrement_degree(Node::new(1));
    assert_eq!(bitmap.get_degree(Node::new(1)), 0);

    bitmap.remove_node(Node::new(0));
    assert_eq!(bitmap.get_degree(Node::new(0)), 0);
    assert_eq!(bitmap.active_count(), 2);
}
