use cuckatoo::types::{Edge, Header, Node};
use cuckatoo::verification::CycleVerifier;

#[test]
fn test_simple_cycle_verification() {
    let mut verifier = CycleVerifier::new();

    let edges = vec![
        Edge::new(Node::new(0), Node::new(1)),
        Edge::new(Node::new(1), Node::new(2)),
        Edge::new(Node::new(2), Node::new(0)),
    ];

    let result = verifier.verify_cycle(&edges);
    assert!(result.is_ok());
    assert!(result.unwrap().is_none());
}

#[test]
fn test_cpp_algorithm_integration() {
    let mut verifier = CycleVerifier::new();

    let mut edges = Vec::new();
    for i in 0..50 {
        let u = Node::new(i);
        let v = Node::new((i + 1) % 50);
        edges.push(Edge::new(u, v));
    }

    let result = verifier.verify_cycle(&edges);
    assert!(result.is_ok());

    let cycle = result.unwrap();
    println!("Cycle found: {:?}", cycle);
}

#[test]
fn test_cpp_algorithm_with_siphash_edges() {
    let mut verifier = CycleVerifier::new();

    let header = Header::new(b"test header for cuckatoo");
    let siphash = cuckatoo::hashing::SipHash::new_from_header(&header, 12345);

    let edges = siphash.hash_header(&header, 10).unwrap();
    println!("Generated {} edges", edges.len());

    let result = verifier.verify_cycle(&edges);
    assert!(result.is_ok());

    let cycle = result.unwrap();
    println!("Cycle found with generated edges: {:?}", cycle);

    assert!(edges.len() == 1024);
}

#[test]
fn test_synthetic_42_cycle() {
    let mut verifier = CycleVerifier::new();

    let mut edges = Vec::new();
    for i in 0..42 {
        let u = Node::new(i);
        let v = Node::new((i + 1) % 42);
        edges.push(Edge::new(u, v));
    }

    let result = verifier.verify_cycle(&edges);
    assert!(result.is_ok());

    let cycle = result.unwrap();
    if let Some(found_cycle) = cycle {
        assert_eq!(found_cycle.len(), 42);
    }
}

#[test]
fn test_cpp_algorithm_correctness() {
    let mut verifier = CycleVerifier::new();

    let mut edges = Vec::new();
    for i in 0..100 {
        let u = Node::new(i);
        let v = Node::new((i + 1) % 100);
        edges.push(Edge::new(u, v));

        if i % 3 == 0 {
            let u2 = Node::new(i);
            let v2 = Node::new((i + 10) % 100);
            edges.push(Edge::new(u2, v2));
        }
    }

    println!("Testing with {} edges", edges.len());

    let result = verifier.verify_cycle(&edges);
    assert!(result.is_ok());

    let cycle = result.unwrap();
    println!("Cycle result: {:?}", cycle);
}

#[test]
fn test_cycle_verification_not_enough_edges() {
    let mut verifier = CycleVerifier::new();

    let edges = vec![
        Edge::new(Node::new(0), Node::new(1)),
        Edge::new(Node::new(1), Node::new(2)),
    ];

    let result = verifier.verify_cycle(&edges);
    assert!(result.is_ok());
    assert!(result.unwrap().is_none());
}

#[test]
fn test_specific_cycle_verification() {
    let verifier = CycleVerifier::new();

    let edges = vec![
        Edge::new(Node::new(0), Node::new(1)),
        Edge::new(Node::new(1), Node::new(2)),
        Edge::new(Node::new(2), Node::new(0)),
    ];

    let cycle = vec![
        Edge::new(Node::new(0), Node::new(1)),
        Edge::new(Node::new(1), Node::new(2)),
        Edge::new(Node::new(2), Node::new(0)),
    ];

    assert!(verifier.verify_specific_cycle(&cycle, &edges));

    let invalid_cycle = vec![
        Edge::new(Node::new(0), Node::new(1)),
        Edge::new(Node::new(2), Node::new(3)),
    ];
    assert!(!verifier.verify_specific_cycle(&invalid_cycle, &edges));
}

#[test]
fn check_incident_edges_on_triangle() {
    let verifier = CycleVerifier::new();
    let cycle = vec![
        Edge::new(Node::new(0), Node::new(1)),
        Edge::new(Node::new(1), Node::new(2)),
        Edge::new(Node::new(2), Node::new(0)),
    ];
    assert!(verifier.check_incident_edges(&cycle));

    let broken = vec![
        Edge::new(Node::new(0), Node::new(1)),
        Edge::new(Node::new(5), Node::new(6)),
        Edge::new(Node::new(2), Node::new(0)),
    ];
    assert!(!verifier.check_incident_edges(&broken));
}

#[test]
fn synthetic_fixture_shapes() {
    let cycle = cuckatoo::verification::create_synthetic_42_cycle_graph();
    assert_eq!(cycle.len(), 42);
    assert_eq!(cycle[0], Edge::new(Node::new(0), Node::new(1)));
    assert_eq!(cycle[41], Edge::new(Node::new(41), Node::new(0)));

    let small = cuckatoo::verification::create_synthetic_small_cycles_graph();
    assert_eq!(small.len(), 30);

    let tree = cuckatoo::verification::create_synthetic_tree_graph();
    assert_eq!(tree.len(), 39);

    let ring = cuckatoo::verification::create_synthetic_cycle_graph(7);
    assert_eq!(ring.len(), 7);
    let none = cuckatoo::verification::create_synthetic_cycle_graph(2);
    assert_eq!(none.len(), 0);
}
