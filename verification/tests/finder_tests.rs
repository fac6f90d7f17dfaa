use cuckatoo::cpp_cycle_finder::{CppCycleFinder, CuckatooNodeConnectionsLink};
use cuckatoo::hash_cycle_finder::{HashCycleFinder, NodeConnectionLink};
use cuckatoo::types::{Edge, Node};

fn synthetic_cycle_triples() -> Vec<u32> {
    let mut triples: Vec<u32> = Vec::new();
    let mut i = 0u32;
    while i < 42 {
        triples.push(i);
        triples.push(i);
        triples.push((i + 1) % 42);
        i += 1;
    }
    triples
}

#[test]
fn test_hash_cycle_finder_basic() {
    let mut finder = HashCycleFinder::new();
    assert!(finder.initialize_thread_local_global_variables());

    let edges: Vec<Edge> = vec![];
    let result = finder.find_cycle(&edges);
    assert!(result.is_ok());
    assert!(result.unwrap().is_none());
}

#[test]
fn synthetic_cycle_found_directly() {
    // Inject the synthetic 42-cycle straight into the search: edge i
    // joins node i to node i + 1 modulo 42.
    let triples = synthetic_cycle_triples();
    let mut finder = CppCycleFinder::new();
    let mut solution = vec![0u32; 42];
    let mut arena: Vec<CuckatooNodeConnectionsLink> = Vec::new();
    let found = finder.get_cuckatoo_solution(&mut solution, &mut arena, &triples, 42);
    assert!(found);
    let expected: Vec<u32> = (0..42).collect();
    assert_eq!(solution, expected);
}

#[test]
fn synthetic_cycle_found_with_extra_edges() {
    let mut triples = synthetic_cycle_triples();
    triples.extend_from_slice(&[42, 0, 100, 43, 1, 101, 44, 16, 102, 45, 100, 17]);
    let mut finder = CppCycleFinder::new();
    let mut solution = vec![0u32; 42];
    let mut arena: Vec<CuckatooNodeConnectionsLink> = Vec::new();
    let found = finder.get_cuckatoo_solution(&mut solution, &mut arena, &triples, 46);
    assert!(found);
    let expected: Vec<u32> = (0..42).collect();
    assert_eq!(solution, expected);
}

#[test]
fn synthetic_cycle_found_by_hash_finder() {
    let mut edges: Vec<Edge> = Vec::new();
    let mut i = 0u64;
    while i < 42 {
        edges.push(Edge { u: Node(i), v: Node((i + 1) % 42) });
        i += 1;
    }
    let mut finder = HashCycleFinder::new();
    let result = finder.find_cycle(&edges).unwrap();
    let solution = result.unwrap();
    let expected: Vec<usize> = (0..42).collect();
    assert_eq!(solution, expected);
}

#[test]
fn synthetic_tree_has_no_cycle() {
    // A binary tree of 39 edges holds no cycle at all.
    let tree = cuckatoo::verification::create_synthetic_tree_graph();
    assert_eq!(tree.len(), 39);
    let mut finder = HashCycleFinder::new();
    let result = finder.find_cycle(&tree).unwrap();
    assert!(result.is_none());
}

#[test]
fn hash_finder_solution_positions_are_in_range() {
    let mut edges: Vec<Edge> = Vec::new();
    let mut i = 0u64;
    while i < 42 {
        edges.push(Edge { u: Node(i), v: Node((i + 1) % 42) });
        i += 1;
    }
    let mut finder = HashCycleFinder::new();
    if let Some(solution) = finder.find_cycle(&edges).unwrap() {
        for &idx in &solution {
            assert!(idx < edges.len());
        }
    } else {
        panic!("the synthetic cycle must be found");
    }
}

#[test]
fn cpp_finder_reports_no_cycle_on_empty_stream() {
    let mut finder = CppCycleFinder::new();
    assert!(finder.initialize_cuckatoo_thread_local_global_variables());
    let mut solution = vec![0u32; 42];
    let mut arena: Vec<CuckatooNodeConnectionsLink> = Vec::new();
    let triples: Vec<u32> = Vec::new();
    let found = finder.get_cuckatoo_solution(&mut solution, &mut arena, &triples, 0);
    assert!(!found);
}

#[test]
fn hash_finder_arena_links_come_in_pairs() {
    let mut edges: Vec<Edge> = Vec::new();
    let mut i = 0u64;
    while i < 10 {
        edges.push(Edge { u: Node(2 * i), v: Node(2 * i) });
        i += 1;
    }
    let mut finder = HashCycleFinder::new();
    let mut solution = vec![0u32; 42];
    let mut arena: Vec<NodeConnectionLink> = Vec::new();
    let mut triples: Vec<u32> = Vec::new();
    for (j, e) in edges.iter().enumerate() {
        triples.push(j as u32);
        triples.push(e.u.value() as u32);
        triples.push(e.v.value() as u32);
    }
    let found = finder.get_cuckatoo_solution(&mut solution, &mut arena, &triples, 10);
    assert!(!found);
    assert_eq!(arena.len(), 20);
}

#[test]
fn hash_table_replace_and_get() {
    let mut table = cuckatoo::cpp_cycle_finder::HashTable::new();
    assert!(!table.contains(5));
    assert_eq!(table.get(5), None);
    assert_eq!(table.replace(5, 0), None);
    assert!(table.contains(5));
    assert_eq!(table.get(5), Some(0));
    assert_eq!(table.replace(5, 2), Some(0));
    assert_eq!(table.get(5), Some(2));
    table.clear();
    assert!(!table.contains(5));
}

#[test]
fn visited_node_pairs_records_in_order() {
    let mut pairs = cuckatoo::cpp_cycle_finder::VisitedNodePairs::new();
    assert!(!pairs.contains(9));
    pairs.set_unique(9, 100);
    pairs.set_unique(4, 200);
    assert!(pairs.contains(9));
    assert!(pairs.contains(4));
    assert_eq!(pairs.get_values(), vec![100, 200]);
    pairs.clear();
    assert!(!pairs.contains(9));
    assert_eq!(pairs.get_values(), Vec::<u32>::new());
}

#[test]
fn cpp_finder_reads_only_the_named_triples() {
    // A longer slice is fine: only the first `number_of_edges` triples
    // take part in the search.
    let mut triples = synthetic_cycle_triples();
    triples.extend_from_slice(&[77, 77, 77, 78, 78, 78, 5]);
    let mut finder = CppCycleFinder::new();
    let mut solution = vec![0u32; 42];
    let mut arena: Vec<CuckatooNodeConnectionsLink> = Vec::new();
    let found = finder.get_cuckatoo_solution(&mut solution, &mut arena, &triples, 42);
    assert!(found);
    let expected: Vec<u32> = (0..42).collect();
    assert_eq!(solution, expected);
}

#[test]
fn finder_leaves_solution_untouched_without_a_cycle() {
    let tree = cuckatoo::verification::create_synthetic_tree_graph();
    let mut triples: Vec<u32> = Vec::new();
    for (j, e) in tree.iter().enumerate() {
        triples.push(j as u32);
        triples.push(e.u.value() as u32);
        triples.push(e.v.value() as u32);
    }
    let mut finder = CppCycleFinder::new();
    let mut solution = vec![7u32; 42];
    let mut arena: Vec<CuckatooNodeConnectionsLink> = Vec::new();
    let found = finder.get_cuckatoo_solution(&mut solution, &mut arena, &triples, 39);
    assert!(!found);
    assert_eq!(solution, vec![7u32; 42]);
}
