use cuckatoo::solver::solve;
use cuckatoo::types::Config;
use cuckatoo::CuckatooError;

#[test]
fn solve_rejects_out_of_range_edge_bits() {
    let header = [0u8; 238];
    let low = solve(&header, 0, 9, 90);
    assert!(matches!(low, Err(CuckatooError::InvalidEdgeBits(9))));
    let high = solve(&header, 0, 33, 90);
    assert!(matches!(high, Err(CuckatooError::InvalidEdgeBits(33))));
}

#[test]
fn solve_rejects_zero_trimming_rounds() {
    let header = [0u8; 238];
    let result = solve(&header, 0, 10, 0);
    assert!(matches!(result, Err(CuckatooError::TrimmingError(_))));
}

#[test]
fn solve_is_deterministic() {
    // The full core, run twice on the same instance, answers alike.
    let header = [0u8; 238];
    let first = solve(&header, 0, 10, 90).unwrap();
    let second = solve(&header, 0, 10, 90).unwrap();
    assert_eq!(first, second);
    // Reproducibility anchor, pinned once.
    assert!(first.is_none());
}

#[test]
fn solve_second_nonce() {
    let header = [0u8; 238];
    let first = solve(&header, 1, 10, 90).unwrap();
    let second = solve(&header, 1, 10, 90).unwrap();
    assert_eq!(first, second);
    assert!(first.is_none());
}

#[test]
fn solve_larger_instance() {
    let mut header = [0u8; 238];
    header[0] = 1;
    header[1] = 2;
    let first = solve(&header, 12345, 12, 90).unwrap();
    let second = solve(&header, 12345, 12, 90).unwrap();
    assert_eq!(first, second);
    assert!(first.is_none());
}

#[test]
fn solve_solution_well_formed_when_found() {
    // Scan a few nonces; any solution returned must be 42 strictly
    // ascending in-range indices.
    let header = [3u8; 238];
    for nonce in 0..4u64 {
        match solve(&header, nonce, 10, 90).unwrap() {
            Some(solution) => {
                assert_eq!(solution.len(), 42);
                for w in solution.windows(2) {
                    assert!(w[0] < w[1]);
                }
                for &idx in &solution {
                    assert!((idx as u64) < (1u64 << 10));
                }
            },
            None => {},
        }
    }
}

#[test]
fn solve_finds_a_real_cycle() {
    // A pinned positive instance: the full pipeline closes a 42-cycle
    // here, and the returned solution is checked against the oracle.
    let header = [3u8; 238];
    let result = solve(&header, 123, 10, 90).unwrap();
    let solution = result.expect("this instance holds a 42-cycle");
    let expected: Vec<u32> = vec![
        0, 59, 99, 134, 137, 171, 197, 198, 227, 243, 261, 286, 300, 311, 383, 410, 430, 439,
        440, 451, 468, 469, 476, 493, 494, 513, 554, 584, 594, 627, 644, 720, 729, 770, 776,
        779, 797, 804, 834, 930, 940, 979,
    ];
    assert_eq!(solution, expected);

    // And the run is repeatable.
    let again = solve(&header, 123, 10, 90).unwrap().unwrap();
    assert_eq!(again, expected);
}

#[test]
fn check_solution_rejects_non_cycles() {
    // An ascending index list that is no cycle under the oracle fails
    // the checker; so do a short list and an unsorted one.
    let keys = cuckatoo::blake2b::blake2b(&[0u8; 238], 0);
    let ascending: Vec<u32> = (0..42).collect();
    assert!(!cuckatoo::verification::check_solution(&keys, 10, &ascending));
    let short: Vec<u32> = (0..41).collect();
    assert!(!cuckatoo::verification::check_solution(&keys, 10, &short));
    let mut unsorted: Vec<u32> = (0..42).collect();
    unsorted.swap(0, 41);
    assert!(!cuckatoo::verification::check_solution(&keys, 10, &unsorted));
}

#[test]
fn check_solution_accepts_the_pinned_cycle() {
    let header = [3u8; 238];
    let keys = cuckatoo::blake2b::blake2b(&header, 123);
    let solution: Vec<u32> = vec![
        0, 59, 99, 134, 137, 171, 197, 198, 227, 243, 261, 286, 300, 311, 383, 410, 430, 439,
        440, 451, 468, 469, 476, 493, 494, 513, 554, 584, 594, 627, 644, 720, 729, 770, 776,
        779, 797, 804, 834, 930, 940, 979,
    ];
    assert!(cuckatoo::verification::check_solution(&keys, 10, &solution));
}

#[test]
fn config_validate_range() {
    let mut config = Config::new(10);
    assert!(config.validate().is_ok());
    config.edge_bits = 9;
    assert!(config.validate().is_err());
    config.edge_bits = 32;
    assert!(config.validate().is_ok());
    config.edge_bits = 33;
    assert!(matches!(config.validate(), Err(CuckatooError::InvalidEdgeBits(33))));
}

#[test]
fn config_defaults() {
    let config = Config::new(14);
    assert_eq!(config.edge_bits, 14);
    assert_eq!(config.trimming_rounds, 90);
    assert_eq!(config.edge_count(), 1 << 14);
    assert_eq!(config.node_count(), 1 << 13);

    let c31 = Config::new_cuckatoo31();
    assert_eq!(c31.edge_bits, 31);
    assert_eq!(c31.trimming_rounds, 90);
}

#[test]
fn constants_helpers() {
    assert_eq!(cuckatoo::constants::solution_size(), 42);
    assert_eq!(cuckatoo::constants::number_of_edges(10), 1024);
    assert_eq!(cuckatoo::constants::node_mask(10), 1023);
    assert_eq!(cuckatoo::constants::edges_bitmap_size(10), 16);
    assert_eq!(cuckatoo::constants::edges_bitmap_size(6), 1);
    assert!(cuckatoo::constants::validate_edge_bits(9).is_err());
    assert!(cuckatoo::constants::validate_edge_bits(10).is_ok());
    assert!(cuckatoo::constants::validate_edge_bits(32).is_ok());
    assert!(cuckatoo::constants::validate_edge_bits(33).is_err());
}

#[test]
fn header_and_node_accessors() {
    let header = cuckatoo::types::Header::new_with_nonce(b"abc", 7);
    assert_eq!(header.bytes(), b"abc");
    assert_eq!(header.as_bytes(), b"abc");
    assert_eq!(header.nonce(), 7);

    let node = cuckatoo::types::Node::new(5);
    assert_eq!(node.value(), 5);

    let edge = cuckatoo::types::Edge::new(cuckatoo::types::Node::new(1), cuckatoo::types::Node::new(2));
    assert!(edge.contains(cuckatoo::types::Node::new(1)));
    assert!(!edge.contains(cuckatoo::types::Node::new(3)));
    assert_eq!(edge.other(cuckatoo::types::Node::new(1)), Some(cuckatoo::types::Node::new(2)));
    assert_eq!(edge.other(cuckatoo::types::Node::new(2)), Some(cuckatoo::types::Node::new(1)));
    assert_eq!(edge.other(cuckatoo::types::Node::new(9)), None);
}
