//! The orchestrator: derive the SipHash keys from the header and nonce,
//! trim the graph, stream the survivors into the cycle finder, and
//! return a checked 42-cycle solution if one is found.

use vstd::prelude::*;
use crate::bitmap_trimming::{lemma_survivor_triples_len, BitmapTrimmer};
use crate::blake2b::{blake2b, spec_blake2b_keys, spec_nonce_bytes};
use crate::cpp_cycle_finder::{CppCycleFinder, CuckatooNodeConnectionsLink};
use crate::hashing::SipHash;
use crate::types::SOLUTION_SIZE;
use crate::verification::{check_solution, spec_is_cycle};
use crate::CuckatooError;

verus! {

/// The four SipHash keys the core derives for a header and nonce.
pub open spec fn spec_solve_keys(header: Seq<u8>, nonce: u64) -> (u64, u64, u64, u64) {
    spec_blake2b_keys(header + spec_nonce_bytes(nonce))
}

/// Run the full core once: keys, lean trimming for at most
/// `trimming_rounds` rounds, and the 42-cycle search over the
/// survivors.
///
/// Edge bits outside `[10, 32]` and a zero round count are rejected
/// before any work. When a solution is returned it has been checked: it
/// is a strictly ascending list of 42 in-range edge indices whose
/// oracle edges form a single simple 42-cycle. A candidate from the
/// search that fails that check is surfaced as a verification error.
pub fn solve(header: &[u8], nonce: u64, edge_bits: u32, trimming_rounds: u32) -> (r: Result<
    Option<Vec<u32>>,
    CuckatooError,
>)
    ensures
        (edge_bits < 10 || edge_bits > 32) <==> (r matches Err(CuckatooError::InvalidEdgeBits(b))
            && b == edge_bits),
        (10 <= edge_bits <= 32 && trimming_rounds == 0) <==> r matches Err(
            CuckatooError::TrimmingError(_),
        ),
        r matches Ok(Some(s)) ==> (s@.len() == SOLUTION_SIZE && spec_is_cycle(
            spec_solve_keys(header@, nonce),
            edge_bits,
            s@,
        )),
        r matches Err(CuckatooError::VerificationError(_)) ==> (10 <= edge_bits <= 32
            && trimming_rounds >= 1),
{
    if edge_bits < 10 || edge_bits > 32 {
        return Err(CuckatooError::InvalidEdgeBits(edge_bits));
    }
    if trimming_rounds == 0 {
        return Err(CuckatooError::TrimmingError("trimming rounds must be positive".to_owned()));
    }
    let keys = blake2b(header, nonce);
    let siphash = SipHash::with_key(keys);
    let mut trimmer = BitmapTrimmer::new(edge_bits);
    let _ = trimmer.trim_edges(&siphash, trimming_rounds);
    let triples = trimmer.materialize(&siphash);
    proof {
        lemma_survivor_triples_len(
            siphash.spec_key(),
            trimmer.spec_edge_bits(),
            trimmer.spec_alive(),
            trimmer.spec_alive().len() as int,
        );
    }
    let n_survivors = triples.len() / 3;
    let mut finder = CppCycleFinder::new();
    let mut solution: Vec<u32> = Vec::new();
    let mut s: usize = 0;
    while s < SOLUTION_SIZE
        invariant
            s <= SOLUTION_SIZE,
            solution@.len() == s,
        decreases SOLUTION_SIZE - s,
    {
        solution.push(0u32);
        s += 1;
    }
    let mut node_connections: Vec<CuckatooNodeConnectionsLink> = Vec::new();
    if finder.get_cuckatoo_solution(
        &mut solution,
        &mut node_connections,
        triples.as_slice(),
        n_survivors as u64,
    ) {
        if check_solution(&keys, edge_bits, &solution) {
            Ok(Some(solution))
        } else {
            Err(
                CuckatooError::VerificationError(
                    "the search reported a candidate that is not a 42-cycle".to_owned(),
                ),
            )
        }
    } else {
        Ok(None)
    }
}

} // verus!
