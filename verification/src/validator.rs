//! Block validation: the ordered checks a candidate block must pass
//! against its parent header, and the pre-check a convergence block must
//! pass against the block DAG before harvesters sign it.

use vstd::prelude::*;

use crate::block::{Block, ConvergenceBlock, GenesisBlock};
use crate::claim::{valid_claim, Claim};
use crate::codec::ascii_chars;
use crate::dag::{
    dag_has_proposal, dag_wf, proposal_claims_contain, proposal_txns_contain, BlockDag,
};
use crate::election::{get_lowest_pointer, lowest_pointer_spec};
use crate::header::{
    claim_text_ascii, genesis_last_hash, genesis_last_hash_spec, genesis_state_hash,
    genesis_state_hash_spec, header_signature_ok, header_text_ascii, BlockHeader,
};
use crate::invalid::{InvalidBlockError, InvalidBlockErrorReason};

verus! {

/// Whether the lowest-pointer tournament agrees with the candidate's
/// miner claim: either no claim has a pointer for this seed, or the
/// winning hash and pointer value are exactly the miner claim's.
pub open spec fn pointer_check_ok(ch: BlockHeader, claims: Seq<Claim>) -> bool {
    match lowest_pointer_spec(claims, ch.block_seed as u128) {
        None => true,
        Some(w) => {
            &&& w.0 == ch.miner_claim.hash@
            &&& crate::claim::pointer_spec(ch.miner_claim, ch.block_seed as u128) == Some(w.1)
        },
    }
}

/// The verdict on a candidate block validated against its parent: the
/// checks run in order and the first failure names the reason.
pub open spec fn valid_block_spec(
    ch: BlockHeader,
    ph: BlockHeader,
    parent_hash: Seq<char>,
    claims: Seq<Claim>,
) -> Result<(), InvalidBlockErrorReason> {
    if ch.block_height > ph.block_height + 1 {
        Err(InvalidBlockErrorReason::BlockOutOfSequence)
    } else if ch.block_height <= ph.block_height {
        Err(InvalidBlockErrorReason::NotTallestChain)
    } else if ch.block_seed != ph.next_block_seed {
        Err(InvalidBlockErrorReason::InvalidBlockNonce)
    } else if ch.block_reward != ph.next_block_reward {
        Err(InvalidBlockErrorReason::InvalidBlockReward)
    } else if !pointer_check_ok(ch, claims) {
        Err(InvalidBlockErrorReason::InvalidClaimPointers)
    } else if ch.last_hash@ != parent_hash {
        Err(InvalidBlockErrorReason::InvalidLastHash)
    } else if !valid_claim(ch.miner_claim) {
        Err(InvalidBlockErrorReason::InvalidClaim)
    } else if !header_signature_ok(ch) {
        Err(InvalidBlockErrorReason::InvalidBlockSignature)
    } else {
        Ok(())
    }
}

/// Validates a candidate convergence block against the parent block's
/// header and hash, and the current claim store.
pub fn valid(
    candidate: &ConvergenceBlock,
    parent_header: &BlockHeader,
    parent_hash: &String,
    claims: &Vec<Claim>,
) -> (r: Result<(), InvalidBlockError>)
    requires
        header_text_ascii(candidate.header),
    ensures
        r is Ok <==> valid_block_spec(candidate.header, *parent_header, parent_hash@, claims@)
            is Ok,
        r matches Err(e) ==> Err::<(), InvalidBlockErrorReason>(e.details) == valid_block_spec(
            candidate.header,
            *parent_header,
            parent_hash@,
            claims@,
        ),
{
    let ch = &candidate.header;
    if ch.block_height > parent_header.block_height && ch.block_height - 1
        > parent_header.block_height {
        return Err(InvalidBlockError { details: InvalidBlockErrorReason::BlockOutOfSequence });
    }
    if ch.block_height <= parent_header.block_height {
        return Err(InvalidBlockError { details: InvalidBlockErrorReason::NotTallestChain });
    }
    if ch.block_seed != parent_header.next_block_seed {
        return Err(InvalidBlockError { details: InvalidBlockErrorReason::InvalidBlockNonce });
    }
    if ch.block_reward != parent_header.next_block_reward {
        return Err(InvalidBlockError { details: InvalidBlockErrorReason::InvalidBlockReward });
    }
    match get_lowest_pointer(claims, ch.block_seed as u128) {
        None => {},
        Some((hash, pointer)) => {
            if !(hash == ch.miner_claim.hash) {
                return Err(
                    InvalidBlockError { details: InvalidBlockErrorReason::InvalidClaimPointers },
                );
            }
            match ch.miner_claim.get_pointer(ch.block_seed as u128) {
                Some(claim_pointer) => {
                    if pointer != claim_pointer {
                        return Err(
                            InvalidBlockError {
                                details: InvalidBlockErrorReason::InvalidClaimPointers,
                            },
                        );
                    }
                },
                None => {
                    return Err(
                        InvalidBlockError {
                            details: InvalidBlockErrorReason::InvalidClaimPointers,
                        },
                    );
                },
            }
        },
    }
    if !(ch.last_hash == *parent_hash) {
        return Err(InvalidBlockError { details: InvalidBlockErrorReason::InvalidLastHash });
    }
    if ch.miner_claim.verify().is_err() {
        return Err(InvalidBlockError { details: InvalidBlockErrorReason::InvalidClaim });
    }
    if !ch.verify_signature() {
        return Err(InvalidBlockError { details: InvalidBlockErrorReason::InvalidBlockSignature });
    }
    Ok(())
}

/// Pointer-sum safety: a block that passed validation under a seed for
/// which some claim holds a pointer was mined by exactly the claim that
/// won the lowest-pointer tournament, with the matching pointer value.
pub proof fn lemma_pointer_sum_safety(
    ch: BlockHeader,
    ph: BlockHeader,
    parent_hash: Seq<char>,
    claims: Seq<Claim>,
)
    requires
        valid_block_spec(ch, ph, parent_hash, claims) is Ok,
        lowest_pointer_spec(claims, ch.block_seed as u128) is Some,
    ensures
        lowest_pointer_spec(claims, ch.block_seed as u128) == Some(
            (
                ch.miner_claim.hash@,
                crate::claim::pointer_spec(ch.miner_claim, ch.block_seed as u128)->Some_0,
            ),
        ),
{
}

/// The verdict on a candidate genesis block: height zero, the fixed
/// genesis parent hash and state digest, a valid miner claim, and a
/// verifying header signature.
pub open spec fn valid_genesis_spec(g: GenesisBlock) -> Result<(), InvalidBlockErrorReason> {
    if g.header.block_height != 0 {
        Err(InvalidBlockErrorReason::InvalidBlockHeight)
    } else if g.header.last_hash@ != genesis_last_hash_spec() {
        Err(InvalidBlockErrorReason::InvalidLastHash)
    } else if g.hash@ != genesis_state_hash_spec() {
        Err(InvalidBlockErrorReason::InvalidStateHash)
    } else if !valid_claim(g.header.miner_claim) {
        Err(InvalidBlockErrorReason::InvalidClaim)
    } else if !header_signature_ok(g.header) {
        Err(InvalidBlockErrorReason::InvalidBlockSignature)
    } else {
        Ok(())
    }
}

/// Validates a candidate genesis block.
pub fn valid_genesis(g: &GenesisBlock) -> (r: Result<(), InvalidBlockError>)
    requires
        header_text_ascii(g.header),
    ensures
        r is Ok <==> valid_genesis_spec(*g) is Ok,
        r matches Err(e) ==> Err::<(), InvalidBlockErrorReason>(e.details) == valid_genesis_spec(
            *g,
        ),
{
    if g.header.block_height != 0 {
        return Err(InvalidBlockError { details: InvalidBlockErrorReason::InvalidBlockHeight });
    }
    let gen_last = genesis_last_hash();
    if !(g.header.last_hash == gen_last) {
        return Err(InvalidBlockError { details: InvalidBlockErrorReason::InvalidLastHash });
    }
    let gen_state = genesis_state_hash();
    if !(g.hash == gen_state) {
        return Err(InvalidBlockError { details: InvalidBlockErrorReason::InvalidStateHash });
    }
    if g.header.miner_claim.verify().is_err() {
        return Err(InvalidBlockError { details: InvalidBlockErrorReason::InvalidClaim });
    }
    if !g.header.verify_signature() {
        return Err(InvalidBlockError { details: InvalidBlockErrorReason::InvalidBlockSignature });
    }
    Ok(())
}

/// Whether a convergence block passes the DAG pre-check: every referenced
/// proposal hash resolves to a proposal block in the DAG, and every claim
/// and transaction the block references appears in the proposal block it
/// is referenced under.
pub open spec fn precheck_spec(b: ConvergenceBlock, entries: Seq<(String, Block)>) -> bool {
    &&& forall|i: int|
        0 <= i < b.header.ref_hashes@.len() ==> dag_has_proposal(
            entries,
            (#[trigger] b.header.ref_hashes@[i])@,
        )
    &&& forall|i: int, j: int|
        0 <= i < b.claims@.len() && 0 <= j < (#[trigger] b.claims@[i]).1@.len()
            ==> proposal_claims_contain(entries, b.claims@[i].0@, (#[trigger] b.claims@[i].1@[j])@)
    &&& forall|i: int, j: int|
        0 <= i < b.txns@.len() && 0 <= j < (#[trigger] b.txns@[i]).1@.len()
            ==> proposal_txns_contain(entries, b.txns@[i].0@, (#[trigger] b.txns@[i].1@[j])@)
}

/// Checks whether the DAG holds a proposal block under the given hash.
fn dag_proposal_exists(dag: &BlockDag, h: &String) -> (r: bool)
    requires
        dag_wf(dag.entries@),
    ensures
        r == dag_has_proposal(dag.entries@, h@),
{
    match dag.get_vertex(h) {
        None => {
            proof {
                assert(!dag_has_proposal(dag.entries@, h@));
            }
            false
        },
        Some(b) => {
            let ghost wi = choose|i: int|
                0 <= i < dag.entries@.len() && (#[trigger] dag.entries@[i]).0@ == h@
                    && dag.entries@[i].1 == *b;
            match b {
                Block::Proposal(_) => {
                    proof {
                        assert(dag_has_proposal(dag.entries@, h@));
                    }
                    true
                },
                _ => {
                    proof {
                        assert forall|i: int|
                            0 <= i < dag.entries@.len() && (#[trigger] dag.entries@[i]).0@
                                == h@ implies !(dag.entries@[i].1 is Proposal) by {
                            assert(i == wi);
                        }
                    }
                    false
                },
            }
        },
    }
}

/// Checks whether the proposal stored under `rh` lists `key` in the map
/// selected by `use_txns`: the transaction map when set, the claim map
/// otherwise.
fn proposal_lists_key(dag: &BlockDag, rh: &String, key: &String, use_txns: bool) -> (r: bool)
    requires
        dag_wf(dag.entries@),
    ensures
        use_txns ==> r == proposal_txns_contain(dag.entries@, rh@, key@),
        !use_txns ==> r == proposal_claims_contain(dag.entries@, rh@, key@),
{
    let found = dag.get_vertex(rh);
    match found {
        None => {
            proof {
                assert(!proposal_txns_contain(dag.entries@, rh@, key@));
                assert(!proposal_claims_contain(dag.entries@, rh@, key@));
            }
            false
        },
        Some(b) => {
            let ghost wi = choose|i: int|
                0 <= i < dag.entries@.len() && (#[trigger] dag.entries@[i]).0@ == rh@
                    && dag.entries@[i].1 == *b;
            match b {
                Block::Proposal(p) => {
                    if use_txns {
                        let n = p.txns.len();
                        let mut j: usize = 0;
                        while j < n
                            invariant
                                use_txns,
                                dag_wf(dag.entries@),
                                0 <= wi < dag.entries@.len(),
                                dag.entries@[wi].0@ == rh@,
                                dag.entries@[wi].1 is Proposal,
                                dag.entries@[wi].1->Proposal_0 == *p,
                                n == p.txns@.len(),
                                j <= n,
                                forall|k: int| 0 <= k < j ==> (#[trigger] p.txns@[k]).0@ != key@,
                            decreases n - j,
                        {
                            if p.txns[j].0 == *key {
                                proof {
                                    assert(dag.entries@[wi].1->Proposal_0.txns@[j as int].0@
                                        == key@);
                                    assert(proposal_txns_contain(dag.entries@, rh@, key@));
                                }
                                return true;
                            }
                            j = j + 1;
                        }
                        proof {
                            assert forall|i: int|
                                0 <= i < dag.entries@.len() && (#[trigger] dag.entries@[i]).0@
                                    == rh@ implies i == wi by {}
                            assert(!proposal_txns_contain(dag.entries@, rh@, key@));
                        }
                        false
                    } else {
                        let n = p.claims.len();
                        let mut j: usize = 0;
                        while j < n
                            invariant
                                !use_txns,
                                dag_wf(dag.entries@),
                                0 <= wi < dag.entries@.len(),
                                dag.entries@[wi].0@ == rh@,
                                dag.entries@[wi].1 is Proposal,
                                dag.entries@[wi].1->Proposal_0 == *p,
                                n == p.claims@.len(),
                                j <= n,
                                forall|k: int| 0 <= k < j ==> (#[trigger] p.claims@[k]).0@ != key@,
                            decreases n - j,
                        {
                            if p.claims[j].0 == *key {
                                proof {
                                    assert(dag.entries@[wi].1->Proposal_0.claims@[j as int].0@
                                        == key@);
                                    assert(proposal_claims_contain(dag.entries@, rh@, key@));
                                }
                                return true;
                            }
                            j = j + 1;
                        }
                        proof {
                            assert forall|i: int|
                                0 <= i < dag.entries@.len() && (#[trigger] dag.entries@[i]).0@
                                    == rh@ implies i == wi by {}
                            assert(!proposal_claims_contain(dag.entries@, rh@, key@));
                        }
                        false
                    }
                },
                _ => {
                    proof {
                        assert forall|i: int|
                            0 <= i < dag.entries@.len() && (#[trigger] dag.entries@[i]).0@
                                == rh@ implies i == wi by {}
                        assert(!proposal_txns_contain(dag.entries@, rh@, key@));
                        assert(!proposal_claims_contain(dag.entries@, rh@, key@));
                    }
                    false
                },
            }
        },
    }
}

/// Pre-checks a convergence block against the DAG: a failing pre-check
/// silently disqualifies the block from certification.
pub fn precheck_convergence_block(block: &ConvergenceBlock, dag: &BlockDag) -> (r: bool)
    requires
        dag_wf(dag.entries@),
    ensures
        r == precheck_spec(*block, dag.entries@),
{
    let refs = &block.header.ref_hashes;
    let nrefs = refs.len();
    let mut i: usize = 0;
    while i < nrefs
        invariant
            dag_wf(dag.entries@),
            refs@ == block.header.ref_hashes@,
            nrefs == refs@.len(),
            i <= nrefs,
            forall|k: int| 0 <= k < i ==> dag_has_proposal(dag.entries@, (#[trigger] refs@[k])@),
        decreases nrefs - i,
    {
        if !dag_proposal_exists(dag, &refs[i]) {
            proof {
                assert(!dag_has_proposal(dag.entries@, block.header.ref_hashes@[i as int]@));
            }
            return false;
        }
        i = i + 1;
    }
    let nclaims = block.claims.len();
    let mut i: usize = 0;
    while i < nclaims
        invariant
            dag_wf(dag.entries@),
            nclaims == block.claims@.len(),
            i <= nclaims,
            forall|k: int, j: int|
                0 <= k < i && 0 <= j < (#[trigger] block.claims@[k]).1@.len()
                    ==> proposal_claims_contain(
                    dag.entries@,
                    block.claims@[k].0@,
                    (#[trigger] block.claims@[k].1@[j])@,
                ),
        decreases nclaims - i,
    {
        let entry = &block.claims[i];
        let m = entry.1.len();
        let mut j: usize = 0;
        while j < m
            invariant
                dag_wf(dag.entries@),
                nclaims == block.claims@.len(),
                i < nclaims,
                *entry == block.claims@[i as int],
                m == entry.1@.len(),
                j <= m,
                forall|q: int|
                    0 <= q < j ==> proposal_claims_contain(
                        dag.entries@,
                        block.claims@[i as int].0@,
                        (#[trigger] block.claims@[i as int].1@[q])@,
                    ),
            decreases m - j,
        {
            if !proposal_lists_key(dag, &entry.0, &entry.1[j], false) {
                proof {
                    assert(!proposal_claims_contain(
                        dag.entries@,
                        block.claims@[i as int].0@,
                        block.claims@[i as int].1@[j as int]@,
                    ));
                }
                return false;
            }
            j = j + 1;
        }
        i = i + 1;
    }
    let ntxns = block.txns.len();
    let mut i: usize = 0;
    while i < ntxns
        invariant
            dag_wf(dag.entries@),
            ntxns == block.txns@.len(),
            i <= ntxns,
            forall|k: int, j: int|
                0 <= k < i && 0 <= j < (#[trigger] block.txns@[k]).1@.len()
                    ==> proposal_txns_contain(
                    dag.entries@,
                    block.txns@[k].0@,
                    (#[trigger] block.txns@[k].1@[j])@,
                ),
        decreases ntxns - i,
    {
        let entry = &block.txns[i];
        let m = entry.1.len();
        let mut j: usize = 0;
        while j < m
            invariant
                dag_wf(dag.entries@),
                ntxns == block.txns@.len(),
                i < ntxns,
                *entry == block.txns@[i as int],
                m == entry.1@.len(),
                j <= m,
                forall|q: int|
                    0 <= q < j ==> proposal_txns_contain(
                        dag.entries@,
                        block.txns@[i as int].0@,
                        (#[trigger] block.txns@[i as int].1@[q])@,
                    ),
            decreases m - j,
        {
            if !proposal_lists_key(dag, &entry.0, &entry.1[j], true) {
                proof {
                    assert(!proposal_txns_contain(
                        dag.entries@,
                        block.txns@[i as int].0@,
                        block.txns@[i as int].1@[j as int]@,
                    ));
                }
                return false;
            }
            j = j + 1;
        }
        i = i + 1;
    }
    true
}

} // verus!
