//! The block DAG as the consensus core reads it: blocks keyed by their
//! hash, each hash appearing once.

use vstd::prelude::*;

use crate::block::{Block, ProposalBlock};

verus! {

/// A lookup view of the block DAG: blocks keyed by hash.
#[derive(Debug)]
pub struct BlockDag {
    pub entries: Vec<(String, Block)>,
}

/// Whether each hash keys at most one block.
pub open spec fn dag_wf(entries: Seq<(String, Block)>) -> bool {
    forall|i: int, j: int|
        0 <= i < j < entries.len() ==> (#[trigger] entries[i]).0@ != (#[trigger] entries[j]).0@
}

/// Whether the DAG holds a proposal block under the given hash.
pub open spec fn dag_has_proposal(entries: Seq<(String, Block)>, h: Seq<char>) -> bool {
    exists|i: int|
        0 <= i < entries.len() && (#[trigger] entries[i]).0@ == h && entries[i].1 is Proposal
}

/// Whether the proposal stored under `rh` lists `ch` among its claims.
pub open spec fn proposal_claims_contain(
    entries: Seq<(String, Block)>,
    rh: Seq<char>,
    ch: Seq<char>,
) -> bool {
    exists|i: int|
        0 <= i < entries.len() && (#[trigger] entries[i]).0@ == rh && entries[i].1 is Proposal
            && exists|j: int|
            0 <= j < entries[i].1->Proposal_0.claims@.len() && (
            #[trigger] entries[i].1->Proposal_0.claims@[j]).0@ == ch
}

/// Whether the proposal stored under `rh` lists `ch` among its
/// transactions.
pub open spec fn proposal_txns_contain(
    entries: Seq<(String, Block)>,
    rh: Seq<char>,
    ch: Seq<char>,
) -> bool {
    exists|i: int|
        0 <= i < entries.len() && (#[trigger] entries[i]).0@ == rh && entries[i].1 is Proposal
            && exists|j: int|
            0 <= j < entries[i].1->Proposal_0.txns@.len() && (#[trigger] entries[i].1->Proposal_0.txns@[j]).0@
                == ch
}

impl BlockDag {
    /// An empty DAG.
    pub fn new() -> (r: BlockDag)
        ensures
            r.entries@.len() == 0,
            dag_wf(r.entries@),
    {
        BlockDag { entries: Vec::new() }
    }

    /// Appends a block under its hash; refused when the hash is taken.
    pub fn insert(&mut self, hash: String, block: Block) -> (r: bool)
        requires
            dag_wf(old(self).entries@),
        ensures
            dag_wf(final(self).entries@),
            r ==> final(self).entries@ == old(self).entries@.push((hash, block)),
            !r ==> final(self).entries@ == old(self).entries@,
            r <==> !(exists|i: int|
                0 <= i < old(self).entries@.len() && (#[trigger] old(self).entries@[i]).0@
                    == hash@),
    {
        let n = self.entries.len();
        let mut i: usize = 0;
        while i < n
            invariant
                dag_wf(self.entries@),
                n == self.entries@.len(),
                i <= n,
                forall|j: int| 0 <= j < i ==> (#[trigger] self.entries@[j]).0@ != hash@,
            decreases n - i,
        {
            if self.entries[i].0 == hash {
                return false;
            }
            i = i + 1;
        }
        self.entries.push((hash, block));
        proof {
            assert(dag_wf(self.entries@));
        }
        true
    }

    /// Looks a block up by its hash.
    pub fn get_vertex(&self, hash: &String) -> (r: Option<&Block>)
        requires
            dag_wf(self.entries@),
        ensures
            r is Some <==> exists|i: int|
                0 <= i < self.entries@.len() && (#[trigger] self.entries@[i]).0@ == hash@,
            r matches Some(b) ==> exists|i: int|
                0 <= i < self.entries@.len() && (#[trigger] self.entries@[i]).0@ == hash@
                    && self.entries@[i].1 == *b,
    {
        let n = self.entries.len();
        let mut i: usize = 0;
        while i < n
            invariant
                n == self.entries@.len(),
                i <= n,
                forall|j: int| 0 <= j < i ==> (#[trigger] self.entries@[j]).0@ != hash@,
            decreases n - i,
        {
            if self.entries[i].0 == *hash {
                return Some(&self.entries[i].1);
            }
            i = i + 1;
        }
        None
    }
}

} // verus!
