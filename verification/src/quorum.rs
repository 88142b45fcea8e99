//! Quorum formation: filtering eligible claims, sanity-checking the
//! spread of election results, and electing the majority with the lowest
//! election scores as quorum members.

use vstd::prelude::*;

use crate::claim::{election_result_spec, Claim, Eligibility};
use crate::codec::{ascii_chars, bytes_eq};
use crate::election::{sort_claims, sorted_claims};

verus! {

/// Why quorum formation failed.
#[derive(Debug, PartialEq, Eq)]
pub enum QuorumError {
    InvalidSeedError,
    InvalidPointerSumError(Vec<Claim>),
    InvalidChildBlockError,
    InsufficientNodesError,
    NoSeedError,
    ClaimError,
}

/// A quorum formed by an election: the seed it was run under, the member
/// public keys, the combined quorum public key once a key generation
/// round finishes, and the height of the election block.
#[derive(Debug, PartialEq, Eq, Hash)]
pub struct Quorum {
    pub quorum_seed: u64,
    pub master_pubkeys: Vec<String>,
    pub quorum_pk: String,
    pub election_block_height: u128,
}

/// Whether a claim may sit in a quorum: harvesters and farmers qualify.
pub open spec fn is_quorum_eligible(c: Claim) -> bool {
    c.eligibility == Eligibility::Harvester || c.eligibility == Eligibility::Farmer
}

/// The quorum-eligible claims of a ballot, in ballot order.
pub open spec fn eligible_filter(s: Seq<Claim>) -> Seq<Claim> {
    s.filter(|c: Claim| is_quorum_eligible(c))
}

/// The least number of members a quorum may have.
pub open spec fn min_quorum_size() -> int {
    20
}

/// The ceiling of `n * num / 100`.
pub open spec fn ceil_percent_spec(n: int, num: int) -> int {
    (n * num + 99) / 100
}

/// Whether claim `i`'s election score already appears earlier in `s`.
pub open spec fn score_seen_before(s: Seq<Claim>, seed: u64, i: int) -> bool {
    exists|j: int|
        0 <= j < i && election_result_spec(s[j], seed) == election_result_spec(s[i], seed)
}

/// How many distinct election scores the first `i` claims of `s` carry.
pub open spec fn distinct_scores_upto(s: Seq<Claim>, seed: u64, i: int) -> int
    decreases i,
{
    if i <= 0 {
        0
    } else {
        distinct_scores_upto(s, seed, i - 1) + if score_seen_before(s, seed, i - 1) {
            0int
        } else {
            1int
        }
    }
}

/// How many distinct election scores the claims of `s` carry.
pub open spec fn distinct_scores(s: Seq<Claim>, seed: u64) -> int {
    distinct_scores_upto(s, seed, s.len() as int)
}

/// The member public keys a quorum election yields for given claims and
/// seed: the claims ordered by election score, the lowest 51 percent
/// taken, and their public keys listed in that order.
pub open spec fn quorum_pubkeys_spec(claims: Seq<Claim>, seed: u64) -> Seq<String> {
    sorted_claims(claims, seed).take(ceil_percent_spec(claims.len() as int, 51)).map(
        |_i: int, c: Claim| c.public_key,
    )
}

/// Forming a quorum is deterministic: the member public keys are a
/// function of the claims and the seed alone, so two hosts that agree on
/// both compute identical member lists.
pub proof fn lemma_quorum_determinism(
    claims: Seq<Claim>,
    seed: u64,
    m1: Seq<String>,
    m2: Seq<String>,
)
    requires
        m1 == quorum_pubkeys_spec(claims, seed),
        m2 == quorum_pubkeys_spec(claims, seed),
    ensures
        m1 == m2,
{
}

/// Computes the ceiling of `n * pct / 100` without overflow.
pub fn ceil_percent(n: usize, pct: u64) -> (r: usize)
    requires
        1 <= pct <= 100,
    ensures
        r as int == ceil_percent_spec(n as int, pct as int),
        r <= n,
{
    proof {
        assert((n as u128) * (pct as u128) <= (n as u128) * 100) by (nonlinear_arith)
            requires
                pct <= 100,
        ;
        assert((n as u128) * 100 <= 0xffffffffffffffff * 100) by (nonlinear_arith)
            requires
                n as u128 <= 0xffffffffffffffff,
        ;
        assert(((n as u128) * 100 + 99) / 100 == n as u128);
    }
    let wide = (n as u128) * (pct as u128) + 99;
    let out = wide / 100;
    out as usize
}

impl Quorum {
    /// Makes a new quorum for an election at the given child block
    /// height; a zero height is not a valid child block.
    pub fn new(seed: u64, height: u128) -> (r: Result<Quorum, QuorumError>)
        ensures
            r is Err <==> height == 0,
            r is Err ==> r == Err::<Quorum, QuorumError>(QuorumError::InvalidChildBlockError),
            r matches Ok(q) ==> {
                &&& q.quorum_seed == seed
                &&& q.master_pubkeys@ == Seq::<String>::empty()
                &&& q.quorum_pk@ == Seq::<char>::empty()
                &&& q.election_block_height == height
            },
    {
        if !Quorum::check_validity(height) {
            Err(QuorumError::InvalidChildBlockError)
        } else {
            Ok(
                Quorum {
                    quorum_seed: seed,
                    master_pubkeys: Vec::new(),
                    quorum_pk: String::new(),
                    election_block_height: height,
                },
            )
        }
    }

    /// Whether a child block height is valid for seed and quorum
    /// creation: only height zero is rejected.
    pub fn check_validity(height: u128) -> (r: bool)
        ensures
            r == (height > 0),
    {
        height > 0
    }

    /// Keeps the claims of quorum-eligible nodes, harvesters and farmers
    /// alike, and insists on at least twenty of them.
    pub fn get_eligible_claims(claims: Vec<Claim>) -> (r: Result<Vec<Claim>, QuorumError>)
        ensures
            r is Err <==> eligible_filter(claims@).len() < min_quorum_size(),
            r is Err ==> r == Err::<Vec<Claim>, QuorumError>(QuorumError::InsufficientNodesError),
            r matches Ok(v) ==> v@ == eligible_filter(claims@),
            r matches Ok(v) ==> forall|i: int|
                0 <= i < v@.len() ==> claims@.contains(#[trigger] v@[i]),
    {
        let n = claims.len();
        let mut eligible: Vec<Claim> = Vec::new();
        let mut i: usize = 0;
        proof {
            assert(claims@.subrange(0, 0).filter(|c: Claim| is_quorum_eligible(c))
                =~= Seq::<Claim>::empty());
        }
        while i < n
            invariant
                n == claims@.len(),
                i <= n,
                eligible@ == claims@.subrange(0, i as int).filter(
                    |c: Claim| is_quorum_eligible(c),
                ),
                forall|m: int| 0 <= m < eligible@.len() ==> claims@.contains(#[trigger] eligible@[m]),
            decreases n - i,
        {
            let c = &claims[i];
            let keep = match c.eligibility {
                Eligibility::Harvester => true,
                Eligibility::Farmer => true,
                _ => false,
            };
            proof {
                let pred = |c: Claim| is_quorum_eligible(c);
                let pre = claims@.subrange(0, i as int);
                pre.lemma_filter_push(claims@[i as int], pred);
                assert(claims@.subrange(0, i as int + 1) =~= pre.push(claims@[i as int]));
            }
            if keep {
                let cc = c.clone();
                eligible.push(cc);
                proof {
                    assert(claims@[i as int] == eligible@[eligible@.len() - 1]);
                }
            }
            i = i + 1;
        }
        proof {
            assert(claims@.subrange(0, n as int) =~= claims@);
        }
        if eligible.len() < 20 {
            return Err(QuorumError::InsufficientNodesError);
        }
        Ok(eligible)
    }

    /// Elects the final quorum from eligible claims: orders them by
    /// election score, checks that the scores are spread over at least
    /// 65 percent distinct values, and installs the public keys of the
    /// lowest 51 percent as members.
    pub fn get_final_quorum(&mut self, claims: Vec<Claim>) -> (r: Result<(), QuorumError>)
        requires
            forall|i: int| 0 <= i < claims@.len() ==> ascii_chars((#[trigger] claims@[i]).hash@),
        ensures
            r is Err <==> (old(self).quorum_seed == 0 || distinct_scores(
                claims@,
                old(self).quorum_seed,
            ) < ceil_percent_spec(claims@.len() as int, 65)),
            old(self).quorum_seed == 0 ==> r == Err::<(), QuorumError>(QuorumError::NoSeedError),
            (old(self).quorum_seed != 0 && distinct_scores(claims@, old(self).quorum_seed)
                < ceil_percent_spec(claims@.len() as int, 65)) ==> (r matches Err(e) && e matches
                QuorumError::InvalidPointerSumError(v) && v@ == claims@),
            r is Err ==> *final(self) == *old(self),
            r is Ok ==> {
                &&& final(self).master_pubkeys@ == quorum_pubkeys_spec(
                    claims@,
                    old(self).quorum_seed,
                )
                &&& final(self).quorum_seed == old(self).quorum_seed
                &&& final(self).quorum_pk == old(self).quorum_pk
                &&& final(self).election_block_height == old(self).election_block_height
            },
    {
        if self.quorum_seed == 0 {
            return Err(QuorumError::NoSeedError);
        }
        let seed = self.quorum_seed;
        let n = claims.len();
        let threshold = ceil_percent(n, 65);
        let distinct = count_distinct_scores(&claims, seed);
        if distinct < threshold {
            return Err(QuorumError::InvalidPointerSumError(claims));
        }
        let num_members = ceil_percent(n, 51);
        let ghost claims_view = claims@;
        let ordered = sort_claims(claims, seed);
        proof {
            crate::election::lemma_sorted_claims_len(claims_view, seed);
        }
        let mut pubkeys: Vec<String> = Vec::new();
        let mut i: usize = 0;
        while i < num_members
            invariant
                num_members <= ordered@.len(),
                i <= num_members,
                ordered@ == sorted_claims(claims_view, seed),
                pubkeys@ == ordered@.take(i as int).map(|_i: int, c: Claim| c.public_key),
            decreases num_members - i,
        {
            let pk = ordered[i].public_key.clone();
            proof {
                assert(ordered@.take(i as int + 1) =~= ordered@.take(i as int).push(
                    ordered@[i as int],
                ));
                assert(ordered@.take(i as int + 1).map(|_i: int, c: Claim| c.public_key)
                    =~= ordered@.take(i as int).map(|_i: int, c: Claim| c.public_key).push(
                    ordered@[i as int].public_key,
                ));
            }
            pubkeys.push(pk);
            i = i + 1;
        }
        self.master_pubkeys = pubkeys;
        Ok(())
    }

    /// Runs a full quorum election over a ballot of claims: rejects a
    /// zero election height, filters the ballot to eligible claims, and
    /// forms the final quorum from them.
    pub fn run_election(&mut self, ballot: Vec<Claim>) -> (r: Result<(), QuorumError>)
        requires
            forall|i: int| 0 <= i < ballot@.len() ==> ascii_chars((#[trigger] ballot@[i]).hash@),
        ensures
            old(self).election_block_height == 0 ==> r == Err::<(), QuorumError>(
                QuorumError::InvalidChildBlockError,
            ),
            (old(self).election_block_height != 0 && eligible_filter(ballot@).len()
                < min_quorum_size()) ==> r == Err::<(), QuorumError>(
                QuorumError::InsufficientNodesError,
            ),
            (old(self).election_block_height != 0 && eligible_filter(ballot@).len()
                >= min_quorum_size() && old(self).quorum_seed == 0) ==> r == Err::<
                (),
                QuorumError,
            >(QuorumError::NoSeedError),
            (old(self).election_block_height != 0 && eligible_filter(ballot@).len()
                >= min_quorum_size() && old(self).quorum_seed != 0 && distinct_scores(
                eligible_filter(ballot@),
                old(self).quorum_seed,
            ) < ceil_percent_spec(eligible_filter(ballot@).len() as int, 65)) ==> (r matches Err(e)
                && e matches QuorumError::InvalidPointerSumError(v) && v@ == eligible_filter(
                ballot@,
            )),
            r is Ok <==> (old(self).election_block_height != 0 && eligible_filter(ballot@).len()
                >= min_quorum_size() && old(self).quorum_seed != 0 && distinct_scores(
                eligible_filter(ballot@),
                old(self).quorum_seed,
            ) >= ceil_percent_spec(eligible_filter(ballot@).len() as int, 65)),
            r is Ok ==> {
                &&& final(self).master_pubkeys@ == quorum_pubkeys_spec(
                    eligible_filter(ballot@),
                    old(self).quorum_seed,
                )
                &&& final(self).quorum_seed == old(self).quorum_seed
                &&& final(self).election_block_height == old(self).election_block_height
            },
    {
        if self.election_block_height == 0 {
            return Err(QuorumError::InvalidChildBlockError);
        }
        let ghost bv = ballot@;
        let eligible = match Quorum::get_eligible_claims(ballot) {
            Ok(v) => v,
            Err(e) => {
                return Err(e);
            },
        };
        proof {
            assert forall|i: int| 0 <= i < eligible@.len() implies ascii_chars(
                (#[trigger] eligible@[i]).hash@,
            ) by {
                assert(bv.contains(eligible@[i]));
                let k = choose|k: int| 0 <= k < bv.len() && bv[k] == eligible@[i];
                assert(ascii_chars(bv[k].hash@));
            }
        }
        match self.get_final_quorum(eligible) {
            Ok(()) => Ok(()),
            Err(QuorumError::NoSeedError) => Err(QuorumError::NoSeedError),
            Err(e) => Err(e),
        }
    }
}

/// The first acceptable seed among the candidate draws: the first value
/// strictly above the 32-bit range, so that election scores spread over
/// the full 64-bit space.
pub open spec fn first_strong_seed(draws: Seq<u64>, j: int) -> Option<u64>
    decreases draws.len() - j,
{
    if j < 0 || j >= draws.len() {
        None
    } else if draws[j] > 0xffffffff {
        Some(draws[j])
    } else {
        first_strong_seed(draws, j + 1)
    }
}

impl Quorum {
    /// Selects the election seed from a list of candidate draws taken
    /// from a verifiable random source: draws at or below the 32-bit
    /// range are re-rolled past, and the first strong draw is the seed.
    /// A zero child block height is rejected, and a list with no strong
    /// draw yields an invalid-seed error.
    pub fn generate_seed(height: u128, draws: &Vec<u64>) -> (r: Result<u64, QuorumError>)
        ensures
            height == 0 <==> r == Err::<u64, QuorumError>(QuorumError::InvalidChildBlockError),
            (height != 0 && first_strong_seed(draws@, 0) is None) <==> r == Err::<u64, QuorumError>(
                QuorumError::InvalidSeedError,
            ),
            r matches Ok(s) ==> Some(s) == first_strong_seed(draws@, 0),
    {
        if !Quorum::check_validity(height) {
            return Err(QuorumError::InvalidChildBlockError);
        }
        let n = draws.len();
        let mut j: usize = 0;
        while j < n
            invariant
                height != 0,
                n == draws@.len(),
                j <= n,
                first_strong_seed(draws@, 0) == first_strong_seed(draws@, j as int),
            decreases n - j,
        {
            let d = draws[j];
            if d > 0xffffffff {
                return Ok(d);
            }
            j = j + 1;
        }
        Err(QuorumError::InvalidSeedError)
    }
}

/// Counts how many distinct election scores a list of claims carries.
fn count_distinct_scores(claims: &Vec<Claim>, seed: u64) -> (r: usize)
    requires
        forall|i: int| 0 <= i < claims@.len() ==> ascii_chars((#[trigger] claims@[i]).hash@),
    ensures
        r as int == distinct_scores(claims@, seed),
{
    let n = claims.len();
    let mut scores: Vec<Vec<u8>> = Vec::new();
    let mut i: usize = 0;
    while i < n
        invariant
            n == claims@.len(),
            i <= n,
            scores@.len() == i,
            forall|k: int|
                0 <= k < i ==> (#[trigger] scores@[k])@ == election_result_spec(claims@[k], seed),
            forall|k: int| 0 <= k < claims@.len() ==> ascii_chars((#[trigger] claims@[k]).hash@),
        decreases n - i,
    {
        let s = claims[i].get_election_result(seed);
        scores.push(s);
        i = i + 1;
    }
    let mut count: usize = 0;
    let mut k: usize = 0;
    while k < n
        invariant
            n == claims@.len(),
            scores@.len() == n,
            forall|m: int|
                0 <= m < n ==> (#[trigger] scores@[m])@ == election_result_spec(claims@[m], seed),
            k <= n,
            count <= k,
            count as int == distinct_scores_upto(claims@, seed, k as int),
        decreases n - k,
    {
        let mut seen = false;
        let mut j: usize = 0;
        while j < k
            invariant
                n == claims@.len(),
                scores@.len() == n,
                forall|m: int|
                    0 <= m < n ==> (#[trigger] scores@[m])@ == election_result_spec(
                        claims@[m],
                        seed,
                    ),
                j <= k < n,
                seen == exists|m: int|
                    0 <= m < j && election_result_spec(claims@[m], seed) == election_result_spec(
                        claims@[k as int],
                        seed,
                    ),
            decreases k - j,
        {
            if bytes_eq(&scores[j], &scores[k]) {
                seen = true;
            }
            j = j + 1;
        }
        if !seen {
            count = count + 1;
        }
        k = k + 1;
    }
    count
}

} // verus!
