//! Miner election: claims are scored by their 256-bit election result,
//! ordered bytewise with ties broken by claim hash, and the lowest-pointer
//! tournament picks the miner entitled to the next block.

use vstd::prelude::*;

use crate::claim::{election_result_spec, pointer_spec, Claim};
use crate::codec::{ascii_bytes, ascii_chars, ascii_str_to_bytes};

verus! {

/// Strict bytewise lexicographic order on byte sequences.
pub open spec fn lex_lt(a: Seq<u8>, b: Seq<u8>) -> bool
    decreases a.len(),
{
    if b.len() == 0 {
        false
    } else if a.len() == 0 {
        true
    } else if a[0] < b[0] {
        true
    } else if a[0] > b[0] {
        false
    } else {
        lex_lt(a.drop_first(), b.drop_first())
    }
}

/// Decides the strict lexicographic order on two byte vectors.
pub fn lex_lt_bytes(a: &Vec<u8>, b: &Vec<u8>) -> (r: bool)
    ensures
        r == lex_lt(a@, b@),
{
    let alen = a.len();
    let blen = b.len();
    let mut i: usize = 0;
    proof {
        assert(a@.skip(0) =~= a@);
        assert(b@.skip(0) =~= b@);
    }
    loop
        invariant
            alen == a@.len(),
            blen == b@.len(),
            i <= alen,
            i <= blen,
            lex_lt(a@, b@) == lex_lt(a@.skip(i as int), b@.skip(i as int)),
        decreases alen - i,
    {
        if i == blen {
            proof {
                assert(b@.skip(i as int).len() == 0);
            }
            return false;
        }
        if i == alen {
            proof {
                assert(a@.skip(i as int).len() == 0);
                assert(b@.skip(i as int).len() > 0);
            }
            return true;
        }
        let av = a[i];
        let bv = b[i];
        proof {
            assert(a@.skip(i as int)[0] == a@[i as int]);
            assert(b@.skip(i as int)[0] == b@[i as int]);
        }
        if av < bv {
            return true;
        }
        if av > bv {
            return false;
        }
        proof {
            assert(a@.skip(i as int).drop_first() =~= a@.skip(i as int + 1));
            assert(b@.skip(i as int).drop_first() =~= b@.skip(i as int + 1));
        }
        i = i + 1;
    }
}

/// The lexicographic order is irreflexive.
pub proof fn lemma_lex_lt_irreflexive(a: Seq<u8>)
    ensures
        !lex_lt(a, a),
    decreases a.len(),
{
    if a.len() > 0 {
        lemma_lex_lt_irreflexive(a.drop_first());
    }
}

/// The lexicographic order is asymmetric.
pub proof fn lemma_lex_lt_asymmetric(a: Seq<u8>, b: Seq<u8>)
    ensures
        !(lex_lt(a, b) && lex_lt(b, a)),
    decreases a.len() + b.len(),
{
    if a.len() > 0 && b.len() > 0 && a[0] == b[0] {
        lemma_lex_lt_asymmetric(a.drop_first(), b.drop_first());
    }
}

/// Two byte sequences compare one way or the other, or are equal.
pub proof fn lemma_lex_lt_total(a: Seq<u8>, b: Seq<u8>)
    ensures
        lex_lt(a, b) || lex_lt(b, a) || a == b,
    decreases a.len() + b.len(),
{
    if a.len() > 0 && b.len() > 0 && a[0] == b[0] {
        lemma_lex_lt_total(a.drop_first(), b.drop_first());
        if !lex_lt(a, b) && !lex_lt(b, a) {
            assert(a.drop_first() == b.drop_first());
            assert(a.len() == b.len());
            assert forall|i: int| 0 <= i < a.len() implies a[i] == b[i] by {
                if i > 0 {
                    assert(a.drop_first()[i - 1] == b.drop_first()[i - 1]);
                }
            }
            assert(a =~= b);
        }
    } else if a.len() == 0 && b.len() == 0 {
        assert(a =~= b);
    }
}

/// The lexicographic order is transitive.
pub proof fn lemma_lex_lt_transitive(a: Seq<u8>, b: Seq<u8>, c: Seq<u8>)
    requires
        lex_lt(a, b),
        lex_lt(b, c),
    ensures
        lex_lt(a, c),
    decreases a.len() + b.len() + c.len(),
{
    if a.len() > 0 && b.len() > 0 && c.len() > 0 && a[0] == b[0] && b[0] == c[0] {
        lemma_lex_lt_transitive(a.drop_first(), b.drop_first(), c.drop_first());
    }
}

/// The ordering key of a claim for a given seed: its 32-byte election
/// score followed by the bytes of its hash, so that equal scores fall
/// back to byte-lexicographic order of the claim hash.
pub open spec fn claim_key(c: Claim, seed: u64) -> Seq<u8> {
    election_result_spec(c, seed) + ascii_bytes(c.hash@)
}

/// Builds the ordering key of a claim as bytes.
pub fn claim_key_bytes(c: &Claim, seed: u64) -> (r: Vec<u8>)
    requires
        ascii_chars(c.hash@),
    ensures
        r@ == claim_key(*c, seed),
{
    let mut key = c.get_election_result(seed);
    let mut hash_bytes = ascii_str_to_bytes(c.hash.as_str());
    key.append(&mut hash_bytes);
    proof {
        assert(key@ =~= claim_key(*c, seed));
    }
    key
}

/// Whether `a` orders strictly before `b` for the given seed.
pub fn claim_lt(a: &Claim, b: &Claim, seed: u64) -> (r: bool)
    requires
        ascii_chars(a.hash@),
        ascii_chars(b.hash@),
    ensures
        r == lex_lt(claim_key(*a, seed), claim_key(*b, seed)),
{
    let ka = claim_key_bytes(a, seed);
    let kb = claim_key_bytes(b, seed);
    lex_lt_bytes(&ka, &kb)
}

/// The index of the first claim with the lowest key, scanning from `j`
/// with `best` the first-lowest index seen so far.
pub open spec fn first_min_from(s: Seq<Claim>, seed: u64, j: int, best: int) -> int
    decreases s.len() - j,
{
    if j < 0 || j >= s.len() {
        best
    } else if lex_lt(claim_key(s[j], seed), claim_key(s[best], seed)) {
        first_min_from(s, seed, j + 1, j)
    } else {
        first_min_from(s, seed, j + 1, best)
    }
}

/// The index of the first claim with the lowest key in a non-empty
/// sequence.
pub open spec fn first_min_index(s: Seq<Claim>, seed: u64) -> int {
    first_min_from(s, seed, 1, 0)
}

/// The first-lowest index is always in range.
pub proof fn lemma_first_min_from_in_range(s: Seq<Claim>, seed: u64, j: int, best: int)
    requires
        0 <= best < s.len(),
    ensures
        0 <= first_min_from(s, seed, j, best) < s.len(),
    decreases s.len() - j,
{
    if 0 <= j < s.len() {
        if lex_lt(claim_key(s[j], seed), claim_key(s[best], seed)) {
            lemma_first_min_from_in_range(s, seed, j + 1, j);
        } else {
            lemma_first_min_from_in_range(s, seed, j + 1, best);
        }
    }
}

/// The first-lowest scan returns an index whose key is lowest overall,
/// given that no index before `j` beats the running best.
proof fn lemma_first_min_from_minimal(s: Seq<Claim>, seed: u64, j: int, best: int)
    requires
        0 <= best < s.len(),
        0 <= j,
        forall|q: int|
            0 <= q < j ==> !lex_lt(claim_key(#[trigger] s[q], seed), claim_key(s[best], seed)),
    ensures
        forall|q: int|
            0 <= q < s.len() ==> !lex_lt(
                claim_key(#[trigger] s[q], seed),
                claim_key(s[first_min_from(s, seed, j, best)], seed),
            ),
    decreases s.len() - j,
{
    if j >= s.len() {
        assert forall|q: int| 0 <= q < s.len() implies !lex_lt(
            claim_key(#[trigger] s[q], seed),
            claim_key(s[first_min_from(s, seed, j, best)], seed),
        ) by {
            assert(!lex_lt(claim_key(s[q], seed), claim_key(s[best], seed)));
        }
    } else if lex_lt(claim_key(s[j], seed), claim_key(s[best], seed)) {
        assert forall|q: int|
            0 <= q < j + 1 implies !lex_lt(claim_key(#[trigger] s[q], seed), claim_key(
            s[j],
            seed,
        )) by {
            if q < j {
                if lex_lt(claim_key(s[q], seed), claim_key(s[j], seed)) {
                    lemma_lex_lt_transitive(
                        claim_key(s[q], seed),
                        claim_key(s[j], seed),
                        claim_key(s[best], seed),
                    );
                }
            } else {
                lemma_lex_lt_irreflexive(claim_key(s[j], seed));
            }
        }
        lemma_first_min_from_minimal(s, seed, j + 1, j);
    } else {
        assert forall|q: int|
            0 <= q < j + 1 implies !lex_lt(claim_key(#[trigger] s[q], seed), claim_key(
            s[best],
            seed,
        )) by {}
        lemma_first_min_from_minimal(s, seed, j + 1, best);
    }
}

/// The first claim in election order carries a lowest key.
pub proof fn lemma_first_min_minimal(s: Seq<Claim>, seed: u64)
    requires
        s.len() > 0,
    ensures
        forall|q: int|
            0 <= q < s.len() ==> !lex_lt(
                claim_key(#[trigger] s[q], seed),
                claim_key(s[first_min_index(s, seed)], seed),
            ),
{
    lemma_lex_lt_irreflexive(claim_key(s[0], seed));
    lemma_first_min_from_minimal(s, seed, 1, 0);
}

/// The claims ordered by key, lowest first: the first claim with the
/// lowest key is selected, removed, and the rest ordered in turn.
pub open spec fn sorted_claims(s: Seq<Claim>, seed: u64) -> Seq<Claim>
    decreases s.len(),
{
    if s.len() == 0 {
        s
    } else {
        let i0 = first_min_index(s, seed);
        let i = if 0 <= i0 < s.len() {
            i0
        } else {
            0
        };
        seq![s[i]] + sorted_claims(s.remove(i), seed)
    }
}

/// Ordering the claims keeps their number.
pub proof fn lemma_sorted_claims_len(s: Seq<Claim>, seed: u64)
    ensures
        sorted_claims(s, seed).len() == s.len(),
    decreases s.len(),
{
    if s.len() > 0 {
        let i0 = first_min_index(s, seed);
        let i = if 0 <= i0 < s.len() {
            i0
        } else {
            0
        };
        lemma_sorted_claims_len(s.remove(i), seed);
    }
}

/// The ordered claims really are in order: no later claim's key compares
/// strictly below an earlier claim's key.
pub proof fn lemma_sorted_claims_sorted(s: Seq<Claim>, seed: u64)
    ensures
        forall|i: int, j: int|
            0 <= i < j < sorted_claims(s, seed).len() ==> !lex_lt(
                claim_key(#[trigger] sorted_claims(s, seed)[j], seed),
                claim_key(#[trigger] sorted_claims(s, seed)[i], seed),
            ),
    decreases s.len(),
{
    if s.len() > 0 {
        let i0 = first_min_index(s, seed);
        let i = if 0 <= i0 < s.len() {
            i0
        } else {
            0
        };
        lemma_first_min_from_in_range(s, seed, 1, 0);
        let rest = s.remove(i);
        lemma_sorted_claims_sorted(rest, seed);
        lemma_sorted_claims_elements(rest, seed);
        lemma_sorted_claims_len(rest, seed);
        lemma_first_min_minimal(s, seed);
        let out = sorted_claims(s, seed);
        assert forall|p: int, q: int|
            0 <= p < q < out.len() implies !lex_lt(
            claim_key(#[trigger] out[q], seed),
            claim_key(#[trigger] out[p], seed),
        ) by {
            if p == 0 {
                let x = out[q];
                assert(x == sorted_claims(rest, seed)[q - 1]);
                assert(rest.contains(x));
                let w = choose|w: int| 0 <= w < rest.len() && rest[w] == x;
                if w < i {
                    assert(s[w] == x);
                    assert(!lex_lt(claim_key(s[w], seed), claim_key(s[i], seed)));
                } else {
                    assert(s[w + 1] == x);
                    assert(!lex_lt(claim_key(s[w + 1], seed), claim_key(s[i], seed)));
                }
                assert(out[0] == s[i]);
            } else {
                assert(out[p] == sorted_claims(rest, seed)[p - 1]);
                assert(out[q] == sorted_claims(rest, seed)[q - 1]);
            }
        }
    }
}

/// The election winner carries a lowest key among all claims: no claim
/// compares strictly below the first claim in election order.
pub proof fn lemma_winner_minimal(s: Seq<Claim>, seed: u64)
    requires
        s.len() > 0,
    ensures
        forall|q: int|
            0 <= q < s.len() ==> !lex_lt(
                claim_key(#[trigger] s[q], seed),
                claim_key(sorted_claims(s, seed)[0], seed),
            ),
{
    lemma_first_min_from_in_range(s, seed, 1, 0);
    lemma_first_min_minimal(s, seed);
    assert(sorted_claims(s, seed)[0] == s[first_min_index(s, seed)]);
}

/// Every ordered claim is one of the input claims.
pub proof fn lemma_sorted_claims_elements(s: Seq<Claim>, seed: u64)
    ensures
        forall|i: int|
            0 <= i < sorted_claims(s, seed).len() ==> s.contains(
                #[trigger] sorted_claims(s, seed)[i],
            ),
    decreases s.len(),
{
    if s.len() > 0 {
        let i0 = first_min_index(s, seed);
        let i = if 0 <= i0 < s.len() {
            i0
        } else {
            0
        };
        let rest = s.remove(i);
        lemma_sorted_claims_elements(rest, seed);
        assert forall|k: int|
            0 <= k < sorted_claims(s, seed).len() implies s.contains(
            #[trigger] sorted_claims(s, seed)[k],
        ) by {
            if k == 0 {
                assert(sorted_claims(s, seed)[0] == s[i]);
            } else {
                let x = sorted_claims(s, seed)[k];
                assert(x == sorted_claims(rest, seed)[k - 1]);
                assert(rest.contains(x));
                let j = choose|j: int| 0 <= j < rest.len() && rest[j] == x;
                if j < i {
                    assert(s[j] == x);
                } else {
                    assert(s[j + 1] == x);
                }
            }
        }
    }
}

/// Finds the index of the first claim with the lowest key.
fn find_first_min(s: &Vec<Claim>, seed: u64) -> (r: usize)
    requires
        s@.len() > 0,
        forall|i: int| 0 <= i < s@.len() ==> ascii_chars((#[trigger] s@[i]).hash@),
    ensures
        r as int == first_min_index(s@, seed),
        r < s@.len(),
{
    let n = s.len();
    let mut best: usize = 0;
    let mut j: usize = 1;
    while j < n
        invariant
            n == s@.len(),
            n > 0,
            1 <= j <= n,
            best < j,
            forall|i: int| 0 <= i < s@.len() ==> ascii_chars((#[trigger] s@[i]).hash@),
            first_min_from(s@, seed, 1, 0) == first_min_from(s@, seed, j as int, best as int),
        decreases n - j,
    {
        if claim_lt(&s[j], &s[best], seed) {
            best = j;
        }
        j = j + 1;
    }
    best
}

/// Orders the claims by election key, lowest first, deterministically:
/// ties on the full key keep their earlier position.
pub fn sort_claims(claims: Vec<Claim>, seed: u64) -> (r: Vec<Claim>)
    requires
        forall|i: int| 0 <= i < claims@.len() ==> ascii_chars((#[trigger] claims@[i]).hash@),
    ensures
        r@ == sorted_claims(claims@, seed),
{
    let ghost orig = claims@;
    let mut remaining = claims;
    let mut out: Vec<Claim> = Vec::new();
    while remaining.len() > 0
        invariant
            forall|i: int|
                0 <= i < remaining@.len() ==> ascii_chars((#[trigger] remaining@[i]).hash@),
            sorted_claims(orig, seed) == out@ + sorted_claims(remaining@, seed),
        decreases remaining@.len(),
    {
        let i = find_first_min(&remaining, seed);
        let ghost pre = remaining@;
        let e = remaining.remove(i);
        proof {
            lemma_first_min_from_in_range(pre, seed, 1, 0);
            assert(sorted_claims(pre, seed) =~= seq![pre[i as int]] + sorted_claims(
                pre.remove(i as int),
                seed,
            ));
            assert(forall|k: int|
                0 <= k < remaining@.len() ==> ascii_chars((#[trigger] remaining@[k]).hash@));
        }
        out.push(e);
        proof {
            assert(out@ + sorted_claims(remaining@, seed) =~= sorted_claims(orig, seed));
        }
    }
    proof {
        assert(sorted_claims(remaining@, seed) =~= Seq::<Claim>::empty());
        assert(out@ =~= sorted_claims(orig, seed));
    }
    out
}

/// Scores every claim and returns them ordered by election result,
/// lowest first, ties broken by byte order of the claim hash.
pub fn elect_miner(claims: &Vec<Claim>, block_seed: u64) -> (r: Vec<Claim>)
    requires
        forall|i: int| 0 <= i < claims@.len() ==> ascii_chars((#[trigger] claims@[i]).hash@),
    ensures
        r@ == sorted_claims(claims@, block_seed),
{
    let mut copy: Vec<Claim> = Vec::new();
    let n = claims.len();
    let mut i: usize = 0;
    while i < n
        invariant
            n == claims@.len(),
            i <= n,
            copy@ == claims@.subrange(0, i as int),
            forall|k: int| 0 <= k < claims@.len() ==> ascii_chars((#[trigger] claims@[k]).hash@),
        decreases n - i,
    {
        let c = claims[i].clone();
        proof {
            assert(claims@.subrange(0, i as int + 1) =~= claims@.subrange(0, i as int).push(
                claims@[i as int],
            ));
        }
        copy.push(c);
        i = i + 1;
    }
    proof {
        assert(claims@.subrange(0, n as int) =~= claims@);
    }
    sort_claims(copy, block_seed)
}

/// The winner of the miner election: the first claim in election order,
/// together with its 256-bit election score.
pub fn get_winner(election_results: &Vec<Claim>, block_seed: u64) -> (r: Option<(Vec<u8>, Claim)>)
    requires
        forall|i: int|
            0 <= i < election_results@.len() ==> ascii_chars(
                (#[trigger] election_results@[i]).hash@,
            ),
    ensures
        election_results@.len() == 0 <==> r is None,
        r matches Some(w) ==> {
            &&& w.1 == election_results@[0]
            &&& w.0@ == election_result_spec(election_results@[0], block_seed)
        },
{
    if election_results.len() == 0 {
        return None;
    }
    let c = election_results[0].clone();
    let score = c.get_election_result(block_seed);
    Some((score, c))
}

/// The first claim carrying the lowest pointer value, scanning from `j`
/// with `best` the best `(index, value)` pair seen so far.
pub open spec fn lowest_pointer_from(
    s: Seq<Claim>,
    seed: u128,
    j: int,
    best: Option<(int, u128)>,
) -> Option<(int, u128)>
    decreases s.len() - j,
{
    if j < 0 || j >= s.len() {
        best
    } else {
        match pointer_spec(s[j], seed) {
            None => lowest_pointer_from(s, seed, j + 1, best),
            Some(v) => match best {
                None => lowest_pointer_from(s, seed, j + 1, Some((j, v))),
                Some(b) => if v < b.1 {
                    lowest_pointer_from(s, seed, j + 1, Some((j, v)))
                } else {
                    lowest_pointer_from(s, seed, j + 1, best)
                },
            },
        }
    }
}

/// The hash and pointer value of the first claim achieving the lowest
/// pointer sum for the seed, if any claim has a pointer at all.
pub open spec fn lowest_pointer_spec(s: Seq<Claim>, seed: u128) -> Option<(Seq<char>, u128)> {
    match lowest_pointer_from(s, seed, 0, None) {
        None => None,
        Some(b) => if 0 <= b.0 < s.len() {
            Some((s[b.0].hash@, b.1))
        } else {
            None
        },
    }
}

/// Scans the claims for the one with the lowest pointer sum; the first
/// claim wins ties. `None` when no claim has a pointer for this seed.
pub fn get_lowest_pointer(claims: &Vec<Claim>, block_seed: u128) -> (r: Option<(String, u128)>)
    ensures
        match r {
            None => lowest_pointer_spec(claims@, block_seed) is None,
            Some(p) => lowest_pointer_spec(claims@, block_seed) == Some((p.0@, p.1)),
        },
{
    let n = claims.len();
    let mut j: usize = 0;
    let mut best_idx: usize = 0;
    let mut best_val: u128 = 0;
    let mut found = false;
    while j < n
        invariant
            n == claims@.len(),
            j <= n,
            found ==> best_idx < j,
            lowest_pointer_from(claims@, block_seed, 0, None::<(int, u128)>) == lowest_pointer_from(
                claims@,
                block_seed,
                j as int,
                if found {
                    Some((best_idx as int, best_val))
                } else {
                    None
                },
            ),
        decreases n - j,
    {
        match claims[j].get_pointer(block_seed) {
            None => {},
            Some(v) => {
                if !found {
                    found = true;
                    best_idx = j;
                    best_val = v;
                } else if v < best_val {
                    best_idx = j;
                    best_val = v;
                }
            },
        }
        j = j + 1;
    }
    if !found {
        return None;
    }
    let hash = claims[best_idx].hash.clone();
    Some((hash, best_val))
}

} // verus!
