//! Block headers: canonical field order, the header digest, the miner's
//! header signature, the genesis digests, and the Merkle root over
//! transaction and reference digests.

use vstd::prelude::*;

use crate::claim::{claim_fields_ascii, claim_payload_bytes, Claim};
use crate::codec::{
    ascii_bytes, ascii_chars, ascii_str_to_bytes, enc_str, push_str, push_u128_be, push_u64_be,
    u128_be, u64_be,
};
use crate::crypto::{
    ecdsa_verifies, ecdsa_verify, hex_decode, hex_of, hex_to_bytes, is_digest_chars,
    lemma_digest_chars_ascii, lemma_hex_of_to_bytes, sha256_digest, sha256_hex,
};

verus! {

/// A block header, with its fields in canonical order: parent hash, last
/// state root, height, the round's seed and the next round's seed, round,
/// epoch, timestamp in nanoseconds, the miner's claim, the digest of the
/// claim list, the digest of the transactions, this block's reward and
/// the next block's reward, the miner's signature over the header, and
/// the referenced proposal hashes of a convergence block.
#[derive(Debug, PartialEq, Eq, Hash)]
pub struct BlockHeader {
    pub last_hash: String,
    pub last_state_root: String,
    pub block_height: u128,
    pub block_seed: u64,
    pub next_block_seed: u64,
    pub round: u128,
    pub epoch: u128,
    pub timestamp: u128,
    pub miner_claim: Claim,
    pub claim_list_hash: String,
    pub txn_hash: String,
    pub block_reward: u128,
    pub next_block_reward: u128,
    pub miner_signature: String,
    pub ref_hashes: Vec<String>,
}

/// The canonical encoding of a claim inside a header: its payload, then
/// its hash and signature.
pub open spec fn claim_enc(c: Claim) -> Seq<u8> {
    claim_payload_bytes(c) + enc_str(c.hash@) + enc_str(c.signature@)
}

/// Whether every text field of a claim, its hash and signature included,
/// is ASCII.
pub open spec fn claim_text_ascii(c: Claim) -> bool {
    &&& claim_fields_ascii(c)
    &&& ascii_chars(c.hash@)
    &&& ascii_chars(c.signature@)
}

/// Appends the canonical encoding of a claim to `out`.
pub fn push_claim(out: &mut Vec<u8>, c: &Claim)
    requires
        claim_text_ascii(*c),
    ensures
        final(out)@ == old(out)@ + claim_enc(*c),
{
    let mut payload = c.payload_bytes();
    out.append(&mut payload);
    push_str(out, &c.hash);
    push_str(out, &c.signature);
    proof {
        assert(out@ =~= old(out)@ + claim_enc(*c));
    }
}

/// The concatenated canonical encodings of a list of strings.
pub open spec fn cat_strs(l: Seq<Seq<char>>) -> Seq<u8>
    decreases l.len(),
{
    if l.len() == 0 {
        Seq::<u8>::empty()
    } else {
        cat_strs(l.drop_last()) + enc_str(l.last())
    }
}

/// The canonical encoding of a list of strings: its length, then each
/// string in order.
pub open spec fn enc_str_list(l: Seq<Seq<char>>) -> Seq<u8> {
    u64_be(l.len() as u64) + cat_strs(l)
}

/// The views of a vector of strings.
pub open spec fn str_views(v: Seq<String>) -> Seq<Seq<char>> {
    v.map(|_i: int, s: String| s@)
}

/// Whether every string in a vector is ASCII.
pub open spec fn all_ascii(v: Seq<String>) -> bool {
    forall|i: int| 0 <= i < v.len() ==> ascii_chars((#[trigger] v[i])@)
}

/// Appends the canonical encoding of a list of strings to `out`.
pub fn push_str_list(out: &mut Vec<u8>, l: &Vec<String>)
    requires
        all_ascii(l@),
    ensures
        final(out)@ == old(out)@ + enc_str_list(str_views(l@)),
{
    let n = l.len();
    push_u64_be(out, n as u64);
    let ghost mid = out@;
    let mut i: usize = 0;
    proof {
        assert(str_views(l@).len() == l@.len());
    }
    while i < n
        invariant
            n == l@.len(),
            i <= n,
            all_ascii(l@),
            out@ == mid + cat_strs(str_views(l@).take(i as int)),
        decreases n - i,
    {
        push_str(out, &l[i]);
        proof {
            let views = str_views(l@);
            assert(views.take(i as int + 1).drop_last() =~= views.take(i as int));
            assert(views.take(i as int + 1).last() == l@[i as int]@);
            assert(cat_strs(views.take(i as int + 1)) == cat_strs(views.take(i as int)) + enc_str(
                l@[i as int]@,
            ));
        }
        i = i + 1;
    }
    proof {
        assert(str_views(l@).take(n as int) =~= str_views(l@));
        assert(out@ =~= old(out)@ + enc_str_list(str_views(l@)));
    }
}

/// An encoded string list stands at `pos`: the eight-byte count and each
/// string's canonical encoding, followed by anything.
pub open spec fn strs_at(buf: Seq<u8>, pos: int, l: Seq<Seq<char>>) -> bool {
    &&& forall|i: int|
        0 <= i < l.len() ==> ascii_chars(#[trigger] l[i]) && l[i].len() < 0x10000000000000000
    &&& l.len() < 0x10000000000000000
    &&& pos + enc_str_list(l).len() <= buf.len()
    &&& buf.subrange(pos, buf.len() as int) == enc_str_list(l) + buf.subrange(
        pos + enc_str_list(l).len(),
        buf.len() as int,
    )
}

/// The concatenated encodings split off their first string.
pub proof fn lemma_cat_strs_first(l: Seq<Seq<char>>)
    requires
        l.len() > 0,
    ensures
        cat_strs(l) == enc_str(l[0]) + cat_strs(l.drop_first()),
    decreases l.len(),
{
    if l.len() == 1 {
        assert(l.drop_last() =~= Seq::<Seq<char>>::empty());
        assert(l.drop_first() =~= Seq::<Seq<char>>::empty());
        assert(cat_strs(l) =~= enc_str(l[0]) + cat_strs(l.drop_first()));
    } else {
        lemma_cat_strs_first(l.drop_last());
        assert(l.drop_last()[0] == l[0]);
        assert(l.drop_first().drop_last() =~= l.drop_last().drop_first());
        assert(l.drop_first().last() == l.last());
        assert(cat_strs(l.drop_first()) == cat_strs(l.drop_first().drop_last()) + enc_str(
            l.drop_first().last(),
        ));
        assert(cat_strs(l) =~= enc_str(l[0]) + cat_strs(l.drop_first()));
    }
}

/// Every encoded string takes at least its eight-byte length prefix.
pub proof fn lemma_cat_strs_min_len(l: Seq<Seq<char>>)
    ensures
        cat_strs(l).len() >= 8 * l.len(),
    decreases l.len(),
{
    if l.len() > 0 {
        lemma_cat_strs_min_len(l.drop_last());
    }
}

/// When an encoded string list stands at `pos`, the eight bytes there
/// spell its length.
proof fn lemma_strs_at_len(buf: Seq<u8>, pos: int, count64: u64)
    requires
        0 <= pos,
        pos + 8 <= buf.len(),
        count64 == crate::codec::be_val64(buf.subrange(pos, pos + 8)),
    ensures
        forall|l: Seq<Seq<char>>| strs_at(buf, pos, l) ==> l.len() == count64,
{
    assert forall|l: Seq<Seq<char>>| strs_at(buf, pos, l) implies l.len() == count64 by {
        let suffix = buf.subrange(pos, buf.len() as int);
        assert forall|q: int| 0 <= q < 8 implies (#[trigger] buf.subrange(pos, pos + 8)[q])
            == u64_be(l.len() as u64)[q] by {
            assert(suffix[q] == (enc_str_list(l) + buf.subrange(
                pos + enc_str_list(l).len(),
                buf.len() as int,
            ))[q]);
            assert(suffix[q] == u64_be(l.len() as u64)[q]);
            assert(buf.subrange(pos, pos + 8)[q] == buf[pos + q]);
            assert(suffix[q] == buf[pos + q]);
        }
        assert(buf.subrange(pos, pos + 8) =~= u64_be(l.len() as u64));
        crate::codec::lemma_u64_be_roundtrip(l.len() as u64);
    }
}

/// Reads back a canonically encoded string list stored at `pos`.
/// Whenever an encoded list stands there, exactly its strings are read
/// back.
#[verifier::rlimit(100)]
#[verifier::spinoff_prover]
pub fn read_str_list(buf: &Vec<u8>, pos: usize) -> (r: Option<(Vec<String>, usize)>)
    requires
        pos <= buf@.len(),
    ensures
        r matches Some(p) ==> {
            &&& pos + 8 <= p.1 <= buf@.len()
            &&& all_ascii(p.0@)
            &&& buf@.subrange(pos as int, p.1 as int) == enc_str_list(str_views(p.0@))
        },
        forall|l: Seq<Seq<char>>|
            strs_at(buf@, pos as int, l) ==> (r matches Some(p) && str_views(p.0@) == l
                && p.1 as int == pos + enc_str_list(l).len()),
{
    let n = buf.len();
    if n - pos < 8 {
        proof {
            assert forall|l: Seq<Seq<char>>| !strs_at(buf@, pos as int, l) by {}
        }
        return None;
    }
    let count64 = crate::codec::read_u64_be(buf, pos);
    proof {
        lemma_strs_at_len(buf@, pos as int, count64);
    }
    if count64 > ((n - pos - 8) / 8) as u64 {
        proof {
            assert forall|l: Seq<Seq<char>>| !strs_at(buf@, pos as int, l) by {
                if strs_at(buf@, pos as int, l) {
                    lemma_cat_strs_min_len(l);
                    assert(l.len() == count64);
                }
            }
        }
        return None;
    }
    let count = count64 as usize;
    let mut out: Vec<String> = Vec::new();
    let mut cur: usize = pos + 8;
    let mut k: usize = 0;
    proof {
        assert forall|l: Seq<Seq<char>>| strs_at(buf@, pos as int, l) implies buf@.subrange(
            cur as int,
            n as int,
        ) == cat_strs(l.skip(0)) + buf@.subrange(
            pos as int + enc_str_list(l).len(),
            n as int,
        ) by {
            let rest = buf@.subrange(pos as int + enc_str_list(l).len(), n as int);
            assert(buf@.subrange(pos as int, n as int) =~= u64_be(l.len() as u64) + (cat_strs(l)
                + rest));
            crate::codec::lemma_concat_tail(
                buf@,
                pos as int,
                u64_be(l.len() as u64),
                cat_strs(l) + rest,
            );
            assert(l.skip(0) =~= l);
        }
    }
    while k < count
        invariant
            n == buf@.len(),
            pos + 8 <= cur <= n,
            k <= count,
            count == count64,
            out@.len() == k,
            all_ascii(out@),
            buf@.subrange(pos as int + 8, cur as int) == cat_strs(str_views(out@)),
            forall|l: Seq<Seq<char>>| strs_at(buf@, pos as int, l) ==> l.len() == count64,
            forall|l: Seq<Seq<char>>|
                strs_at(buf@, pos as int, l) ==> (forall|q: int|
                    0 <= q < k ==> (#[trigger] out@[q])@ == l[q]),
            forall|l: Seq<Seq<char>>|
                #![trigger strs_at(buf@, pos as int, l)]
                strs_at(buf@, pos as int, l) ==> buf@.subrange(cur as int, n as int) == cat_strs(
                    l.skip(k as int),
                ) + buf@.subrange(pos as int + enc_str_list(l).len(), n as int),
        decreases count - k,
    {
        let ghost pre_views = str_views(out@);
        let (s, next) = match crate::codec::read_str(buf, cur) {
            Some(p) => p,
            None => {
                proof {
                    assert forall|l: Seq<Seq<char>>| !strs_at(buf@, pos as int, l) by {
                        if strs_at(buf@, pos as int, l) {
                            let rest = buf@.subrange(
                                pos as int + enc_str_list(l).len(),
                                n as int,
                            );
                            lemma_cat_strs_first(l.skip(k as int));
                            assert(l.skip(k as int)[0] == l[k as int]);
                            assert(l.skip(k as int).drop_first() =~= l.skip(k as int + 1));
                            assert(buf@.subrange(cur as int, n as int) =~= enc_str(l[k as int]) + (
                            cat_strs(l.skip(k as int + 1)) + rest));
                            assert(crate::codec::str_at(buf@, cur as int, l[k as int])) by {
                                crate::codec::lemma_concat_tail(
                                    buf@,
                                    cur as int,
                                    enc_str(l[k as int]),
                                    cat_strs(l.skip(k as int + 1)) + rest,
                                );
                            }
                        }
                    }
                }
                return None;
            },
        };
        proof {
            assert forall|l: Seq<Seq<char>>|
                #![trigger strs_at(buf@, pos as int, l)]
                strs_at(buf@, pos as int, l) implies (s@ == l[k as int] && next as int == cur + 8
                + l[k as int].len() && buf@.subrange(next as int, n as int) == cat_strs(
                l.skip(k as int + 1),
            ) + buf@.subrange(pos as int + enc_str_list(l).len(), n as int)) by {
                let rest = buf@.subrange(pos as int + enc_str_list(l).len(), n as int);
                lemma_cat_strs_first(l.skip(k as int));
                assert(l.skip(k as int)[0] == l[k as int]);
                assert(l.skip(k as int).drop_first() =~= l.skip(k as int + 1));
                assert(buf@.subrange(cur as int, n as int) =~= enc_str(l[k as int]) + (cat_strs(
                    l.skip(k as int + 1),
                ) + rest));
                assert(crate::codec::str_at(buf@, cur as int, l[k as int])) by {
                    crate::codec::lemma_concat_tail(
                        buf@,
                        cur as int,
                        enc_str(l[k as int]),
                        cat_strs(l.skip(k as int + 1)) + rest,
                    );
                }
                crate::codec::lemma_concat_tail(
                    buf@,
                    cur as int,
                    enc_str(l[k as int]),
                    cat_strs(l.skip(k as int + 1)) + rest,
                );
            }
        }
        out.push(s);
        proof {
            assert(str_views(out@).drop_last() =~= pre_views);
            assert(cat_strs(str_views(out@)) == cat_strs(pre_views) + enc_str(
                str_views(out@).last(),
            ));
            assert(buf@.subrange(pos as int + 8, next as int) =~= buf@.subrange(
                pos as int + 8,
                cur as int,
            ) + buf@.subrange(cur as int, next as int));
        }
        cur = next;
        k = k + 1;
    }
    proof {
        assert(buf@.subrange(pos as int, pos as int + 8) =~= u64_be(count64)) by {
            crate::codec::lemma_be_bytes_inverse(buf@.subrange(pos as int, pos as int + 8));
        }
        assert(out@.len() == count64);
        assert(buf@.subrange(pos as int, cur as int) =~= buf@.subrange(pos as int, pos as int + 8)
            + buf@.subrange(pos as int + 8, cur as int));
        assert(buf@.subrange(pos as int, cur as int) =~= enc_str_list(str_views(out@)));
        assert forall|l: Seq<Seq<char>>|
            #![trigger strs_at(buf@, pos as int, l)]
            strs_at(buf@, pos as int, l) implies (str_views(out@) == l && cur as int == pos
            + enc_str_list(l).len()) by {
            assert(l.len() == count64);
            assert(str_views(out@).len() == l.len());
            assert forall|q: int| 0 <= q < l.len() implies str_views(out@)[q] == l[q] by {
                assert(out@[q]@ == l[q]);
            }
            assert(str_views(out@) =~= l);
            assert(l.skip(count as int) =~= Seq::<Seq<char>>::empty());
            assert(cat_strs(l.skip(count as int)) =~= Seq::<u8>::empty());
            assert(buf@.subrange(cur as int, n as int) == buf@.subrange(
                pos as int + enc_str_list(l).len(),
                n as int,
            ));
            assert(buf@.subrange(cur as int, n as int).len() == buf@.subrange(
                pos as int + enc_str_list(l).len(),
                n as int,
            ).len());
        }
    }
    Some((out, cur))
}

/// Whether every text field of a header is ASCII.
pub open spec fn header_text_ascii(h: BlockHeader) -> bool {
    &&& ascii_chars(h.last_hash@)
    &&& ascii_chars(h.last_state_root@)
    &&& claim_text_ascii(h.miner_claim)
    &&& ascii_chars(h.claim_list_hash@)
    &&& ascii_chars(h.txn_hash@)
    &&& ascii_chars(h.miner_signature@)
    &&& all_ascii(h.ref_hashes@)
}

/// The canonical payload a header is signed over: every field except the
/// miner's signature, in canonical order.
pub open spec fn header_signing_bytes(h: BlockHeader) -> Seq<u8> {
    enc_str(h.last_hash@) + enc_str(h.last_state_root@) + u128_be(h.block_height) + u64_be(
        h.block_seed,
    ) + u64_be(h.next_block_seed) + u128_be(h.round) + u128_be(h.epoch) + u128_be(h.timestamp)
        + claim_enc(h.miner_claim) + enc_str(h.claim_list_hash@) + enc_str(h.txn_hash@) + u128_be(
        h.block_reward,
    ) + u128_be(h.next_block_reward) + enc_str_list(str_views(h.ref_hashes@))
}

/// The full canonical encoding of a header: the signing payload followed
/// by the miner's signature.
pub open spec fn header_bytes(h: BlockHeader) -> Seq<u8> {
    header_signing_bytes(h) + enc_str(h.miner_signature@)
}

/// The digest of a header: the SHA-256 hash of its canonical encoding, in
/// lowercase hex. Two encoders that follow the canonical field order
/// produce the same bytes, so this digest is stable across hosts.
pub open spec fn header_hash_spec(h: BlockHeader) -> Seq<char> {
    sha256_hex(header_bytes(h))
}

impl BlockHeader {
    /// The canonical payload this header is signed over.
    pub fn signing_bytes(&self) -> (r: Vec<u8>)
        requires
            header_text_ascii(*self),
        ensures
            r@ == header_signing_bytes(*self),
    {
        let mut out: Vec<u8> = Vec::new();
        push_str(&mut out, &self.last_hash);
        push_str(&mut out, &self.last_state_root);
        push_u128_be(&mut out, self.block_height);
        push_u64_be(&mut out, self.block_seed);
        push_u64_be(&mut out, self.next_block_seed);
        push_u128_be(&mut out, self.round);
        push_u128_be(&mut out, self.epoch);
        push_u128_be(&mut out, self.timestamp);
        push_claim(&mut out, &self.miner_claim);
        push_str(&mut out, &self.claim_list_hash);
        push_str(&mut out, &self.txn_hash);
        push_u128_be(&mut out, self.block_reward);
        push_u128_be(&mut out, self.next_block_reward);
        push_str_list(&mut out, &self.ref_hashes);
        proof {
            assert(out@ =~= header_signing_bytes(*self));
        }
        out
    }

    /// The full canonical encoding of this header.
    pub fn canonical_bytes(&self) -> (r: Vec<u8>)
        requires
            header_text_ascii(*self),
        ensures
            r@ == header_bytes(*self),
    {
        let mut out = self.signing_bytes();
        push_str(&mut out, &self.miner_signature);
        proof {
            assert(out@ =~= header_bytes(*self));
        }
        out
    }

    /// The digest of this header, in lowercase hex.
    pub fn hash(&self) -> (r: String)
        requires
            header_text_ascii(*self),
        ensures
            r@ == header_hash_spec(*self),
            is_digest_chars(r@),
    {
        let bytes = self.canonical_bytes();
        sha256_digest(&bytes)
    }

    /// Checks the miner's signature over the header's signing payload
    /// under the miner claim's public key.
    pub fn verify_signature(&self) -> (r: bool)
        requires
            header_text_ascii(*self),
        ensures
            r == header_signature_ok(*self),
    {
        let payload = self.signing_bytes();
        let digest_hex = sha256_digest(&payload);
        proof {
            lemma_hex_of_to_bytes(digest_hex@);
        }
        match hex_decode(digest_hex.as_str()) {
            Ok(digest) => ecdsa_verify(
                &self.miner_claim.public_key,
                &self.miner_signature,
                &digest,
            ),
            Err(_) => {
                proof {
                    assert(hex_of(hex_to_bytes(digest_hex@)) == digest_hex@);
                    assert(false);
                }
                false
            },
        }
    }
}

/// Whether the miner's signature verifies over the header's signing
/// payload digest under the miner claim's key.
pub open spec fn header_signature_ok(h: BlockHeader) -> bool {
    ecdsa_verifies(
        h.miner_claim.public_key@,
        h.miner_signature@,
        hex_to_bytes(sha256_hex(header_signing_bytes(h))),
    )
}

/// The digest of the fixed genesis parent-hash phrase.
pub open spec fn genesis_last_hash_spec() -> Seq<char> {
    sha256_hex(ascii_bytes("Genesis_Last_Hash"@))
}

/// The genesis state digest: the digest of the genesis parent hash, a
/// comma, and the digest of the fixed genesis state phrase.
pub open spec fn genesis_state_hash_spec() -> Seq<char> {
    sha256_hex(
        ascii_bytes(
            genesis_last_hash_spec() + ","@ + sha256_hex(ascii_bytes("Genesis_State_Hash"@)),
        ),
    )
}

/// The fixed parent hash every genesis block must carry.
pub fn genesis_last_hash() -> (r: String)
    ensures
        r@ == genesis_last_hash_spec(),
        is_digest_chars(r@),
{
    proof {
        reveal_strlit("Genesis_Last_Hash");
    }
    let bytes = ascii_str_to_bytes("Genesis_Last_Hash");
    sha256_digest(&bytes)
}

/// The fixed state digest every genesis block must carry.
pub fn genesis_state_hash() -> (r: String)
    ensures
        r@ == genesis_state_hash_spec(),
        is_digest_chars(r@),
{
    proof {
        reveal_strlit("Genesis_State_Hash");
        reveal_strlit(",");
    }
    let last = genesis_last_hash();
    let state_bytes = ascii_str_to_bytes("Genesis_State_Hash");
    let state_digest = sha256_digest(&state_bytes);
    let mut phrase = last;
    phrase.append(",");
    phrase.append(state_digest.as_str());
    proof {
        lemma_digest_chars_ascii(genesis_last_hash_spec());
        lemma_digest_chars_ascii(sha256_hex(ascii_bytes("Genesis_State_Hash"@)));
        assert(ascii_chars(phrase@));
    }
    let phrase_bytes = ascii_str_to_bytes(phrase.as_str());
    sha256_digest(&phrase_bytes)
}

/// Whether every text field of a header is ASCII and short enough to
/// encode.
pub open spec fn header_enc_wf(h: BlockHeader) -> bool {
    &&& crate::claim::claim_enc_wf(h.miner_claim)
    &&& ascii_chars(h.last_hash@) && h.last_hash@.len() < 0x10000000000000000
    &&& ascii_chars(h.last_state_root@) && h.last_state_root@.len() < 0x10000000000000000
    &&& ascii_chars(h.claim_list_hash@) && h.claim_list_hash@.len() < 0x10000000000000000
    &&& ascii_chars(h.txn_hash@) && h.txn_hash@.len() < 0x10000000000000000
    &&& ascii_chars(h.miner_signature@) && h.miner_signature@.len() < 0x10000000000000000
    &&& h.ref_hashes@.len() < 0x10000000000000000
    &&& forall|i: int|
        0 <= i < h.ref_hashes@.len() ==> ascii_chars((#[trigger] h.ref_hashes@[i])@) && h.ref_hashes@[i]@.len()
            < 0x10000000000000000
}

/// An encoded header stands at `pos`, followed by anything.
pub open spec fn header_at(buf: Seq<u8>, pos: int, h: BlockHeader) -> bool {
    &&& header_enc_wf(h)
    &&& pos + header_bytes(h).len() <= buf.len()
    &&& buf.subrange(pos, buf.len() as int) == header_bytes(h) + buf.subrange(
        pos + header_bytes(h).len(),
        buf.len() as int,
    )
}

/// Whether two headers agree field by field, comparing text by content.
pub open spec fn header_equiv(a: BlockHeader, b: BlockHeader) -> bool {
    &&& a.last_hash@ == b.last_hash@
    &&& a.last_state_root@ == b.last_state_root@
    &&& a.block_height == b.block_height
    &&& a.block_seed == b.block_seed
    &&& a.next_block_seed == b.next_block_seed
    &&& a.round == b.round
    &&& a.epoch == b.epoch
    &&& a.timestamp == b.timestamp
    &&& crate::claim::claim_equiv(a.miner_claim, b.miner_claim)
    &&& a.claim_list_hash@ == b.claim_list_hash@
    &&& a.txn_hash@ == b.txn_hash@
    &&& a.block_reward == b.block_reward
    &&& a.next_block_reward == b.next_block_reward
    &&& a.miner_signature@ == b.miner_signature@
    &&& str_views(a.ref_hashes@) == str_views(b.ref_hashes@)
}

/// The offset where the miner claim starts inside an encoded header.
pub open spec fn header_claim_offset(pos: int, h: BlockHeader) -> int {
    pos + 16 + h.last_hash@.len() + h.last_state_root@.len() + 80
}

/// The encoding of everything from the miner claim on.
pub open spec fn header_back_tail(h: BlockHeader) -> Seq<u8> {
    claim_enc(h.miner_claim) + enc_str(h.claim_list_hash@) + enc_str(h.txn_hash@) + u128_be(
        h.block_reward,
    ) + u128_be(h.next_block_reward) + enc_str_list(str_views(h.ref_hashes@)) + enc_str(
        h.miner_signature@,
    )
}

/// Every field of an encoded header standing at `pos`, located at its
/// offset.
pub open spec fn header_fields_at(buf: Seq<u8>, pos: int, h: BlockHeader) -> bool {
    let o1 = pos + 8 + h.last_hash@.len();
    let o2 = o1 + 8 + h.last_state_root@.len();
    let o8 = o2 + 80;
    let o9 = o8 + claim_enc(h.miner_claim).len();
    let o10 = o9 + 8 + h.claim_list_hash@.len();
    let o11 = o10 + 8 + h.txn_hash@.len();
    let o12 = o11 + 32;
    let o14 = o12 + enc_str_list(str_views(h.ref_hashes@)).len();
    let o15 = o14 + 8 + h.miner_signature@.len();
    &&& crate::codec::str_at(buf, pos, h.last_hash@)
    &&& crate::codec::str_at(buf, o1, h.last_state_root@)
    &&& o8 <= buf.len()
    &&& buf.subrange(o2, o2 + 16) == u128_be(h.block_height)
    &&& buf.subrange(o2 + 16, o2 + 24) == u64_be(h.block_seed)
    &&& buf.subrange(o2 + 24, o2 + 32) == u64_be(h.next_block_seed)
    &&& buf.subrange(o2 + 32, o2 + 48) == u128_be(h.round)
    &&& buf.subrange(o2 + 48, o2 + 64) == u128_be(h.epoch)
    &&& buf.subrange(o2 + 64, o2 + 80) == u128_be(h.timestamp)
    &&& crate::claim::claim_at(buf, o8, h.miner_claim)
    &&& crate::codec::str_at(buf, o9, h.claim_list_hash@)
    &&& crate::codec::str_at(buf, o10, h.txn_hash@)
    &&& o11 + 32 <= buf.len()
    &&& buf.subrange(o11, o11 + 16) == u128_be(h.block_reward)
    &&& buf.subrange(o11 + 16, o11 + 32) == u128_be(h.next_block_reward)
    &&& strs_at(buf, o12, str_views(h.ref_hashes@))
    &&& crate::codec::str_at(buf, o14, h.miner_signature@)
    &&& pos + header_bytes(h).len() == o15
}

/// Decomposes the front of an encoded header standing at `pos`: the two
/// parent digests and the six numeric fields, leaving the remainder from
/// the miner claim on as one suffix equation.
#[verifier::rlimit(100)]
#[verifier::spinoff_prover]
proof fn lemma_header_at_front(buf: Seq<u8>, pos: int, h: BlockHeader)
    requires
        0 <= pos,
        header_at(buf, pos, h),
    ensures
        crate::codec::str_at(buf, pos, h.last_hash@),
        ({
            let o1 = pos + 8 + h.last_hash@.len();
            let o2 = o1 + 8 + h.last_state_root@.len();
            let o8 = o2 + 80;
            &&& crate::codec::str_at(buf, o1, h.last_state_root@)
            &&& o8 <= buf.len()
            &&& buf.subrange(o2, o2 + 16) == u128_be(h.block_height)
            &&& buf.subrange(o2 + 16, o2 + 24) == u64_be(h.block_seed)
            &&& buf.subrange(o2 + 24, o2 + 32) == u64_be(h.next_block_seed)
            &&& buf.subrange(o2 + 32, o2 + 48) == u128_be(h.round)
            &&& buf.subrange(o2 + 48, o2 + 64) == u128_be(h.epoch)
            &&& buf.subrange(o2 + 64, o2 + 80) == u128_be(h.timestamp)
            &&& buf.subrange(o8, buf.len() as int) == header_back_tail(h) + buf.subrange(
                pos + header_bytes(h).len(),
                buf.len() as int,
            )
        }),
{
    let n = buf.len() as int;
    let full = header_bytes(h);
    let suffix = buf.subrange(pos, n);
    let rest = buf.subrange(pos + full.len(), n);
    assert(suffix == full + rest);
    let e1 = enc_str(h.last_hash@);
    let e2 = enc_str(h.last_state_root@);
    let e3 = u128_be(h.block_height);
    let e4 = u64_be(h.block_seed);
    let e5 = u64_be(h.next_block_seed);
    let e6 = u128_be(h.round);
    let e7 = u128_be(h.epoch);
    let e8 = u128_be(h.timestamp);
    let tail = header_back_tail(h);
    let r2 = e2 + e3 + e4 + e5 + e6 + e7 + e8 + tail;
    let r3 = e3 + e4 + e5 + e6 + e7 + e8 + tail;
    let r4 = e4 + e5 + e6 + e7 + e8 + tail;
    let r5 = e5 + e6 + e7 + e8 + tail;
    let r6 = e6 + e7 + e8 + tail;
    let r7 = e7 + e8 + tail;
    let r8 = e8 + tail;
    let o1 = pos + e1.len();
    let o2 = o1 + e2.len();
    let o3 = o2 + 16;
    let o4 = o3 + 8;
    let o5 = o4 + 8;
    let o6 = o5 + 16;
    let o7 = o6 + 16;
    let o8 = o7 + 16;
    assert(full =~= e1 + r2);
    assert(suffix =~= e1 + (r2 + rest));
    crate::codec::lemma_concat_tail(buf, pos, e1, r2 + rest);
    assert(r2 + rest =~= e2 + (r3 + rest));
    crate::codec::lemma_concat_tail(buf, o1, e2, r3 + rest);
    assert(r3 + rest =~= e3 + (r4 + rest));
    crate::codec::lemma_concat_tail(buf, o2, e3, r4 + rest);
    assert(r4 + rest =~= e4 + (r5 + rest));
    crate::codec::lemma_concat_tail(buf, o3, e4, r5 + rest);
    assert(r5 + rest =~= e5 + (r6 + rest));
    crate::codec::lemma_concat_tail(buf, o4, e5, r6 + rest);
    assert(r6 + rest =~= e6 + (r7 + rest));
    crate::codec::lemma_concat_tail(buf, o5, e6, r7 + rest);
    assert(r7 + rest =~= e7 + (r8 + rest));
    crate::codec::lemma_concat_tail(buf, o6, e7, r8 + rest);
    assert(r8 + rest =~= e8 + (tail + rest));
    crate::codec::lemma_concat_tail(buf, o7, e8, tail + rest);
    lemma_segment_extract(buf, o2, 16, e3, r4 + rest);
    lemma_segment_extract(buf, o3, 8, e4, r5 + rest);
    lemma_segment_extract(buf, o4, 8, e5, r6 + rest);
    lemma_segment_extract(buf, o5, 16, e6, r7 + rest);
    lemma_segment_extract(buf, o6, 16, e7, r8 + rest);
    lemma_segment_extract(buf, o7, 16, e8, tail + rest);
}

/// Decomposes the back of an encoded header: the miner claim, the two
/// content digests, the rewards, the reference list and the signature.
#[verifier::rlimit(100)]
#[verifier::spinoff_prover]
proof fn lemma_header_at_back(buf: Seq<u8>, pos: int, h: BlockHeader)
    requires
        0 <= pos,
        header_at(buf, pos, h),
        buf.subrange(header_claim_offset(pos, h), buf.len() as int) == header_back_tail(h)
            + buf.subrange(pos + header_bytes(h).len(), buf.len() as int),
    ensures
        ({
            let o8 = header_claim_offset(pos, h);
            let o9 = o8 + claim_enc(h.miner_claim).len();
            let o10 = o9 + 8 + h.claim_list_hash@.len();
            let o11 = o10 + 8 + h.txn_hash@.len();
            let o12 = o11 + 32;
            let o14 = o12 + enc_str_list(str_views(h.ref_hashes@)).len();
            let o15 = o14 + 8 + h.miner_signature@.len();
            &&& crate::claim::claim_at(buf, o8, h.miner_claim)
            &&& crate::codec::str_at(buf, o9, h.claim_list_hash@)
            &&& crate::codec::str_at(buf, o10, h.txn_hash@)
            &&& o11 + 32 <= buf.len()
            &&& buf.subrange(o11, o11 + 16) == u128_be(h.block_reward)
            &&& buf.subrange(o11 + 16, o11 + 32) == u128_be(h.next_block_reward)
            &&& strs_at(buf, o12, str_views(h.ref_hashes@))
            &&& crate::codec::str_at(buf, o14, h.miner_signature@)
            &&& pos + header_bytes(h).len() == o15
        }),
{
    let n = buf.len() as int;
    let rest = buf.subrange(pos + header_bytes(h).len(), n);
    let e9 = claim_enc(h.miner_claim);
    let e10 = enc_str(h.claim_list_hash@);
    let e11 = enc_str(h.txn_hash@);
    let e12 = u128_be(h.block_reward);
    let e13 = u128_be(h.next_block_reward);
    let e14 = enc_str_list(str_views(h.ref_hashes@));
    let e15 = enc_str(h.miner_signature@);
    let r10 = e10 + e11 + e12 + e13 + e14 + e15;
    let r11 = e11 + e12 + e13 + e14 + e15;
    let r12 = e12 + e13 + e14 + e15;
    let r13 = e13 + e14 + e15;
    let r14 = e14 + e15;
    let o8 = header_claim_offset(pos, h);
    let o9 = o8 + e9.len();
    let o10 = o9 + e10.len();
    let o11 = o10 + e11.len();
    let o12 = o11 + 16;
    let o13 = o12 + 16;
    let o14 = o13 + e14.len();
    assert(header_back_tail(h) =~= e9 + r10);
    assert(buf.subrange(o8, n) =~= e9 + (r10 + rest));
    crate::codec::lemma_concat_tail(buf, o8, e9, r10 + rest);
    assert(r10 + rest =~= e10 + (r11 + rest));
    crate::codec::lemma_concat_tail(buf, o9, e10, r11 + rest);
    assert(r11 + rest =~= e11 + (r12 + rest));
    crate::codec::lemma_concat_tail(buf, o10, e11, r12 + rest);
    assert(r12 + rest =~= e12 + (r13 + rest));
    crate::codec::lemma_concat_tail(buf, o11, e12, r13 + rest);
    assert(r13 + rest =~= e13 + (r14 + rest));
    crate::codec::lemma_concat_tail(buf, o12, e13, r14 + rest);
    assert(r14 + rest =~= e14 + (e15 + rest));
    crate::codec::lemma_concat_tail(buf, o13, e14, e15 + rest);
    crate::codec::lemma_concat_tail(buf, o14, e15, rest);
    lemma_segment_extract(buf, o11, 16, e12, r13 + rest);
    lemma_segment_extract(buf, o12, 16, e13, r14 + rest);
    assert(header_bytes(h).len() == (16 + h.last_hash@.len() + h.last_state_root@.len() + 80)
        + e9.len() + e10.len() + e11.len() + 32 + e14.len() + e15.len()) by {
        assert(header_bytes(h) =~= enc_str(h.last_hash@) + enc_str(h.last_state_root@) + u128_be(
            h.block_height,
        ) + u64_be(h.block_seed) + u64_be(h.next_block_seed) + u128_be(h.round) + u128_be(h.epoch)
            + u128_be(h.timestamp) + header_back_tail(h));
    }
}

/// A fixed-width segment standing at the head of a suffix equals the
/// corresponding subrange.
proof fn lemma_segment_extract(buf: Seq<u8>, p: int, w: int, seg: Seq<u8>, after: Seq<u8>)
    requires
        0 <= p,
        seg.len() == w,
        p + w + after.len() <= buf.len(),
        buf.subrange(p, buf.len() as int) == seg + after,
    ensures
        buf.subrange(p, p + w) == seg,
{
    let n = buf.len() as int;
    assert forall|q: int| 0 <= q < w implies buf.subrange(p, p + w)[q] == seg[q] by {
        assert(buf.subrange(p, n)[q] == (seg + after)[q]);
        assert(buf.subrange(p, n)[q] == buf[p + q]);
        assert(buf.subrange(p, p + w)[q] == buf[p + q]);
    }
    assert(buf.subrange(p, p + w) =~= seg);
}

/// Every header encoded at `pos` has its fields at their offsets.
#[verifier::rlimit(100)]
#[verifier::spinoff_prover]
proof fn lemma_header_fields_all(buf: Seq<u8>, pos: int)
    requires
        0 <= pos,
    ensures
        forall|h: BlockHeader|
            #![trigger header_at(buf, pos, h)]
            header_at(buf, pos, h) ==> header_fields_at(buf, pos, h),
{
    assert forall|h: BlockHeader|
        #![trigger header_at(buf, pos, h)]
        header_at(buf, pos, h) implies header_fields_at(buf, pos, h) by {
        lemma_header_at_front(buf, pos, h);
        lemma_header_at_back(buf, pos, h);
    }
}

/// The canonical encoding of a header's leading fields: the two parent
/// digests and the six numeric fields.
pub open spec fn header_front_enc(
    last_hash: Seq<char>,
    last_state_root: Seq<char>,
    block_height: u128,
    block_seed: u64,
    next_block_seed: u64,
    round: u128,
    epoch: u128,
    timestamp: u128,
) -> Seq<u8> {
    enc_str(last_hash) + enc_str(last_state_root) + u128_be(block_height) + u64_be(block_seed)
        + u64_be(next_block_seed) + u128_be(round) + u128_be(epoch) + u128_be(timestamp)
}

/// Reads back the leading fields of an encoded header stored at `pos`.
#[verifier::rlimit(100)]
#[verifier::spinoff_prover]
fn read_header_front(buf: &Vec<u8>, pos: usize) -> (r: Option<
    ((String, String, u128, u64, u64, u128, u128, u128), usize),
>)
    requires
        pos <= buf@.len(),
    ensures
        r matches Some(p) ==> {
            &&& pos < p.1 <= buf@.len()
            &&& ascii_chars(p.0.0@) && p.0.0@.len() < 0x10000000000000000
            &&& ascii_chars(p.0.1@) && p.0.1@.len() < 0x10000000000000000
            &&& buf@.subrange(pos as int, p.1 as int) == header_front_enc(
                p.0.0@,
                p.0.1@,
                p.0.2,
                p.0.3,
                p.0.4,
                p.0.5,
                p.0.6,
                p.0.7,
            )
        },
        forall|h: BlockHeader|
            header_at(buf@, pos as int, h) ==> (r matches Some(p) && p.0.0@ == h.last_hash@
                && p.0.1@ == h.last_state_root@ && p.0.2 == h.block_height && p.0.3 == h.block_seed
                && p.0.4 == h.next_block_seed && p.0.5 == h.round && p.0.6 == h.epoch && p.0.7
                == h.timestamp && p.1 as int == header_claim_offset(pos as int, h)),
{
    let n = buf.len();
    proof {
        lemma_header_fields_all(buf@, pos as int);
    }
    let (last_hash, p1) = match crate::codec::read_str(buf, pos) {
        Some(p) => p,
        None => {
            return None;
        },
    };
    proof {
        assert forall|h: BlockHeader|
            #![trigger header_at(buf@, pos as int, h)]
            header_at(buf@, pos as int, h) implies crate::codec::str_at(
            buf@,
            p1 as int,
            h.last_state_root@,
        ) && last_hash@ == h.last_hash@ by {
            assert(header_fields_at(buf@, pos as int, h));
        }
    }
    let (last_state_root, p2) = match crate::codec::read_str(buf, p1) {
        Some(p) => p,
        None => {
            return None;
        },
    };
    if n - p2 < 80 {
        proof {
            assert forall|h: BlockHeader| !header_at(buf@, pos as int, h) by {
                if header_at(buf@, pos as int, h) {
                    assert(header_fields_at(buf@, pos as int, h));
                }
            }
        }
        return None;
    }
    let block_height = crate::codec::read_u128_be(buf, p2);
    let block_seed = crate::codec::read_u64_be(buf, p2 + 16);
    let next_block_seed = crate::codec::read_u64_be(buf, p2 + 24);
    let round = crate::codec::read_u128_be(buf, p2 + 32);
    let epoch = crate::codec::read_u128_be(buf, p2 + 48);
    let timestamp = crate::codec::read_u128_be(buf, p2 + 64);
    let p8 = p2 + 80;
    proof {
        crate::codec::lemma_be_bytes_inverse128(buf@.subrange(p2 as int, p2 as int + 16));
        crate::codec::lemma_be_bytes_inverse(buf@.subrange(p2 as int + 16, p2 as int + 24));
        crate::codec::lemma_be_bytes_inverse(buf@.subrange(p2 as int + 24, p2 as int + 32));
        crate::codec::lemma_be_bytes_inverse128(buf@.subrange(p2 as int + 32, p2 as int + 48));
        crate::codec::lemma_be_bytes_inverse128(buf@.subrange(p2 as int + 48, p2 as int + 64));
        crate::codec::lemma_be_bytes_inverse128(buf@.subrange(p2 as int + 64, p2 as int + 80));
        assert(buf@.subrange(pos as int, p2 as int) =~= buf@.subrange(pos as int, p1 as int)
            + buf@.subrange(p1 as int, p2 as int));
        assert(buf@.subrange(pos as int, p2 as int + 16) =~= buf@.subrange(pos as int, p2 as int)
            + buf@.subrange(p2 as int, p2 as int + 16));
        assert(buf@.subrange(pos as int, p2 as int + 24) =~= buf@.subrange(
            pos as int,
            p2 as int + 16,
        ) + buf@.subrange(p2 as int + 16, p2 as int + 24));
        assert(buf@.subrange(pos as int, p2 as int + 32) =~= buf@.subrange(
            pos as int,
            p2 as int + 24,
        ) + buf@.subrange(p2 as int + 24, p2 as int + 32));
        assert(buf@.subrange(pos as int, p2 as int + 48) =~= buf@.subrange(
            pos as int,
            p2 as int + 32,
        ) + buf@.subrange(p2 as int + 32, p2 as int + 48));
        assert(buf@.subrange(pos as int, p2 as int + 64) =~= buf@.subrange(
            pos as int,
            p2 as int + 48,
        ) + buf@.subrange(p2 as int + 48, p2 as int + 64));
        assert(buf@.subrange(pos as int, p8 as int) =~= buf@.subrange(pos as int, p2 as int + 64)
            + buf@.subrange(p2 as int + 64, p8 as int));
        assert(buf@.subrange(pos as int, p8 as int) == header_front_enc(
            last_hash@,
            last_state_root@,
            block_height,
            block_seed,
            next_block_seed,
            round,
            epoch,
            timestamp,
        ));
        assert forall|h: BlockHeader|
            #![trigger header_at(buf@, pos as int, h)]
            header_at(buf@, pos as int, h) implies (last_hash@ == h.last_hash@ && last_state_root@
            == h.last_state_root@ && block_height == h.block_height && block_seed == h.block_seed
            && next_block_seed == h.next_block_seed && round == h.round && epoch == h.epoch
            && timestamp == h.timestamp && p8 as int == header_claim_offset(pos as int, h)) by {
            assert(header_fields_at(buf@, pos as int, h));
            crate::codec::lemma_u128_be_roundtrip(h.block_height);
            crate::codec::lemma_u64_be_roundtrip(h.block_seed);
            crate::codec::lemma_u64_be_roundtrip(h.next_block_seed);
            crate::codec::lemma_u128_be_roundtrip(h.round);
            crate::codec::lemma_u128_be_roundtrip(h.epoch);
            crate::codec::lemma_u128_be_roundtrip(h.timestamp);
        }
    }
    Some(((last_hash, last_state_root, block_height, block_seed, next_block_seed, round, epoch,
    timestamp), p8))
}

/// The canonical encoding of a header's trailing fields: the miner
/// claim, the content digests, the rewards, the reference list and the
/// signature.
pub open spec fn header_back_enc(
    miner_claim: Claim,
    claim_list_hash: Seq<char>,
    txn_hash: Seq<char>,
    block_reward: u128,
    next_block_reward: u128,
    ref_views: Seq<Seq<char>>,
    miner_signature: Seq<char>,
) -> Seq<u8> {
    claim_enc(miner_claim) + enc_str(claim_list_hash) + enc_str(txn_hash) + u128_be(block_reward)
        + u128_be(next_block_reward) + enc_str_list(ref_views) + enc_str(miner_signature)
}

/// Reads back the trailing fields of an encoded header whose claim
/// starts at `p8`.
#[verifier::rlimit(100)]
#[verifier::spinoff_prover]
fn read_header_back(buf: &Vec<u8>, p8: usize, Ghost(pos): Ghost<int>) -> (r: Option<
    ((Claim, String, String, u128, u128, Vec<String>, String), usize),
>)
    requires
        0 <= pos,
        p8 <= buf@.len(),
        forall|h: BlockHeader|
            #![trigger header_at(buf@, pos, h)]
            header_at(buf@, pos, h) ==> header_fields_at(buf@, pos, h) && header_claim_offset(
                pos,
                h,
            ) == p8 as int,
    ensures
        r matches Some(p) ==> {
            &&& p8 <= p.1 <= buf@.len()
            &&& crate::claim::claim_enc_wf(p.0.0)
            &&& buf@.subrange(p8 as int, p.1 as int) == header_back_enc(
                p.0.0,
                p.0.1@,
                p.0.2@,
                p.0.3,
                p.0.4,
                str_views(p.0.5@),
                p.0.6@,
            )
        },
        forall|h: BlockHeader|
            header_at(buf@, pos, h) ==> (r matches Some(p) && crate::claim::claim_equiv(
                p.0.0,
                h.miner_claim,
            ) && p.0.1@ == h.claim_list_hash@ && p.0.2@ == h.txn_hash@ && p.0.3 == h.block_reward
                && p.0.4 == h.next_block_reward && str_views(p.0.5@) == str_views(h.ref_hashes@)
                && p.0.6@ == h.miner_signature@ && p.1 as int == pos + header_bytes(h).len()),
{
    let n = buf.len();
    proof {
        assert forall|h: BlockHeader|
            #![trigger header_at(buf@, pos, h)]
            header_at(buf@, pos, h) implies crate::claim::claim_at(buf@, p8 as int, h.miner_claim) by {
            assert(header_fields_at(buf@, pos, h));
        }
    }
    let (miner_claim, p9) = match crate::claim::claim_from_bytes(buf, p8) {
        Some(p) => p,
        None => {
            return None;
        },
    };
    proof {
        assert forall|h: BlockHeader|
            #![trigger header_at(buf@, pos, h)]
            header_at(buf@, pos, h) implies crate::codec::str_at(buf@, p9 as int, h.claim_list_hash@)
            && crate::claim::claim_equiv(miner_claim, h.miner_claim) by {
            assert(header_fields_at(buf@, pos, h));
        }
    }
    let (claim_list_hash, p10) = match crate::codec::read_str(buf, p9) {
        Some(p) => p,
        None => {
            return None;
        },
    };
    proof {
        assert forall|h: BlockHeader|
            #![trigger header_at(buf@, pos, h)]
            header_at(buf@, pos, h) implies crate::codec::str_at(buf@, p10 as int, h.txn_hash@) by {
            assert(header_fields_at(buf@, pos, h));
        }
    }
    let (txn_hash, p11) = match crate::codec::read_str(buf, p10) {
        Some(p) => p,
        None => {
            return None;
        },
    };
    if n - p11 < 32 {
        proof {
            assert forall|h: BlockHeader| !header_at(buf@, pos, h) by {
                if header_at(buf@, pos, h) {
                    assert(header_fields_at(buf@, pos, h));
                }
            }
        }
        return None;
    }
    let block_reward = crate::codec::read_u128_be(buf, p11);
    let next_block_reward = crate::codec::read_u128_be(buf, p11 + 16);
    let p12 = p11 + 32;
    proof {
        assert forall|h: BlockHeader|
            #![trigger header_at(buf@, pos, h)]
            header_at(buf@, pos, h) implies strs_at(buf@, p12 as int, str_views(h.ref_hashes@))
            && block_reward == h.block_reward && next_block_reward == h.next_block_reward by {
            assert(header_fields_at(buf@, pos, h));
            crate::codec::lemma_u128_be_roundtrip(h.block_reward);
            crate::codec::lemma_u128_be_roundtrip(h.next_block_reward);
        }
    }
    let (ref_hashes, p14) = match read_str_list(buf, p12) {
        Some(p) => p,
        None => {
            return None;
        },
    };
    proof {
        assert forall|h: BlockHeader|
            #![trigger header_at(buf@, pos, h)]
            header_at(buf@, pos, h) implies crate::codec::str_at(buf@, p14 as int, h.miner_signature@)
            && str_views(ref_hashes@) == str_views(h.ref_hashes@) by {
            assert(header_fields_at(buf@, pos, h));
        }
    }
    let (miner_signature, p15) = match crate::codec::read_str(buf, p14) {
        Some(p) => p,
        None => {
            return None;
        },
    };
    proof {
        crate::codec::lemma_be_bytes_inverse128(buf@.subrange(p11 as int, p11 as int + 16));
        crate::codec::lemma_be_bytes_inverse128(buf@.subrange(p11 as int + 16, p11 as int + 32));
        assert(buf@.subrange(p8 as int, p10 as int) =~= buf@.subrange(p8 as int, p9 as int)
            + buf@.subrange(p9 as int, p10 as int));
        assert(buf@.subrange(p8 as int, p11 as int) =~= buf@.subrange(p8 as int, p10 as int)
            + buf@.subrange(p10 as int, p11 as int));
        assert(buf@.subrange(p8 as int, p11 as int + 16) =~= buf@.subrange(p8 as int, p11 as int)
            + buf@.subrange(p11 as int, p11 as int + 16));
        assert(buf@.subrange(p8 as int, p12 as int) =~= buf@.subrange(p8 as int, p11 as int + 16)
            + buf@.subrange(p11 as int + 16, p11 as int + 32));
        assert(buf@.subrange(p8 as int, p14 as int) =~= buf@.subrange(p8 as int, p12 as int)
            + buf@.subrange(p12 as int, p14 as int));
        assert(buf@.subrange(p8 as int, p15 as int) =~= buf@.subrange(p8 as int, p14 as int)
            + buf@.subrange(p14 as int, p15 as int));
        assert(buf@.subrange(p8 as int, p15 as int) == header_back_enc(
            miner_claim,
            claim_list_hash@,
            txn_hash@,
            block_reward,
            next_block_reward,
            str_views(ref_hashes@),
            miner_signature@,
        ));
        assert forall|h: BlockHeader|
            #![trigger header_at(buf@, pos, h)]
            header_at(buf@, pos, h) implies p15 as int == pos + header_bytes(h).len() by {
            assert(header_fields_at(buf@, pos, h));
        }
    }
    Some(((miner_claim, claim_list_hash, txn_hash, block_reward, next_block_reward, ref_hashes,
    miner_signature), p15))
}

/// Reads back a canonically encoded header stored at `pos`. Whenever an
/// encoded header stands there, a header with exactly its fields is read
/// back: decoding inverts the canonical encoding.
#[verifier::rlimit(100)]
#[verifier::spinoff_prover]
pub fn header_from_bytes(buf: &Vec<u8>, pos: usize) -> (r: Option<(BlockHeader, usize)>)
    requires
        pos <= buf@.len(),
    ensures
        r matches Some(p) ==> {
            &&& pos < p.1 <= buf@.len()
            &&& buf@.subrange(pos as int, p.1 as int) == header_bytes(p.0)
        },
        forall|h: BlockHeader|
            header_at(buf@, pos as int, h) ==> (r matches Some(p) && header_equiv(p.0, h)
                && p.1 as int == pos + header_bytes(h).len()),
{
    let n = buf.len();
    proof {
        lemma_header_fields_all(buf@, pos as int);
    }
    let (front, p8) = match read_header_front(buf, pos) {
        Some(p) => p,
        None => {
            return None;
        },
    };
    let (last_hash, last_state_root, block_height, block_seed, next_block_seed, round, epoch,
    timestamp) = front;
    let (back, p15) = match read_header_back(buf, p8, Ghost(pos as int)) {
        Some(p) => p,
        None => {
            return None;
        },
    };
    let (miner_claim, claim_list_hash, txn_hash, block_reward, next_block_reward, ref_hashes,
    miner_signature) = back;
    let out = BlockHeader {
        last_hash,
        last_state_root,
        block_height,
        block_seed,
        next_block_seed,
        round,
        epoch,
        timestamp,
        miner_claim,
        claim_list_hash,
        txn_hash,
        block_reward,
        next_block_reward,
        miner_signature,
        ref_hashes,
    };
    proof {
        assert(buf@.subrange(pos as int, p15 as int) =~= buf@.subrange(pos as int, p8 as int)
            + buf@.subrange(p8 as int, p15 as int));
        assert(buf@.subrange(pos as int, p15 as int) =~= header_bytes(out));
        assert forall|h: BlockHeader|
            #![trigger header_at(buf@, pos as int, h)]
            header_at(buf@, pos as int, h) implies header_equiv(out, h) && p15 as int == pos
            + header_bytes(h).len() by {
            assert(header_fields_at(buf@, pos as int, h));
        }
    }
    Some((out, p15))
}

/// A parent digest paired with a child digest, hashed together: the inner
/// node of a Merkle tree.
pub open spec fn merkle_pair(a: Seq<u8>, b: Seq<u8>) -> Seq<u8> {
    hex_to_bytes(sha256_hex(a + b))
}

/// One level up a Merkle tree: adjacent leaves hashed pairwise, an odd
/// last leaf promoted unchanged.
pub open spec fn merkle_level(leaves: Seq<Seq<u8>>) -> Seq<Seq<u8>> {
    Seq::new(
        ((leaves.len() + 1) / 2) as nat,
        |i: int|
            if 2 * i + 1 < leaves.len() {
                merkle_pair(leaves[2 * i], leaves[2 * i + 1])
            } else {
                leaves[2 * i]
            },
    )
}

/// The Merkle root over a list of digests: the digest of the empty byte
/// string for no leaves, the leaf itself for one, and the root over the
/// pairwise-hashed level otherwise.
pub open spec fn merkle_root_spec(leaves: Seq<Seq<u8>>) -> Seq<u8>
    decreases leaves.len(),
{
    if leaves.len() == 0 {
        hex_to_bytes(sha256_hex(Seq::<u8>::empty()))
    } else if leaves.len() == 1 {
        leaves[0]
    } else {
        merkle_root_spec(merkle_level(leaves))
    }
}

/// Hashes two digests into their Merkle parent.
fn merkle_pair_bytes(a: &Vec<u8>, b: &Vec<u8>) -> (r: Vec<u8>)
    ensures
        r@ == merkle_pair(a@, b@),
{
    let mut cat: Vec<u8> = Vec::new();
    let mut ac = clone_bytes(a);
    let mut bc = clone_bytes(b);
    cat.append(&mut ac);
    cat.append(&mut bc);
    proof {
        assert(cat@ =~= a@ + b@);
    }
    let digest_hex = sha256_digest(&cat);
    proof {
        lemma_hex_of_to_bytes(digest_hex@);
    }
    match hex_decode(digest_hex.as_str()) {
        Ok(d) => d,
        Err(_) => {
            proof {
                assert(hex_of(hex_to_bytes(digest_hex@)) == digest_hex@);
                assert(false);
            }
            Vec::new()
        },
    }
}

/// Copies a byte vector.
pub fn clone_bytes(v: &Vec<u8>) -> (r: Vec<u8>)
    ensures
        r@ == v@,
{
    let n = v.len();
    let mut out: Vec<u8> = Vec::new();
    let mut i: usize = 0;
    while i < n
        invariant
            n == v@.len(),
            i <= n,
            out@ == v@.subrange(0, i as int),
        decreases n - i,
    {
        out.push(v[i]);
        proof {
            assert(v@.subrange(0, i as int + 1) =~= v@.subrange(0, i as int).push(v@[i as int]));
        }
        i = i + 1;
    }
    proof {
        assert(v@.subrange(0, n as int) =~= v@);
    }
    out
}

/// The views of a vector of byte vectors.
pub open spec fn byte_views(v: Seq<Vec<u8>>) -> Seq<Seq<u8>> {
    v.map(|_i: int, b: Vec<u8>| b@)
}

/// Computes the Merkle root over a list of digests.
pub fn merkle_root(leaves: Vec<Vec<u8>>) -> (r: Vec<u8>)
    ensures
        r@ == merkle_root_spec(byte_views(leaves@)),
{
    if leaves.len() == 0 {
        let empty: Vec<u8> = Vec::new();
        let digest_hex = sha256_digest(&empty);
        proof {
            lemma_hex_of_to_bytes(digest_hex@);
        }
        return match hex_decode(digest_hex.as_str()) {
            Ok(d) => d,
            Err(_) => {
                proof {
                    assert(hex_of(hex_to_bytes(digest_hex@)) == digest_hex@);
                    assert(false);
                }
                Vec::new()
            },
        };
    }
    let mut level = leaves;
    while level.len() > 1
        invariant
            level@.len() >= 1,
            merkle_root_spec(byte_views(level@)) == merkle_root_spec(byte_views(leaves@)),
        decreases level@.len(),
    {
        let n = level.len();
        let mut next: Vec<Vec<u8>> = Vec::new();
        let mut i: usize = 0;
        while i + 1 < n
            invariant
                n == level@.len(),
                n > 1,
                i % 2 == 0,
                i <= n,
                next@.len() == i / 2,
                forall|k: int|
                    0 <= k < next@.len() ==> (#[trigger] next@[k])@ == merkle_level(
                        byte_views(level@),
                    )[k],
            decreases n - i,
        {
            let p = merkle_pair_bytes(&level[i], &level[i + 1]);
            proof {
                assert(merkle_level(byte_views(level@))[i as int / 2] == merkle_pair(
                    level@[i as int]@,
                    level@[i as int + 1]@,
                ));
            }
            next.push(p);
            i = i + 2;
        }
        if i < n {
            let last = clone_bytes(&level[i]);
            proof {
                assert(merkle_level(byte_views(level@))[i as int / 2] == byte_views(level@)[
                i as int]);
            }
            next.push(last);
        }
        proof {
            let lv = merkle_level(byte_views(level@));
            assert(byte_views(next@).len() == lv.len());
            assert(byte_views(next@) =~= lv);
        }
        level = next;
    }
    proof {
        assert(byte_views(level@).len() == 1);
    }
    let root = clone_bytes(&level[0]);
    root
}

} // verus!
