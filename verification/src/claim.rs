//! Claims: stake-bearing, signed participation tickets, with the
//! pointer-sum election primitive and the 256-bit election score.

use vstd::prelude::*;

use crate::codec::{
    ascii_chars, check_ascii, enc_str, push_str, push_u128_be, push_u64_be, read_str,
    read_u128_be, str_at, u128_be, u64_be,
};
use crate::crypto::{
    ecdsa_verifies, ecdsa_verify, hex_decode, hex_digit_char, hex_of, hex_to_bytes,
    is_digest_chars, lemma_hex_of_to_bytes, sha256_digest, sha256_hex,
};

verus! {

/// What a claim's owner is allowed to do this round.
#[derive(Debug, Clone, Copy, PartialEq, Eq, Hash, Structural)]
pub enum Eligibility {
    Miner,
    Farmer,
    Harvester,
    Ineligible,
}

/// The byte that stands for an eligibility tag in the canonical claim
/// payload.
pub open spec fn eligibility_tag(e: Eligibility) -> u8 {
    match e {
        Eligibility::Miner => 0,
        Eligibility::Farmer => 1,
        Eligibility::Harvester => 2,
        Eligibility::Ineligible => 3,
    }
}

/// Why a claim is rejected by `verify`.
#[derive(Debug, Clone, Copy, PartialEq, Eq, Structural)]
pub enum ClaimError {
    NonAsciiField,
    InvalidHash,
    InvalidSignature,
}

/// A participation ticket: the owner's key and addresses, an eligibility
/// tag, a monotonic nonce, a stake, a self-hash over the other fields and
/// an ECDSA signature over that hash.
#[derive(Debug, PartialEq, Eq, Hash)]
pub struct Claim {
    pub public_key: String,
    pub address: String,
    pub ip_address: String,
    pub node_id: String,
    pub signature: String,
    pub eligibility: Eligibility,
    pub hash: String,
    pub nonce: u128,
    pub stake: u128,
}

impl Clone for Claim {
    /// Clones the claim field by field; the copy equals the original.
    fn clone(&self) -> (res: Self)
        ensures
            res == *self,
    {
        Claim {
            public_key: self.public_key.clone(),
            address: self.address.clone(),
            ip_address: self.ip_address.clone(),
            node_id: self.node_id.clone(),
            signature: self.signature.clone(),
            eligibility: self.eligibility,
            hash: self.hash.clone(),
            nonce: self.nonce,
            stake: self.stake,
        }
    }
}

/// Whether every text field that enters the claim payload is ASCII.
pub open spec fn claim_fields_ascii(c: Claim) -> bool {
    &&& ascii_chars(c.public_key@)
    &&& ascii_chars(c.address@)
    &&& ascii_chars(c.ip_address@)
    &&& ascii_chars(c.node_id@)
}

/// The canonical payload a claim is hashed and signed over: every field
/// except the hash and the signature, in a fixed order.
pub open spec fn claim_payload_bytes(c: Claim) -> Seq<u8> {
    enc_str(c.public_key@) + enc_str(c.address@) + enc_str(c.ip_address@) + enc_str(c.node_id@)
        + seq![eligibility_tag(c.eligibility)] + u128_be(c.nonce) + u128_be(c.stake)
}

/// The self-hash a well-formed claim must carry: the SHA-256 digest of
/// its canonical payload, in lowercase hex.
pub open spec fn claim_hash_spec(c: Claim) -> Seq<char> {
    sha256_hex(claim_payload_bytes(c))
}

/// Whether a claim is internally valid: ASCII fields, the stored hash is
/// the payload digest, and the signature verifies under the owner's key
/// over the digest bytes.
pub open spec fn valid_claim(c: Claim) -> bool {
    &&& claim_fields_ascii(c)
    &&& c.hash@ == claim_hash_spec(c)
    &&& ecdsa_verifies(c.public_key@, c.signature@, hex_to_bytes(claim_hash_spec(c)))
}

impl Claim {
    /// Builds a claim over the given owner data, computing its self-hash.
    /// The claim starts Miner-eligible with nonce and stake zero; the
    /// caller supplies the signature over the hash's bytes.
    pub fn new(
        public_key: String,
        address: String,
        ip_address: String,
        signature: String,
        node_id: String,
    ) -> (r: Result<Claim, ClaimError>)
        ensures
            r is Ok <==> (ascii_chars(public_key@) && ascii_chars(address@) && ascii_chars(
                ip_address@,
            ) && ascii_chars(node_id@)),
            r matches Ok(c) ==> {
                &&& c.public_key == public_key
                &&& c.address == address
                &&& c.ip_address == ip_address
                &&& c.node_id == node_id
                &&& c.signature == signature
                &&& c.eligibility == Eligibility::Miner
                &&& c.nonce == 0
                &&& c.stake == 0
                &&& c.hash@ == claim_hash_spec(c)
            },
    {
        if !check_ascii(public_key.as_str()) || !check_ascii(address.as_str())
            || !check_ascii(ip_address.as_str()) || !check_ascii(node_id.as_str()) {
            return Err(ClaimError::NonAsciiField);
        }
        let mut c = Claim {
            public_key,
            address,
            ip_address,
            node_id,
            signature,
            eligibility: Eligibility::Miner,
            hash: String::new(),
            nonce: 0,
            stake: 0,
        };
        let h = c.compute_hash();
        c.hash = h;
        Ok(c)
    }

    /// The canonical payload of this claim as bytes.
    pub fn payload_bytes(&self) -> (r: Vec<u8>)
        requires
            claim_fields_ascii(*self),
        ensures
            r@ == claim_payload_bytes(*self),
    {
        let mut out: Vec<u8> = Vec::new();
        push_str(&mut out, &self.public_key);
        push_str(&mut out, &self.address);
        push_str(&mut out, &self.ip_address);
        push_str(&mut out, &self.node_id);
        let tag = match self.eligibility {
            Eligibility::Miner => 0u8,
            Eligibility::Farmer => 1u8,
            Eligibility::Harvester => 2u8,
            Eligibility::Ineligible => 3u8,
        };
        out.push(tag);
        push_u128_be(&mut out, self.nonce);
        push_u128_be(&mut out, self.stake);
        proof {
            assert(out@ =~= claim_payload_bytes(*self));
        }
        out
    }

    /// The SHA-256 digest of this claim's payload, in lowercase hex.
    pub fn compute_hash(&self) -> (r: String)
        requires
            claim_fields_ascii(*self),
        ensures
            r@ == claim_hash_spec(*self),
            is_digest_chars(r@),
    {
        let payload = self.payload_bytes();
        sha256_digest(&payload)
    }

    /// Checks the claim's internal invariant: ASCII fields, a matching
    /// self-hash, and a signature that verifies over the hash's bytes.
    pub fn verify(&self) -> (r: Result<(), ClaimError>)
        ensures
            r is Ok <==> valid_claim(*self),
            r == Err::<(), ClaimError>(ClaimError::NonAsciiField) <==> !claim_fields_ascii(*self),
            r == Err::<(), ClaimError>(ClaimError::InvalidHash) <==> (claim_fields_ascii(*self)
                && self.hash@ != claim_hash_spec(*self)),
            r == Err::<(), ClaimError>(ClaimError::InvalidSignature) <==> (claim_fields_ascii(
                *self,
            ) && self.hash@ == claim_hash_spec(*self) && !ecdsa_verifies(
                self.public_key@,
                self.signature@,
                hex_to_bytes(claim_hash_spec(*self)),
            )),
    {
        if !check_ascii(self.public_key.as_str()) || !check_ascii(self.address.as_str())
            || !check_ascii(self.ip_address.as_str()) || !check_ascii(self.node_id.as_str()) {
            return Err(ClaimError::NonAsciiField);
        }
        let computed = self.compute_hash();
        if !(self.hash == computed) {
            return Err(ClaimError::InvalidHash);
        }
        proof {
            lemma_hex_of_to_bytes(computed@);
        }
        let digest = match hex_decode(computed.as_str()) {
            Ok(d) => d,
            Err(_) => {
                proof {
                    assert(hex_of(hex_to_bytes(computed@)) == computed@);
                    assert(false);
                }
                return Err(ClaimError::InvalidHash);
            },
        };
        if ecdsa_verify(&self.public_key, &self.signature, &digest) {
            Ok(())
        } else {
            Err(ClaimError::InvalidSignature)
        }
    }

    /// Advances the claim's nonce by one and recomputes the self-hash,
    /// as happens when a block is finalized. The signature is left in
    /// place and no longer matches until the owner re-signs.
    pub fn nonce_up(&mut self)
        requires
            old(self).nonce < u128::MAX,
            claim_fields_ascii(*old(self)),
        ensures
            final(self).nonce == old(self).nonce + 1,
            final(self).public_key == old(self).public_key,
            final(self).address == old(self).address,
            final(self).ip_address == old(self).ip_address,
            final(self).node_id == old(self).node_id,
            final(self).signature == old(self).signature,
            final(self).eligibility == old(self).eligibility,
            final(self).stake == old(self).stake,
            final(self).hash@ == claim_hash_spec(*final(self)),
    {
        self.nonce = self.nonce + 1;
        let h = self.compute_hash();
        self.hash = h;
    }

    /// The pointer value of this claim for a round seed: the sum of the
    /// indices at which the seed's decimal digits appear, scanned left to
    /// right through the claim's hash. `None` when the claim is not
    /// Miner-eligible or some digit never appears.
    pub fn get_pointer(&self, seed: u128) -> (r: Option<u128>)
        ensures
            r == pointer_spec(*self, seed),
    {
        if !matches!(self.eligibility, Eligibility::Miner) {
            return None;
        }
        let mut digits: Vec<u8> = Vec::new();
        push_decimal_digits(seed, &mut digits);
        proof {
            lemma_decimal_digits_bounds(seed);
        }
        let h = &self.hash;
        let hlen = h.as_str().unicode_len();
        let dlen = digits.len();
        let mut k: usize = 0;
        let mut start: usize = 0;
        let mut acc: u128 = 0;
        while k < dlen
            invariant
                self.eligibility == Eligibility::Miner,
                h@ == self.hash@,
                dlen == digits@.len(),
                hlen == h@.len(),
                digits@ == decimal_digits(seed),
                forall|j: int| 0 <= j < digits@.len() ==> (#[trigger] digits@[j]) < 10,
                k <= dlen,
                start <= hlen,
                acc <= k * 0x10000000000000000,
                hlen <= 0xffffffffffffffff,
                dlen <= 40,
                pointer_from(h@, digits@, 0, 0, 0) == pointer_from(
                    h@,
                    digits@,
                    k as int,
                    start as int,
                    acc as int,
                ),
            decreases dlen - k,
        {
            let c = digit_to_char(digits[k]);
            match find_char_from(h, start, c) {
                None => {
                    proof {
                        assert(pointer_from(h@, digits@, k as int, start as int, acc as int)
                            == None::<int>);
                        assert(pointer_spec(*self, seed) == None::<u128>);
                    }
                    return None;
                },
                Some(i) => {
                    proof {
                        lemma_find_from_bounds(h@, start as int, c);
                    }
                    acc = acc + i as u128;
                    start = i + 1;
                },
            }
            k = k + 1;
        }
        Some(acc)
    }

    /// The claim's 256-bit election score for a seed: the SHA-256 digest
    /// of its hash and the seed, as 32 raw bytes compared bytewise.
    pub fn get_election_result(&self, seed: u64) -> (r: Vec<u8>)
        requires
            ascii_chars(self.hash@),
        ensures
            r@ == election_result_spec(*self, seed),
            r@.len() == 32,
    {
        let mut payload: Vec<u8> = Vec::new();
        push_str(&mut payload, &self.hash);
        push_u64_be(&mut payload, seed);
        let digest_hex = sha256_digest(&payload);
        proof {
            lemma_hex_of_to_bytes(digest_hex@);
        }
        match hex_decode(digest_hex.as_str()) {
            Ok(b) => b,
            Err(_) => {
                proof {
                    assert(hex_of(hex_to_bytes(digest_hex@)) == digest_hex@);
                    assert(false);
                }
                Vec::new()
            },
        }
    }
}

/// Whether every text field of a claim, its hash and signature included,
/// is ASCII and short enough to encode.
pub open spec fn claim_enc_wf(c: Claim) -> bool {
    &&& crate::header::claim_text_ascii(c)
    &&& c.public_key@.len() < 0x10000000000000000
    &&& c.address@.len() < 0x10000000000000000
    &&& c.ip_address@.len() < 0x10000000000000000
    &&& c.node_id@.len() < 0x10000000000000000
    &&& c.hash@.len() < 0x10000000000000000
    &&& c.signature@.len() < 0x10000000000000000
}

/// An encoded claim stands at `pos`, followed by anything.
pub open spec fn claim_at(buf: Seq<u8>, pos: int, c: Claim) -> bool {
    &&& claim_enc_wf(c)
    &&& pos + crate::header::claim_enc(c).len() <= buf.len()
    &&& buf.subrange(pos, buf.len() as int) == crate::header::claim_enc(c) + buf.subrange(
        pos + crate::header::claim_enc(c).len(),
        buf.len() as int,
    )
}

/// Whether two claims agree field by field, comparing text by content.
pub open spec fn claim_equiv(a: Claim, b: Claim) -> bool {
    &&& a.public_key@ == b.public_key@
    &&& a.address@ == b.address@
    &&& a.ip_address@ == b.ip_address@
    &&& a.node_id@ == b.node_id@
    &&& a.signature@ == b.signature@
    &&& a.eligibility == b.eligibility
    &&& a.hash@ == b.hash@
    &&& a.nonce == b.nonce
    &&& a.stake == b.stake
}

/// Reads back a canonically encoded claim stored at `pos`. Whenever an
/// encoded claim stands there, a claim with exactly its fields is read
/// back: decoding inverts encoding.
#[verifier::rlimit(100)]
#[verifier::spinoff_prover]
pub fn claim_from_bytes(buf: &Vec<u8>, pos: usize) -> (r: Option<(Claim, usize)>)
    requires
        pos <= buf@.len(),
    ensures
        r matches Some(p) ==> {
            &&& pos < p.1 <= buf@.len()
            &&& claim_enc_wf(p.0)
            &&& buf@.subrange(pos as int, p.1 as int) == crate::header::claim_enc(p.0)
        },
        forall|c: Claim|
            claim_at(buf@, pos as int, c) ==> (r matches Some(p) && claim_equiv(p.0, c)
                && p.1 as int == pos + crate::header::claim_enc(c).len()),
{
    let n = buf.len();
    proof {
        assert forall|c: Claim| claim_at(buf@, pos as int, c) implies str_at(
            buf@,
            pos as int,
            c.public_key@,
        ) by {
            lemma_claim_at_fields(buf@, pos as int, c);
        }
    }
    let (public_key, p1) = match read_str(buf, pos) {
        Some(p) => p,
        None => {
            return None;
        },
    };
    proof {
        assert forall|c: Claim| claim_at(buf@, pos as int, c) implies str_at(
            buf@,
            p1 as int,
            c.address@,
        ) && public_key@ == c.public_key@ by {
            lemma_claim_at_fields(buf@, pos as int, c);
        }
    }
    let (address, p2) = match read_str(buf, p1) {
        Some(p) => p,
        None => {
            return None;
        },
    };
    proof {
        assert forall|c: Claim| claim_at(buf@, pos as int, c) implies str_at(
            buf@,
            p2 as int,
            c.ip_address@,
        ) by {
            lemma_claim_at_fields(buf@, pos as int, c);
        }
    }
    let (ip_address, p3) = match read_str(buf, p2) {
        Some(p) => p,
        None => {
            return None;
        },
    };
    proof {
        assert forall|c: Claim| claim_at(buf@, pos as int, c) implies str_at(
            buf@,
            p3 as int,
            c.node_id@,
        ) by {
            lemma_claim_at_fields(buf@, pos as int, c);
        }
    }
    let (node_id, p4) = match read_str(buf, p3) {
        Some(p) => p,
        None => {
            return None;
        },
    };
    if n - p4 < 33 {
        proof {
            assert forall|c: Claim| !claim_at(buf@, pos as int, c) by {
                if claim_at(buf@, pos as int, c) {
                    lemma_claim_at_fields(buf@, pos as int, c);
                }
            }
        }
        return None;
    }
    let tag = buf[p4];
    proof {
        assert forall|c: Claim| claim_at(buf@, pos as int, c) implies buf@[p4 as int]
            == eligibility_tag(c.eligibility) by {
            lemma_claim_at_fields(buf@, pos as int, c);
        }
    }
    let eligibility = match tag {
        0 => Eligibility::Miner,
        1 => Eligibility::Farmer,
        2 => Eligibility::Harvester,
        3 => Eligibility::Ineligible,
        _ => {
            proof {
                assert forall|c: Claim| !claim_at(buf@, pos as int, c) by {
                    if claim_at(buf@, pos as int, c) {
                        assert(buf@[p4 as int] == eligibility_tag(c.eligibility));
                    }
                }
            }
            return None;
        },
    };
    let nonce = read_u128_be(buf, p4 + 1);
    let stake = read_u128_be(buf, p4 + 17);
    let p5 = p4 + 33;
    proof {
        assert forall|c: Claim| claim_at(buf@, pos as int, c) implies str_at(
            buf@,
            p5 as int,
            c.hash@,
        ) && nonce == c.nonce && stake == c.stake && eligibility == c.eligibility by {
            lemma_claim_at_fields(buf@, pos as int, c);
            crate::codec::lemma_u128_be_roundtrip(c.nonce);
            crate::codec::lemma_u128_be_roundtrip(c.stake);
        }
    }
    let (hash, p6) = match read_str(buf, p5) {
        Some(p) => p,
        None => {
            return None;
        },
    };
    proof {
        assert forall|c: Claim| claim_at(buf@, pos as int, c) implies str_at(
            buf@,
            p6 as int,
            c.signature@,
        ) by {
            lemma_claim_at_fields(buf@, pos as int, c);
        }
    }
    let (signature, p7) = match read_str(buf, p6) {
        Some(p) => p,
        None => {
            return None;
        },
    };
    let out = Claim {
        public_key,
        address,
        ip_address,
        node_id,
        signature,
        eligibility,
        hash,
        nonce,
        stake,
    };
    proof {
        lemma_claim_reassemble(
            buf@,
            pos as int,
            p1 as int,
            p2 as int,
            p3 as int,
            p4 as int,
            p5 as int,
            p6 as int,
            p7 as int,
            out,
            nonce,
            stake,
        );
        assert forall|c: Claim| claim_at(buf@, pos as int, c) implies claim_equiv(out, c)
            && p7 as int == pos + crate::header::claim_enc(c).len() by {
            lemma_claim_at_fields(buf@, pos as int, c);
        }
    }
    Some((out, p7))
}

/// Reassembles the canonical claim encoding from the byte segments the
/// decoder consumed.
#[verifier::rlimit(60)]
proof fn lemma_claim_reassemble(
    buf: Seq<u8>,
    pos: int,
    p1: int,
    p2: int,
    p3: int,
    p4: int,
    p5: int,
    p6: int,
    p7: int,
    out: Claim,
    nonce: u128,
    stake: u128,
)
    requires
        0 <= pos <= p1 <= p2 <= p3 <= p4,
        p4 + 33 == p5 <= p6 <= p7 <= buf.len(),
        buf.subrange(pos, p1) == enc_str(out.public_key@),
        buf.subrange(p1, p2) == enc_str(out.address@),
        buf.subrange(p2, p3) == enc_str(out.ip_address@),
        buf.subrange(p3, p4) == enc_str(out.node_id@),
        buf[p4] == eligibility_tag(out.eligibility),
        nonce == crate::codec::be_val128(buf.subrange(p4 + 1, p4 + 17)),
        stake == crate::codec::be_val128(buf.subrange(p4 + 17, p4 + 33)),
        out.nonce == nonce,
        out.stake == stake,
        buf.subrange(p5, p6) == enc_str(out.hash@),
        buf.subrange(p6, p7) == enc_str(out.signature@),
    ensures
        buf.subrange(pos, p7) == crate::header::claim_enc(out),
{
    crate::codec::lemma_be_bytes_inverse128(buf.subrange(p4 + 1, p4 + 17));
    crate::codec::lemma_be_bytes_inverse128(buf.subrange(p4 + 17, p4 + 33));
    assert(buf.subrange(p4, p4 + 1) =~= seq![eligibility_tag(out.eligibility)]);
    assert(buf.subrange(pos, p7) =~= buf.subrange(pos, p1) + buf.subrange(p1, p2) + buf.subrange(
        p2,
        p3,
    ) + buf.subrange(p3, p4) + buf.subrange(p4, p4 + 1) + buf.subrange(p4 + 1, p4 + 17)
        + buf.subrange(p4 + 17, p4 + 33) + buf.subrange(p5, p6) + buf.subrange(p6, p7));
    assert(buf.subrange(pos, p7) =~= crate::header::claim_enc(out));
}

/// Decomposes an encoded claim standing at `pos` into its fields: each
/// string field stands encoded at its offset, the tag byte holds the
/// eligibility, and the two 128-bit values hold the nonce and stake.
#[verifier::rlimit(60)]
proof fn lemma_claim_at_fields(buf: Seq<u8>, pos: int, c: Claim)
    requires
        0 <= pos,
        claim_at(buf, pos, c),
    ensures
        str_at(buf, pos, c.public_key@),
        str_at(buf, pos + 8 + c.public_key@.len(), c.address@),
        str_at(buf, pos + 16 + c.public_key@.len() + c.address@.len(), c.ip_address@),
        str_at(
            buf,
            pos + 24 + c.public_key@.len() + c.address@.len() + c.ip_address@.len(),
            c.node_id@,
        ),
        ({
            let p4 = pos + 32 + c.public_key@.len() + c.address@.len() + c.ip_address@.len()
                + c.node_id@.len();
            &&& p4 + 33 <= buf.len()
            &&& buf[p4] == eligibility_tag(c.eligibility)
            &&& buf.subrange(p4 + 1, p4 + 17) == u128_be(c.nonce)
            &&& buf.subrange(p4 + 17, p4 + 33) == u128_be(c.stake)
            &&& str_at(buf, p4 + 33, c.hash@)
            &&& str_at(buf, p4 + 41 + c.hash@.len(), c.signature@)
            &&& pos + crate::header::claim_enc(c).len() == p4 + 49 + c.hash@.len()
                + c.signature@.len()
        }),
{
    let full = crate::header::claim_enc(c);
    let n = buf.len() as int;
    let suffix = buf.subrange(pos, n);
    let rest = buf.subrange(pos + full.len(), n);
    assert(suffix == full + rest);
    let e1 = enc_str(c.public_key@);
    let e2 = enc_str(c.address@);
    let e3 = enc_str(c.ip_address@);
    let e4 = enc_str(c.node_id@);
    let e5 = seq![eligibility_tag(c.eligibility)];
    let e6 = u128_be(c.nonce);
    let e7 = u128_be(c.stake);
    let e8 = enc_str(c.hash@);
    let e9 = enc_str(c.signature@);
    let r2 = e2 + e3 + e4 + e5 + e6 + e7 + e8 + e9;
    let r3 = e3 + e4 + e5 + e6 + e7 + e8 + e9;
    let r4 = e4 + e5 + e6 + e7 + e8 + e9;
    let r5 = e5 + e6 + e7 + e8 + e9;
    let r6 = e6 + e7 + e8 + e9;
    let r7 = e7 + e8 + e9;
    let r8 = e8 + e9;
    let o1 = pos + e1.len();
    let o2 = o1 + e2.len();
    let o3 = o2 + e3.len();
    let o4 = o3 + e4.len();
    let o5 = o4 + 1;
    let o6 = o5 + 16;
    let o7 = o6 + 16;
    let o8 = o7 + e8.len();
    assert(suffix =~= e1 + (r2 + rest));
    crate::codec::lemma_concat_tail(buf, pos, e1, r2 + rest);
    assert(r2 + rest =~= e2 + (r3 + rest));
    crate::codec::lemma_concat_tail(buf, o1, e2, r3 + rest);
    assert(r3 + rest =~= e3 + (r4 + rest));
    crate::codec::lemma_concat_tail(buf, o2, e3, r4 + rest);
    assert(r4 + rest =~= e4 + (r5 + rest));
    crate::codec::lemma_concat_tail(buf, o3, e4, r5 + rest);
    assert(r5 + rest =~= e5 + (r6 + rest));
    crate::codec::lemma_concat_tail(buf, o4, e5, r6 + rest);
    assert(r6 + rest =~= e6 + (r7 + rest));
    crate::codec::lemma_concat_tail(buf, o5, e6, r7 + rest);
    assert(r7 + rest =~= e7 + (r8 + rest));
    crate::codec::lemma_concat_tail(buf, o6, e7, r8 + rest);
    assert(r8 + rest =~= e8 + (e9 + rest));
    crate::codec::lemma_concat_tail(buf, o7, e8, e9 + rest);
    crate::codec::lemma_concat_tail(buf, o8, e9, rest);
    assert(buf.subrange(o4, n)[0] == buf[o4]);
    assert(buf.subrange(o4, n)[0] == (e5 + (r6 + rest))[0]);
    assert((e5 + (r6 + rest))[0] == e5[0]);
    assert(buf.subrange(o5, o6) =~= u128_be(c.nonce)) by {
        assert(buf.subrange(o5, n) == e6 + (r7 + rest));
        assert forall|q: int| 0 <= q < 16 implies buf.subrange(o5, o6)[q] == e6[q] by {
            assert(buf.subrange(o5, n)[q] == (e6 + (r7 + rest))[q]);
            assert(buf.subrange(o5, n)[q] == buf[o5 + q]);
            assert(buf.subrange(o5, o6)[q] == buf[o5 + q]);
        }
    }
    assert(buf.subrange(o6, o7) =~= u128_be(c.stake)) by {
        assert(buf.subrange(o6, n) == e7 + (r8 + rest));
        assert forall|q: int| 0 <= q < 16 implies buf.subrange(o6, o7)[q] == e7[q] by {
            assert(buf.subrange(o6, n)[q] == (e7 + (r8 + rest))[q]);
            assert(buf.subrange(o6, n)[q] == buf[o6 + q]);
            assert(buf.subrange(o6, o7)[q] == buf[o6 + q]);
        }
    }
    assert(buf.subrange(o4, n)[0] == buf[o4]);
}

/// The claim's 256-bit election score for a seed: the bytes whose hex
/// encoding is the SHA-256 digest of the claim hash followed by the seed.
pub open spec fn election_result_spec(c: Claim, seed: u64) -> Seq<u8> {
    hex_to_bytes(sha256_hex(enc_str(c.hash@) + u64_be(seed)))
}

/// The decimal digits of `n`, most significant first; zero is the single
/// digit zero.
pub open spec fn decimal_digits(n: u128) -> Seq<u8>
    decreases n,
{
    if n < 10 {
        seq![n as u8]
    } else {
        decimal_digits(n / 10).push((n % 10) as u8)
    }
}

/// Ten to the `k`-th power.
pub open spec fn pow10(k: nat) -> int
    decreases k,
{
    if k == 0 {
        1
    } else {
        10 * pow10((k - 1) as nat)
    }
}

/// A value below ten to the `k` has at most `k` decimal digits.
proof fn lemma_decimal_digits_len(n: u128, k: nat)
    requires
        k >= 1,
        (n as int) < pow10(k),
    ensures
        decimal_digits(n).len() <= k,
    decreases n,
{
    if n >= 10 {
        assert(pow10(k) == 10 * pow10((k - 1) as nat));
        if k == 1 {
            assert(pow10(0nat) == 1);
            assert(false);
        }
        assert(((n / 10) as int) < pow10((k - 1) as nat));
        lemma_decimal_digits_len(n / 10, (k - 1) as nat);
    }
}

/// Every decimal digit is below ten, and a 128-bit value has at most
/// forty of them.
pub proof fn lemma_decimal_digits_bounds(n: u128)
    ensures
        1 <= decimal_digits(n).len() <= 40,
        forall|j: int| 0 <= j < decimal_digits(n).len() ==> (#[trigger] decimal_digits(n)[j]) < 10,
{
    lemma_decimal_digits_all_below_ten(n);
    reveal_with_fuel(pow10, 41);
    assert(pow10(40nat) == 10000000000000000000000000000000000000000int);
    lemma_decimal_digits_len(n, 40);
}

/// Every decimal digit is below ten.
proof fn lemma_decimal_digits_all_below_ten(n: u128)
    ensures
        1 <= decimal_digits(n).len(),
        forall|j: int| 0 <= j < decimal_digits(n).len() ==> (#[trigger] decimal_digits(n)[j]) < 10,
    decreases n,
{
    if n >= 10 {
        lemma_decimal_digits_all_below_ten(n / 10);
    }
}

/// Appends the decimal digits of `n`, most significant first, to `out`.
pub fn push_decimal_digits(n: u128, out: &mut Vec<u8>)
    ensures
        final(out)@ == old(out)@ + decimal_digits(n),
    decreases n,
{
    if n >= 10 {
        push_decimal_digits(n / 10, out);
    }
    out.push((n % 10) as u8);
    proof {
        if n >= 10 {
            assert(old(out)@ + decimal_digits(n) =~= (old(out)@ + decimal_digits(n / 10)).push(
                (n % 10) as u8,
            ));
        } else {
            assert(old(out)@ + decimal_digits(n) =~= old(out)@.push(n as u8));
        }
    }
}

/// The character that spells a single decimal digit.
pub fn digit_to_char(d: u8) -> (c: char)
    requires
        d < 10,
    ensures
        c == hex_digit_char(d),
{
    match d {
        0 => '0',
        1 => '1',
        2 => '2',
        3 => '3',
        4 => '4',
        5 => '5',
        6 => '6',
        7 => '7',
        8 => '8',
        _ => '9',
    }
}

/// The least index at or after `start` where `c` occurs in `h`.
pub open spec fn find_from(h: Seq<char>, start: int, c: char) -> Option<int>
    decreases h.len() - start,
{
    if start < 0 || start >= h.len() {
        None
    } else if h[start] == c {
        Some(start)
    } else {
        find_from(h, start + 1, c)
    }
}

/// A found index lies in range, holds the character, and nothing before
/// it does; `None` means the character never occurs from `start` on.
pub proof fn lemma_find_from_bounds(h: Seq<char>, start: int, c: char)
    requires
        0 <= start <= h.len(),
    ensures
        match find_from(h, start, c) {
            Some(i) => start <= i < h.len() && h[i] == c && (forall|j: int|
                start <= j < i ==> h[j] != c),
            None => forall|j: int| start <= j < h.len() ==> h[j] != c,
        },
    decreases h.len() - start,
{
    if start < h.len() && h[start] != c {
        lemma_find_from_bounds(h, start + 1, c);
    }
}

/// Scans `h` from `start` for the character `c`.
pub fn find_char_from(h: &String, start: usize, c: char) -> (r: Option<usize>)
    requires
        start <= h@.len(),
    ensures
        match r {
            Some(i) => Some(i as int) == find_from(h@, start as int, c),
            None => None::<int> == find_from(h@, start as int, c),
        },
{
    let len = h.as_str().unicode_len();
    let mut i: usize = start;
    while i < len
        invariant
            len == h@.len(),
            start <= i <= len,
            find_from(h@, start as int, c) == find_from(h@, i as int, c),
        decreases len - i,
    {
        let ch = h.as_str().get_char(i);
        if ch == c {
            return Some(i);
        }
        i = i + 1;
    }
    None
}

/// The pointer sum accumulated from digit `k` on, scanning `h` from
/// `start` with partial sum `acc`.
pub open spec fn pointer_from(
    h: Seq<char>,
    digits: Seq<u8>,
    k: int,
    start: int,
    acc: int,
) -> Option<int>
    decreases digits.len() - k,
{
    if k < 0 || k >= digits.len() {
        Some(acc)
    } else {
        match find_from(h, start, hex_digit_char(digits[k])) {
            None => None,
            Some(i) => pointer_from(h, digits, k + 1, i + 1, acc + i),
        }
    }
}

/// The pointer value of a claim for a seed: defined only for
/// Miner-eligible claims whose hash contains every decimal digit of the
/// seed, scanned left to right.
pub open spec fn pointer_spec(c: Claim, seed: u128) -> Option<u128> {
    if c.eligibility != Eligibility::Miner {
        None
    } else {
        match pointer_from(c.hash@, decimal_digits(seed), 0, 0, 0) {
            None => None,
            Some(v) => Some(v as u128),
        }
    }
}

} // verus!
