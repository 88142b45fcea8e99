//! Blocks: the genesis, proposal and convergence variants, their content
//! digests over Merkle roots, the certificates that finalize them, and
//! the builders that assemble and sign new blocks.

use vstd::prelude::*;

use crate::claim::Claim;
use crate::codec::{ascii_chars, enc_str, push_str, push_u128_be, u128_be, u64_be, push_u64_be};
use crate::crypto::{
    ecdsa_pubkey_of, ecdsa_sign, hex_decode, hex_of, hex_to_bytes, is_digest_chars,
    is_valid_seckey, lemma_digest_chars_ascii, lemma_hex_of_to_bytes, sha256_digest, sha256_hex,
};
use crate::header::{
    all_ascii, byte_views, claim_enc, claim_text_ascii, clone_bytes, genesis_last_hash,
    genesis_last_hash_spec, genesis_state_hash, genesis_state_hash_spec, header_bytes,
    header_signature_ok, header_text_ascii, merkle_root, merkle_root_spec, push_claim,
    BlockHeader,
};
use crate::txn::{txn_digest_spec, txn_fields_ascii, TransactionKind};

verus! {

/// The threshold-signature certificate that finalizes a block.
#[derive(Debug, PartialEq, Eq, Hash)]
pub struct Certificate {
    pub signature: String,
    pub inauguration: Option<Vec<String>>,
    pub root_hash: String,
    pub next_root_hash: String,
    pub block_hash: String,
}

/// A transaction certified by a farmer quorum: the farmer that proposed
/// it, the transaction, and the quorum's threshold signature over it.
#[derive(Debug, PartialEq, Eq, Hash)]
pub struct QuorumCertifiedTxn {
    pub farmer_id: String,
    pub txn: TransactionKind,
    pub signature: String,
}

/// The first block of the chain: height zero, the fixed genesis parent
/// hash, and the fixed genesis state digest.
#[derive(Debug, PartialEq, Eq, Hash)]
pub struct GenesisBlock {
    pub header: BlockHeader,
    pub txns: Vec<(String, TransactionKind)>,
    pub claims: Vec<(String, Claim)>,
    pub hash: String,
    pub certificate: Option<Certificate>,
}

/// A block built by a farmer node, referencing its parent convergence
/// block by hash.
#[derive(Debug, PartialEq, Eq, Hash)]
pub struct ProposalBlock {
    pub header: BlockHeader,
    pub ref_hash: String,
    pub round: u128,
    pub epoch: u128,
    pub txns: Vec<(String, QuorumCertifiedTxn)>,
    pub claims: Vec<(String, Claim)>,
    pub from_claim: Claim,
    pub signature: String,
}

/// A block mined by the elected miner, consolidating one or more
/// proposal blocks of the same round; the consolidated proposal hashes
/// sit in the header's reference list, and the maps below list, for each
/// referenced proposal, which claims and transactions were taken.
#[derive(Debug, PartialEq, Eq, Hash)]
pub struct ConvergenceBlock {
    pub header: BlockHeader,
    pub txns: Vec<(String, Vec<String>)>,
    pub claims: Vec<(String, Vec<String>)>,
    pub hash: String,
    pub certificate: Option<Certificate>,
}

/// A block of any of the three kinds.
#[derive(Debug, PartialEq, Eq, Hash)]
pub enum Block {
    Genesis(GenesisBlock),
    Proposal(ProposalBlock),
    Convergence(ConvergenceBlock),
}

/// The Merkle leaf that stands for a string: the digest of its bytes.
pub open spec fn leaf_of_str(s: Seq<char>) -> Seq<u8> {
    hex_to_bytes(sha256_hex(crate::codec::ascii_bytes(s)))
}

/// Computes the Merkle leaf for a string.
pub fn leaf_of(s: &String) -> (r: Vec<u8>)
    requires
        ascii_chars(s@),
    ensures
        r@ == leaf_of_str(s@),
{
    let bytes = crate::codec::ascii_str_to_bytes(s.as_str());
    let digest_hex = sha256_digest(&bytes);
    proof {
        lemma_hex_of_to_bytes(digest_hex@);
    }
    match hex_decode(digest_hex.as_str()) {
        Ok(d) => d,
        Err(_) => {
            proof {
                assert(hex_of(hex_to_bytes(digest_hex@)) == digest_hex@);
                assert(false);
            }
            Vec::new()
        },
    }
}

/// The Merkle leaves of a list of strings.
pub open spec fn leaves_of_strs(l: Seq<String>) -> Seq<Seq<u8>> {
    l.map(|_i: int, s: String| leaf_of_str(s@))
}

/// Computes the Merkle leaves for a list of strings.
pub fn leaves_of(l: &Vec<String>) -> (r: Vec<Vec<u8>>)
    requires
        all_ascii(l@),
    ensures
        byte_views(r@) == leaves_of_strs(l@),
{
    let n = l.len();
    let mut out: Vec<Vec<u8>> = Vec::new();
    let mut i: usize = 0;
    while i < n
        invariant
            n == l@.len(),
            i <= n,
            all_ascii(l@),
            out@.len() == i,
            forall|k: int| 0 <= k < i ==> (#[trigger] out@[k])@ == leaf_of_str(l@[k]@),
        decreases n - i,
    {
        let leaf = leaf_of(&l[i]);
        out.push(leaf);
        i = i + 1;
    }
    proof {
        assert(byte_views(out@) =~= leaves_of_strs(l@));
    }
    out
}

/// The content digest of a block with the given header, transaction
/// leaves and reference leaves: the digest of the canonical header
/// encoding followed by the two Merkle roots.
pub open spec fn block_hash_spec(
    h: BlockHeader,
    txn_leaves: Seq<Seq<u8>>,
    ref_leaves: Seq<Seq<u8>>,
) -> Seq<char> {
    sha256_hex(header_bytes(h) + merkle_root_spec(txn_leaves) + merkle_root_spec(ref_leaves))
}

/// Hashes a header together with precomputed transaction and reference
/// leaves.
pub fn compute_block_hash(h: &BlockHeader, txn_leaves: Vec<Vec<u8>>, ref_leaves: Vec<Vec<u8>>) -> (r:
    String)
    requires
        header_text_ascii(*h),
    ensures
        r@ == block_hash_spec(*h, byte_views(txn_leaves@), byte_views(ref_leaves@)),
        is_digest_chars(r@),
{
    let mut bytes = h.canonical_bytes();
    let mut txn_root = merkle_root(txn_leaves);
    let mut ref_root = merkle_root(ref_leaves);
    bytes.append(&mut txn_root);
    bytes.append(&mut ref_root);
    proof {
        assert(bytes@ =~= header_bytes(*h) + merkle_root_spec(byte_views(txn_leaves@))
            + merkle_root_spec(byte_views(ref_leaves@)));
    }
    sha256_digest(&bytes)
}

/// The concatenation of a list of byte strings.
pub open spec fn cat_bytes(l: Seq<Seq<u8>>) -> Seq<u8>
    decreases l.len(),
{
    if l.len() == 0 {
        Seq::<u8>::empty()
    } else {
        cat_bytes(l.drop_last()) + l.last()
    }
}

/// The canonical encoding of a claim-list entry.
pub open spec fn claim_entry_enc(e: (String, Claim)) -> Seq<u8> {
    enc_str(e.0@) + claim_enc(e.1)
}

/// The canonical encoding of a claim list: its length, then each key and
/// claim in order.
pub open spec fn claim_list_enc(l: Seq<(String, Claim)>) -> Seq<u8> {
    u64_be(l.len() as u64) + cat_bytes(l.map(|_i: int, e: (String, Claim)| claim_entry_enc(e)))
}

/// Whether every claim-list entry's text is ASCII.
pub open spec fn claim_list_ascii(l: Seq<(String, Claim)>) -> bool {
    forall|i: int|
        0 <= i < l.len() ==> ascii_chars((#[trigger] l[i]).0@) && claim_text_ascii(l[i].1)
}

/// Appends the canonical encoding of a claim list to `out`.
pub fn push_claim_list(out: &mut Vec<u8>, l: &Vec<(String, Claim)>)
    requires
        claim_list_ascii(l@),
    ensures
        final(out)@ == old(out)@ + claim_list_enc(l@),
{
    let n = l.len();
    push_u64_be(out, n as u64);
    let ghost mid = out@;
    let ghost encs = l@.map(|_i: int, e: (String, Claim)| claim_entry_enc(e));
    let mut i: usize = 0;
    while i < n
        invariant
            n == l@.len(),
            i <= n,
            claim_list_ascii(l@),
            encs == l@.map(|_i: int, e: (String, Claim)| claim_entry_enc(e)),
            out@ == mid + cat_bytes(encs.take(i as int)),
        decreases n - i,
    {
        push_str(out, &l[i].0);
        push_claim(out, &l[i].1);
        proof {
            assert(encs.take(i as int + 1).drop_last() =~= encs.take(i as int));
            assert(encs.take(i as int + 1).last() == claim_entry_enc(l@[i as int]));
            assert(out@ =~= mid + cat_bytes(encs.take(i as int + 1)));
        }
        i = i + 1;
    }
    proof {
        assert(encs.take(n as int) =~= encs);
        assert(out@ =~= old(out)@ + claim_list_enc(l@));
    }
}

/// The digest of a claim list's canonical encoding, in lowercase hex.
pub open spec fn claim_list_hash_spec(l: Seq<(String, Claim)>) -> Seq<char> {
    sha256_hex(claim_list_enc(l))
}

/// Hashes a claim list's canonical encoding.
pub fn claim_list_hash(l: &Vec<(String, Claim)>) -> (r: String)
    requires
        claim_list_ascii(l@),
    ensures
        r@ == claim_list_hash_spec(l@),
        is_digest_chars(r@),
{
    let mut bytes: Vec<u8> = Vec::new();
    push_claim_list(&mut bytes, l);
    proof {
        assert(bytes@ =~= claim_list_enc(l@));
    }
    sha256_digest(&bytes)
}

/// The Merkle leaves of a genesis transaction list: each transaction's
/// digest bytes, in list order.
pub open spec fn genesis_txn_leaves(l: Seq<(String, TransactionKind)>) -> Seq<Seq<u8>> {
    l.map(|_i: int, e: (String, TransactionKind)| hex_to_bytes(txn_digest_spec(e.1)))
}

/// Whether every transaction entry's text is ASCII.
pub open spec fn txn_list_ascii(l: Seq<(String, TransactionKind)>) -> bool {
    forall|i: int|
        0 <= i < l.len() ==> ascii_chars((#[trigger] l[i]).0@) && txn_fields_ascii(l[i].1)
}

/// Computes the Merkle leaves of a genesis transaction list.
pub fn genesis_txn_leaf_vec(l: &Vec<(String, TransactionKind)>) -> (r: Vec<Vec<u8>>)
    requires
        txn_list_ascii(l@),
    ensures
        byte_views(r@) == genesis_txn_leaves(l@),
{
    let n = l.len();
    let mut out: Vec<Vec<u8>> = Vec::new();
    let mut i: usize = 0;
    while i < n
        invariant
            n == l@.len(),
            i <= n,
            txn_list_ascii(l@),
            out@.len() == i,
            forall|k: int|
                0 <= k < i ==> (#[trigger] out@[k])@ == hex_to_bytes(txn_digest_spec(l@[k].1)),
        decreases n - i,
    {
        let digest_hex = l[i].1.id();
        proof {
            lemma_hex_of_to_bytes(digest_hex@);
        }
        let leaf = match hex_decode(digest_hex.as_str()) {
            Ok(d) => d,
            Err(_) => {
                proof {
                    assert(hex_of(hex_to_bytes(digest_hex@)) == digest_hex@);
                    assert(false);
                }
                Vec::new()
            },
        };
        out.push(leaf);
        i = i + 1;
    }
    proof {
        assert(byte_views(out@) =~= genesis_txn_leaves(l@));
    }
    out
}

/// The Merkle leaves of a certified transaction list: each inner
/// transaction's digest bytes, in list order.
pub open spec fn qct_txn_leaves(l: Seq<(String, QuorumCertifiedTxn)>) -> Seq<Seq<u8>> {
    l.map(|_i: int, e: (String, QuorumCertifiedTxn)| hex_to_bytes(txn_digest_spec(e.1.txn)))
}

/// Whether every certified-transaction entry's text is ASCII.
pub open spec fn qct_list_ascii(l: Seq<(String, QuorumCertifiedTxn)>) -> bool {
    forall|i: int|
        0 <= i < l.len() ==> ascii_chars((#[trigger] l[i]).0@) && txn_fields_ascii(l[i].1.txn)
}

/// Computes the Merkle leaves of a certified transaction list.
pub fn qct_txn_leaf_vec(l: &Vec<(String, QuorumCertifiedTxn)>) -> (r: Vec<Vec<u8>>)
    requires
        qct_list_ascii(l@),
    ensures
        byte_views(r@) == qct_txn_leaves(l@),
{
    let n = l.len();
    let mut out: Vec<Vec<u8>> = Vec::new();
    let mut i: usize = 0;
    while i < n
        invariant
            n == l@.len(),
            i <= n,
            qct_list_ascii(l@),
            out@.len() == i,
            forall|k: int|
                0 <= k < i ==> (#[trigger] out@[k])@ == hex_to_bytes(txn_digest_spec(l@[k].1.txn)),
        decreases n - i,
    {
        let digest_hex = l[i].1.txn.id();
        proof {
            lemma_hex_of_to_bytes(digest_hex@);
        }
        let leaf = match hex_decode(digest_hex.as_str()) {
            Ok(d) => d,
            Err(_) => {
                proof {
                    assert(hex_of(hex_to_bytes(digest_hex@)) == digest_hex@);
                    assert(false);
                }
                Vec::new()
            },
        };
        out.push(leaf);
        i = i + 1;
    }
    proof {
        assert(byte_views(out@) =~= qct_txn_leaves(l@));
    }
    out
}

/// The Merkle leaves of a convergence block's transaction references:
/// every listed digest, flattened in map order.
pub open spec fn ref_map_leaves(l: Seq<(String, Vec<String>)>) -> Seq<Seq<u8>>
    decreases l.len(),
{
    if l.len() == 0 {
        Seq::<Seq<u8>>::empty()
    } else {
        ref_map_leaves(l.drop_last()) + leaves_of_strs(l.last().1@)
    }
}

/// Whether every reference-map entry's text is ASCII.
pub open spec fn ref_map_ascii(l: Seq<(String, Vec<String>)>) -> bool {
    forall|i: int|
        0 <= i < l.len() ==> ascii_chars((#[trigger] l[i]).0@) && all_ascii(l[i].1@)
}

/// Computes the flattened Merkle leaves of a reference map.
pub fn ref_map_leaf_vec(l: &Vec<(String, Vec<String>)>) -> (r: Vec<Vec<u8>>)
    requires
        ref_map_ascii(l@),
    ensures
        byte_views(r@) == ref_map_leaves(l@),
{
    let n = l.len();
    let mut out: Vec<Vec<u8>> = Vec::new();
    let mut i: usize = 0;
    proof {
        assert(byte_views(out@) =~= ref_map_leaves(l@.take(0)));
    }
    while i < n
        invariant
            n == l@.len(),
            i <= n,
            ref_map_ascii(l@),
            byte_views(out@) == ref_map_leaves(l@.take(i as int)),
        decreases n - i,
    {
        let entry = &l[i];
        let mut leaves = leaves_of(&entry.1);
        let ghost pre = out@;
        let mut k: usize = 0;
        let m = leaves.len();
        while k < m
            invariant
                m == leaves@.len(),
                k <= m,
                i < n,
                n == l@.len(),
                byte_views(pre) == ref_map_leaves(l@.take(i as int)),
                byte_views(leaves@) == leaves_of_strs(l@[i as int].1@),
                out@.len() == pre.len() + k,
                forall|q: int| 0 <= q < pre.len() ==> (#[trigger] out@[q]) == pre[q],
                forall|q: int|
                    pre.len() <= q < out@.len() ==> (#[trigger] out@[q])@ == leaves_of_strs(
                        l@[i as int].1@,
                    )[q - pre.len()],
            decreases m - k,
        {
            let leaf = clone_bytes(&leaves[k]);
            out.push(leaf);
            k = k + 1;
        }
        proof {
            assert(l@.take(i as int + 1).drop_last() =~= l@.take(i as int));
            assert(l@.take(i as int + 1).last() == l@[i as int]);
            assert(byte_views(out@) =~= ref_map_leaves(l@.take(i as int)) + leaves_of_strs(
                l@[i as int].1@,
            ));
        }
        i = i + 1;
    }
    proof {
        assert(l@.take(n as int) =~= l@);
    }
    out
}

impl ConvergenceBlock {
    /// The content digest of a convergence block: its header, the Merkle
    /// root over every referenced transaction digest, and the Merkle
    /// root over the referenced proposal hashes.
    pub fn compute_hash(&self) -> (r: String)
        requires
            header_text_ascii(self.header),
            ref_map_ascii(self.txns@),
        ensures
            r@ == block_hash_spec(
                self.header,
                ref_map_leaves(self.txns@),
                leaves_of_strs(self.header.ref_hashes@),
            ),
            is_digest_chars(r@),
    {
        let txn_leaves = ref_map_leaf_vec(&self.txns);
        let ref_leaves = leaves_of(&self.header.ref_hashes);
        compute_block_hash(&self.header, txn_leaves, ref_leaves)
    }

    /// Attaches the finalizing certificate to the block.
    pub fn append_certificate(&mut self, certificate: Certificate)
        ensures
            final(self).certificate == Some(certificate),
            final(self).header == old(self).header,
            final(self).txns == old(self).txns,
            final(self).claims == old(self).claims,
            final(self).hash == old(self).hash,
    {
        self.certificate = Some(certificate);
    }
}

impl ProposalBlock {
    /// The content digest of a proposal block: its header, the Merkle
    /// root over its certified transactions' digests, and the Merkle
    /// root over its single parent reference.
    pub fn compute_hash(&self) -> (r: String)
        requires
            header_text_ascii(self.header),
            qct_list_ascii(self.txns@),
            ascii_chars(self.ref_hash@),
        ensures
            r@ == block_hash_spec(
                self.header,
                qct_txn_leaves(self.txns@),
                seq![leaf_of_str(self.ref_hash@)],
            ),
            is_digest_chars(r@),
    {
        let txn_leaves = qct_txn_leaf_vec(&self.txns);
        let mut ref_leaves: Vec<Vec<u8>> = Vec::new();
        let ref_leaf = leaf_of(&self.ref_hash);
        ref_leaves.push(ref_leaf);
        proof {
            assert(byte_views(ref_leaves@) =~= seq![leaf_of_str(self.ref_hash@)]);
        }
        compute_block_hash(&self.header, txn_leaves, ref_leaves)
    }

    /// Assembles and signs a proposal block referencing its parent
    /// convergence block. Returns `None` when the secret key does not
    /// parse or does not belong to the proposing claim's public key.
    pub fn build(
        ref_hash: String,
        round: u128,
        epoch: u128,
        txns: Vec<(String, QuorumCertifiedTxn)>,
        claims: Vec<(String, Claim)>,
        from_claim: Claim,
        secret_key_hex: &String,
        block_height: u128,
        timestamp: u128,
    ) -> (r: Option<ProposalBlock>)
        requires
            ascii_chars(ref_hash@),
            claim_text_ascii(from_claim),
            qct_list_ascii(txns@),
            claim_list_ascii(claims@),
        ensures
            r is Some <==> (is_valid_seckey(secret_key_hex@) && from_claim.public_key@
                == ecdsa_pubkey_of(secret_key_hex@)),
            r matches Some(p) ==> {
                &&& p.ref_hash@ == ref_hash@
                &&& p.round == round
                &&& p.epoch == epoch
                &&& p.from_claim == from_claim
                &&& p.header.block_height == block_height
                &&& p.header.round == round
                &&& p.header.epoch == epoch
                &&& p.header.timestamp == timestamp
                &&& p.header.miner_claim == from_claim
                &&& p.header.last_hash@ == ref_hash@
                &&& header_signature_ok(p.header)
                &&& header_text_ascii(p.header)
                &&& p.signature == p.header.miner_signature
            },
    {
        let pk = match crate::crypto::derive_public_key(secret_key_hex) {
            Some(pk) => pk,
            None => {
                return None;
            },
        };
        if !(pk == from_claim.public_key) {
            proof {
                assert(from_claim.public_key@ != ecdsa_pubkey_of(secret_key_hex@));
            }
            return None;
        }
        let claim_list_digest = claim_list_hash(&claims);
        let txn_leaves = qct_txn_leaf_vec(&txns);
        let txn_root = merkle_root(txn_leaves);
        let txn_root_hex = crate::crypto::hex_encode(&txn_root);
        proof {
            crate::crypto::lemma_hex_of_ascii(txn_root@);
        }
        let header_claim = from_claim.clone();
        let mut header = BlockHeader {
            last_hash: ref_hash.clone(),
            last_state_root: String::new(),
            block_height,
            block_seed: 0,
            next_block_seed: 0,
            round,
            epoch,
            timestamp,
            miner_claim: header_claim,
            claim_list_hash: claim_list_digest,
            txn_hash: txn_root_hex,
            block_reward: 0,
            next_block_reward: 0,
            miner_signature: String::new(),
            ref_hashes: Vec::new(),
        };
        let payload = header.signing_bytes();
        let payload_digest_hex = sha256_digest(&payload);
        proof {
            lemma_hex_of_to_bytes(payload_digest_hex@);
        }
        let payload_digest = match hex_decode(payload_digest_hex.as_str()) {
            Ok(d) => d,
            Err(_) => {
                proof {
                    assert(hex_of(hex_to_bytes(payload_digest_hex@)) == payload_digest_hex@);
                    assert(false);
                }
                return None;
            },
        };
        let signature = match ecdsa_sign(secret_key_hex, &payload_digest) {
            Some(s) => s,
            None => {
                return None;
            },
        };
        let sig_for_block = signature.clone();
        header.miner_signature = signature;
        Some(
            ProposalBlock {
                header,
                ref_hash,
                round,
                epoch,
                txns,
                claims,
                from_claim,
                signature: sig_for_block,
            },
        )
    }
}

impl GenesisBlock {
    /// Assembles and signs the genesis block: height zero, the fixed
    /// genesis parent hash, the fixed genesis state digest as block hash,
    /// the given transactions, and the miner's claim as the only listed
    /// claim. Returns `None` when the secret key does not parse or does
    /// not belong to the claim's public key.
    pub fn build(
        miner_claim: Claim,
        txns: Vec<(String, TransactionKind)>,
        secret_key_hex: &String,
        timestamp: u128,
        block_reward: u128,
        next_block_reward: u128,
    ) -> (r: Option<GenesisBlock>)
        requires
            claim_text_ascii(miner_claim),
            txn_list_ascii(txns@),
        ensures
            r is Some <==> (is_valid_seckey(secret_key_hex@) && miner_claim.public_key@
                == ecdsa_pubkey_of(secret_key_hex@)),
            r matches Some(g) ==> {
                &&& g.header.block_height == 0
                &&& g.header.last_hash@ == genesis_last_hash_spec()
                &&& g.header.block_seed == 0
                &&& g.header.next_block_seed == 0
                &&& g.header.round == 0
                &&& g.header.epoch == 0
                &&& g.header.timestamp == timestamp
                &&& g.header.miner_claim == miner_claim
                &&& g.header.block_reward == block_reward
                &&& g.header.next_block_reward == next_block_reward
                &&& g.hash@ == genesis_state_hash_spec()
                &&& g.certificate is None
                &&& g.txns == txns
                &&& g.claims@.len() == 1
                &&& g.claims@[0].0@ == miner_claim.hash@
                &&& g.claims@[0].1 == miner_claim
                &&& header_signature_ok(g.header)
                &&& header_text_ascii(g.header)
            },
    {
        let pk = match crate::crypto::derive_public_key(secret_key_hex) {
            Some(pk) => pk,
            None => {
                return None;
            },
        };
        if !(pk == miner_claim.public_key) {
            proof {
                assert(miner_claim.public_key@ != ecdsa_pubkey_of(secret_key_hex@));
            }
            return None;
        }
        let mut claims: Vec<(String, Claim)> = Vec::new();
        let key = miner_claim.hash.clone();
        let claim_for_list = miner_claim.clone();
        claims.push((key, claim_for_list));
        proof {
            assert(claim_list_ascii(claims@));
        }
        let claim_list_digest = claim_list_hash(&claims);
        let txn_leaves = genesis_txn_leaf_vec(&txns);
        let txn_root = merkle_root(txn_leaves);
        let txn_root_hex = crate::crypto::hex_encode(&txn_root);
        proof {
            crate::crypto::lemma_hex_of_ascii(txn_root@);
        }
        let mut header = BlockHeader {
            last_hash: genesis_last_hash(),
            last_state_root: String::new(),
            block_height: 0,
            block_seed: 0,
            next_block_seed: 0,
            round: 0,
            epoch: 0,
            timestamp,
            miner_claim,
            claim_list_hash: claim_list_digest,
            txn_hash: txn_root_hex,
            block_reward,
            next_block_reward,
            miner_signature: String::new(),
            ref_hashes: Vec::new(),
        };
        proof {
            lemma_digest_chars_ascii(genesis_last_hash_spec());
            lemma_digest_chars_ascii(claim_list_hash_spec(claims@));
            assert(header_text_ascii(header));
        }
        let payload = header.signing_bytes();
        let payload_digest_hex = sha256_digest(&payload);
        proof {
            lemma_hex_of_to_bytes(payload_digest_hex@);
        }
        let payload_digest = match hex_decode(payload_digest_hex.as_str()) {
            Ok(d) => d,
            Err(_) => {
                proof {
                    assert(hex_of(hex_to_bytes(payload_digest_hex@)) == payload_digest_hex@);
                    assert(false);
                }
                return None;
            },
        };
        let signature = match ecdsa_sign(secret_key_hex, &payload_digest) {
            Some(s) => s,
            None => {
                return None;
            },
        };
        header.miner_signature = signature;
        let hash = genesis_state_hash();
        Some(
            GenesisBlock {
                header,
                txns,
                claims,
                hash,
                certificate: None,
            },
        )
    }
}

} // verus!
