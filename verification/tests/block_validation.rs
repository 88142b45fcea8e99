//! Block construction and validation scenarios.

use consensus_core::block::{ConvergenceBlock, GenesisBlock};
use consensus_core::claim::{claim_from_bytes, Claim, Eligibility};
use consensus_core::crypto::ecdsa_sign;
use consensus_core::election::get_lowest_pointer;
use consensus_core::header::{genesis_last_hash, push_claim, BlockHeader};
use consensus_core::invalid::InvalidBlockErrorReason;
use consensus_core::validator::{valid, valid_genesis};

fn test_keypair(seed_byte: u8) -> (String, String) {
    let sk = secp256k1::SecretKey::from_secret_bytes([seed_byte; 32]).unwrap();
    let pk = secp256k1::PublicKey::from_secret_key(&sk);
    (sk.display_secret().to_string(), pk.to_string())
}

fn signed_claim(seed_byte: u8, node_id: &str) -> (Claim, String) {
    let (sk_hex, pk_hex) = test_keypair(seed_byte);
    let mut claim = Claim::new(
        pk_hex,
        String::from("0x192abcdef0123456789"),
        String::from("127.0.0.1:8080"),
        String::new(),
        String::from(node_id),
    )
    .unwrap();
    let digest = hex::decode(&claim.hash).unwrap();
    claim.signature = ecdsa_sign(&sk_hex, &digest).unwrap();
    (claim, sk_hex)
}

fn plain_header(miner_claim: Claim, height: u128, seed: u64) -> BlockHeader {
    BlockHeader {
        last_hash: String::from("aa"),
        last_state_root: String::new(),
        block_height: height,
        block_seed: seed,
        next_block_seed: 0,
        round: 1,
        epoch: 0,
        timestamp: 1,
        miner_claim,
        claim_list_hash: String::from("bb"),
        txn_hash: String::from("cc"),
        block_reward: 0,
        next_block_reward: 0,
        miner_signature: String::new(),
        ref_hashes: Vec::new(),
    }
}

#[test]
fn genesis_block_is_accepted() {
    let (claim, sk_hex) = signed_claim(0x11, "node-1");
    assert!(claim.verify().is_ok());
    let genesis = GenesisBlock::build(claim, Vec::new(), &sk_hex, 7, 0, 0).unwrap();
    assert_eq!(genesis.header.block_height, 0);
    assert_eq!(genesis.header.last_hash, genesis_last_hash());
    assert!(valid_genesis(&genesis).is_ok());
}

#[test]
fn genesis_with_wrong_height_is_rejected() {
    let (claim, sk_hex) = signed_claim(0x12, "node-1");
    let mut genesis = GenesisBlock::build(claim, Vec::new(), &sk_hex, 7, 0, 0).unwrap();
    genesis.header.block_height = 3;
    let err = valid_genesis(&genesis).unwrap_err();
    assert_eq!(err.details, InvalidBlockErrorReason::InvalidBlockHeight);
}

#[test]
fn genesis_with_wrong_state_hash_is_rejected() {
    let (claim, sk_hex) = signed_claim(0x13, "node-1");
    let mut genesis = GenesisBlock::build(claim, Vec::new(), &sk_hex, 7, 0, 0).unwrap();
    genesis.hash = String::from("00ff");
    let err = valid_genesis(&genesis).unwrap_err();
    assert_eq!(err.details, InvalidBlockErrorReason::InvalidStateHash);
}

#[test]
fn candidate_at_same_height_is_not_tallest_chain() {
    let (parent_claim, _) = signed_claim(0x21, "parent");
    let (cand_claim, _) = signed_claim(0x22, "candidate");
    let parent = plain_header(parent_claim, 10, 0);
    let candidate = ConvergenceBlock {
        header: plain_header(cand_claim, 10, 0),
        txns: Vec::new(),
        claims: Vec::new(),
        hash: String::from("dd"),
        certificate: None,
    };
    let claims: Vec<Claim> = Vec::new();
    let err = valid(&candidate, &parent, &String::from("aa"), &claims).unwrap_err();
    assert_eq!(err.details, InvalidBlockErrorReason::NotTallestChain);
}

#[test]
fn candidate_two_heights_up_is_out_of_sequence() {
    let (parent_claim, _) = signed_claim(0x23, "parent");
    let (cand_claim, _) = signed_claim(0x24, "candidate");
    let parent = plain_header(parent_claim, 10, 0);
    let candidate = ConvergenceBlock {
        header: plain_header(cand_claim, 12, 0),
        txns: Vec::new(),
        claims: Vec::new(),
        hash: String::from("dd"),
        certificate: None,
    };
    let claims: Vec<Claim> = Vec::new();
    let err = valid(&candidate, &parent, &String::from("aa"), &claims).unwrap_err();
    assert_eq!(err.details, InvalidBlockErrorReason::BlockOutOfSequence);
}

#[test]
fn candidate_with_wrong_nonce_is_rejected() {
    let (parent_claim, _) = signed_claim(0x25, "parent");
    let (cand_claim, _) = signed_claim(0x26, "candidate");
    let mut parent = plain_header(parent_claim, 10, 0);
    parent.next_block_seed = 99;
    let candidate = ConvergenceBlock {
        header: plain_header(cand_claim, 11, 42),
        txns: Vec::new(),
        claims: Vec::new(),
        hash: String::from("dd"),
        certificate: None,
    };
    let claims: Vec<Claim> = Vec::new();
    let err = valid(&candidate, &parent, &String::from("aa"), &claims).unwrap_err();
    assert_eq!(err.details, InvalidBlockErrorReason::InvalidBlockNonce);
}

#[test]
fn lowest_pointer_matches_single_claim() {
    let (mut claim, _) = signed_claim(0x31, "pointer-node");
    claim.eligibility = Eligibility::Miner;
    let seed: u128 = 7;
    let claims = vec![claim.clone()];
    match claim.get_pointer(seed) {
        Some(value) => {
            let (hash, lowest) = get_lowest_pointer(&claims, seed).unwrap();
            assert_eq!(hash, claim.hash);
            assert_eq!(lowest, value);
        }
        None => {
            assert!(get_lowest_pointer(&claims, seed).is_none());
        }
    }
}

#[test]
fn pointer_is_deterministic() {
    let (claim, _) = signed_claim(0x32, "pointer-node");
    assert_eq!(claim.get_pointer(123456), claim.get_pointer(123456));
}

#[test]
fn ineligible_claim_has_no_pointer() {
    let (mut claim, _) = signed_claim(0x33, "pointer-node");
    claim.eligibility = Eligibility::Harvester;
    assert_eq!(claim.get_pointer(5), None);
}

#[test]
fn claim_encoding_round_trips() {
    let (mut claim, _) = signed_claim(0x41, "codec-node");
    claim.eligibility = Eligibility::Farmer;
    claim.nonce = 77;
    claim.stake = 123456789;
    let mut bytes: Vec<u8> = Vec::new();
    push_claim(&mut bytes, &claim);
    let (decoded, end) = claim_from_bytes(&bytes, 0).unwrap();
    assert_eq!(end, bytes.len());
    assert_eq!(decoded.public_key, claim.public_key);
    assert_eq!(decoded.address, claim.address);
    assert_eq!(decoded.ip_address, claim.ip_address);
    assert_eq!(decoded.node_id, claim.node_id);
    assert_eq!(decoded.signature, claim.signature);
    assert_eq!(decoded.eligibility, claim.eligibility);
    assert_eq!(decoded.hash, claim.hash);
    assert_eq!(decoded.nonce, claim.nonce);
    assert_eq!(decoded.stake, claim.stake);
}

#[test]
fn truncated_claim_encoding_is_refused() {
    let (claim, _) = signed_claim(0x42, "codec-node");
    let mut bytes: Vec<u8> = Vec::new();
    push_claim(&mut bytes, &claim);
    bytes.truncate(bytes.len() - 1);
    assert!(claim_from_bytes(&bytes, 0).is_none());
}

#[test]
fn header_hash_is_stable_across_encoders() {
    let (claim_a, _) = signed_claim(0x51, "hash-node");
    let (claim_b, _) = signed_claim(0x51, "hash-node");
    let ha = plain_header(claim_a, 4, 9);
    let hb = plain_header(claim_b, 4, 9);
    assert_eq!(ha.canonical_bytes(), hb.canonical_bytes());
    assert_eq!(ha.hash(), hb.hash());
}

#[test]
fn claim_hash_matches_reference_digest() {
    let (claim, _) = signed_claim(0x52, "digest-node");
    let payload = claim.payload_bytes();
    assert_eq!(claim.hash, sha256::digest(payload.as_slice()));
}

#[test]
fn invalid_block_reasons_have_descriptions() {
    assert_eq!(
        InvalidBlockErrorReason::NotTallestChain.to_str(),
        "blockchain proposed is shorter than my local chain"
    );
    assert_eq!(InvalidBlockErrorReason::BlockOutOfSequence.to_str(), "block out of sequence");
    assert_eq!(
        InvalidBlockErrorReason::NotTallestChain.as_bytes(),
        b"\"NotTallestChain\"".to_vec()
    );
}

#[test]
fn tampered_claim_fails_verification() {
    let (mut claim, _) = signed_claim(0x53, "tamper-node");
    claim.nonce = 1;
    assert!(claim.verify().is_err());
}

#[test]
fn header_encoding_round_trips() {
    let (claim, _) = signed_claim(0x54, "roundtrip-node");
    let mut header = plain_header(claim, 12, 42);
    header.ref_hashes = vec![String::from("ref-one"), String::from("ref-two")];
    header.miner_signature = String::from("sig-hex");
    let bytes = header.canonical_bytes();
    let (decoded, end) = consensus_core::header::header_from_bytes(&bytes, 0).unwrap();
    assert_eq!(end, bytes.len());
    assert_eq!(decoded, header);
    let mut truncated = bytes.clone();
    truncated.truncate(bytes.len() - 1);
    assert!(consensus_core::header::header_from_bytes(&truncated, 0).is_none());
}

#[test]
fn wire_framing_round_trips() {
    let payload: Vec<u8> = vec![7, 8, 9, 250];
    let framed = consensus_core::codec::frame_message(&payload);
    assert_eq!(framed.len(), payload.len() + 4);
    assert_eq!(consensus_core::codec::unframe_message(&framed).unwrap(), payload);
    let mut bad = framed.clone();
    bad.push(0);
    assert!(consensus_core::codec::unframe_message(&bad).is_none());
}
