//! Quorum formation, miner election and transaction validation
//! scenarios.

use consensus_core::claim::{Claim, Eligibility};
use consensus_core::crypto::ecdsa_sign;
use consensus_core::election::{elect_miner, get_winner};
use consensus_core::quorum::{Quorum, QuorumError};
use consensus_core::txn::{Account, Transfer, TransactionKind, TxnValidator, TxnValidatorError};

fn eligible_claim(idx: u8, kind: Eligibility) -> Claim {
    let sk = secp256k1::SecretKey::from_secret_bytes([idx; 32]).unwrap();
    let pk = secp256k1::PublicKey::from_secret_key(&sk);
    let mut claim = Claim::new(
        pk.to_string(),
        String::from("0x192abcdef0123456789"),
        String::from("10.0.0.1:9000"),
        String::new(),
        format!("node-{}", idx),
    )
    .unwrap();
    let digest = hex::decode(&claim.hash).unwrap();
    claim.signature = ecdsa_sign(&sk.display_secret().to_string(), &digest).unwrap();
    claim.eligibility = kind;
    claim
}

#[test]
fn nineteen_eligible_claims_are_insufficient() {
    let claims: Vec<Claim> = (1..=19).map(|i| eligible_claim(i, Eligibility::Harvester)).collect();
    let result = Quorum::get_eligible_claims(claims);
    assert!(matches!(result, Err(QuorumError::InsufficientNodesError)));
}

#[test]
fn twenty_eligible_claims_are_enough() {
    let claims: Vec<Claim> = (1..=20).map(|i| eligible_claim(i, Eligibility::Farmer)).collect();
    let eligible = Quorum::get_eligible_claims(claims).unwrap();
    assert_eq!(eligible.len(), 20);
}

#[test]
fn miner_eligible_claims_do_not_join_quorums() {
    let mut claims: Vec<Claim> = (1..=20).map(|i| eligible_claim(i, Eligibility::Harvester)).collect();
    claims.push(eligible_claim(21, Eligibility::Miner));
    let eligible = Quorum::get_eligible_claims(claims).unwrap();
    assert_eq!(eligible.len(), 20);
}

#[test]
fn election_fills_majority_of_master_pubkeys() {
    let claims: Vec<Claim> = (1..=25).map(|i| eligible_claim(i, Eligibility::Harvester)).collect();
    let mut quorum = Quorum::new(42, 11).unwrap();
    quorum.run_election(claims).unwrap();
    // ceil(25 * 51 / 100) == 13
    assert_eq!(quorum.master_pubkeys.len(), 13);
}

#[test]
fn election_is_deterministic_across_runs() {
    let claims_a: Vec<Claim> = (1..=25).map(|i| eligible_claim(i, Eligibility::Farmer)).collect();
    let claims_b: Vec<Claim> = (1..=25).map(|i| eligible_claim(i, Eligibility::Farmer)).collect();
    let mut q1 = Quorum::new(9, 5).unwrap();
    let mut q2 = Quorum::new(9, 5).unwrap();
    q1.run_election(claims_a).unwrap();
    q2.run_election(claims_b).unwrap();
    assert_eq!(q1.master_pubkeys, q2.master_pubkeys);
}

#[test]
fn zero_height_blocks_the_election() {
    assert!(matches!(Quorum::new(1, 0), Err(QuorumError::InvalidChildBlockError)));
    let mut quorum = Quorum::new(1, 3).unwrap();
    quorum.election_block_height = 0;
    let claims: Vec<Claim> = (1..=20).map(|i| eligible_claim(i, Eligibility::Farmer)).collect();
    assert!(matches!(quorum.run_election(claims), Err(QuorumError::InvalidChildBlockError)));
}

#[test]
fn zero_seed_blocks_the_election() {
    let mut quorum = Quorum::new(0, 3).unwrap();
    let claims: Vec<Claim> = (1..=20).map(|i| eligible_claim(i, Eligibility::Farmer)).collect();
    assert!(matches!(quorum.run_election(claims), Err(QuorumError::NoSeedError)));
}

#[test]
fn check_validity_accepts_positive_heights() {
    assert!(Quorum::check_validity(1));
    assert!(Quorum::check_validity(u128::MAX));
    assert!(!Quorum::check_validity(0));
}

#[test]
fn seed_selection_rerolls_small_draws() {
    let draws: Vec<u64> = vec![1, 77, 0x1_0000_0000, 5];
    assert_eq!(Quorum::generate_seed(4, &draws), Ok(0x1_0000_0000));
    let weak: Vec<u64> = vec![1, 2, 3];
    assert!(matches!(Quorum::generate_seed(4, &weak), Err(QuorumError::InvalidSeedError)));
    assert!(matches!(Quorum::generate_seed(0, &draws), Err(QuorumError::InvalidChildBlockError)));
}

#[test]
fn miner_election_picks_lowest_score_first() {
    let claims: Vec<Claim> = (1..=5).map(|i| eligible_claim(i, Eligibility::Miner)).collect();
    let ordered = elect_miner(&claims, 77);
    assert_eq!(ordered.len(), 5);
    let (score, winner) = get_winner(&ordered, 77).unwrap();
    assert_eq!(winner, ordered[0]);
    assert_eq!(score, ordered[0].get_election_result(77));
    for i in 1..ordered.len() {
        let prev = ordered[i - 1].get_election_result(77);
        let cur = ordered[i].get_election_result(77);
        assert!(prev <= cur);
    }
}

#[test]
fn election_score_matches_reference_digest() {
    let claim = eligible_claim(7, Eligibility::Harvester);
    let seed: u64 = 3;
    let mut payload: Vec<u8> = Vec::new();
    payload.extend_from_slice(&(claim.hash.len() as u64).to_be_bytes());
    payload.extend_from_slice(claim.hash.as_bytes());
    payload.extend_from_slice(&seed.to_be_bytes());
    let expected = hex::decode(sha256::digest(payload.as_slice())).unwrap();
    assert_eq!(claim.get_election_result(seed), expected);
}

fn transfer(now: i64, amount: u128, sender: &str) -> TransactionKind {
    TransactionKind::Transfer(Transfer {
        id: String::from("txn-1"),
        timestamp: now - 10,
        sender_address: String::from(sender),
        sender_public_key: String::from(sender),
        receiver_address: String::from("0x192aaaaaaaaaaaaaaaa"),
        token: String::from("vrrb"),
        amount,
        signature: String::from("sig"),
        nonce: 0,
    })
}

#[test]
fn unknown_sender_account_is_reported() {
    let sk = secp256k1::SecretKey::from_secret_bytes([9; 32]).unwrap();
    let pk = secp256k1::PublicKey::from_secret_key(&sk).to_string();
    let state: Vec<(String, Account)> = Vec::new();
    let validator = TxnValidator::new();
    let txn = transfer(1000, 5, &pk);
    let err = validator.validate(&state, &txn, 1000).unwrap_err();
    assert!(matches!(err, TxnValidatorError::AccountNotFound(_)));
}

#[test]
fn unparsable_sender_address_is_reported() {
    let state: Vec<(String, Account)> = Vec::new();
    let validator = TxnValidator::new();
    let txn = transfer(1000, 5, "0x192notakey");
    let err = validator.validate(&state, &txn, 1000).unwrap_err();
    assert_eq!(err, TxnValidatorError::SenderAddressIncorrect);
}

#[test]
fn overdrawn_amount_is_reported() {
    let sk = secp256k1::SecretKey::from_secret_bytes([9; 32]).unwrap();
    let pk = secp256k1::PublicKey::from_secret_key(&sk).to_string();
    let state = vec![(pk.clone(), Account { credits: 10, debits: 8 })];
    let validator = TxnValidator::new();
    let txn = transfer(1000, 5, &pk);
    let err = validator.validate(&state, &txn, 1000).unwrap_err();
    assert_eq!(err, TxnValidatorError::TxnAmountIncorrect);
}

#[test]
fn plain_key_sender_address_lacks_the_prefix() {
    let sk = secp256k1::SecretKey::from_secret_bytes([9; 32]).unwrap();
    let pk = secp256k1::PublicKey::from_secret_key(&sk).to_string();
    let state = vec![(pk.clone(), Account { credits: 100, debits: 0 })];
    let validator = TxnValidator::new();
    let txn = transfer(1000, 5, &pk);
    let err = validator.validate(&state, &txn, 1000).unwrap_err();
    assert_eq!(err, TxnValidatorError::SenderAddressMissing);
}

#[test]
fn future_timestamp_is_reported() {
    let validator = TxnValidator::new();
    let txn = match transfer(1000, 5, "0x192aaa") {
        TransactionKind::Transfer(mut t) => {
            t.timestamp = 2000;
            TransactionKind::Transfer(t)
        }
    };
    let err = validator.validate_timestamp(&txn, 1000).unwrap_err();
    assert!(matches!(err, TxnValidatorError::OutOfBoundsTimestamp(2000, 1000)));
    let ok_txn = transfer(1000, 5, "0x192aaa");
    assert!(validator.validate_timestamp(&ok_txn, 1000).is_ok());
}

#[test]
fn bad_signature_is_reported() {
    let validator = TxnValidator::new();
    let txn = transfer(1000, 5, "0x192aaaaaaaaaaaaaaaa");
    let err = validator.validate_signature(&txn).unwrap_err();
    assert_eq!(err, TxnValidatorError::TxnSignatureIncorrect);
}
