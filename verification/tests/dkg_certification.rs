//! Key generation, certificate aggregation and convergence pre-check
//! scenarios.

use consensus_core::block::{Block, ConvergenceBlock, ProposalBlock};
use consensus_core::certifier::CertificateShareCache;
use consensus_core::claim::Claim;
use consensus_core::consensus::{
    AssignedQuorumMembership, BootstrapQuorumConfig, ConsensusModule, PeerData, QuorumKind,
    QuorumMember, QuorumMembershipConfig, Vote,
};
use consensus_core::crypto::ecdsa_sign;
use consensus_core::dag::BlockDag;
use consensus_core::dkg::{DkgEngine, DkgError, NodeType, ThresholdConfig};
use consensus_core::header::BlockHeader;
use consensus_core::validator::precheck_convergence_block;

fn config() -> ThresholdConfig {
    ThresholdConfig { upper_bound: 4, threshold: 1 }
}

fn four_engines() -> Vec<DkgEngine> {
    let secrets: Vec<threshold_crypto::SecretKey> =
        (0..4).map(|_| threshold_crypto::SecretKey::random()).collect();
    let publics: Vec<threshold_crypto::PublicKey> =
        secrets.iter().map(|s| s.public_key()).collect();
    secrets
        .into_iter()
        .enumerate()
        .map(|(i, sk)| {
            let mut engine =
                DkgEngine::new(format!("node-{}", i), NodeType::Validator, sk, config());
            for (j, pk) in publics.iter().enumerate() {
                assert!(engine.add_peer_public_key(format!("node-{}", j), pk.clone()));
            }
            engine
        })
        .collect()
}

#[test]
fn four_nodes_generate_identical_public_key_sets() {
    let mut engines = four_engines();
    let mut parts = Vec::new();
    for engine in engines.iter_mut() {
        let (part, node_id) = engine.generate_partial_commitment(1).unwrap();
        parts.push((node_id, part));
    }
    let mut acks = Vec::new();
    for engine in engines.iter_mut() {
        for (sender, part) in parts.iter() {
            engine.store_part(sender.clone(), part.clone());
            let (rid, sid, ack) = engine.ack_partial_commitment(sender).unwrap();
            acks.push((rid, sid, ack));
        }
    }
    for engine in engines.iter_mut() {
        for (rid, sid, ack) in acks.iter() {
            engine.store_ack(rid.clone(), sid.clone(), ack.clone());
        }
        engine.handle_ack_messages().unwrap();
        engine.generate_key_sets().unwrap();
    }
    let first = engines[0].dkg_state.public_key_set.clone().unwrap();
    for engine in engines.iter() {
        assert_eq!(engine.dkg_state.public_key_set.clone().unwrap(), first);
        assert!(engine.dkg_state.secret_key_share.is_some());
    }
}

#[test]
fn bootstrap_and_miner_nodes_cannot_participate() {
    let sk = threshold_crypto::SecretKey::random();
    let mut bootstrap =
        DkgEngine::new(String::from("b"), NodeType::Bootstrap, sk.clone(), config());
    assert_eq!(
        bootstrap.generate_partial_commitment(1),
        Err(DkgError::BootstrapCannotParticipate)
    );
    let mut miner = DkgEngine::new(String::from("m"), NodeType::Miner, sk.clone(), config());
    assert_eq!(miner.generate_partial_commitment(1), Err(DkgError::MinerCannotParticipate));
    let mut observer = DkgEngine::new(String::from("o"), NodeType::Validator, sk, config());
    assert_eq!(observer.generate_partial_commitment(1), Err(DkgError::NotAMember));
}

#[test]
fn replaying_part_and_ack_messages_changes_nothing() {
    let mut engines = four_engines();
    let (part, sender) = engines[0].generate_partial_commitment(1).unwrap();
    let receiver = &mut engines[1];
    assert!(receiver.store_part(sender.clone(), part.clone()));
    let stored = receiver.dkg_state.part_message_store.len();
    assert!(!receiver.store_part(sender.clone(), part.clone()));
    assert_eq!(receiver.dkg_state.part_message_store.len(), stored);

    receiver.dkg_state.sync_key_gen = None;
    let mut keygen_holder = engines.remove(1);
    keygen_holder.generate_partial_commitment(1).unwrap();
    keygen_holder.store_part(sender.clone(), part.clone());
    let (rid, sid, ack) = keygen_holder.ack_partial_commitment(&sender).unwrap();
    assert!(keygen_holder.store_ack(rid.clone(), sid.clone(), ack.clone()));
    let acks = keygen_holder.dkg_state.ack_message_store.len();
    assert!(!keygen_holder.store_ack(rid, sid, ack));
    assert_eq!(keygen_holder.dkg_state.ack_message_store.len(), acks);
}

fn block_hash_fixture() -> String {
    sha256::digest(b"convergence block".as_slice())
}

#[test]
fn threshold_plus_one_shares_combine_and_verify() {
    let mut rng = rand::thread_rng();
    let sk_set = threshold_crypto::SecretKeySet::random(2, &mut rng);
    let pk_set = sk_set.public_keys();
    let block_hash = block_hash_fixture();
    let msg = hex::decode(&block_hash).unwrap();

    let mut cache = CertificateShareCache::new();
    for i in 0..2u16 {
        let share = sk_set.secret_key_share(i as usize);
        let sig = share.sign(&msg).to_bytes().to_vec();
        let pk_share = pk_set.public_key_share(i as usize).to_bytes().to_vec();
        cache.add_partial(&block_hash, i, pk_share, sig, 0).unwrap();
    }
    // only t = 2 shares collected: threshold 2 is not exceeded
    assert!(cache.try_certify(&block_hash, 2, &pk_set).is_none());

    let share = sk_set.secret_key_share(2usize);
    let sig = share.sign(&msg).to_bytes().to_vec();
    let pk_share = pk_set.public_key_share(2usize).to_bytes().to_vec();
    cache.add_partial(&block_hash, 2, pk_share, sig, 0).unwrap();

    let cert = cache.try_certify(&block_hash, 2, &pk_set).unwrap();
    assert_eq!(cert.block_hash, block_hash);
    let sig_bytes: [u8; 96] = hex::decode(&cert.signature).unwrap().try_into().unwrap();
    let sig = threshold_crypto::Signature::from_bytes(sig_bytes).unwrap();
    assert!(pk_set.public_key().verify(&sig, &msg));
}

#[test]
fn a_block_is_never_certified_twice() {
    let mut rng = rand::thread_rng();
    let sk_set = threshold_crypto::SecretKeySet::random(1, &mut rng);
    let pk_set = sk_set.public_keys();
    let block_hash = block_hash_fixture();
    let msg = hex::decode(&block_hash).unwrap();

    let mut cache = CertificateShareCache::new();
    for i in 0..3u16 {
        let share = sk_set.secret_key_share(i as usize);
        let sig = share.sign(&msg).to_bytes().to_vec();
        let pk_share = pk_set.public_key_share(i as usize).to_bytes().to_vec();
        cache.add_partial(&block_hash, i, pk_share, sig, 0).unwrap();
    }
    assert!(cache.try_certify(&block_hash, 1, &pk_set).is_some());
    assert!(cache.try_certify(&block_hash, 1, &pk_set).is_none());

    // further shares are still accepted, but no second certificate appears
    let share = sk_set.secret_key_share(3usize);
    let sig = share.sign(&msg).to_bytes().to_vec();
    let pk_share = pk_set.public_key_share(3usize).to_bytes().to_vec();
    cache.add_partial(&block_hash, 3, pk_share, sig, 0).unwrap();
    assert!(cache.try_certify(&block_hash, 1, &pk_set).is_none());
}

#[test]
fn invalid_share_is_rejected_and_duplicates_are_idempotent() {
    let mut rng = rand::thread_rng();
    let sk_set = threshold_crypto::SecretKeySet::random(1, &mut rng);
    let pk_set = sk_set.public_keys();
    let block_hash = block_hash_fixture();
    let other_msg = hex::decode(sha256::digest(b"something else".as_slice())).unwrap();

    let mut cache = CertificateShareCache::new();
    let share = sk_set.secret_key_share(0usize);
    let wrong_sig = share.sign(&other_msg).to_bytes().to_vec();
    let pk_share = pk_set.public_key_share(0usize).to_bytes().to_vec();
    assert!(cache
        .add_partial(&block_hash, 0, pk_share.clone(), wrong_sig, 0)
        .is_err());

    let msg = hex::decode(&block_hash).unwrap();
    let good_sig = share.sign(&msg).to_bytes().to_vec();
    cache.add_partial(&block_hash, 0, pk_share.clone(), good_sig.clone(), 0).unwrap();
    cache.add_partial(&block_hash, 0, pk_share, good_sig, 0).unwrap();
    assert!(cache.should_rebroadcast(&block_hash, 4));
    assert!(!cache.should_rebroadcast(&block_hash, 0));
}

fn proposal_fixture() -> (String, ProposalBlock) {
    let sk = secp256k1::SecretKey::from_secret_bytes([0x61; 32]).unwrap();
    let pk = secp256k1::PublicKey::from_secret_key(&sk);
    let sk_hex = sk.display_secret().to_string();
    let mut claim = Claim::new(
        pk.to_string(),
        String::from("0x192abcdef0123456789"),
        String::from("10.1.1.1:4000"),
        String::new(),
        String::from("farmer-1"),
    )
    .unwrap();
    let digest = hex::decode(&claim.hash).unwrap();
    claim.signature = ecdsa_sign(&sk_hex, &digest).unwrap();
    let listed_claim_hash = claim.hash.clone();
    let proposal = ProposalBlock::build(
        sha256::digest(b"parent convergence".as_slice()),
        1,
        0,
        Vec::new(),
        vec![(listed_claim_hash, claim.clone())],
        claim,
        &sk_hex,
        5,
        99,
    )
    .unwrap();
    let hash = proposal.compute_hash();
    (hash, proposal)
}

fn convergence_referencing(
    ref_hash: &str,
    claims: Vec<(String, Vec<String>)>,
    txns: Vec<(String, Vec<String>)>,
) -> ConvergenceBlock {
    let sk = secp256k1::SecretKey::from_secret_bytes([0x62; 32]).unwrap();
    let pk = secp256k1::PublicKey::from_secret_key(&sk);
    let sk_hex = sk.display_secret().to_string();
    let mut claim = Claim::new(
        pk.to_string(),
        String::from("0x192abcdef0123456789"),
        String::from("10.1.1.2:4000"),
        String::new(),
        String::from("miner-1"),
    )
    .unwrap();
    let digest = hex::decode(&claim.hash).unwrap();
    claim.signature = ecdsa_sign(&sk_hex, &digest).unwrap();
    ConvergenceBlock {
        header: BlockHeader {
            last_hash: String::from("aa"),
            last_state_root: String::new(),
            block_height: 6,
            block_seed: 0,
            next_block_seed: 0,
            round: 1,
            epoch: 0,
            timestamp: 100,
            miner_claim: claim,
            claim_list_hash: String::from("bb"),
            txn_hash: String::from("cc"),
            block_reward: 0,
            next_block_reward: 0,
            miner_signature: String::new(),
            ref_hashes: vec![String::from(ref_hash)],
        },
        txns,
        claims,
        hash: block_hash_fixture(),
        certificate: None,
    }
}

#[test]
fn precheck_rejects_an_orphan_reference() {
    let dag = BlockDag::new();
    let block = convergence_referencing("deadbeef", Vec::new(), Vec::new());
    assert!(!precheck_convergence_block(&block, &dag));
}

#[test]
fn precheck_accepts_referenced_proposal_content() {
    let (hash, proposal) = proposal_fixture();
    let listed = proposal.claims[0].0.clone();
    let mut dag = BlockDag::new();
    assert!(dag.insert(hash.clone(), Block::Proposal(proposal)));
    let block = convergence_referencing(&hash, vec![(hash.clone(), vec![listed])], Vec::new());
    assert!(precheck_convergence_block(&block, &dag));
}

#[test]
fn precheck_rejects_an_unlisted_claim() {
    let (hash, proposal) = proposal_fixture();
    let mut dag = BlockDag::new();
    assert!(dag.insert(hash.clone(), Block::Proposal(proposal)));
    let foreign = sha256::digest(b"claim never listed".as_slice());
    let block = convergence_referencing(&hash, vec![(hash.clone(), vec![foreign])], Vec::new());
    assert!(!precheck_convergence_block(&block, &dag));
}

fn peer(i: u8) -> PeerData {
    PeerData {
        node_id: format!("node-{}", i),
        kademlia_peer_id: format!("kad-{}", i),
        udp_gossip_address: format!("10.0.0.{}:4001", i),
        raptorq_gossip_address: format!("10.0.0.{}:4002", i),
        kademlia_liveness_address: format!("10.0.0.{}:4003", i),
        validator_public_key: format!("pk-{}", i),
    }
}

fn module(node_type: NodeType) -> ConsensusModule {
    let sk = threshold_crypto::SecretKey::random();
    let engine = DkgEngine::new(String::from("self"), node_type, sk, config());
    ConsensusModule::new(String::from("self"), node_type, config(), engine, None)
}

#[test]
fn membership_assignment_is_installed_once() {
    let mut module = module(NodeType::Validator);
    let assigned = AssignedQuorumMembership {
        node_id: String::from("self"),
        kademlia_peer_id: String::from("kad-self"),
        quorum_kind: QuorumKind::Harvester,
        peers: vec![peer(1), peer(2)],
    };
    module.handle_quorum_membership_assigment_created(assigned).unwrap();
    let mc = module.membership_config.as_ref().unwrap();
    assert_eq!(mc.quorum_kind, QuorumKind::Harvester);
    assert_eq!(mc.quorum_members.len(), 2);

    let again = AssignedQuorumMembership {
        node_id: String::from("self"),
        kademlia_peer_id: String::from("kad-self"),
        quorum_kind: QuorumKind::Farmer,
        peers: vec![peer(3)],
    };
    assert_eq!(
        module.handle_quorum_membership_assigment_created(again),
        Err(DkgError::AlreadyAssigned)
    );
}

#[test]
fn bootstrap_node_cannot_join_a_quorum() {
    let mut module = module(NodeType::Bootstrap);
    let assigned = AssignedQuorumMembership {
        node_id: String::from("self"),
        kademlia_peer_id: String::from("kad-self"),
        quorum_kind: QuorumKind::Farmer,
        peers: vec![peer(1)],
    };
    assert_eq!(
        module.handle_quorum_membership_assigment_created(assigned),
        Err(DkgError::BootstrapCannotParticipate)
    );
}

#[test]
fn peer_list_assignment_fills_both_quorums() {
    let module = module(NodeType::Bootstrap);
    let peers: Vec<PeerData> = (1..=8).map(peer).collect();
    let assignments = module.assign_peer_list_to_quorums(&peers, 7, 4);
    assert_eq!(assignments.len(), 8);
    let harvesters =
        assignments.iter().filter(|(_, a)| a.quorum_kind == QuorumKind::Harvester).count();
    assert!(harvesters <= 4);
    let repeat = module.assign_peer_list_to_quorums(&peers, 7, 4);
    for (a, b) in assignments.iter().zip(repeat.iter()) {
        assert_eq!(a.0, b.0);
        assert_eq!(a.1.quorum_kind, b.1.quorum_kind);
    }
}

fn harvester_module() -> (ConsensusModule, threshold_crypto::PublicKeySet) {
    let mut rng = rand::thread_rng();
    let sk_set = threshold_crypto::SecretKeySet::random(1, &mut rng);
    let pk_set = sk_set.public_keys();
    let sk = threshold_crypto::SecretKey::random();
    let mut engine = DkgEngine::new(String::from("self"), NodeType::Validator, sk, config());
    engine.dkg_state.public_key_set = Some(pk_set.clone());
    (
        ConsensusModule::new(String::from("self"), NodeType::Validator, config(), engine, None),
        pk_set,
    )
}

#[test]
fn votes_pool_until_the_threshold_is_reached() {
    let (mut module, _) = harvester_module();
    let vote = |i: u16| Vote {
        farmer_id: format!("farmer-{}", i),
        farmer_node_id: i,
        signature: vec![i as u8],
        txn_id: String::from("txn-a"),
        quorum_public_key: String::from("qk-1"),
        is_txn_valid: true,
    };
    assert!(module.handle_vote_received(vote(1), 3).is_none());
    assert!(module.handle_vote_received(vote(2), 3).is_none());
    let collected = module.handle_vote_received(vote(3), 3).unwrap();
    assert_eq!(collected.len(), 3);
    assert_eq!(collected[0].farmer_node_id, 1);
    assert_eq!(collected[2].farmer_node_id, 3);
    // the pool entry was consumed: the count restarts
    assert!(module.handle_vote_received(vote(4), 3).is_none());
}

#[test]
fn votes_for_distinct_transactions_pool_separately() {
    let (mut module, _) = harvester_module();
    let vote = |txn: &str, i: u16| Vote {
        farmer_id: format!("farmer-{}", i),
        farmer_node_id: i,
        signature: vec![i as u8],
        txn_id: String::from(txn),
        quorum_public_key: String::from("qk-1"),
        is_txn_valid: true,
    };
    assert!(module.handle_vote_received(vote("txn-a", 1), 2).is_none());
    assert!(module.handle_vote_received(vote("txn-b", 2), 2).is_none());
    let collected = module.handle_vote_received(vote("txn-a", 3), 2).unwrap();
    assert_eq!(collected.len(), 2);
    assert_eq!(collected[0].txn_id, "txn-a");
}

#[test]
fn certified_transactions_are_filtered_from_revoting() {
    let mut rng = rand::thread_rng();
    let sk_set = threshold_crypto::SecretKeySet::random(1, &mut rng);
    let pk_set = sk_set.public_keys();
    let sk = threshold_crypto::SecretKey::random();
    let mut engine = DkgEngine::new(String::from("self"), NodeType::Validator, sk, config());
    engine.dkg_state.public_key_set = Some(pk_set.clone());
    let mut module =
        ConsensusModule::new(String::from("self"), NodeType::Validator, config(), engine, None);

    let txn = consensus_core::txn::TransactionKind::Transfer(consensus_core::txn::Transfer {
        id: String::from("txn-c"),
        timestamp: 5,
        sender_address: String::from("0x192aaaaaaaaaaaaaaaa"),
        sender_public_key: String::from("pk"),
        receiver_address: String::from("0x192bbbbbbbbbbbbbbb"),
        token: String::from("vrrb"),
        amount: 1,
        signature: String::from("sig"),
        nonce: 0,
    });
    let msg = b"txn-c".to_vec();
    let vote = |i: u16| Vote {
        farmer_id: format!("farmer-{}", i),
        farmer_node_id: i,
        signature: sk_set.secret_key_share(i as usize).sign(&msg).to_bytes().to_vec(),
        txn_id: String::from("txn-c"),
        quorum_public_key: String::from("qk-1"),
        is_txn_valid: true,
    };
    let votes = vec![vote(0), vote(1)];
    let (certified, majority_valid) = module
        .handle_transaction_certificate_requested(
            &votes,
            &String::from("txn-c"),
            &String::from("qk-1"),
            &String::from("farmer-0"),
            &txn,
        )
        .unwrap();
    assert!(majority_valid);
    assert_eq!(certified.farmer_id, "farmer-0");
    // the combined signature verifies under the quorum key
    let sig_bytes: [u8; 96] = hex::decode(&certified.signature).unwrap().try_into().unwrap();
    let sig = threshold_crypto::Signature::from_bytes(sig_bytes).unwrap();
    assert!(pk_set.public_key().verify(&sig, &msg));
    // the pair is now filtered: further votes never trigger a request
    let late = Vote {
        farmer_id: String::from("farmer-9"),
        farmer_node_id: 9,
        signature: vec![9],
        txn_id: String::from("txn-c"),
        quorum_public_key: String::from("qk-1"),
        is_txn_valid: true,
    };
    assert!(module.handle_vote_received(late, 1).is_none());
}

#[test]
fn expired_share_entries_are_pruned() {
    let mut rng = rand::thread_rng();
    let sk_set = threshold_crypto::SecretKeySet::random(1, &mut rng);
    let pk_set = sk_set.public_keys();
    let block_hash = block_hash_fixture();
    let msg = hex::decode(&block_hash).unwrap();

    let mut cache = CertificateShareCache::new();
    for i in 0..2u16 {
        let share = sk_set.secret_key_share(i as usize);
        let sig = share.sign(&msg).to_bytes().to_vec();
        let pk_share = pk_set.public_key_share(i as usize).to_bytes().to_vec();
        cache.add_partial(&block_hash, i, pk_share, sig, 0).unwrap();
    }
    cache.prune_expired(100);
    assert_eq!(cache.entries.len(), 1);
    cache.prune_expired(1000);
    assert!(cache.entries.is_empty());
    assert!(cache.try_certify(&block_hash, 1, &pk_set).is_none());
}

#[test]
fn bootstrap_triggers_assignment_once_all_members_are_online() {
    let sk = threshold_crypto::SecretKey::random();
    let member = |i: u8| {
        (
            format!("node-{}", i),
            QuorumMember {
                node_id: format!("node-{}", i),
                kademlia_peer_id: format!("kad-{}", i),
                node_type: NodeType::Validator,
                udp_gossip_address: format!("10.0.0.{}:4001", i),
                raptorq_gossip_address: format!("10.0.0.{}:4002", i),
                kademlia_liveness_address: format!("10.0.0.{}:4003", i),
                validator_public_key: format!("pk-{}", i),
            },
        )
    };
    let roster = BootstrapQuorumConfig {
        membership_config: QuorumMembershipConfig {
            quorum_kind: QuorumKind::Harvester,
            quorum_members: vec![member(1), member(2)],
        },
    };
    let engine = DkgEngine::new(String::from("boot"), NodeType::Bootstrap, sk, config());
    let mut module = ConsensusModule::new(
        String::from("boot"),
        NodeType::Bootstrap,
        config(),
        engine,
        Some(roster),
    );
    let key = threshold_crypto::SecretKey::random().public_key();
    assert!(!module.handle_node_added_to_peer_list(peer(1), key.clone()));
    // an off-roster peer is registered but changes nothing else
    assert!(!module.handle_node_added_to_peer_list(peer(9), key.clone()));
    assert_eq!(module.bootstrap_quorum_available_nodes.len(), 1);
    // the last expected member comes online
    assert!(module.handle_node_added_to_peer_list(peer(2), key));
    assert_eq!(module.bootstrap_quorum_available_nodes.len(), 2);
}
