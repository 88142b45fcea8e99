//! The consensus module: the decision core of the consensus actor. Every
//! handler is a function from the module's state and one inbound event's
//! data to the new state and the data of the events to send; the hosting
//! runtime performs the sends.

use vstd::prelude::*;

use crate::block::{Certificate, ConvergenceBlock, QuorumCertifiedTxn};
use crate::certifier::{share_verifies, CertificateShareCache};
use crate::claim::{election_result_spec, Claim};
use crate::codec::ascii_chars;
use crate::crypto::{hex_to_bytes, is_digest_chars};
use crate::dag::{dag_wf, BlockDag};
use crate::dkg::{DkgEngine, DkgError, NodeType, ThresholdConfig};
use crate::election::{elect_miner, get_winner, sorted_claims};
use crate::header::BlockHeader;
use crate::txn::TransactionKind;
use crate::validator::{precheck_convergence_block, precheck_spec};

verus! {

/// Which quorum a node serves in.
#[derive(Debug, Clone, Copy, PartialEq, Eq, Structural)]
pub enum QuorumKind {
    Farmer,
    Harvester,
}

/// A quorum member as configuration records it.
#[derive(Debug, PartialEq, Eq)]
pub struct QuorumMember {
    pub node_id: String,
    pub kademlia_peer_id: String,
    pub node_type: NodeType,
    pub udp_gossip_address: String,
    pub raptorq_gossip_address: String,
    pub kademlia_liveness_address: String,
    pub validator_public_key: String,
}

/// The membership a node was assigned: its quorum kind and peers.
#[derive(Debug, PartialEq, Eq)]
pub struct QuorumMembershipConfig {
    pub quorum_kind: QuorumKind,
    pub quorum_members: Vec<(String, QuorumMember)>,
}

/// The quorum membership the bootstrap configuration prescribes.
#[derive(Debug, PartialEq, Eq)]
pub struct BootstrapQuorumConfig {
    pub membership_config: QuorumMembershipConfig,
}

/// What a node knows about a peer.
#[derive(Debug, PartialEq, Eq)]
pub struct PeerData {
    pub node_id: String,
    pub kademlia_peer_id: String,
    pub udp_gossip_address: String,
    pub raptorq_gossip_address: String,
    pub kademlia_liveness_address: String,
    pub validator_public_key: String,
}

impl Clone for PeerData {
    /// Clones the peer record field by field; the copy equals the
    /// original.
    fn clone(&self) -> (res: Self)
        ensures
            res == *self,
    {
        PeerData {
            node_id: self.node_id.clone(),
            kademlia_peer_id: self.kademlia_peer_id.clone(),
            udp_gossip_address: self.udp_gossip_address.clone(),
            raptorq_gossip_address: self.raptorq_gossip_address.clone(),
            kademlia_liveness_address: self.kademlia_liveness_address.clone(),
            validator_public_key: self.validator_public_key.clone(),
        }
    }
}

/// A membership assignment addressed to one node.
#[derive(Debug, PartialEq, Eq)]
pub struct AssignedQuorumMembership {
    pub node_id: String,
    pub kademlia_peer_id: String,
    pub quorum_kind: QuorumKind,
    pub peers: Vec<PeerData>,
}

/// A farmer's vote on a transaction.
#[derive(Debug, PartialEq, Eq)]
pub struct Vote {
    pub farmer_id: String,
    pub farmer_node_id: u16,
    pub signature: Vec<u8>,
    pub txn_id: String,
    pub quorum_public_key: String,
    pub is_txn_valid: bool,
}

/// Why a consensus step failed.
#[derive(Debug, PartialEq, Eq)]
pub enum ConsensusError {
    Dkg(DkgError),
    PrecheckFailed,
    NoShares,
    NotEnoughShares,
    NoQuorumKey,
    CombineFailed,
    NonAsciiInput,
}

/// The consensus actor's state: this node's identity and role, the key
/// generation engine, its quorum membership, the bootstrap roster, the
/// vote pool, the certified-transaction filter and the certificate share
/// cache.
pub struct ConsensusModule {
    pub node_id: String,
    pub node_type: NodeType,
    pub threshold_config: ThresholdConfig,
    pub dkg_engine: DkgEngine,
    pub membership_config: Option<QuorumMembershipConfig>,
    pub bootstrap_quorum_config: Option<BootstrapQuorumConfig>,
    pub bootstrap_quorum_available_nodes: Vec<(String, (PeerData, bool))>,
    pub votes_pool: Vec<((String, String), Vec<Vote>)>,
    pub certified_txns_filter: Vec<(String, String)>,
    pub quorum_certified_txns: Vec<QuorumCertifiedTxn>,
    pub convergence_block_certificates: CertificateShareCache,
}

/// Whether a node id is listed among the quorum members.
pub open spec fn is_member(members: Seq<(String, QuorumMember)>, id: Seq<char>) -> bool {
    exists|i: int| 0 <= i < members.len() && (#[trigger] members[i]).0@ == id
}

/// Whether the vote pool holds an entry for a transaction digest and
/// farmer quorum key.
pub open spec fn pool_has(
    pool: Seq<((String, String), Vec<Vote>)>,
    txn_id: Seq<char>,
    qkey: Seq<char>,
) -> bool {
    exists|i: int|
        0 <= i < pool.len() && (#[trigger] pool[i]).0.0@ == txn_id && pool[i].0.1@ == qkey
}

/// The index of the pool entry for a transaction digest and quorum key.
pub open spec fn pool_idx(
    pool: Seq<((String, String), Vec<Vote>)>,
    txn_id: Seq<char>,
    qkey: Seq<char>,
) -> int {
    choose|i: int|
        0 <= i < pool.len() && (#[trigger] pool[i]).0.0@ == txn_id && pool[i].0.1@ == qkey
}

/// The votes pooled for a transaction digest and quorum key; empty when
/// no entry exists.
pub open spec fn pool_votes(
    pool: Seq<((String, String), Vec<Vote>)>,
    txn_id: Seq<char>,
    qkey: Seq<char>,
) -> Seq<Vote> {
    if pool_has(pool, txn_id, qkey) {
        pool[pool_idx(pool, txn_id, qkey)].1@
    } else {
        Seq::<Vote>::empty()
    }
}

/// Whether each transaction-and-quorum pair keys at most one pool entry.
pub open spec fn pool_wf(pool: Seq<((String, String), Vec<Vote>)>) -> bool {
    forall|i: int, j: int|
        0 <= i < j < pool.len() ==> !((#[trigger] pool[i]).0.0@ == (#[trigger] pool[j]).0.0@
            && pool[i].0.1@ == pool[j].0.1@)
}

/// Whether a transaction digest and quorum key pair was already
/// certified.
pub open spec fn filter_has(
    filter: Seq<(String, String)>,
    txn_id: Seq<char>,
    qkey: Seq<char>,
) -> bool {
    exists|i: int|
        0 <= i < filter.len() && (#[trigger] filter[i]).0@ == txn_id && filter[i].1@ == qkey
}

/// Whether the available-nodes roster holds an entry for a node id.
pub open spec fn avail_has(avail: Seq<(String, (PeerData, bool))>, id: Seq<char>) -> bool {
    exists|i: int| 0 <= i < avail.len() && (#[trigger] avail[i]).0@ == id
}

/// Whether a node is recorded online among the available nodes.
pub open spec fn recorded_online(avail: Seq<(String, (PeerData, bool))>, id: Seq<char>) -> bool {
    exists|i: int| 0 <= i < avail.len() && (#[trigger] avail[i]).0@ == id && avail[i].1.1
}

/// Whether a part sender is refused: a membership is installed and the
/// sender is neither this node nor a listed quorum member.
pub open spec fn part_sender_refused(m: ConsensusModule, sender: Seq<char>) -> bool {
    &&& m.membership_config is Some
    &&& sender != m.node_id@
    &&& !is_member(m.membership_config->Some_0.quorum_members@, sender)
}

/// Whether a peer is an expected roster member that has no entry among
/// the available nodes yet.
pub open spec fn peer_is_new_roster_member(m: ConsensusModule, id: Seq<char>) -> bool {
    &&& m.bootstrap_quorum_config is Some
    &&& is_member(m.bootstrap_quorum_config->Some_0.membership_config.quorum_members@, id)
    &&& !avail_has(m.bootstrap_quorum_available_nodes@, id)
}

/// Whether every expected roster member is recorded online.
pub open spec fn all_members_online(
    members: Seq<(String, QuorumMember)>,
    avail: Seq<(String, (PeerData, bool))>,
) -> bool {
    forall|i: int|
        0 <= i < members.len() ==> recorded_online(avail, (#[trigger] members[i]).0@)
}

impl ConsensusModule {
    /// A fresh consensus module around a key generation engine.
    pub fn new(
        node_id: String,
        node_type: NodeType,
        threshold_config: ThresholdConfig,
        dkg_engine: DkgEngine,
        bootstrap_quorum_config: Option<BootstrapQuorumConfig>,
    ) -> (r: ConsensusModule)
        requires
            crate::dkg::valid_threshold_config(threshold_config),
        ensures
            r.node_id == node_id,
            r.node_type == node_type,
            r.threshold_config == threshold_config,
            r.membership_config is None,
            r.bootstrap_quorum_config == bootstrap_quorum_config,
            r.bootstrap_quorum_available_nodes@.len() == 0,
            r.votes_pool@.len() == 0,
            r.certified_txns_filter@.len() == 0,
            r.quorum_certified_txns@.len() == 0,
            r.convergence_block_certificates.entries@.len() == 0,
    {
        ConsensusModule {
            node_id,
            node_type,
            threshold_config,
            dkg_engine,
            membership_config: None,
            bootstrap_quorum_config,
            bootstrap_quorum_available_nodes: Vec::new(),
            votes_pool: Vec::new(),
            certified_txns_filter: Vec::new(),
            quorum_certified_txns: Vec::new(),
            convergence_block_certificates: CertificateShareCache::new(),
        }
    }

    /// The node's quorum membership, if one was assigned.
    pub fn membership_config(&self) -> (r: &Option<QuorumMembershipConfig>)
        ensures
            r == &self.membership_config,
    {
        &self.membership_config
    }

    /// The node's quorum membership, exposed for reassignment by the
    /// hosting runtime.
    pub fn membership_config_mut(&mut self) -> (r: &mut Option<QuorumMembershipConfig>)
    {
        &mut self.membership_config
    }

    /// Registers a peer's validator key with the key generation state,
    /// write-once per peer.
    pub fn add_peer_public_key_to_dkg_state(
        &mut self,
        node_id: String,
        public_key: threshold_crypto::PublicKey,
    ) -> (r: bool)
        ensures
            final(self).node_id == old(self).node_id,
            final(self).node_type == old(self).node_type,
            final(self).membership_config == old(self).membership_config,
            r <==> !crate::dkg::key_store_has(
                old(self).dkg_engine.dkg_state.peer_public_keys@,
                node_id@,
            ),
            final(self).dkg_engine.dkg_state.peer_public_keys@ == crate::dkg::register_key_spec(
                old(self).dkg_engine.dkg_state.peer_public_keys@,
                node_id,
                public_key,
            ),
            !r ==> *final(self) == *old(self),
    {
        self.dkg_engine.add_peer_public_key(node_id, public_key)
    }

    /// Opens this node's participation in a round: bootstrap and miner
    /// nodes are refused, an unassigned node cannot compute the round's
    /// threshold, and the node's own validator key is registered first
    /// so that it takes part as a validator rather than an observer.
    pub fn generate_partial_commitment_message(
        &mut self,
        own_validator_key: threshold_crypto::PublicKey,
    ) -> (r: Result<(hbbft::sync_key_gen::Part, String), DkgError>)
        ensures
            old(self).node_type == NodeType::Bootstrap ==> r == Err::<
                (hbbft::sync_key_gen::Part, String),
                DkgError,
            >(DkgError::BootstrapCannotParticipate),
            old(self).node_type == NodeType::Miner ==> r == Err::<
                (hbbft::sync_key_gen::Part, String),
                DkgError,
            >(DkgError::MinerCannotParticipate),
            (old(self).node_type == NodeType::Validator && old(self).membership_config is None)
                ==> r == Err::<(hbbft::sync_key_gen::Part, String), DkgError>(DkgError::NotAMember),
            (old(self).node_type == NodeType::Bootstrap || old(self).node_type == NodeType::Miner
                || old(self).membership_config is None) ==> *final(self) == *old(self),
            (old(self).node_type == NodeType::Validator && old(self).membership_config is Some)
                ==> final(self).dkg_engine.dkg_state.peer_public_keys@
                == crate::dkg::register_key_spec(
                old(self).dkg_engine.dkg_state.peer_public_keys@,
                old(self).dkg_engine.node_id,
                own_validator_key,
            ),
            r matches Ok(p) ==> p.1 == old(self).dkg_engine.node_id,
            final(self).dkg_engine.dkg_state.part_message_store@ == old(
                self,
            ).dkg_engine.dkg_state.part_message_store@,
            final(self).dkg_engine.dkg_state.ack_message_store@ == old(
                self,
            ).dkg_engine.dkg_state.ack_message_store@,
            final(self).node_id == old(self).node_id,
            final(self).node_type == old(self).node_type,
            final(self).membership_config == old(self).membership_config,
    {
        if matches!(self.node_type, NodeType::Bootstrap) {
            return Err(DkgError::BootstrapCannotParticipate);
        }
        if matches!(self.node_type, NodeType::Miner) {
            return Err(DkgError::MinerCannotParticipate);
        }
        let threshold = match &self.membership_config {
            Some(mc) => mc.quorum_members.len() / 2,
            None => {
                return Err(DkgError::NotAMember);
            },
        };
        let own_id = self.dkg_engine.node_id.clone();
        self.dkg_engine.add_peer_public_key(own_id, own_validator_key);
        self.dkg_engine.generate_partial_commitment(threshold)
    }

    /// Installs the membership this node was assigned. A bootstrap node
    /// cannot belong to a quorum, and a second assignment to an already
    /// assigned node is refused.
    pub fn handle_quorum_membership_assigment_created(
        &mut self,
        assigned: AssignedQuorumMembership,
    ) -> (r: Result<(), DkgError>)
        ensures
            old(self).node_type == NodeType::Bootstrap <==> r == Err::<(), DkgError>(
                DkgError::BootstrapCannotParticipate,
            ),
            (old(self).node_type != NodeType::Bootstrap && old(self).membership_config is Some)
                <==> r == Err::<(), DkgError>(DkgError::AlreadyAssigned),
            r is Ok <==> (old(self).node_type != NodeType::Bootstrap && old(
                self,
            ).membership_config is None),
            r is Err ==> *final(self) == *old(self),
            r is Ok ==> (final(self).membership_config matches Some(mc) && mc.quorum_kind
                == assigned.quorum_kind && mc.quorum_members@.len() == assigned.peers@.len() && (
            forall|i: int|
                0 <= i < assigned.peers@.len() ==> {
                    let m = (#[trigger] mc.quorum_members@[i]);
                    &&& m.0 == assigned.peers@[i].node_id
                    &&& m.1.node_id == assigned.peers@[i].node_id
                    &&& m.1.kademlia_peer_id == assigned.peers@[i].kademlia_peer_id
                    &&& m.1.node_type == NodeType::Validator
                    &&& m.1.udp_gossip_address == assigned.peers@[i].udp_gossip_address
                    &&& m.1.raptorq_gossip_address == assigned.peers@[i].raptorq_gossip_address
                    &&& m.1.kademlia_liveness_address
                        == assigned.peers@[i].kademlia_liveness_address
                    &&& m.1.validator_public_key == assigned.peers@[i].validator_public_key
                })),
            r is Ok ==> final(self).node_id == old(self).node_id && final(self).node_type == old(
                self,
            ).node_type,
    {
        if matches!(self.node_type, NodeType::Bootstrap) {
            return Err(DkgError::BootstrapCannotParticipate);
        }
        if self.membership_config.is_some() {
            return Err(DkgError::AlreadyAssigned);
        }
        let quorum_kind = assigned.quorum_kind;
        let mut members: Vec<(String, QuorumMember)> = Vec::new();
        let n = assigned.peers.len();
        let mut i: usize = 0;
        while i < n
            invariant
                n == assigned.peers@.len(),
                i <= n,
                members@.len() == i,
                forall|k: int|
                    0 <= k < i ==> {
                        let m = (#[trigger] members@[k]);
                        &&& m.0 == assigned.peers@[k].node_id
                        &&& m.1.node_id == assigned.peers@[k].node_id
                        &&& m.1.kademlia_peer_id == assigned.peers@[k].kademlia_peer_id
                        &&& m.1.node_type == NodeType::Validator
                        &&& m.1.udp_gossip_address == assigned.peers@[k].udp_gossip_address
                        &&& m.1.raptorq_gossip_address == assigned.peers@[k].raptorq_gossip_address
                        &&& m.1.kademlia_liveness_address
                            == assigned.peers@[k].kademlia_liveness_address
                        &&& m.1.validator_public_key == assigned.peers@[k].validator_public_key
                    },
            decreases n - i,
        {
            let peer = &assigned.peers[i];
            let member = QuorumMember {
                node_id: peer.node_id.clone(),
                kademlia_peer_id: peer.kademlia_peer_id.clone(),
                node_type: NodeType::Validator,
                udp_gossip_address: peer.udp_gossip_address.clone(),
                raptorq_gossip_address: peer.raptorq_gossip_address.clone(),
                kademlia_liveness_address: peer.kademlia_liveness_address.clone(),
                validator_public_key: peer.validator_public_key.clone(),
            };
            let key = peer.node_id.clone();
            members.push((key, member));
            i = i + 1;
        }
        self.membership_config = Some(
            QuorumMembershipConfig { quorum_kind, quorum_members: members },
        );
        Ok(())
    }

    /// Records that a peer from the bootstrap roster came online, and
    /// reports whether the genesis quorum assignment should be
    /// triggered: the roster is configured, this node is the bootstrap
    /// node, and every expected member is now online. The peer's
    /// validator key is registered with the key generation state either
    /// way, write-once.
    pub fn handle_node_added_to_peer_list(
        &mut self,
        peer: PeerData,
        peer_threshold_key: threshold_crypto::PublicKey,
    ) -> (r: bool)
        ensures
            final(self).dkg_engine.dkg_state.peer_public_keys@ == crate::dkg::register_key_spec(
                old(self).dkg_engine.dkg_state.peer_public_keys@,
                peer.node_id,
                peer_threshold_key,
            ),
            peer_is_new_roster_member(*old(self), peer.node_id@)
                ==> final(self).bootstrap_quorum_available_nodes@ == old(
                self,
            ).bootstrap_quorum_available_nodes@.push((peer.node_id, (peer, true))),
            !peer_is_new_roster_member(*old(self), peer.node_id@)
                ==> final(self).bootstrap_quorum_available_nodes@ == old(
                self,
            ).bootstrap_quorum_available_nodes@,
            r <==> (old(self).bootstrap_quorum_config is Some && old(self).node_type
                == NodeType::Bootstrap && all_members_online(
                old(self).bootstrap_quorum_config->Some_0.membership_config.quorum_members@,
                final(self).bootstrap_quorum_available_nodes@,
            )),
            final(self).node_id == old(self).node_id,
            final(self).node_type == old(self).node_type,
            final(self).membership_config == old(self).membership_config,
            final(self).bootstrap_quorum_config == old(self).bootstrap_quorum_config,
            final(self).dkg_engine.dkg_state.part_message_store@ == old(
                self,
            ).dkg_engine.dkg_state.part_message_store@,
            final(self).dkg_engine.dkg_state.ack_message_store@ == old(
                self,
            ).dkg_engine.dkg_state.ack_message_store@,
    {
        let mut tracked_member = false;
        match &self.bootstrap_quorum_config {
            Some(config) => {
                let members = &config.membership_config.quorum_members;
                let n = members.len();
                let mut i: usize = 0;
                while i < n
                    invariant
                        *self == *old(self),
                        members@ == old(
                            self,
                        ).bootstrap_quorum_config->Some_0.membership_config.quorum_members@,
                        n == members@.len(),
                        i <= n,
                        tracked_member == exists|j: int|
                            0 <= j < i && (#[trigger] members@[j]).0@ == peer.node_id@,
                    decreases n - i,
                {
                    if members[i].0 == peer.node_id {
                        tracked_member = true;
                    }
                    i = i + 1;
                }
            },
            None => {},
        }
        proof {
            assert(tracked_member == (old(self).bootstrap_quorum_config is Some && is_member(
                old(self).bootstrap_quorum_config->Some_0.membership_config.quorum_members@,
                peer.node_id@,
            )));
        }
        if tracked_member {
            let n = self.bootstrap_quorum_available_nodes.len();
            let mut i: usize = 0;
            let mut present = false;
            while i < n
                invariant
                    *self == *old(self),
                    n == self.bootstrap_quorum_available_nodes@.len(),
                    i <= n,
                    present == exists|j: int|
                        0 <= j < i && (#[trigger] self.bootstrap_quorum_available_nodes@[j]).0@
                            == peer.node_id@,
                decreases n - i,
            {
                if self.bootstrap_quorum_available_nodes[i].0 == peer.node_id {
                    present = true;
                }
                i = i + 1;
            }
            if !present {
                let key = peer.node_id.clone();
                let record = (peer.clone(), true);
                self.bootstrap_quorum_available_nodes.push((key, record));
            }
        }
        let id_for_key = peer.node_id.clone();
        self.dkg_engine.add_peer_public_key(id_for_key, peer_threshold_key);
        if !matches!(self.node_type, NodeType::Bootstrap) {
            return false;
        }
        match &self.bootstrap_quorum_config {
            Some(config) => {
                let members = &config.membership_config.quorum_members;
                let n = members.len();
                let mut i: usize = 0;
                let mut all_online = true;
                while i < n
                    invariant
                        members@ == old(
                            self,
                        ).bootstrap_quorum_config->Some_0.membership_config.quorum_members@,
                        old(self).bootstrap_quorum_config is Some,
                        self.node_type == NodeType::Bootstrap,
                        n == members@.len(),
                        i <= n,
                        all_online == forall|k: int|
                            0 <= k < i ==> recorded_online(
                                self.bootstrap_quorum_available_nodes@,
                                (#[trigger] members@[k]).0@,
                            ),
                        self.node_id == old(self).node_id,
                        self.node_type == old(self).node_type,
                        self.membership_config == old(self).membership_config,
                        self.bootstrap_quorum_config == old(self).bootstrap_quorum_config,
                    decreases n - i,
                {
                    let m = self.bootstrap_quorum_available_nodes.len();
                    let mut j: usize = 0;
                    let mut online = false;
                    while j < m
                        invariant
                            members@ == old(
                                self,
                            ).bootstrap_quorum_config->Some_0.membership_config.quorum_members@,
                            old(self).bootstrap_quorum_config is Some,
                            self.node_type == NodeType::Bootstrap,
                            m == self.bootstrap_quorum_available_nodes@.len(),
                            j <= m,
                            i < n,
                            n == members@.len(),
                            online == exists|q: int|
                                0 <= q < j && (
                                #[trigger] self.bootstrap_quorum_available_nodes@[q]).0@
                                    == members@[i as int].0@
                                    && self.bootstrap_quorum_available_nodes@[q].1.1,
                            self.node_id == old(self).node_id,
                            self.node_type == old(self).node_type,
                            self.membership_config == old(self).membership_config,
                            self.bootstrap_quorum_config == old(self).bootstrap_quorum_config,
                        decreases m - j,
                    {
                        let e = &self.bootstrap_quorum_available_nodes[j];
                        if e.0 == members[i].0 && e.1.1 {
                            online = true;
                        }
                        j = j + 1;
                    }
                    proof {
                        assert(online == recorded_online(
                            self.bootstrap_quorum_available_nodes@,
                            members@[i as int].0@,
                        ));
                    }
                    if !online {
                        all_online = false;
                    }
                    i = i + 1;
                }
                all_online
            },
            None => false,
        }
    }

    /// Splits the bootstrap peers into the harvester and farmer quorums:
    /// peers are taken in roster order, each hashed with the bootstrap
    /// seed, and steered to the harvester group on an even digest byte
    /// while seats remain, otherwise to the farmer group.
    pub fn assign_peer_list_to_quorums(
        &self,
        available: &Vec<PeerData>,
        bootstrap_seed: u64,
        quorum_size: usize,
    ) -> (r: Vec<(String, AssignedQuorumMembership)>)
        requires
            forall|i: int| 0 <= i < available@.len() ==> ascii_chars((#[trigger] available@[i]).node_id@),
        ensures
            r@.len() == available@.len(),
            forall|i: int|
                0 <= i < r@.len() ==> (#[trigger] r@[i]).0 == available@[i].node_id && r@[i].1.node_id
                    == available@[i].node_id && r@[i].1.quorum_kind == assignment_spec(
                    available@,
                    bootstrap_seed,
                    quorum_size as int,
                    i,
                ),
    {
        let n = available.len();
        let mut out: Vec<(String, AssignedQuorumMembership)> = Vec::new();
        let mut harvesters: usize = 0;
        let mut i: usize = 0;
        while i < n
            invariant
                n == available@.len(),
                i <= n,
                out@.len() == i,
                harvesters as int == harvester_count(
                    available@,
                    bootstrap_seed,
                    quorum_size as int,
                    i as int,
                ),
                harvesters <= i,
                forall|k: int| 0 <= k < available@.len() ==> ascii_chars((#[trigger] available@[k]).node_id@),
                forall|k: int|
                    0 <= k < i ==> (#[trigger] out@[k]).0 == available@[k].node_id
                        && out@[k].1.node_id == available@[k].node_id && out@[k].1.quorum_kind
                        == assignment_spec(available@, bootstrap_seed, quorum_size as int, k),
            decreases n - i,
        {
            let peer = &available[i];
            let even = digest_byte_even(&peer.node_id, bootstrap_seed);
            let kind = if even && harvesters < quorum_size {
                harvesters = harvesters + 1;
                QuorumKind::Harvester
            } else {
                QuorumKind::Farmer
            };
            let mut peers: Vec<PeerData> = Vec::new();
            let mut k: usize = 0;
            while k < n
                invariant
                    n == available@.len(),
                    k <= n,
                decreases n - k,
            {
                peers.push(available[k].clone());
                k = k + 1;
            }
            let assignment = AssignedQuorumMembership {
                node_id: peer.node_id.clone(),
                kademlia_peer_id: peer.kademlia_peer_id.clone(),
                quorum_kind: kind,
                peers,
            };
            let key = peer.node_id.clone();
            out.push((key, assignment));
            i = i + 1;
        }
        out
    }

    /// Stores a sender's part message and acknowledges it. A sender that
    /// is neither this node nor a listed quorum member is refused.
    pub fn handle_part_commitment_created(
        &mut self,
        sender_id: String,
        part: hbbft::sync_key_gen::Part,
    ) -> (r: Result<(String, String, hbbft::sync_key_gen::Ack), DkgError>)
        ensures
            part_sender_refused(*old(self), sender_id@) ==> r == Err::<
                (String, String, hbbft::sync_key_gen::Ack),
                DkgError,
            >(DkgError::NotAMember) && *final(self) == *old(self),
            !part_sender_refused(*old(self), sender_id@)
                ==> final(self).dkg_engine.dkg_state.part_message_store@
                == crate::dkg::store_part_spec(
                old(self).dkg_engine.dkg_state.part_message_store@,
                sender_id,
                part,
            ),
            final(self).dkg_engine.dkg_state.ack_message_store@ == old(
                self,
            ).dkg_engine.dkg_state.ack_message_store@,
            final(self).dkg_engine.dkg_state.peer_public_keys@ == old(
                self,
            ).dkg_engine.dkg_state.peer_public_keys@,
            r matches Ok(t) ==> t.0@ == old(self).dkg_engine.node_id@ && t.1@ == sender_id@,
            final(self).node_id == old(self).node_id,
            final(self).node_type == old(self).node_type,
            final(self).membership_config == old(self).membership_config,
    {
        let is_self = sender_id == self.node_id;
        match &self.membership_config {
            Some(mc) => {
                if !is_self {
                    let members = &mc.quorum_members;
                    let n = members.len();
                    let mut i: usize = 0;
                    let mut member = false;
                    while i < n
                        invariant
                            n == members@.len(),
                            i <= n,
                            member == exists|j: int|
                                0 <= j < i && (#[trigger] members@[j]).0@ == sender_id@,
                        decreases n - i,
                    {
                        if members[i].0 == sender_id {
                            member = true;
                        }
                        i = i + 1;
                    }
                    if !member {
                        return Err(DkgError::NotAMember);
                    }
                }
            },
            None => {},
        }
        let sid_for_store = sender_id.clone();
        self.dkg_engine.store_part(sid_for_store, part);
        self.dkg_engine.ack_partial_commitment(&sender_id)
    }

    /// Stores an ack message, first writer wins: replaying an ack never
    /// changes the stored state.
    pub fn handle_part_commitment_acknowledged(
        &mut self,
        receiver_id: String,
        sender_id: String,
        ack: hbbft::sync_key_gen::Ack,
    ) -> (r: Result<(), DkgError>)
        ensures
            r is Ok,
            final(self).dkg_engine.dkg_state.ack_message_store@ == crate::dkg::store_ack_spec(
                old(self).dkg_engine.dkg_state.ack_message_store@,
                receiver_id,
                sender_id,
                ack,
            ),
            final(self).node_id == old(self).node_id,
            final(self).node_type == old(self).node_type,
            final(self).membership_config == old(self).membership_config,
            final(self).dkg_engine.dkg_state.part_message_store@ == old(
                self,
            ).dkg_engine.dkg_state.part_message_store@,
    {
        self.dkg_engine.store_ack(receiver_id, sender_id, ack);
        Ok(())
    }

    /// Feeds every stored ack through the key generation instance.
    pub fn handle_all_ack_messages(&mut self) -> (r: Result<(), DkgError>)
        ensures
            final(self).node_id == old(self).node_id,
            final(self).node_type == old(self).node_type,
            final(self).membership_config == old(self).membership_config,
    {
        self.dkg_engine.handle_ack_messages()
    }

    /// Finalizes the round's keysets.
    pub fn generate_keysets(&mut self) -> (r: Result<(), DkgError>)
        ensures
            r is Ok ==> final(self).dkg_engine.dkg_state.public_key_set is Some,
            final(self).node_id == old(self).node_id,
            final(self).node_type == old(self).node_type,
            final(self).membership_config == old(self).membership_config,
    {
        self.dkg_engine.generate_key_sets()
    }

    /// Elects the miner for a round: scores the claims under the
    /// header's seed and returns the winner with its election score.
    pub fn handle_miner_election_started(
        &mut self,
        header: &BlockHeader,
        claims: &Vec<Claim>,
    ) -> (r: Option<(Vec<u8>, Claim)>)
        requires
            forall|i: int| 0 <= i < claims@.len() ==> ascii_chars((#[trigger] claims@[i]).hash@),
        ensures
            claims@.len() == 0 <==> r is None,
            r matches Some(w) ==> w.1 == sorted_claims(claims@, header.block_seed)[0] && w.0@
                == election_result_spec(
                sorted_claims(claims@, header.block_seed)[0],
                header.block_seed,
            ),
            *final(self) == *old(self),
    {
        let ordered = elect_miner(claims, header.block_seed);
        proof {
            crate::election::lemma_sorted_claims_len(claims@, header.block_seed);
            crate::election::lemma_sorted_claims_elements(claims@, header.block_seed);
            assert forall|i: int| 0 <= i < ordered@.len() implies ascii_chars(
                (#[trigger] ordered@[i]).hash@,
            ) by {
                assert(claims@.contains(ordered@[i]));
                let j = choose|j: int| 0 <= j < claims@.len() && claims@[j] == ordered@[i];
                assert(ascii_chars(claims@[j].hash@));
            }
        }
        get_winner(&ordered, header.block_seed)
    }

    /// Pre-checks a convergence block against the DAG.
    pub fn precheck_convergence_block(&self, block: &ConvergenceBlock, dag: &BlockDag) -> (r: bool)
        requires
            dag_wf(dag.entries@),
        ensures
            r == precheck_spec(*block, dag.entries@),
    {
        precheck_convergence_block(block, dag)
    }

    /// Drops every cached certificate share entry older than the time
    /// to live.
    pub fn prune_certificate_shares(&mut self, now: i64)
        requires
            crate::certifier::cache_wf(old(self).convergence_block_certificates.entries@),
        ensures
            crate::certifier::cache_wf(final(self).convergence_block_certificates.entries@),
            final(self).convergence_block_certificates.entries@ == old(
                self,
            ).convergence_block_certificates.entries@.filter(
                |e: (String, crate::certifier::ShareEntry)|
                    crate::certifier::entry_fresh(e, now),
            ),
            final(self).node_id == old(self).node_id,
            final(self).node_type == old(self).node_type,
            final(self).membership_config == old(self).membership_config,
            final(self).dkg_engine == old(self).dkg_engine,
            final(self).votes_pool == old(self).votes_pool,
            final(self).certified_txns_filter == old(self).certified_txns_filter,
    {
        self.convergence_block_certificates.prune_expired(now);
    }

    /// Handles a partial signature over a convergence block, own or from
    /// a peer: the share is verified and cached, and certification is
    /// attempted. Returns whether this node should rebroadcast its own
    /// share, and the certificate if one was just produced.
    pub fn handle_convergence_block_partial_signature(
        &mut self,
        block_hash: &String,
        node_idx: u16,
        pk_share_bytes: Vec<u8>,
        sig_share_bytes: Vec<u8>,
        now: i64,
    ) -> (r: (bool, Option<Certificate>))
        requires
            is_digest_chars(block_hash@),
            crate::certifier::cache_wf(old(self).convergence_block_certificates.entries@),
        ensures
            crate::certifier::cache_wf(final(self).convergence_block_certificates.entries@),
            !share_verifies(pk_share_bytes@, sig_share_bytes@, hex_to_bytes(block_hash@)) ==> (
            *final(self) == *old(self) && r.1 is None),
            share_verifies(pk_share_bytes@, sig_share_bytes@, hex_to_bytes(block_hash@))
                ==> crate::certifier::cache_has(
                final(self).convergence_block_certificates.entries@,
                block_hash@,
            ),
            (share_verifies(pk_share_bytes@, sig_share_bytes@, hex_to_bytes(block_hash@))
                && crate::certifier::cache_has(
                old(self).convergence_block_certificates.entries@,
                block_hash@,
            ) && !crate::certifier::has_share_from(
                old(self).convergence_block_certificates.entries@,
                block_hash@,
                node_idx,
            )) ==> crate::certifier::share_count(
                final(self).convergence_block_certificates.entries@,
                block_hash@,
            ) == crate::certifier::share_count(
                old(self).convergence_block_certificates.entries@,
                block_hash@,
            ) + 1,
            (share_verifies(pk_share_bytes@, sig_share_bytes@, hex_to_bytes(block_hash@))
                && crate::certifier::has_share_from(
                old(self).convergence_block_certificates.entries@,
                block_hash@,
                node_idx,
            )) ==> crate::certifier::share_count(
                final(self).convergence_block_certificates.entries@,
                block_hash@,
            ) == crate::certifier::share_count(
                old(self).convergence_block_certificates.entries@,
                block_hash@,
            ),
            share_verifies(pk_share_bytes@, sig_share_bytes@, hex_to_bytes(block_hash@)) ==> r.0
                == (crate::certifier::share_count(
                final(self).convergence_block_certificates.entries@,
                block_hash@,
            ) <= old(self).threshold_config.upper_bound as int),
            old(self).dkg_engine.dkg_state.public_key_set is None ==> r.1 is None,
            (share_verifies(pk_share_bytes@, sig_share_bytes@, hex_to_bytes(block_hash@)) && old(
                self,
            ).dkg_engine.dkg_state.public_key_set is Some) ==> (r.1 is Some <==> (
            crate::certifier::share_count(
                final(self).convergence_block_certificates.entries@,
                block_hash@,
            ) > old(self).threshold_config.threshold as int && !crate::certifier::is_sealed(
                old(self).convergence_block_certificates.entries@,
                block_hash@,
            ) && crate::certifier::combine_of(
                old(self).dkg_engine.dkg_state.public_key_set->Some_0,
                crate::certifier::cache_sig_shares(
                    final(self).convergence_block_certificates.entries@,
                    block_hash@,
                ),
            ) is Some)),
            r.1 matches Some(c) ==> c.block_hash == *block_hash && c.inauguration is None
                && c.signature@ == crate::crypto::hex_of(
                crate::certifier::combine_of(
                    old(self).dkg_engine.dkg_state.public_key_set->Some_0,
                    crate::certifier::cache_sig_shares(
                        final(self).convergence_block_certificates.entries@,
                        block_hash@,
                    ),
                )->Some_0,
            ) && !crate::certifier::is_sealed(
                old(self).convergence_block_certificates.entries@,
                block_hash@,
            ) && crate::certifier::is_sealed(
                final(self).convergence_block_certificates.entries@,
                block_hash@,
            ),
            crate::certifier::is_sealed(
                old(self).convergence_block_certificates.entries@,
                block_hash@,
            ) ==> r.1 is None,
            final(self).node_id == old(self).node_id,
            final(self).node_type == old(self).node_type,
            final(self).membership_config == old(self).membership_config,
    {
        let added = self.convergence_block_certificates.add_partial(
            block_hash,
            node_idx,
            pk_share_bytes,
            sig_share_bytes,
            now,
        );
        if added.is_err() {
            return (false, None);
        }
        let rebroadcast = self.convergence_block_certificates.should_rebroadcast(
            block_hash,
            self.threshold_config.upper_bound,
        );
        let cert = match &self.dkg_engine.dkg_state.public_key_set {
            Some(pk_set) => {
                let threshold = self.threshold_config.threshold;
                let pk_set_ref = pk_set;
                self.convergence_block_certificates.try_certify(block_hash, threshold, pk_set_ref)
            },
            None => None,
        };
        (rebroadcast, cert)
    }

    /// Certifies a convergence block: the block must pass the DAG
    /// pre-check, the quorum key must be finalized, and more than the
    /// configured threshold of shares must have been collected; at most
    /// one certificate is ever produced per block hash.
    pub fn certify_convergence_block(
        &mut self,
        block: &ConvergenceBlock,
        dag: &BlockDag,
    ) -> (r: Result<Certificate, ConsensusError>)
        requires
            dag_wf(dag.entries@),
            crate::certifier::cache_wf(old(self).convergence_block_certificates.entries@),
        ensures
            crate::certifier::cache_wf(final(self).convergence_block_certificates.entries@),
            r is Err ==> *final(self) == *old(self),
            !precheck_spec(*block, dag.entries@) ==> r == Err::<Certificate, ConsensusError>(
                ConsensusError::PrecheckFailed,
            ),
            (precheck_spec(*block, dag.entries@) && old(
                self,
            ).dkg_engine.dkg_state.public_key_set is None) ==> r == Err::<
                Certificate,
                ConsensusError,
            >(ConsensusError::NoQuorumKey),
            r is Ok <==> (precheck_spec(*block, dag.entries@) && old(
                self,
            ).dkg_engine.dkg_state.public_key_set is Some && crate::certifier::cache_has(
                old(self).convergence_block_certificates.entries@,
                block.hash@,
            ) && crate::certifier::share_count(
                old(self).convergence_block_certificates.entries@,
                block.hash@,
            ) > old(self).threshold_config.threshold as int && !crate::certifier::is_sealed(
                old(self).convergence_block_certificates.entries@,
                block.hash@,
            ) && crate::certifier::combine_of(
                old(self).dkg_engine.dkg_state.public_key_set->Some_0,
                crate::certifier::cache_sig_shares(
                    old(self).convergence_block_certificates.entries@,
                    block.hash@,
                ),
            ) is Some),
            r matches Ok(c) ==> c.block_hash == block.hash && c.inauguration is None
                && c.signature@ == crate::crypto::hex_of(
                crate::certifier::combine_of(
                    old(self).dkg_engine.dkg_state.public_key_set->Some_0,
                    crate::certifier::cache_sig_shares(
                        old(self).convergence_block_certificates.entries@,
                        block.hash@,
                    ),
                )->Some_0,
            ) && crate::certifier::is_sealed(
                final(self).convergence_block_certificates.entries@,
                block.hash@,
            ),
    {
        if !precheck_convergence_block(block, dag) {
            return Err(ConsensusError::PrecheckFailed);
        }
        let threshold = self.threshold_config.threshold;
        let cert = match &self.dkg_engine.dkg_state.public_key_set {
            Some(pk_set) => {
                self.convergence_block_certificates.try_certify(&block.hash, threshold, pk_set)
            },
            None => {
                return Err(ConsensusError::NoQuorumKey);
            },
        };
        match cert {
            Some(c) => Ok(c),
            None => Err(ConsensusError::NotEnoughShares),
        }
    }

    /// Pools a farmer's vote on a transaction. When the votes pooled for
    /// the transaction and quorum key, this one included, reach the
    /// farmer quorum threshold and the pair is not yet in the certified
    /// filter, the collected votes are returned and their pool entry is
    /// consumed so that a certificate can be requested.
    pub fn handle_vote_received(&mut self, vote: Vote, farmer_quorum_threshold: usize) -> (r:
        Option<Vec<Vote>>)
        requires
            pool_wf(old(self).votes_pool@),
        ensures
            pool_wf(final(self).votes_pool@),
            final(self).certified_txns_filter@ == old(self).certified_txns_filter@,
            r is Some <==> (!filter_has(
                old(self).certified_txns_filter@,
                vote.txn_id@,
                vote.quorum_public_key@,
            ) && pool_votes(old(self).votes_pool@, vote.txn_id@, vote.quorum_public_key@).len() + 1
                >= farmer_quorum_threshold),
            r matches Some(v) ==> v@ == pool_votes(
                old(self).votes_pool@,
                vote.txn_id@,
                vote.quorum_public_key@,
            ).push(vote) && !pool_has(
                final(self).votes_pool@,
                vote.txn_id@,
                vote.quorum_public_key@,
            ),
            filter_has(old(self).certified_txns_filter@, vote.txn_id@, vote.quorum_public_key@)
                ==> *final(self) == *old(self),
            (!filter_has(old(self).certified_txns_filter@, vote.txn_id@, vote.quorum_public_key@)
                && r is None) ==> pool_votes(
                final(self).votes_pool@,
                vote.txn_id@,
                vote.quorum_public_key@,
            ) == pool_votes(old(self).votes_pool@, vote.txn_id@, vote.quorum_public_key@).push(
                vote,
            ),
            forall|t2: Seq<char>, q2: Seq<char>|
                !(t2 == vote.txn_id@ && q2 == vote.quorum_public_key@) ==> #[trigger] pool_votes(
                    final(self).votes_pool@,
                    t2,
                    q2,
                ) == pool_votes(old(self).votes_pool@, t2, q2),
            final(self).node_id == old(self).node_id,
            final(self).node_type == old(self).node_type,
            final(self).membership_config == old(self).membership_config,
            final(self).dkg_engine == old(self).dkg_engine,
            final(self).convergence_block_certificates == old(
                self,
            ).convergence_block_certificates,
    {
        let txn_id = vote.txn_id.clone();
        let qkey = vote.quorum_public_key.clone();
        if filter_contains(&self.certified_txns_filter, &txn_id, &qkey) {
            return None;
        }
        let n = self.votes_pool.len();
        let mut i: usize = 0;
        let mut found: Option<usize> = None;
        while i < n
            invariant
                pool_wf(self.votes_pool@),
                *self == *old(self),
                n == self.votes_pool@.len(),
                i <= n,
                found is None ==> forall|j: int|
                    0 <= j < i ==> !((#[trigger] self.votes_pool@[j]).0.0@ == txn_id@
                        && self.votes_pool@[j].0.1@ == qkey@),
                found matches Some(k) ==> k < n && self.votes_pool@[k as int].0.0@ == txn_id@
                    && self.votes_pool@[k as int].0.1@ == qkey@,
            decreases n - i,
        {
            let e = &self.votes_pool[i];
            if e.0.0 == txn_id && e.0.1 == qkey {
                found = Some(i);
            }
            i = i + 1;
        }
        match found {
            Some(k) => {
                proof {
                    assert(pool_has(self.votes_pool@, txn_id@, qkey@));
                    assert(pool_idx(self.votes_pool@, txn_id@, qkey@) == k as int);
                }
                let ghost pre = self.votes_pool@;
                let mut entry = self.votes_pool.remove(k);
                let ghost entry_votes = entry.1@;
                entry.1.push(vote);
                let count = entry.1.len();
                if count >= farmer_quorum_threshold {
                    let votes = entry.1;
                    proof {
                        lemma_pool_remove(pre, k as int, txn_id@, qkey@);
                    }
                    return Some(votes);
                }
                let ghost updated = entry;
                self.votes_pool.insert(k, entry);
                proof {
                    assert(self.votes_pool@ =~= pre.update(k as int, updated));
                    lemma_pool_update(pre, k as int, updated, txn_id@, qkey@);
                }
                None
            },
            None => {
                proof {
                    assert(!pool_has(self.votes_pool@, txn_id@, qkey@));
                }
                let mut votes: Vec<Vote> = Vec::new();
                votes.push(vote);
                if 1 >= farmer_quorum_threshold {
                    return Some(votes);
                }
                let ghost pre = self.votes_pool@;
                self.votes_pool.push(((txn_id, qkey), votes));
                proof {
                    lemma_pool_push(
                        pre,
                        self.votes_pool@[pre.len() as int],
                        vote.txn_id@,
                        vote.quorum_public_key@,
                    );
                    assert(self.votes_pool@ =~= pre.push(self.votes_pool@[pre.len() as int]));
                }
                None
            },
        }
    }

    /// Certifies a transaction from the farmers' votes: the majority
    /// polarity is chosen, the matching signature shares are combined
    /// under the quorum key, and the certified transaction is recorded
    /// and filtered against double certification.
    pub fn handle_transaction_certificate_requested(
        &mut self,
        votes: &Vec<Vote>,
        txn_id: &String,
        quorum_key: &String,
        farmer_id: &String,
        txn: &TransactionKind,
    ) -> (r: Result<(QuorumCertifiedTxn, bool), ConsensusError>)
        ensures
            old(self).dkg_engine.dkg_state.public_key_set is None ==> r == Err::<
                (QuorumCertifiedTxn, bool),
                ConsensusError,
            >(ConsensusError::NoQuorumKey),
            r matches Ok(p) ==> p.0.farmer_id == *farmer_id && filter_has(
                final(self).certified_txns_filter@,
                txn_id@,
                quorum_key@,
            ),
            final(self).node_id == old(self).node_id,
            final(self).node_type == old(self).node_type,
            final(self).membership_config == old(self).membership_config,
    {
        let n = votes.len();
        let mut i: usize = 0;
        let mut yes: usize = 0;
        let mut no: usize = 0;
        while i < n
            invariant
                n == votes@.len(),
                i <= n,
                yes <= i,
                no <= i,
            decreases n - i,
        {
            if votes[i].is_txn_valid {
                yes = yes + 1;
            } else {
                no = no + 1;
            }
            i = i + 1;
        }
        let majority_valid = yes >= no;
        let mut shares: Vec<(u16, Vec<u8>)> = Vec::new();
        let mut i: usize = 0;
        while i < n
            invariant
                n == votes@.len(),
                i <= n,
            decreases n - i,
        {
            if votes[i].is_txn_valid == majority_valid {
                let idx = votes[i].farmer_node_id;
                let sig = crate::header::clone_bytes(&votes[i].signature);
                shares.push((idx, sig));
            }
            i = i + 1;
        }
        let combined = match &self.dkg_engine.dkg_state.public_key_set {
            Some(pk_set) => {
                match crate::certifier::combine_shares(pk_set, &shares) {
                    Some(c) => c,
                    None => {
                        return Err(ConsensusError::CombineFailed);
                    },
                }
            },
            None => {
                return Err(ConsensusError::NoQuorumKey);
            },
        };
        let signature = crate::crypto::hex_encode(&combined);
        let certified = QuorumCertifiedTxn {
            farmer_id: farmer_id.clone(),
            txn: txn.clone(),
            signature,
        };
        let filter_key = (txn_id.clone(), quorum_key.clone());
        self.certified_txns_filter.push(filter_key);
        proof {
            let m = self.certified_txns_filter@.len();
            assert(self.certified_txns_filter@[m - 1].0@ == txn_id@);
            assert(filter_has(self.certified_txns_filter@, txn_id@, quorum_key@));
        }
        Ok((certified, majority_valid))
    }
}

/// Removing a pool entry keeps the pool well formed, drops its pair and
/// leaves every other pair's votes unchanged.
proof fn lemma_pool_remove(
    pre: Seq<((String, String), Vec<Vote>)>,
    k: int,
    tid: Seq<char>,
    qk: Seq<char>,
)
    requires
        pool_wf(pre),
        0 <= k < pre.len(),
        pre[k].0.0@ == tid,
        pre[k].0.1@ == qk,
    ensures
        pool_wf(pre.remove(k)),
        !pool_has(pre.remove(k), tid, qk),
        forall|t2: Seq<char>, q2: Seq<char>|
            !(t2 == tid && q2 == qk) ==> #[trigger] pool_votes(pre.remove(k), t2, q2)
                == pool_votes(pre, t2, q2),
{
    let post = pre.remove(k);
    assert forall|p: int, q: int|
        0 <= p < q < post.len() implies !((#[trigger] post[p]).0.0@ == (
    #[trigger] post[q]).0.0@ && post[p].0.1@ == post[q].0.1@) by {
        let p0 = if p < k { p } else { p + 1 };
        let q0 = if q < k { q } else { q + 1 };
        assert(post[p] == pre[p0]);
        assert(post[q] == pre[q0]);
    }
    assert forall|j: int| 0 <= j < post.len() implies !((#[trigger] post[j]).0.0@ == tid
        && post[j].0.1@ == qk) by {
        let j0 = if j < k { j } else { j + 1 };
        assert(post[j] == pre[j0]);
    }
    assert forall|t2: Seq<char>, q2: Seq<char>|
        !(t2 == tid && q2 == qk) implies #[trigger] pool_votes(post, t2, q2) == pool_votes(
        pre,
        t2,
        q2,
    ) by {
        if pool_has(pre, t2, q2) {
            let w = pool_idx(pre, t2, q2);
            assert(pre[w].0.0@ == t2 && pre[w].0.1@ == q2);
            assert(w != k);
            let w2 = if w < k { w } else { w - 1 };
            assert(post[w2] == pre[w]);
            assert(pool_has(post, t2, q2));
            assert(pool_idx(post, t2, q2) == w2);
        }
        if pool_has(post, t2, q2) {
            let w = pool_idx(post, t2, q2);
            let w0 = if w < k { w } else { w + 1 };
            assert(post[w] == pre[w0]);
            assert(pool_has(pre, t2, q2));
        }
    }
}

/// Updating a pool entry in place, key kept, keeps the pool well formed
/// and leaves every other pair's votes unchanged.
proof fn lemma_pool_update(
    pre: Seq<((String, String), Vec<Vote>)>,
    k: int,
    updated: ((String, String), Vec<Vote>),
    tid: Seq<char>,
    qk: Seq<char>,
)
    requires
        pool_wf(pre),
        0 <= k < pre.len(),
        pre[k].0.0@ == tid,
        pre[k].0.1@ == qk,
        updated.0.0@ == tid,
        updated.0.1@ == qk,
    ensures
        pool_wf(pre.update(k, updated)),
        pool_has(pre.update(k, updated), tid, qk),
        pool_votes(pre.update(k, updated), tid, qk) == updated.1@,
        forall|t2: Seq<char>, q2: Seq<char>|
            !(t2 == tid && q2 == qk) ==> #[trigger] pool_votes(pre.update(k, updated), t2, q2)
                == pool_votes(pre, t2, q2),
{
    let post = pre.update(k, updated);
    assert(post[k] == updated);
    assert(pool_has(post, tid, qk));
    assert(pool_wf(post));
    assert(pool_idx(post, tid, qk) == k);
    assert forall|t2: Seq<char>, q2: Seq<char>|
        !(t2 == tid && q2 == qk) implies #[trigger] pool_votes(post, t2, q2) == pool_votes(
        pre,
        t2,
        q2,
    ) by {
        if pool_has(pre, t2, q2) {
            let w = pool_idx(pre, t2, q2);
            assert(w != k);
            assert(post[w] == pre[w]);
            assert(pool_has(post, t2, q2));
            assert(pool_idx(post, t2, q2) == w);
        }
        if pool_has(post, t2, q2) {
            let w = pool_idx(post, t2, q2);
            assert(w != k);
            assert(post[w] == pre[w]);
            assert(pool_has(pre, t2, q2));
        }
    }
}

/// Appending a pool entry for a fresh pair keeps the pool well formed
/// and leaves every other pair's votes unchanged.
proof fn lemma_pool_push(
    pre: Seq<((String, String), Vec<Vote>)>,
    e: ((String, String), Vec<Vote>),
    tid: Seq<char>,
    qk: Seq<char>,
)
    requires
        pool_wf(pre),
        !pool_has(pre, tid, qk),
        e.0.0@ == tid,
        e.0.1@ == qk,
    ensures
        pool_wf(pre.push(e)),
        pool_has(pre.push(e), tid, qk),
        pool_votes(pre.push(e), tid, qk) == e.1@,
        forall|t2: Seq<char>, q2: Seq<char>|
            !(t2 == tid && q2 == qk) ==> #[trigger] pool_votes(pre.push(e), t2, q2) == pool_votes(
                pre,
                t2,
                q2,
            ),
{
    let post = pre.push(e);
    assert(post[pre.len() as int] == e);
    assert(pool_has(post, tid, qk));
    assert(forall|j: int| 0 <= j < pre.len() ==> #[trigger] post[j] == pre[j]);
    assert(pool_wf(post));
    assert(pool_idx(post, tid, qk) == pre.len());
    assert forall|t2: Seq<char>, q2: Seq<char>|
        !(t2 == tid && q2 == qk) implies #[trigger] pool_votes(post, t2, q2) == pool_votes(
        pre,
        t2,
        q2,
    ) by {
        if pool_has(pre, t2, q2) {
            let w = pool_idx(pre, t2, q2);
            assert(post[w] == pre[w]);
            assert(pool_has(post, t2, q2));
            assert(pool_idx(post, t2, q2) == w);
        }
        if pool_has(post, t2, q2) {
            let w = pool_idx(post, t2, q2);
            assert(w < pre.len());
            assert(pool_has(pre, t2, q2));
        }
    }
}

/// Whether the certified filter holds the pair.
fn filter_contains(filter: &Vec<(String, String)>, txn_id: &String, qkey: &String) -> (r: bool)
    ensures
        r == filter_has(filter@, txn_id@, qkey@),
{
    let n = filter.len();
    let mut i: usize = 0;
    while i < n
        invariant
            n == filter@.len(),
            i <= n,
            forall|j: int|
                0 <= j < i ==> !((#[trigger] filter@[j]).0@ == txn_id@ && filter@[j].1@ == qkey@),
        decreases n - i,
    {
        let e = &filter[i];
        if e.0 == *txn_id && e.1 == *qkey {
            return true;
        }
        i = i + 1;
    }
    false
}

/// The digest byte that steers a peer's quorum assignment: the first
/// byte of the digest of the node id and the bootstrap seed.
fn digest_byte_even(node_id: &String, seed: u64) -> (r: bool)
    requires
        ascii_chars(node_id@),
    ensures
        r == assignment_byte_even(node_id@, seed),
{
    let mut bytes = crate::codec::ascii_str_to_bytes(node_id.as_str());
    crate::codec::push_u64_be(&mut bytes, seed);
    let digest_hex = crate::crypto::sha256_digest(&bytes);
    proof {
        assert(bytes@ =~= crate::codec::ascii_bytes(node_id@) + crate::codec::u64_be(seed));
    }
    let c = digest_hex.as_str().get_char(0);
    proof {
        crate::crypto::lemma_digest_chars_ascii(digest_hex@);
        assert((digest_hex@[0] as u32) < 128);
    }
    (c as u8) % 2 == 0
}

/// Whether the first digest character of a peer's assignment hash has an
/// even code.
pub open spec fn assignment_byte_even(node_id: Seq<char>, seed: u64) -> bool {
    (crate::crypto::sha256_hex(
        crate::codec::ascii_bytes(node_id) + crate::codec::u64_be(seed),
    )[0] as u8) % 2 == 0
}

/// How many of the first `i` peers were assigned to the harvester group.
pub open spec fn harvester_count(peers: Seq<PeerData>, seed: u64, quorum_size: int, i: int) -> int
    decreases i,
{
    if i <= 0 {
        0
    } else {
        let prev = harvester_count(peers, seed, quorum_size, i - 1);
        if assignment_byte_even(peers[i - 1].node_id@, seed) && prev < quorum_size {
            prev + 1
        } else {
            prev
        }
    }
}

/// Which quorum the `i`-th peer is assigned to: the harvester group on
/// an even digest byte while harvester seats remain, the farmer group
/// otherwise.
pub open spec fn assignment_spec(
    peers: Seq<PeerData>,
    seed: u64,
    quorum_size: int,
    i: int,
) -> QuorumKind {
    if assignment_byte_even(peers[i].node_id@, seed) && harvester_count(peers, seed, quorum_size, i)
        < quorum_size {
        QuorumKind::Harvester
    } else {
        QuorumKind::Farmer
    }
}

} // verus!
