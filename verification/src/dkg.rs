//! Distributed key generation: the engine that drives hbbft's
//! synchronous dealerless key generation, the first-writer-wins message
//! stores, and the keyset finalization that equips a quorum with a
//! threshold-signature key.

use vstd::prelude::*;

verus! {

/// The `Part` message of hbbft's synchronous key generation.
#[verifier::external_type_specification]
#[verifier::external_body]
pub struct ExPart(hbbft::sync_key_gen::Part);

/// The `Ack` message of hbbft's synchronous key generation.
#[verifier::external_type_specification]
#[verifier::external_body]
pub struct ExAck(hbbft::sync_key_gen::Ack);

/// hbbft's synchronous key generation instance.
#[verifier::external_type_specification]
#[verifier::external_body]
#[verifier::reject_recursive_types(N)]
pub struct ExSyncKeyGen<N>(hbbft::sync_key_gen::SyncKeyGen<N>);

/// A `threshold_crypto` public key.
#[verifier::external_type_specification]
#[verifier::external_body]
pub struct ExPublicKey(threshold_crypto::PublicKey);

/// A `threshold_crypto` secret key.
#[verifier::external_type_specification]
#[verifier::external_body]
pub struct ExSecretKey(threshold_crypto::SecretKey);

/// A `threshold_crypto` public key set: the quorum's combined key and
/// its per-member key shares.
#[verifier::external_type_specification]
#[verifier::external_body]
pub struct ExPublicKeySet(threshold_crypto::PublicKeySet);

/// A `threshold_crypto` secret key share.
#[verifier::external_type_specification]
#[verifier::external_body]
pub struct ExSecretKeyShare(threshold_crypto::SecretKeyShare);

/// What kind of node this is.
#[derive(Debug, Clone, Copy, PartialEq, Eq, Structural)]
pub enum NodeType {
    Bootstrap,
    Miner,
    Validator,
}

/// Why a key generation step failed.
#[derive(Debug, Clone, PartialEq, Eq)]
pub enum DkgError {
    BootstrapCannotParticipate,
    MinerCannotParticipate,
    NotAMember,
    InvalidPart(String),
    InvalidAck(String, String),
    NotReady,
    AlreadyAssigned,
    PrimitiveFailure,
}

/// The bounds a quorum's threshold signature runs under.
#[derive(Debug, Clone, Copy, PartialEq, Eq, Structural)]
pub struct ThresholdConfig {
    pub upper_bound: u16,
    pub threshold: u16,
}

/// The configured threshold may not exceed half the quorum size.
pub open spec fn valid_threshold_config(c: ThresholdConfig) -> bool {
    c.threshold as int * 2 <= c.upper_bound as int
}

/// The mutable state of one key generation round.
pub struct DkgState {
    pub peer_public_keys: Vec<(String, threshold_crypto::PublicKey)>,
    pub part_message_store: Vec<(String, hbbft::sync_key_gen::Part)>,
    pub ack_message_store: Vec<((String, String), hbbft::sync_key_gen::Ack)>,
    pub sync_key_gen: Option<hbbft::sync_key_gen::SyncKeyGen<String>>,
    pub public_key_set: Option<threshold_crypto::PublicKeySet>,
    pub secret_key_share: Option<threshold_crypto::SecretKeyShare>,
}

/// Whether a node already stored a part message.
pub open spec fn part_store_has(l: Seq<(String, hbbft::sync_key_gen::Part)>, id: Seq<char>) -> bool {
    exists|i: int| 0 <= i < l.len() && (#[trigger] l[i]).0@ == id
}

/// What storing a part under first-writer-wins yields: the store grows
/// only when the sender had no part stored yet.
pub open spec fn store_part_spec(
    l: Seq<(String, hbbft::sync_key_gen::Part)>,
    id: String,
    part: hbbft::sync_key_gen::Part,
) -> Seq<(String, hbbft::sync_key_gen::Part)> {
    if part_store_has(l, id@) {
        l
    } else {
        l.push((id, part))
    }
}

/// Whether a node's validator key is already registered.
pub open spec fn key_store_has(
    l: Seq<(String, threshold_crypto::PublicKey)>,
    id: Seq<char>,
) -> bool {
    exists|i: int| 0 <= i < l.len() && (#[trigger] l[i]).0@ == id
}

/// What registering a peer key under write-once yields: the store grows
/// only when the node had no key registered yet.
pub open spec fn register_key_spec(
    l: Seq<(String, threshold_crypto::PublicKey)>,
    id: String,
    key: threshold_crypto::PublicKey,
) -> Seq<(String, threshold_crypto::PublicKey)> {
    if key_store_has(l, id@) {
        l
    } else {
        l.push((id, key))
    }
}

/// Whether a pair of nodes already stored an ack message.
pub open spec fn ack_store_has(
    l: Seq<((String, String), hbbft::sync_key_gen::Ack)>,
    rid: Seq<char>,
    sid: Seq<char>,
) -> bool {
    exists|i: int| 0 <= i < l.len() && (#[trigger] l[i]).0.0@ == rid && l[i].0.1@ == sid
}

/// What storing an ack under first-writer-wins yields.
pub open spec fn store_ack_spec(
    l: Seq<((String, String), hbbft::sync_key_gen::Ack)>,
    rid: String,
    sid: String,
    ack: hbbft::sync_key_gen::Ack,
) -> Seq<((String, String), hbbft::sync_key_gen::Ack)> {
    if ack_store_has(l, rid@, sid@) {
        l
    } else {
        l.push(((rid, sid), ack))
    }
}

/// Replaying a part message never changes the store: the second write
/// finds the sender's part present and leaves everything as it is.
pub proof fn lemma_store_part_idempotent(
    l: Seq<(String, hbbft::sync_key_gen::Part)>,
    id: String,
    p1: hbbft::sync_key_gen::Part,
    p2: hbbft::sync_key_gen::Part,
)
    ensures
        store_part_spec(store_part_spec(l, id, p1), id, p2) == store_part_spec(l, id, p1),
{
    if !part_store_has(l, id@) {
        assert(store_part_spec(l, id, p1) == l.push((id, p1)));
        assert(l.push((id, p1))[l.len() as int].0@ == id@);
        assert(part_store_has(l.push((id, p1)), id@));
    }
}

/// Replaying an ack message never changes the store.
pub proof fn lemma_store_ack_idempotent(
    l: Seq<((String, String), hbbft::sync_key_gen::Ack)>,
    rid: String,
    sid: String,
    a1: hbbft::sync_key_gen::Ack,
    a2: hbbft::sync_key_gen::Ack,
)
    ensures
        store_ack_spec(store_ack_spec(l, rid, sid, a1), rid, sid, a2) == store_ack_spec(
            l,
            rid,
            sid,
            a1,
        ),
{
    if !ack_store_has(l, rid@, sid@) {
        assert(store_ack_spec(l, rid, sid, a1) == l.push(((rid, sid), a1)));
        assert(l.push(((rid, sid), a1))[l.len() as int].0.0@ == rid@);
        assert(ack_store_has(l.push(((rid, sid), a1)), rid@, sid@));
    }
}

/// Relies on `hbbft::sync_key_gen::SyncKeyGen::new`: builds an instance
/// over the given peers; the constructor returns a `Part` exactly when
/// our own id is among the peer keys, and no part for an observer.
#[verifier::external_body]
fn new_sync_keygen(
    our_id: &String,
    sec_key: &threshold_crypto::SecretKey,
    pub_keys: &Vec<(String, threshold_crypto::PublicKey)>,
    threshold: usize,
) -> (r: Option<
    (hbbft::sync_key_gen::SyncKeyGen<String>, Option<hbbft::sync_key_gen::Part>),
>)
    ensures
        r matches Some(p) ==> ((p.1 is Some) <==> exists|i: int|
            0 <= i < pub_keys@.len() && (#[trigger] pub_keys@[i]).0@ == our_id@),
{
    let map: std::collections::BTreeMap<String, threshold_crypto::PublicKey> =
        pub_keys.iter().cloned().collect();
    let mut rng = rand::thread_rng();
    match hbbft::sync_key_gen::SyncKeyGen::new(
        our_id.clone(),
        sec_key.clone(),
        map,
        threshold,
        &mut rng,
    ) {
        Ok(pair) => Some(pair),
        Err(_) => None,
    }
}

/// Relies on `SyncKeyGen::handle_part`: verifies a sender's part and, for
/// a validator, yields the `Ack` to broadcast; an observer gets none and
/// a faulty part is reported as the error string.
#[verifier::external_body]
fn sync_handle_part(
    keygen: &mut hbbft::sync_key_gen::SyncKeyGen<String>,
    sender_id: &String,
    part: &hbbft::sync_key_gen::Part,
) -> Result<Option<hbbft::sync_key_gen::Ack>, String> {
    let mut rng = rand::thread_rng();
    match keygen.handle_part(sender_id, part.clone(), &mut rng) {
        Ok(hbbft::sync_key_gen::PartOutcome::Valid(opt_ack)) => Ok(opt_ack),
        Ok(hbbft::sync_key_gen::PartOutcome::Invalid(fault)) => Err(format!("{:?}", fault)),
        Err(e) => Err(format!("{:?}", e)),
    }
}

/// Relies on `SyncKeyGen::handle_ack`: verifies one node's ack; a faulty
/// ack is reported as the error string.
#[verifier::external_body]
fn sync_handle_ack(
    keygen: &mut hbbft::sync_key_gen::SyncKeyGen<String>,
    sender_id: &String,
    ack: &hbbft::sync_key_gen::Ack,
) -> Result<(), String> {
    match keygen.handle_ack(sender_id, ack.clone()) {
        Ok(hbbft::sync_key_gen::AckOutcome::Valid) => Ok(()),
        Ok(hbbft::sync_key_gen::AckOutcome::Invalid(fault)) => Err(format!("{:?}", fault)),
        Err(e) => Err(format!("{:?}", e)),
    }
}

/// Relies on `SyncKeyGen::generate`: yields the public key set and, for a
/// validator, the node's secret key share; every node that handled the
/// same messages computes the same public key set.
#[verifier::external_body]
fn sync_generate(keygen: &hbbft::sync_key_gen::SyncKeyGen<String>) -> Result<
    (threshold_crypto::PublicKeySet, Option<threshold_crypto::SecretKeyShare>),
    String,
> {
    match keygen.generate() {
        Ok(pair) => Ok(pair),
        Err(e) => Err(format!("{:?}", e)),
    }
}

/// The engine that drives one node through a key generation round.
pub struct DkgEngine {
    pub node_id: String,
    pub node_type: NodeType,
    pub secret_key: threshold_crypto::SecretKey,
    pub threshold_config: ThresholdConfig,
    pub dkg_state: DkgState,
}

impl DkgEngine {
    /// A fresh engine with an empty round state.
    pub fn new(
        node_id: String,
        node_type: NodeType,
        secret_key: threshold_crypto::SecretKey,
        threshold_config: ThresholdConfig,
    ) -> (r: DkgEngine)
        requires
            valid_threshold_config(threshold_config),
        ensures
            r.node_id == node_id,
            r.node_type == node_type,
            r.threshold_config == threshold_config,
            r.dkg_state.peer_public_keys@.len() == 0,
            r.dkg_state.part_message_store@.len() == 0,
            r.dkg_state.ack_message_store@.len() == 0,
            r.dkg_state.sync_key_gen is None,
            r.dkg_state.public_key_set is None,
            r.dkg_state.secret_key_share is None,
    {
        DkgEngine {
            node_id,
            node_type,
            secret_key,
            threshold_config,
            dkg_state: DkgState {
                peer_public_keys: Vec::new(),
                part_message_store: Vec::new(),
                ack_message_store: Vec::new(),
                sync_key_gen: None,
                public_key_set: None,
                secret_key_share: None,
            },
        }
    }

    /// Registers a peer's validator public key, write-once per peer: a
    /// second key for the same node id is refused.
    pub fn add_peer_public_key(&mut self, node_id: String, key: threshold_crypto::PublicKey) -> (r:
        bool)
        ensures
            r <==> !key_store_has(old(self).dkg_state.peer_public_keys@, node_id@),
            final(self).dkg_state.peer_public_keys@ == register_key_spec(
                old(self).dkg_state.peer_public_keys@,
                node_id,
                key,
            ),
            !r ==> *final(self) == *old(self),
            final(self).node_id == old(self).node_id,
            final(self).node_type == old(self).node_type,
            final(self).dkg_state.part_message_store@ == old(self).dkg_state.part_message_store@,
            final(self).dkg_state.ack_message_store@ == old(self).dkg_state.ack_message_store@,
            final(self).dkg_state.sync_key_gen == old(self).dkg_state.sync_key_gen,
            final(self).dkg_state.public_key_set == old(self).dkg_state.public_key_set,
            final(self).dkg_state.secret_key_share == old(self).dkg_state.secret_key_share,
    {
        let n = self.dkg_state.peer_public_keys.len();
        let mut i: usize = 0;
        while i < n
            invariant
                n == self.dkg_state.peer_public_keys@.len(),
                i <= n,
                forall|j: int|
                    0 <= j < i ==> (#[trigger] self.dkg_state.peer_public_keys@[j]).0@ != node_id@,
            decreases n - i,
        {
            if self.dkg_state.peer_public_keys[i].0 == node_id {
                return false;
            }
            i = i + 1;
        }
        self.dkg_state.peer_public_keys.push((node_id, key));
        true
    }

    /// Opens this node's participation in a round: refused for bootstrap
    /// and miner nodes; a node whose own key is not registered is an
    /// observer and cannot commit. On success the keygen instance is
    /// installed and this node's `Part` is returned with its id.
    pub fn generate_partial_commitment(&mut self, threshold: usize) -> (r: Result<
        (hbbft::sync_key_gen::Part, String),
        DkgError,
    >)
        ensures
            old(self).node_type == NodeType::Bootstrap <==> r == Err::<
                (hbbft::sync_key_gen::Part, String),
                DkgError,
            >(DkgError::BootstrapCannotParticipate),
            (old(self).node_type == NodeType::Miner) <==> r == Err::<
                (hbbft::sync_key_gen::Part, String),
                DkgError,
            >(DkgError::MinerCannotParticipate),
            (old(self).node_type == NodeType::Validator && !(exists|i: int|
                0 <= i < old(self).dkg_state.peer_public_keys@.len() && (#[trigger] old(
                    self,
                ).dkg_state.peer_public_keys@[i]).0@ == old(self).node_id@)) ==> r == Err::<
                (hbbft::sync_key_gen::Part, String),
                DkgError,
            >(DkgError::NotAMember),
            r matches Ok(p) ==> p.1 == old(self).node_id,
            r matches Ok(p) ==> final(self).dkg_state.sync_key_gen is Some,
            final(self).node_id == old(self).node_id,
            final(self).node_type == old(self).node_type,
            final(self).dkg_state.peer_public_keys@ == old(self).dkg_state.peer_public_keys@,
            final(self).dkg_state.part_message_store@ == old(self).dkg_state.part_message_store@,
            final(self).dkg_state.ack_message_store@ == old(self).dkg_state.ack_message_store@,
    {
        if matches!(self.node_type, NodeType::Bootstrap) {
            return Err(DkgError::BootstrapCannotParticipate);
        }
        if matches!(self.node_type, NodeType::Miner) {
            return Err(DkgError::MinerCannotParticipate);
        }
        let n = self.dkg_state.peer_public_keys.len();
        let mut i: usize = 0;
        let mut registered = false;
        while i < n
            invariant
                n == self.dkg_state.peer_public_keys@.len(),
                i <= n,
                registered == exists|j: int|
                    0 <= j < i && (#[trigger] self.dkg_state.peer_public_keys@[j]).0@
                        == self.node_id@,
            decreases n - i,
        {
            if self.dkg_state.peer_public_keys[i].0 == self.node_id {
                registered = true;
            }
            i = i + 1;
        }
        if !registered {
            return Err(DkgError::NotAMember);
        }
        match new_sync_keygen(
            &self.node_id,
            &self.secret_key,
            &self.dkg_state.peer_public_keys,
            threshold,
        ) {
            Some((keygen, Some(part))) => {
                self.dkg_state.sync_key_gen = Some(keygen);
                let id = self.node_id.clone();
                Ok((part, id))
            },
            Some((_, None)) => Err(DkgError::NotAMember),
            None => Err(DkgError::PrimitiveFailure),
        }
    }

    /// Stores a sender's part message, first writer wins: replaying a
    /// part never changes the store.
    pub fn store_part(&mut self, sender_id: String, part: hbbft::sync_key_gen::Part) -> (r: bool)
        ensures
            final(self).dkg_state.part_message_store@ == store_part_spec(
                old(self).dkg_state.part_message_store@,
                sender_id,
                part,
            ),
            r <==> !part_store_has(old(self).dkg_state.part_message_store@, sender_id@),
            final(self).node_id == old(self).node_id,
            final(self).node_type == old(self).node_type,
            final(self).dkg_state.peer_public_keys@ == old(self).dkg_state.peer_public_keys@,
            final(self).dkg_state.ack_message_store@ == old(self).dkg_state.ack_message_store@,
            final(self).dkg_state.sync_key_gen == old(self).dkg_state.sync_key_gen,
            final(self).dkg_state.public_key_set == old(self).dkg_state.public_key_set,
            final(self).dkg_state.secret_key_share == old(self).dkg_state.secret_key_share,
    {
        let n = self.dkg_state.part_message_store.len();
        let mut i: usize = 0;
        while i < n
            invariant
                n == self.dkg_state.part_message_store@.len(),
                i <= n,
                forall|j: int|
                    0 <= j < i ==> (#[trigger] self.dkg_state.part_message_store@[j]).0@
                        != sender_id@,
            decreases n - i,
        {
            if self.dkg_state.part_message_store[i].0 == sender_id {
                return false;
            }
            i = i + 1;
        }
        self.dkg_state.part_message_store.push((sender_id, part));
        true
    }

    /// Stores an ack message addressed from `receiver_id` about
    /// `sender_id`'s part, first writer wins: replaying an ack never
    /// changes the store.
    pub fn store_ack(
        &mut self,
        receiver_id: String,
        sender_id: String,
        ack: hbbft::sync_key_gen::Ack,
    ) -> (r: bool)
        ensures
            final(self).dkg_state.ack_message_store@ == store_ack_spec(
                old(self).dkg_state.ack_message_store@,
                receiver_id,
                sender_id,
                ack,
            ),
            r <==> !ack_store_has(old(self).dkg_state.ack_message_store@, receiver_id@, sender_id@),
            final(self).node_id == old(self).node_id,
            final(self).node_type == old(self).node_type,
            final(self).dkg_state.peer_public_keys@ == old(self).dkg_state.peer_public_keys@,
            final(self).dkg_state.part_message_store@ == old(self).dkg_state.part_message_store@,
            final(self).dkg_state.sync_key_gen == old(self).dkg_state.sync_key_gen,
            final(self).dkg_state.public_key_set == old(self).dkg_state.public_key_set,
            final(self).dkg_state.secret_key_share == old(self).dkg_state.secret_key_share,
    {
        let n = self.dkg_state.ack_message_store.len();
        let mut i: usize = 0;
        while i < n
            invariant
                n == self.dkg_state.ack_message_store@.len(),
                i <= n,
                forall|j: int|
                    0 <= j < i ==> !((#[trigger] self.dkg_state.ack_message_store@[j]).0.0@
                        == receiver_id@ && self.dkg_state.ack_message_store@[j].0.1@ == sender_id@),
            decreases n - i,
        {
            let e = &self.dkg_state.ack_message_store[i];
            if e.0.0 == receiver_id && e.0.1 == sender_id {
                return false;
            }
            i = i + 1;
        }
        self.dkg_state.ack_message_store.push(((receiver_id, sender_id), ack));
        true
    }

    /// Acknowledges a stored part: verifies it through the keygen
    /// instance and returns the ack addressed from this node about the
    /// sender's part. A sender without a stored part, a missing keygen
    /// instance, an observer role and a faulty part are all reported.
    pub fn ack_partial_commitment(&mut self, sender_id: &String) -> (r: Result<
        (String, String, hbbft::sync_key_gen::Ack),
        DkgError,
    >)
        ensures
            !part_store_has(old(self).dkg_state.part_message_store@, sender_id@) ==> (r
                matches Err(e) && e matches DkgError::InvalidPart(s) && s@ == sender_id@),
            r matches Ok(t) ==> t.0@ == old(self).node_id@ && t.1@ == sender_id@,
            final(self).node_id == old(self).node_id,
            final(self).node_type == old(self).node_type,
            final(self).dkg_state.peer_public_keys@ == old(self).dkg_state.peer_public_keys@,
            final(self).dkg_state.part_message_store@ == old(self).dkg_state.part_message_store@,
            final(self).dkg_state.ack_message_store@ == old(self).dkg_state.ack_message_store@,
    {
        let n = self.dkg_state.part_message_store.len();
        let mut i: usize = 0;
        let mut found: Option<usize> = None;
        while i < n
            invariant
                n == self.dkg_state.part_message_store@.len(),
                i <= n,
                found is None ==> forall|j: int|
                    0 <= j < i ==> (#[trigger] self.dkg_state.part_message_store@[j]).0@
                        != sender_id@,
                found matches Some(k) ==> k < n && self.dkg_state.part_message_store@[
                    k as int].0@ == sender_id@,
            decreases n - i,
        {
            if self.dkg_state.part_message_store[i].0 == *sender_id {
                found = Some(i);
                break ;
            }
            i = i + 1;
        }
        let part_idx = match found {
            Some(k) => k,
            None => {
                return Err(DkgError::InvalidPart(sender_id.clone()));
            },
        };
        let our_id = self.node_id.clone();
        let outcome = match &mut self.dkg_state.sync_key_gen {
            Some(keygen) => {
                let part = &self.dkg_state.part_message_store[part_idx].1;
                sync_handle_part(keygen, sender_id, part)
            },
            None => {
                return Err(DkgError::NotReady);
            },
        };
        match outcome {
            Ok(Some(ack)) => Ok((our_id, sender_id.clone(), ack)),
            Ok(None) => Err(DkgError::NotAMember),
            Err(_) => Err(DkgError::InvalidPart(sender_id.clone())),
        }
    }

    /// Feeds every stored ack through the keygen instance; the first
    /// invalid ack fails the round, naming the acknowledging and the
    /// acknowledged node.
    pub fn handle_ack_messages(&mut self) -> (r: Result<(), DkgError>)
        ensures
            old(self).dkg_state.sync_key_gen is None ==> r == Err::<(), DkgError>(
                DkgError::NotReady,
            ),
            r matches Err(e) ==> (e matches DkgError::InvalidAck(rid, sid) && ack_store_has(
                old(self).dkg_state.ack_message_store@,
                rid@,
                sid@,
            )) || e == DkgError::NotReady,
            final(self).node_id == old(self).node_id,
            final(self).node_type == old(self).node_type,
            final(self).dkg_state.peer_public_keys@ == old(self).dkg_state.peer_public_keys@,
            final(self).dkg_state.part_message_store@ == old(self).dkg_state.part_message_store@,
            final(self).dkg_state.ack_message_store@ == old(self).dkg_state.ack_message_store@,
    {
        if matches!(&self.dkg_state.sync_key_gen, None) {
            return Err(DkgError::NotReady);
        }
        let n = self.dkg_state.ack_message_store.len();
        let mut i: usize = 0;
        while i < n
            invariant
                n == self.dkg_state.ack_message_store@.len(),
                i <= n,
                old(self).dkg_state.sync_key_gen is Some,
                self.dkg_state.sync_key_gen is Some,
                self.node_id == old(self).node_id,
                self.node_type == old(self).node_type,
                self.dkg_state.peer_public_keys@ == old(self).dkg_state.peer_public_keys@,
                self.dkg_state.part_message_store@ == old(self).dkg_state.part_message_store@,
                self.dkg_state.ack_message_store@ == old(self).dkg_state.ack_message_store@,
            decreases n - i,
        {
            let outcome = match &mut self.dkg_state.sync_key_gen {
                Some(keygen) => {
                    let entry = &self.dkg_state.ack_message_store[i];
                    sync_handle_ack(keygen, &entry.0.0, &entry.1)
                },
                None => {
                    return Err(DkgError::NotReady);
                },
            };
            if outcome.is_err() {
                let entry = &self.dkg_state.ack_message_store[i];
                let rid = entry.0.0.clone();
                let sid = entry.0.1.clone();
                return Err(DkgError::InvalidAck(rid, sid));
            }
            i = i + 1;
        }
        Ok(())
    }

    /// Finalizes the round: generates the public key set and, for a
    /// validator, this node's secret key share.
    pub fn generate_key_sets(&mut self) -> (r: Result<(), DkgError>)
        ensures
            old(self).dkg_state.sync_key_gen is None ==> r == Err::<(), DkgError>(
                DkgError::NotReady,
            ),
            r is Ok ==> final(self).dkg_state.public_key_set is Some,
            final(self).node_id == old(self).node_id,
            final(self).node_type == old(self).node_type,
            final(self).dkg_state.peer_public_keys@ == old(self).dkg_state.peer_public_keys@,
            final(self).dkg_state.part_message_store@ == old(self).dkg_state.part_message_store@,
            final(self).dkg_state.ack_message_store@ == old(self).dkg_state.ack_message_store@,
    {
        let generated = match &self.dkg_state.sync_key_gen {
            Some(keygen) => sync_generate(keygen),
            None => {
                return Err(DkgError::NotReady);
            },
        };
        match generated {
            Ok((pk_set, opt_share)) => {
                self.dkg_state.public_key_set = Some(pk_set);
                self.dkg_state.secret_key_share = opt_share;
                Ok(())
            },
            Err(_) => Err(DkgError::PrimitiveFailure),
        }
    }
}

} // verus!
