//! Certificate aggregation: harvesters collect partial signature shares
//! per block hash, and once more than the threshold have arrived they
//! are combined into the quorum's certificate. A block is never
//! certified twice: emitting a certificate seals its cache entry.

use vstd::prelude::*;

use crate::block::Certificate;
use crate::crypto::{hex_decode, hex_encode, hex_of, hex_to_bytes, is_digest_chars, lemma_hex_of_to_bytes};

verus! {

/// Whether `threshold_crypto` accepts `sig_share` (96 raw bytes) as a
/// signature by the public key share `pk_share` (48 raw bytes) over the
/// message bytes. The outcome depends on the three arguments alone.
pub uninterp spec fn share_verifies(pk_share: Seq<u8>, sig_share: Seq<u8>, msg: Seq<u8>) -> bool;

/// Relies on `threshold_crypto`'s `PublicKeyShare::verify`: parses the
/// 48-byte key share and 96-byte signature share and verifies the share
/// over the message; bytes that do not parse verify as false.
#[verifier::external_body]
pub fn verify_share(pk_share: &Vec<u8>, sig_share: &Vec<u8>, msg: &Vec<u8>) -> (r: bool)
    ensures
        r == share_verifies(pk_share@, sig_share@, msg@),
{
    let parsed = pk_share
        .as_slice()
        .try_into()
        .ok()
        .and_then(|a: [u8; 48]| threshold_crypto::PublicKeyShare::from_bytes(a).ok())
        .zip(
            sig_share.as_slice().try_into().ok().and_then(
                |a: [u8; 96]| threshold_crypto::SignatureShare::from_bytes(a).ok(),
            ),
        );
    match parsed {
        Some((pk, sig)) => pk.verify(&sig, msg.as_slice()),
        None => false,
    }
}

/// The signature shares handed to a combine call, as plain values.
pub open spec fn share_views(shares: Seq<(u16, Vec<u8>)>) -> Seq<(u16, Seq<u8>)> {
    shares.map(|_i: int, e: (u16, Vec<u8>)| (e.0, e.1@))
}

/// The quorum signature `PublicKeySet::combine_signatures` interpolates
/// from indexed signature shares, or `None` for a duplicate index, too
/// few shares or unparsable bytes. Interpolation is deterministic, so
/// the outcome depends on the key set and the shares alone.
pub uninterp spec fn combine_of(
    pk_set: threshold_crypto::PublicKeySet,
    shares: Seq<(u16, Seq<u8>)>,
) -> Option<Seq<u8>>;

/// Relies on `PublicKeySet::combine_signatures`: interpolates more than
/// `threshold` signature shares into the quorum signature of 96 bytes;
/// a duplicate index, too few shares or unparsable bytes yield `None`.
#[verifier::external_body]
pub fn combine_shares(
    pk_set: &threshold_crypto::PublicKeySet,
    shares: &Vec<(u16, Vec<u8>)>,
) -> (r: Option<Vec<u8>>)
    ensures
        r is Some <==> combine_of(*pk_set, share_views(shares@)) is Some,
        r matches Some(sig) ==> sig@ == combine_of(*pk_set, share_views(shares@))->Some_0,
        r matches Some(sig) ==> sig@.len() == 96,
{
    let parsed: Option<Vec<(usize, threshold_crypto::SignatureShare)>> = shares
        .iter()
        .map(|(i, b)| {
            let arr: [u8; 96] = b.as_slice().try_into().ok()?;
            Some((*i as usize, threshold_crypto::SignatureShare::from_bytes(arr).ok()?))
        })
        .collect();
    let parsed = parsed?;
    let refs: Vec<(usize, &threshold_crypto::SignatureShare)> =
        parsed.iter().map(|(i, s)| (*i, s)).collect();
    pk_set.combine_signatures(refs).ok().map(|sig| sig.to_bytes().to_vec())
}

/// Why a partial signature share was rejected.
#[derive(Debug, Clone, Copy, PartialEq, Eq, Structural)]
pub enum CertifierError {
    InvalidSignatureShare,
}

/// The shares collected for one block hash, with the time the entry was
/// created and whether a certificate was already emitted for it.
pub struct ShareEntry {
    pub inserted_at: i64,
    pub shares: Vec<(u16, Vec<u8>, Vec<u8>)>,
    pub sealed: bool,
}

/// The bounded cache of certificate shares: block hashes paired with
/// their collected shares, oldest first.
pub struct CertificateShareCache {
    pub entries: Vec<(String, ShareEntry)>,
}

/// How many block hashes the cache holds at most.
pub open spec fn cache_capacity() -> int {
    10
}

/// How long a cache entry lives, in seconds.
pub open spec fn cache_ttl() -> int {
    300
}

/// Whether each block hash keys at most one entry.
pub open spec fn cache_wf(entries: Seq<(String, ShareEntry)>) -> bool {
    &&& forall|i: int, j: int|
        0 <= i < j < entries.len() ==> (#[trigger] entries[i]).0@ != (#[trigger] entries[j]).0@
    &&& entries.len() <= cache_capacity()
}

/// Whether the cache holds an entry for the block hash.
pub open spec fn cache_has(entries: Seq<(String, ShareEntry)>, h: Seq<char>) -> bool {
    exists|i: int| 0 <= i < entries.len() && (#[trigger] entries[i]).0@ == h
}

/// The index of the entry for a block hash.
pub open spec fn cache_idx(entries: Seq<(String, ShareEntry)>, h: Seq<char>) -> int {
    choose|i: int| 0 <= i < entries.len() && (#[trigger] entries[i]).0@ == h
}

/// How many shares the cache holds for a block hash; zero when absent.
pub open spec fn share_count(entries: Seq<(String, ShareEntry)>, h: Seq<char>) -> int {
    if cache_has(entries, h) {
        entries[cache_idx(entries, h)].1.shares@.len() as int
    } else {
        0
    }
}

/// Whether a certificate was already emitted for the block hash.
pub open spec fn is_sealed(entries: Seq<(String, ShareEntry)>, h: Seq<char>) -> bool {
    cache_has(entries, h) && entries[cache_idx(entries, h)].1.sealed
}

/// Whether a node's share is already recorded for the block hash.
pub open spec fn has_share_from(
    entries: Seq<(String, ShareEntry)>,
    h: Seq<char>,
    idx: u16,
) -> bool {
    cache_has(entries, h) && exists|j: int|
        0 <= j < entries[cache_idx(entries, h)].1.shares@.len() && (#[trigger] entries[cache_idx(
            entries,
            h,
        )].1.shares@[j]).0 == idx
}

/// The indexed signature shares collected for a block hash, in
/// insertion order; empty when the hash is absent.
pub open spec fn cache_sig_shares(entries: Seq<(String, ShareEntry)>, h: Seq<char>) -> Seq<
    (u16, Seq<u8>),
> {
    if cache_has(entries, h) {
        entries[cache_idx(entries, h)].1.shares@.map(
            |_i: int, e: (u16, Vec<u8>, Vec<u8>)| (e.0, e.2@),
        )
    } else {
        Seq::<(u16, Seq<u8>)>::empty()
    }
}

/// Whether a cache entry is still within its time to live at `now`.
pub open spec fn entry_fresh(e: (String, ShareEntry), now: i64) -> bool {
    now - e.1.inserted_at <= cache_ttl()
}

impl CertificateShareCache {
    /// An empty share cache.
    pub fn new() -> (r: CertificateShareCache)
        ensures
            r.entries@.len() == 0,
            cache_wf(r.entries@),
    {
        CertificateShareCache { entries: Vec::new() }
    }

    /// Finds the entry index for a block hash.
    fn find(&self, block_hash: &String) -> (r: Option<usize>)
        requires
            cache_wf(self.entries@),
        ensures
            r is Some <==> cache_has(self.entries@, block_hash@),
            r matches Some(i) ==> i < self.entries@.len() && self.entries@[i as int].0@
                == block_hash@ && i as int == cache_idx(self.entries@, block_hash@),
    {
        let n = self.entries.len();
        let mut i: usize = 0;
        while i < n
            invariant
                cache_wf(self.entries@),
                n == self.entries@.len(),
                i <= n,
                forall|j: int| 0 <= j < i ==> (#[trigger] self.entries@[j]).0@ != block_hash@,
            decreases n - i,
        {
            if self.entries[i].0 == *block_hash {
                proof {
                    assert(cache_has(self.entries@, block_hash@));
                    let w = cache_idx(self.entries@, block_hash@);
                    assert(self.entries@[w].0@ == block_hash@);
                    assert(w == i as int);
                }
                return Some(i);
            }
            i = i + 1;
        }
        None
    }

    /// Adds a partial signature share for a block: the share must verify
    /// under its public key share over the block hash's bytes; a share
    /// already recorded for the same node is accepted without change,
    /// and a full cache drops its oldest entry for a new block hash.
    /// A sealed entry keeps accepting shares without unsealing.
    pub fn add_partial(
        &mut self,
        block_hash: &String,
        node_idx: u16,
        pk_share: Vec<u8>,
        sig_share: Vec<u8>,
        now: i64,
    ) -> (r: Result<(), CertifierError>)
        requires
            cache_wf(old(self).entries@),
            is_digest_chars(block_hash@),
        ensures
            cache_wf(final(self).entries@),
            r is Err <==> !share_verifies(pk_share@, sig_share@, hex_to_bytes(block_hash@)),
            r is Err ==> *final(self) == *old(self),
            r is Ok && has_share_from(old(self).entries@, block_hash@, node_idx) ==> *final(self)
                == *old(self),
            r is Ok ==> is_sealed(final(self).entries@, block_hash@) == is_sealed(
                old(self).entries@,
                block_hash@,
            ),
            r is Ok ==> cache_has(final(self).entries@, block_hash@),
            r is Ok && cache_has(old(self).entries@, block_hash@) && !has_share_from(
                old(self).entries@,
                block_hash@,
                node_idx,
            ) ==> share_count(final(self).entries@, block_hash@) == share_count(
                old(self).entries@,
                block_hash@,
            ) + 1,
    {
        proof {
            lemma_hex_of_to_bytes(block_hash@);
        }
        let msg = match hex_decode(block_hash.as_str()) {
            Ok(d) => d,
            Err(_) => {
                proof {
                    assert(hex_of(hex_to_bytes(block_hash@)) == block_hash@);
                    assert(false);
                }
                return Err(CertifierError::InvalidSignatureShare);
            },
        };
        if !verify_share(&pk_share, &sig_share, &msg) {
            return Err(CertifierError::InvalidSignatureShare);
        }
        match self.find(block_hash) {
            Some(i) => {
                let entry = &self.entries[i].1;
                let m = entry.shares.len();
                let mut j: usize = 0;
                while j < m
                    invariant
                        share_verifies(pk_share@, sig_share@, hex_to_bytes(block_hash@)),
                        cache_wf(self.entries@),
                        *self == *old(self),
                        i < self.entries@.len(),
                        self.entries@[i as int].0@ == block_hash@,
                        i as int == cache_idx(self.entries@, block_hash@),
                        m == self.entries@[i as int].1.shares@.len(),
                        j <= m,
                        forall|q: int|
                            0 <= q < j ==> (#[trigger] self.entries@[i as int].1.shares@[q]).0
                                != node_idx,
                    decreases m - j,
                {
                    if self.entries[i].1.shares[j].0 == node_idx {
                        proof {
                            assert(cache_has(self.entries@, block_hash@));
                            assert(has_share_from(self.entries@, block_hash@, node_idx));
                        }
                        return Ok(());
                    }
                    j = j + 1;
                }
                let ghost pre = self.entries@;
                proof {
                    assert(!has_share_from(pre, block_hash@, node_idx));
                }
                let tuple = (node_idx, pk_share, sig_share);
                let mut e = self.entries.remove(i);
                e.1.shares.push(tuple);
                let ghost enew = e;
                self.entries.insert(i, e);
                proof {
                    assert(self.entries@ =~= pre.update(i as int, enew));
                    assert(self.entries@[i as int].0@ == block_hash@);
                    assert(forall|k: int|
                        0 <= k < self.entries@.len() && k != i as int ==> self.entries@[k]
                            == pre[k]);
                    assert(cache_wf(self.entries@));
                    assert(cache_has(self.entries@, block_hash@));
                    assert(cache_idx(self.entries@, block_hash@) == i as int);
                    assert(cache_idx(pre, block_hash@) == i as int);
                    assert(share_count(self.entries@, block_hash@) == share_count(
                        pre,
                        block_hash@,
                    ) + 1);
                    assert(is_sealed(self.entries@, block_hash@) == is_sealed(pre, block_hash@));
                }
                Ok(())
            },
            None => {
                let ghost pre = self.entries@;
                if self.entries.len() >= 10 {
                    self.entries.remove(0);
                }
                let mut shares: Vec<(u16, Vec<u8>, Vec<u8>)> = Vec::new();
                shares.push((node_idx, pk_share, sig_share));
                let entry = ShareEntry { inserted_at: now, shares, sealed: false };
                let key = block_hash.clone();
                self.entries.push((key, entry));
                proof {
                    let n = self.entries@.len();
                    assert(self.entries@[n - 1].0@ == block_hash@);
                    assert(cache_has(self.entries@, block_hash@));
                    assert(cache_wf(self.entries@));
                    assert(cache_idx(self.entries@, block_hash@) == n - 1);
                    assert(!is_sealed(pre, block_hash@));
                    assert(!self.entries@[n - 1].1.sealed);
                    assert(!is_sealed(self.entries@, block_hash@));
                }
                Ok(())
            },
        }
    }

    /// Whether this node should keep rebroadcasting its own share for a
    /// block: only while no more shares than the quorum's upper bound
    /// have been observed.
    pub fn should_rebroadcast(&self, block_hash: &String, upper_bound: u16) -> (r: bool)
        requires
            cache_wf(self.entries@),
        ensures
            r == (share_count(self.entries@, block_hash@) <= upper_bound as int),
    {
        match self.find(block_hash) {
            Some(i) => self.entries[i].1.shares.len() <= upper_bound as usize,
            None => true,
        }
    }

    /// Drops every cache entry older than the time to live, keeping the
    /// fresh entries in order.
    pub fn prune_expired(&mut self, now: i64)
        requires
            cache_wf(old(self).entries@),
        ensures
            cache_wf(final(self).entries@),
            final(self).entries@ == old(self).entries@.filter(
                |e: (String, ShareEntry)| entry_fresh(e, now),
            ),
    {
        let ghost orig = self.entries@;
        let mut kept: Vec<(String, ShareEntry)> = Vec::new();
        let ghost processed: int = 0;
        proof {
            assert(orig.take(0).filter(|e: (String, ShareEntry)| entry_fresh(e, now))
                =~= Seq::<(String, ShareEntry)>::empty());
        }
        while self.entries.len() > 0
            invariant
                cache_wf(orig),
                0 <= processed <= orig.len(),
                self.entries@ == orig.skip(processed),
                kept@ == orig.take(processed).filter(
                    |e: (String, ShareEntry)| entry_fresh(e, now),
                ),
                forall|q: int|
                    0 <= q < kept@.len() ==> exists|k: int|
                        0 <= k < processed && #[trigger] kept@[q] == orig[k],
                forall|p: int, q: int|
                    0 <= p < q < kept@.len() ==> (#[trigger] kept@[p]).0@ != (
                    #[trigger] kept@[q]).0@,
            decreases self.entries@.len(),
        {
            let e = self.entries.remove(0);
            proof {
                assert(orig.skip(processed)[0] == orig[processed]);
                assert(orig.skip(processed).remove(0) =~= orig.skip(processed + 1));
                let pred = |e: (String, ShareEntry)| entry_fresh(e, now);
                orig.take(processed).lemma_filter_push(orig[processed], pred);
                assert(orig.take(processed + 1) =~= orig.take(processed).push(orig[processed]));
            }
            if (now as i128) - (e.1.inserted_at as i128) <= 300 {
                let ghost kept_pre = kept@;
                kept.push(e);
                proof {
                    assert(kept@[kept@.len() - 1] == orig[processed]);
                    assert forall|q: int| 0 <= q < kept@.len() - 1 implies (
                    #[trigger] kept@[q]).0@ != orig[processed].0@ by {
                        assert(kept@[q] == kept_pre[q]);
                        let k = choose|k: int|
                            0 <= k < processed && kept_pre[q] == orig[k];
                        assert(orig[k].0@ != orig[processed].0@);
                    }
                }
            }
            proof {
                processed = processed + 1;
            }
        }
        proof {
            assert(orig.take(processed) =~= orig);
            assert(kept@.len() <= orig.len()) by {
                orig.lemma_filter_len(|e: (String, ShareEntry)| entry_fresh(e, now));
            }
        }
        self.entries = kept;
    }

    /// Tries to certify a block: with more than `threshold` verified
    /// shares collected and no certificate emitted yet, combines the
    /// shares into the quorum signature and seals the entry, so that the
    /// same block is never certified twice.
    pub fn try_certify(
        &mut self,
        block_hash: &String,
        threshold: u16,
        pk_set: &threshold_crypto::PublicKeySet,
    ) -> (r: Option<Certificate>)
        requires
            cache_wf(old(self).entries@),
        ensures
            cache_wf(final(self).entries@),
            r is None ==> *final(self) == *old(self),
            r is Some <==> (cache_has(old(self).entries@, block_hash@) && share_count(
                old(self).entries@,
                block_hash@,
            ) > threshold as int && !is_sealed(old(self).entries@, block_hash@) && combine_of(
                *pk_set,
                cache_sig_shares(old(self).entries@, block_hash@),
            ) is Some),
            r matches Some(c) ==> {
                &&& is_sealed(final(self).entries@, block_hash@)
                &&& c.block_hash == *block_hash
                &&& c.signature@ == hex_of(
                    combine_of(
                        *pk_set,
                        cache_sig_shares(old(self).entries@, block_hash@),
                    )->Some_0,
                )
                &&& c.signature@.len() == 192
                &&& c.inauguration is None
            },
            forall|hh: Seq<char>|
                cache_has(final(self).entries@, hh) == cache_has(old(self).entries@, hh),
            forall|hh: Seq<char>|
                share_count(final(self).entries@, hh) == share_count(old(self).entries@, hh),
            forall|hh: Seq<char>|
                cache_sig_shares(final(self).entries@, hh) == cache_sig_shares(
                    old(self).entries@,
                    hh,
                ),
            forall|hh: Seq<char>|
                hh != block_hash@ ==> is_sealed(final(self).entries@, hh) == is_sealed(
                    old(self).entries@,
                    hh,
                ),
    {
        let i = match self.find(block_hash) {
            Some(i) => i,
            None => {
                return None;
            },
        };
        let count = self.entries[i].1.shares.len();
        if count <= threshold as usize {
            return None;
        }
        if self.entries[i].1.sealed {
            return None;
        }
        let m = self.entries[i].1.shares.len();
        let mut sig_shares: Vec<(u16, Vec<u8>)> = Vec::new();
        let mut j: usize = 0;
        while j < m
            invariant
                cache_wf(self.entries@),
                *self == *old(self),
                i < self.entries@.len(),
                self.entries@[i as int].0@ == block_hash@,
                i as int == cache_idx(self.entries@, block_hash@),
                m == self.entries@[i as int].1.shares@.len(),
                j <= m,
                sig_shares@.len() == j,
                forall|q: int|
                    0 <= q < j ==> (#[trigger] sig_shares@[q]).0 == self.entries@[
                    i as int].1.shares@[q].0 && sig_shares@[q].1@ == self.entries@[
                    i as int].1.shares@[q].2@,
            decreases m - j,
        {
            let idx = self.entries[i].1.shares[j].0;
            let sig = crate::header::clone_bytes(&self.entries[i].1.shares[j].2);
            sig_shares.push((idx, sig));
            j = j + 1;
        }
        proof {
            assert(share_views(sig_shares@) =~= cache_sig_shares(self.entries@, block_hash@));
        }
        let combined = match combine_shares(pk_set, &sig_shares) {
            Some(c) => c,
            None => {
                return None;
            },
        };
        let signature = hex_encode(&combined);
        let ghost pre = self.entries@;
        let mut e = self.entries.remove(i);
        e.1.sealed = true;
        let ghost enew = e;
        self.entries.insert(i, e);
        proof {
            assert(self.entries@ =~= pre.update(i as int, enew));
            assert(self.entries@[i as int].0@ == block_hash@);
            assert(forall|k: int|
                0 <= k < self.entries@.len() && k != i as int ==> self.entries@[k] == pre[k]);
            assert(forall|k: int|
                0 <= k < self.entries@.len() ==> (#[trigger] self.entries@[k]).0@ == pre[k].0@
                    && self.entries@[k].1.shares@ == pre[k].1.shares@);
            assert(cache_wf(self.entries@));
            assert(cache_idx(self.entries@, block_hash@) == i as int);
            assert(cache_idx(pre, block_hash@) == i as int);
            assert(is_sealed(self.entries@, block_hash@));
            assert forall|hh: Seq<char>|
                cache_has(self.entries@, hh) == cache_has(pre, hh) && share_count(
                    self.entries@,
                    hh,
                ) == share_count(pre, hh) && cache_sig_shares(self.entries@, hh)
                == cache_sig_shares(pre, hh) && (hh != block_hash@ ==> is_sealed(
                self.entries@,
                hh,
            ) == is_sealed(pre, hh)) by {
                if cache_has(pre, hh) {
                    let w = cache_idx(pre, hh);
                    assert(pre[w].0@ == hh);
                    assert(self.entries@[w].0@ == hh);
                    assert(cache_has(self.entries@, hh));
                }
                if cache_has(self.entries@, hh) {
                    let w = cache_idx(self.entries@, hh);
                    assert(self.entries@[w].0@ == hh);
                    assert(pre[w].0@ == hh);
                    assert(cache_has(pre, hh));
                    assert(cache_idx(pre, hh) == w);
                    assert(cache_sig_shares(self.entries@, hh) =~= cache_sig_shares(pre, hh));
                    if hh != block_hash@ {
                        assert(w != i as int);
                    }
                }
            }
        }
        Some(
            Certificate {
                signature,
                inauguration: None,
                root_hash: String::new(),
                next_root_hash: String::new(),
                block_hash: block_hash.clone(),
            },
        )
    }
}

} // verus!
