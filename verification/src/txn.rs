//! Transactions: the tagged transaction variant, its canonical payload,
//! and the transaction validator run by farmer quorums.

use vstd::prelude::*;

use crate::codec::{
    ascii_chars, check_ascii, enc_str, push_str, push_u128_be, push_u64_be, u128_be, u64_be,
};
use crate::crypto::{
    ecdsa_verifies, ecdsa_verify, hex_decode, hex_of, hex_to_bytes, is_valid_pubkey,
    lemma_hex_of_to_bytes, parse_public_key, sha256_digest, sha256_hex,
};

verus! {

/// Fee classes a transaction may be submitted under.
#[derive(Debug, Clone, Copy, PartialEq, Eq, Structural)]
pub enum TxnFees {
    Slow,
    Fast,
    Instant,
}

/// Why a transaction was rejected by the validator.
#[derive(Debug, Clone, PartialEq, Eq, Hash)]
pub enum TxnValidatorError {
    InvalidSender,
    SenderAddressMissing,
    SenderAddressIncorrect,
    SenderPublicKeyIncorrect,
    ReceiverAddressMissing,
    ReceiverAddressIncorrect,
    OutOfBoundsTimestamp(i64, i64),
    TxnAmountIncorrect,
    TxnSignatureIncorrect,
    TxnSignatureTresholdIncorrect,
    NotFound,
    AccountNotFound(String),
    NonAsciiField,
}

/// A transfer of an amount between two addresses.
#[derive(Debug, PartialEq, Eq, Hash)]
pub struct Transfer {
    pub id: String,
    pub timestamp: i64,
    pub sender_address: String,
    pub sender_public_key: String,
    pub receiver_address: String,
    pub token: String,
    pub amount: u128,
    pub signature: String,
    pub nonce: u128,
}

/// The tagged transaction variant: every operation the consensus core
/// needs is defined on it.
#[derive(Debug, PartialEq, Eq, Hash)]
pub enum TransactionKind {
    Transfer(Transfer),
}

impl Clone for Transfer {
    /// Clones the transfer field by field; the copy equals the original.
    fn clone(&self) -> (res: Self)
        ensures
            res == *self,
    {
        Transfer {
            id: self.id.clone(),
            timestamp: self.timestamp,
            sender_address: self.sender_address.clone(),
            sender_public_key: self.sender_public_key.clone(),
            receiver_address: self.receiver_address.clone(),
            token: self.token.clone(),
            amount: self.amount,
            signature: self.signature.clone(),
            nonce: self.nonce,
        }
    }
}

impl Clone for TransactionKind {
    /// Clones the transaction; the copy equals the original.
    fn clone(&self) -> (res: Self)
        ensures
            res == *self,
    {
        match self {
            TransactionKind::Transfer(t) => TransactionKind::Transfer(t.clone()),
        }
    }
}

/// Whether every text field that enters the transaction payload is ASCII.
pub open spec fn txn_fields_ascii(t: TransactionKind) -> bool {
    match t {
        TransactionKind::Transfer(t) => {
            &&& ascii_chars(t.id@)
            &&& ascii_chars(t.sender_address@)
            &&& ascii_chars(t.sender_public_key@)
            &&& ascii_chars(t.receiver_address@)
            &&& ascii_chars(t.token@)
        },
    }
}

/// The canonical payload a transaction is signed over: every field except
/// the signature, in a fixed order.
pub open spec fn txn_payload_bytes(t: TransactionKind) -> Seq<u8> {
    match t {
        TransactionKind::Transfer(t) => enc_str(t.id@) + u64_be(t.timestamp as u64) + enc_str(
            t.sender_address@,
        ) + enc_str(t.sender_public_key@) + enc_str(t.receiver_address@) + enc_str(t.token@)
            + u128_be(t.amount) + u128_be(t.nonce),
    }
}

/// The digest a transaction is identified by: the SHA-256 hash of its
/// canonical payload, in lowercase hex.
pub open spec fn txn_digest_spec(t: TransactionKind) -> Seq<char> {
    sha256_hex(txn_payload_bytes(t))
}

impl TransactionKind {
    /// The sender's address.
    pub fn sender_address(&self) -> (r: &String)
        ensures
            r == self->Transfer_0.sender_address,
    {
        match self {
            TransactionKind::Transfer(t) => &t.sender_address,
        }
    }

    /// The sender's public key.
    pub fn sender_public_key(&self) -> (r: &String)
        ensures
            r == self->Transfer_0.sender_public_key,
    {
        match self {
            TransactionKind::Transfer(t) => &t.sender_public_key,
        }
    }

    /// The receiver's address.
    pub fn receiver_address(&self) -> (r: &String)
        ensures
            r == self->Transfer_0.receiver_address,
    {
        match self {
            TransactionKind::Transfer(t) => &t.receiver_address,
        }
    }

    /// The signature carried by the transaction.
    pub fn signature(&self) -> (r: &String)
        ensures
            r == self->Transfer_0.signature,
    {
        match self {
            TransactionKind::Transfer(t) => &t.signature,
        }
    }

    /// The transferred amount.
    pub fn amount(&self) -> (r: u128)
        ensures
            r == self->Transfer_0.amount,
    {
        match self {
            TransactionKind::Transfer(t) => t.amount,
        }
    }

    /// The creation timestamp, in seconds.
    pub fn timestamp(&self) -> (r: i64)
        ensures
            r == self->Transfer_0.timestamp,
    {
        match self {
            TransactionKind::Transfer(t) => t.timestamp,
        }
    }

    /// The canonical payload the transaction is signed over.
    pub fn build_payload(&self) -> (r: Vec<u8>)
        requires
            txn_fields_ascii(*self),
        ensures
            r@ == txn_payload_bytes(*self),
    {
        match self {
            TransactionKind::Transfer(t) => {
                let mut out: Vec<u8> = Vec::new();
                push_str(&mut out, &t.id);
                push_u64_be(&mut out, t.timestamp as u64);
                push_str(&mut out, &t.sender_address);
                push_str(&mut out, &t.sender_public_key);
                push_str(&mut out, &t.receiver_address);
                push_str(&mut out, &t.token);
                push_u128_be(&mut out, t.amount);
                push_u128_be(&mut out, t.nonce);
                proof {
                    assert(out@ =~= txn_payload_bytes(*self));
                }
                out
            },
        }
    }

    /// The digest identifying the transaction, in lowercase hex.
    pub fn id(&self) -> (r: String)
        requires
            txn_fields_ascii(*self),
        ensures
            r@ == txn_digest_spec(*self),
            crate::crypto::is_digest_chars(r@),
    {
        let payload = self.build_payload();
        sha256_digest(&payload)
    }
}

/// A ledger account: what it has received and what it has spent.
#[derive(Debug, Clone, Copy, PartialEq, Eq)]
pub struct Account {
    pub credits: u128,
    pub debits: u128,
}

/// Whether each address appears at most once in the account store.
pub open spec fn unique_addresses(state: Seq<(String, Account)>) -> bool {
    forall|i: int, j: int|
        0 <= i < j < state.len() ==> (#[trigger] state[i]).0@ != (#[trigger] state[j]).0@
}

/// The account store the validator reads: addresses paired with their
/// accounts, each address listed once.
pub open spec fn account_lookup(state: Seq<(String, Account)>, addr: Seq<char>) -> Option<Account> {
    if exists|i: int| 0 <= i < state.len() && (#[trigger] state[i]).0@ == addr {
        Some(state[choose|i: int| 0 <= i < state.len() && (#[trigger] state[i]).0@ == addr].1)
    } else {
        None
    }
}

/// Looks an account up by its address.
pub fn get_account(state: &Vec<(String, Account)>, addr: &String) -> (r: Option<Account>)
    requires
        unique_addresses(state@),
    ensures
        r == account_lookup(state@, addr@),
{
    let n = state.len();
    let mut i: usize = 0;
    while i < n
        invariant
            unique_addresses(state@),
            n == state@.len(),
            i <= n,
            forall|j: int| 0 <= j < i ==> (#[trigger] state@[j]).0@ != addr@,
        decreases n - i,
    {
        if state[i].0 == *addr {
            proof {
                assert(account_lookup(state@, addr@) is Some);
                let j = choose|j: int|
                    0 <= j < state@.len() && (#[trigger] state@[j]).0@ == addr@;
                assert(j == i as int);
            }
            return Some(state[i].1);
        }
        i = i + 1;
    }
    proof {
        assert(account_lookup(state@, addr@) is None);
    }
    None
}

/// The transaction validator run by farmer quorum members.
#[derive(Debug, Clone, Copy, PartialEq, Eq, Structural)]
pub struct TxnValidator;

/// The prefix every well-formed address starts with.
pub open spec fn address_prefix() -> Seq<char> {
    "0x192"@
}

/// Whether a string is an acceptable address: non-empty, carrying the
/// address prefix, and longer than ten characters.
pub open spec fn address_ok(s: Seq<char>) -> bool {
    s.len() > 10 && s.subrange(0, 5) == address_prefix()
}

/// Decides whether a string is an acceptable address.
pub fn check_address(s: &String) -> (r: bool)
    ensures
        r == address_ok(s@),
{
    proof {
        reveal_strlit("0x192");
    }
    let n = s.as_str().unicode_len();
    if n <= 10 {
        return false;
    }
    let c0 = s.as_str().get_char(0);
    let c1 = s.as_str().get_char(1);
    let c2 = s.as_str().get_char(2);
    let c3 = s.as_str().get_char(3);
    let c4 = s.as_str().get_char(4);
    let ok = c0 == '0' && c1 == 'x' && c2 == '1' && c3 == '9' && c4 == '2';
    proof {
        if ok {
            assert(s@.subrange(0, 5) =~= address_prefix());
        } else {
            assert(s@.subrange(0, 5) != address_prefix()) by {
                if s@.subrange(0, 5) == address_prefix() {
                    assert(s@[0] == address_prefix()[0]);
                    assert(s@[1] == address_prefix()[1]);
                    assert(s@[2] == address_prefix()[2]);
                    assert(s@[3] == address_prefix()[3]);
                    assert(s@[4] == address_prefix()[4]);
                }
            }
        }
    }
    ok
}

/// Whether the validator accepts the transaction against the account
/// state at time `now`, and the first error it reports otherwise, in
/// check order: amount, public key, sender address, receiver address,
/// signature, timestamp.
pub open spec fn validate_spec(
    state: Seq<(String, Account)>,
    t: TransactionKind,
    now: i64,
) -> Result<(), TxnValidatorError> {
    if !txn_fields_ascii(t) {
        Err(TxnValidatorError::NonAsciiField)
    } else if !is_valid_pubkey(t->Transfer_0.sender_address@) {
        Err(TxnValidatorError::SenderAddressIncorrect)
    } else if account_lookup(state, t->Transfer_0.sender_address@) is None {
        Err(TxnValidatorError::AccountNotFound(t->Transfer_0.sender_address))
    } else if {
        let a = account_lookup(state, t->Transfer_0.sender_address@)->Some_0;
        a.credits < a.debits || a.credits - a.debits < t->Transfer_0.amount
    } {
        Err(TxnValidatorError::TxnAmountIncorrect)
    } else if t->Transfer_0.sender_public_key@.len() == 0 {
        Err(TxnValidatorError::SenderPublicKeyIncorrect)
    } else if !address_ok(t->Transfer_0.sender_address@) {
        Err(TxnValidatorError::SenderAddressMissing)
    } else if !address_ok(t->Transfer_0.receiver_address@) {
        Err(TxnValidatorError::ReceiverAddressMissing)
    } else if t->Transfer_0.signature@.len() == 0 || !ecdsa_verifies(
        t->Transfer_0.sender_public_key@,
        t->Transfer_0.signature@,
        hex_to_bytes(txn_digest_spec(t)),
    ) {
        Err(TxnValidatorError::TxnSignatureIncorrect)
    } else if !(0 < t->Transfer_0.timestamp < now) {
        Err(TxnValidatorError::OutOfBoundsTimestamp(t->Transfer_0.timestamp, now))
    } else {
        Ok(())
    }
}

impl TxnValidator {
    /// Creates a new transaction validator.
    pub fn new() -> (r: TxnValidator)
        ensures
            r == TxnValidator,
    {
        TxnValidator
    }

    /// Validates a whole transaction against the account state at time
    /// `now`.
    pub fn validate(
        &self,
        account_state: &Vec<(String, Account)>,
        txn: &TransactionKind,
        now: i64,
    ) -> (r: Result<(), TxnValidatorError>)
        requires
            unique_addresses(account_state@),
        ensures
            r == validate_spec(account_state@, *txn, now),
    {
        self.validate_structure(account_state, txn, now)
    }

    /// Validates a transaction's structure: amount and account, public
    /// key, addresses, signature and timestamp, in that order.
    pub fn validate_structure(
        &self,
        account_state: &Vec<(String, Account)>,
        txn: &TransactionKind,
        now: i64,
    ) -> (r: Result<(), TxnValidatorError>)
        requires
            unique_addresses(account_state@),
        ensures
            r == validate_spec(account_state@, *txn, now),
    {
        match txn {
            TransactionKind::Transfer(t) => {
                if !check_ascii(t.id.as_str()) || !check_ascii(t.sender_address.as_str())
                    || !check_ascii(t.sender_public_key.as_str()) || !check_ascii(
                    t.receiver_address.as_str(),
                ) || !check_ascii(t.token.as_str()) {
                    proof {
                        assert(!txn_fields_ascii(*txn));
                    }
                    return Err(TxnValidatorError::NonAsciiField);
                }
                proof {
                    assert(txn_fields_ascii(*txn));
                }
                if let Err(e) = self.validate_amount(account_state, txn) {
                    proof {
                        assert(Err::<(), TxnValidatorError>(e) == validate_spec(
                            account_state@,
                            *txn,
                            now,
                        ));
                    }
                    return Err(e);
                }
                if t.sender_public_key.as_str().unicode_len() == 0 {
                    return Err(TxnValidatorError::SenderPublicKeyIncorrect);
                }
                if !check_address(&t.sender_address) {
                    return Err(TxnValidatorError::SenderAddressMissing);
                }
                if !check_address(&t.receiver_address) {
                    return Err(TxnValidatorError::ReceiverAddressMissing);
                }
                if let Err(e) = self.validate_signature(txn) {
                    return Err(e);
                }
                let rt = self.validate_timestamp(txn, now);
                proof {
                    if 0 < t.timestamp < now {
                        assert(validate_spec(account_state@, *txn, now) == Ok::<
                            (),
                            TxnValidatorError,
                        >(()));
                        assert(rt is Ok);
                        assert(rt->Ok_0 == ());
                        assert(rt == Ok::<(), TxnValidatorError>(()));
                    } else {
                        assert(validate_spec(account_state@, *txn, now) == Err::<
                            (),
                            TxnValidatorError,
                        >(TxnValidatorError::OutOfBoundsTimestamp(t.timestamp, now)));
                        assert(rt == Err::<(), TxnValidatorError>(
                            TxnValidatorError::OutOfBoundsTimestamp(t.timestamp, now),
                        ));
                    }
                    assert(rt == validate_spec(account_state@, *txn, now));
                }
                rt
            },
        }
    }

    /// Checks that the sender's account covers the amount: the sender
    /// address must parse as a public key, name a known account, and the
    /// account's balance must cover the transferred amount.
    pub fn validate_amount(
        &self,
        account_state: &Vec<(String, Account)>,
        txn: &TransactionKind,
    ) -> (r: Result<(), TxnValidatorError>)
        requires
            txn_fields_ascii(*txn),
            unique_addresses(account_state@),
        ensures
            r is Err <==> (!is_valid_pubkey(txn->Transfer_0.sender_address@) || account_lookup(
                account_state@,
                txn->Transfer_0.sender_address@,
            ) is None || {
                let a = account_lookup(account_state@, txn->Transfer_0.sender_address@)->Some_0;
                a.credits < a.debits || a.credits - a.debits < txn->Transfer_0.amount
            }),
            !is_valid_pubkey(txn->Transfer_0.sender_address@) ==> r == Err::<
                (),
                TxnValidatorError,
            >(TxnValidatorError::SenderAddressIncorrect),
            (is_valid_pubkey(txn->Transfer_0.sender_address@) && account_lookup(
                account_state@,
                txn->Transfer_0.sender_address@,
            ) is None) ==> r == Err::<(), TxnValidatorError>(
                TxnValidatorError::AccountNotFound(txn->Transfer_0.sender_address),
            ),
            (is_valid_pubkey(txn->Transfer_0.sender_address@) && account_lookup(
                account_state@,
                txn->Transfer_0.sender_address@,
            ) is Some && r is Err) ==> r == Err::<(), TxnValidatorError>(
                TxnValidatorError::TxnAmountIncorrect,
            ),
    {
        match txn {
            TransactionKind::Transfer(t) => {
                if !parse_public_key(&t.sender_address) {
                    return Err(TxnValidatorError::SenderAddressIncorrect);
                }
                let account = match get_account(account_state, &t.sender_address) {
                    Some(a) => a,
                    None => {
                        return Err(TxnValidatorError::AccountNotFound(t.sender_address.clone()));
                    },
                };
                proof {
                    let i = choose|i: int|
                        0 <= i < account_state@.len() && (#[trigger] account_state@[i]).0@
                            == t.sender_address@ && account_state@[i].1 == account;
                    assert(account_lookup(account_state@, t.sender_address@) is Some);
                }
                if account.credits < account.debits {
                    return Err(TxnValidatorError::TxnAmountIncorrect);
                }
                if account.credits - account.debits < t.amount {
                    return Err(TxnValidatorError::TxnAmountIncorrect);
                }
                Ok(())
            },
        }
    }

    /// Checks the transaction's ECDSA signature over its payload digest
    /// under the sender's public key; an empty signature is rejected.
    pub fn validate_signature(&self, txn: &TransactionKind) -> (r: Result<(), TxnValidatorError>)
        requires
            txn_fields_ascii(*txn),
        ensures
            r is Ok <==> (txn->Transfer_0.signature@.len() > 0 && ecdsa_verifies(
                txn->Transfer_0.sender_public_key@,
                txn->Transfer_0.signature@,
                hex_to_bytes(txn_digest_spec(*txn)),
            )),
            r is Err ==> r == Err::<(), TxnValidatorError>(TxnValidatorError::TxnSignatureIncorrect),
    {
        match txn {
            TransactionKind::Transfer(t) => {
                if t.signature.as_str().unicode_len() == 0 {
                    return Err(TxnValidatorError::TxnSignatureIncorrect);
                }
                let digest_hex = self.compute_digest(txn);
                proof {
                    lemma_hex_of_to_bytes(digest_hex@);
                }
                let digest = match hex_decode(digest_hex.as_str()) {
                    Ok(d) => d,
                    Err(_) => {
                        proof {
                            assert(hex_of(hex_to_bytes(digest_hex@)) == digest_hex@);
                            assert(false);
                        }
                        return Err(TxnValidatorError::TxnSignatureIncorrect);
                    },
                };
                if ecdsa_verify(&t.sender_public_key, &t.signature, &digest) {
                    Ok(())
                } else {
                    Err(TxnValidatorError::TxnSignatureIncorrect)
                }
            },
        }
    }

    /// Checks that the sender's public key is present.
    pub fn validate_public_key(&self, txn: &TransactionKind) -> (r: Result<(), TxnValidatorError>)
        ensures
            r is Ok <==> txn->Transfer_0.sender_public_key@.len() > 0,
            r is Err ==> r == Err::<(), TxnValidatorError>(
                TxnValidatorError::SenderPublicKeyIncorrect,
            ),
    {
        match txn {
            TransactionKind::Transfer(t) => {
                if t.sender_public_key.as_str().unicode_len() > 0 {
                    Ok(())
                } else {
                    Err(TxnValidatorError::SenderPublicKeyIncorrect)
                }
            },
        }
    }

    /// Checks the sender's address shape.
    pub fn validate_sender_address(&self, txn: &TransactionKind) -> (r: Result<
        (),
        TxnValidatorError,
    >)
        ensures
            r is Ok <==> address_ok(txn->Transfer_0.sender_address@),
            r is Err ==> r == Err::<(), TxnValidatorError>(TxnValidatorError::SenderAddressMissing),
    {
        match txn {
            TransactionKind::Transfer(t) => {
                if check_address(&t.sender_address) {
                    Ok(())
                } else {
                    Err(TxnValidatorError::SenderAddressMissing)
                }
            },
        }
    }

    /// Checks the receiver's address shape.
    pub fn validate_receiver_address(&self, txn: &TransactionKind) -> (r: Result<
        (),
        TxnValidatorError,
    >)
        ensures
            r is Ok <==> address_ok(txn->Transfer_0.receiver_address@),
            r is Err ==> r == Err::<(), TxnValidatorError>(
                TxnValidatorError::ReceiverAddressMissing,
            ),
    {
        match txn {
            TransactionKind::Transfer(t) => {
                if check_address(&t.receiver_address) {
                    Ok(())
                } else {
                    Err(TxnValidatorError::ReceiverAddressMissing)
                }
            },
        }
    }

    /// Checks that the transaction's timestamp lies strictly between
    /// zero and the current time.
    pub fn validate_timestamp(&self, txn: &TransactionKind, now: i64) -> (r: Result<
        (),
        TxnValidatorError,
    >)
        ensures
            r is Ok <==> 0 < txn->Transfer_0.timestamp < now,
            r is Err ==> r == Err::<(), TxnValidatorError>(
                TxnValidatorError::OutOfBoundsTimestamp(txn->Transfer_0.timestamp, now),
            ),
    {
        match txn {
            TransactionKind::Transfer(t) => {
                if t.timestamp > 0 && t.timestamp < now {
                    Ok(())
                } else {
                    Err(TxnValidatorError::OutOfBoundsTimestamp(t.timestamp, now))
                }
            },
        }
    }

    /// The digest of a transaction's canonical payload.
    fn compute_digest(&self, txn: &TransactionKind) -> (r: String)
        requires
            txn_fields_ascii(*txn),
        ensures
            r@ == txn_digest_spec(*txn),
            crate::crypto::is_digest_chars(r@),
    {
        let payload = txn.build_payload();
        sha256_digest(&payload)
    }
}

/// Validates a batch of transactions one by one, pairing each with its
/// verdict.
pub fn validate_batch(
    account_state: &Vec<(String, Account)>,
    batch: Vec<TransactionKind>,
    now: i64,
) -> (r: Vec<(TransactionKind, Result<(), TxnValidatorError>)>)
    requires
        unique_addresses(account_state@),
    ensures
        r@.len() == batch@.len(),
        forall|i: int|
            0 <= i < batch@.len() ==> (#[trigger] r@[i]).0 == batch@[i] && r@[i].1 == validate_spec(
                account_state@,
                batch@[i],
                now,
            ),
{
    let validator = TxnValidator::new();
    let n = batch.len();
    let mut out: Vec<(TransactionKind, Result<(), TxnValidatorError>)> = Vec::new();
    let mut i: usize = 0;
    while i < n
        invariant
            unique_addresses(account_state@),
            n == batch@.len(),
            i <= n,
            out@.len() == i,
            forall|k: int|
                0 <= k < i ==> (#[trigger] out@[k]).0 == batch@[k] && out@[k].1 == validate_spec(
                    account_state@,
                    batch@[k],
                    now,
                ),
        decreases n - i,
    {
        let t = batch[i].clone();
        let verdict = validator.validate(account_state, &t, now);
        out.push((t, verdict));
        i = i + 1;
    }
    out
}

} // verus!
