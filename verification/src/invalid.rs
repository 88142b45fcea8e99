//! Reasons for rejecting a candidate block, and the error that carries one.

use vstd::prelude::*;

use crate::codec::ascii_str_to_bytes;
use vstd::string::StringExecFns;

verus! {

/// Why a candidate block was rejected by the block validator.
#[derive(Debug, Clone, PartialEq, Eq, Structural)]
pub enum InvalidBlockErrorReason {
    NotTallestChain,
    BlockOutOfSequence,
    InvalidClaim,
    InvalidLastHash,
    InvalidStateHash,
    InvalidBlockHeight,
    InvalidBlockNonce,
    InvalidBlockReward,
    InvalidTxns,
    InvalidClaimPointers,
    InvalidBlockSignature,
    General,
}

/// A block validation failure together with its reason.
#[derive(Debug, Clone, PartialEq, Eq, Structural)]
pub struct InvalidBlockError {
    pub details: InvalidBlockErrorReason,
}

/// The short description that `to_str` returns for each reason.
pub open spec fn reason_str(r: InvalidBlockErrorReason) -> Seq<char> {
    match r {
        InvalidBlockErrorReason::BlockOutOfSequence => "block out of sequence"@,
        InvalidBlockErrorReason::General => "general invalid block"@,
        InvalidBlockErrorReason::InvalidBlockHeight => "invalid block height"@,
        InvalidBlockErrorReason::InvalidClaim => "invalid claim"@,
        InvalidBlockErrorReason::InvalidLastHash => "invalid last hash"@,
        InvalidBlockErrorReason::InvalidStateHash => "invalid state hash"@,
        InvalidBlockErrorReason::InvalidBlockNonce => "invalid block nonce"@,
        InvalidBlockErrorReason::InvalidBlockReward => "invalid block reward"@,
        InvalidBlockErrorReason::InvalidTxns => "invalid txns in block"@,
        InvalidBlockErrorReason::InvalidClaimPointers => "invalid claim pointers"@,
        InvalidBlockErrorReason::InvalidBlockSignature => "invalid block signature"@,
        InvalidBlockErrorReason::NotTallestChain => {
            "blockchain proposed is shorter than my local chain"@
        },
    }
}

impl InvalidBlockErrorReason {
    /// A short human-readable description of the reason.
    pub fn to_str(&self) -> (r: &str)
        ensures
            r@ == reason_str(*self),
    {
        match self {
            Self::BlockOutOfSequence => "block out of sequence",
            Self::General => "general invalid block",
            Self::InvalidBlockHeight => "invalid block height",
            Self::InvalidClaim => "invalid claim",
            Self::InvalidLastHash => "invalid last hash",
            Self::InvalidStateHash => "invalid state hash",
            Self::InvalidBlockNonce => "invalid block nonce",
            Self::InvalidBlockReward => "invalid block reward",
            Self::InvalidTxns => "invalid txns in block",
            Self::InvalidClaimPointers => "invalid claim pointers",
            Self::InvalidBlockSignature => "invalid block signature",
            Self::NotTallestChain => "blockchain proposed is shorter than my local chain",
        }
    }

    /// The reason serialized as its canonical wire form: the variant name
    /// in double quotes, as bytes.
    pub fn as_bytes(&self) -> (r: Vec<u8>)
        ensures
            r@ == reason_wire_str(*self).map(|_i: int, c: char| c as u8),
    {
        match self {
            Self::BlockOutOfSequence => {
                proof {
                    reveal_strlit("\"BlockOutOfSequence\"");
                }
                ascii_str_to_bytes("\"BlockOutOfSequence\"")
            },
            Self::General => {
                proof {
                    reveal_strlit("\"General\"");
                }
                ascii_str_to_bytes("\"General\"")
            },
            Self::InvalidBlockHeight => {
                proof {
                    reveal_strlit("\"InvalidBlockHeight\"");
                }
                ascii_str_to_bytes("\"InvalidBlockHeight\"")
            },
            Self::InvalidClaim => {
                proof {
                    reveal_strlit("\"InvalidClaim\"");
                }
                ascii_str_to_bytes("\"InvalidClaim\"")
            },
            Self::InvalidLastHash => {
                proof {
                    reveal_strlit("\"InvalidLastHash\"");
                }
                ascii_str_to_bytes("\"InvalidLastHash\"")
            },
            Self::InvalidStateHash => {
                proof {
                    reveal_strlit("\"InvalidStateHash\"");
                }
                ascii_str_to_bytes("\"InvalidStateHash\"")
            },
            Self::InvalidBlockNonce => {
                proof {
                    reveal_strlit("\"InvalidBlockNonce\"");
                }
                ascii_str_to_bytes("\"InvalidBlockNonce\"")
            },
            Self::InvalidBlockReward => {
                proof {
                    reveal_strlit("\"InvalidBlockReward\"");
                }
                ascii_str_to_bytes("\"InvalidBlockReward\"")
            },
            Self::InvalidTxns => {
                proof {
                    reveal_strlit("\"InvalidTxns\"");
                }
                ascii_str_to_bytes("\"InvalidTxns\"")
            },
            Self::InvalidClaimPointers => {
                proof {
                    reveal_strlit("\"InvalidClaimPointers\"");
                }
                ascii_str_to_bytes("\"InvalidClaimPointers\"")
            },
            Self::InvalidBlockSignature => {
                proof {
                    reveal_strlit("\"InvalidBlockSignature\"");
                }
                ascii_str_to_bytes("\"InvalidBlockSignature\"")
            },
            Self::NotTallestChain => {
                proof {
                    reveal_strlit("\"NotTallestChain\"");
                }
                ascii_str_to_bytes("\"NotTallestChain\"")
            },
        }
    }
}

impl InvalidBlockError {
    /// The error rendered as text: its reason's short description.
    pub fn display_string(&self) -> (r: String)
        ensures
            r@ == reason_str(self.details),
    {
        let s = self.details.to_str();
        String::from_str(s)
    }
}

/// The canonical wire form of each reason: its variant name in double quotes.
pub open spec fn reason_wire_str(r: InvalidBlockErrorReason) -> Seq<char> {
    match r {
        InvalidBlockErrorReason::BlockOutOfSequence => "\"BlockOutOfSequence\""@,
        InvalidBlockErrorReason::General => "\"General\""@,
        InvalidBlockErrorReason::InvalidBlockHeight => "\"InvalidBlockHeight\""@,
        InvalidBlockErrorReason::InvalidClaim => "\"InvalidClaim\""@,
        InvalidBlockErrorReason::InvalidLastHash => "\"InvalidLastHash\""@,
        InvalidBlockErrorReason::InvalidStateHash => "\"InvalidStateHash\""@,
        InvalidBlockErrorReason::InvalidBlockNonce => "\"InvalidBlockNonce\""@,
        InvalidBlockErrorReason::InvalidBlockReward => "\"InvalidBlockReward\""@,
        InvalidBlockErrorReason::InvalidTxns => "\"InvalidTxns\""@,
        InvalidBlockErrorReason::InvalidClaimPointers => "\"InvalidClaimPointers\""@,
        InvalidBlockErrorReason::InvalidBlockSignature => "\"InvalidBlockSignature\""@,
        InvalidBlockErrorReason::NotTallestChain => "\"NotTallestChain\""@,
    }
}

} // verus!
