//! Consensus core of a permissioned blockchain node.
//!
//! The library covers the data model of claims, quorums and blocks, the
//! distributed key generation rounds that bootstrap a threshold-signature
//! key, the deterministic miner and quorum elections, block validation
//! against a parent header, and the aggregation of partial signature
//! shares into a block certificate.

pub mod block;
pub mod certifier;
pub mod claim;
pub mod codec;
pub mod consensus;
pub mod crypto;
pub mod dag;
pub mod dkg;
pub mod election;
pub mod header;
pub mod invalid;
pub mod quorum;
pub mod txn;
pub mod validator;
