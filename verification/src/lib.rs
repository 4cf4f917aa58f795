//! A minimal proof-of-work ledger: transactions admitted through a mempool,
//! batched into hash-linked blocks, sealed by a proof-of-work search and
//! checked by structural verification.

pub mod block;
pub mod bytes;
pub mod chain;
pub mod clock;
pub mod hashing;
pub mod mempool;
pub mod transaction;
pub mod utxo;
