//! A decentralized storage marketplace: providers publish priced buckets,
//! consumers open time-bounded deals against a bucket and prefund an escrow
//! balance, and a settlement engine bills metered consumption (storage-GB and
//! egress-GB) against that escrow, prorating on insufficient funds and
//! slashing the provider's claim when it underperforms the bucket's SLA.
//!
//! The library holds the state machine and all of its arithmetic. Everything
//! the host environment supplies from outside — durable storage, the payment
//! rail that moves value between accounts, caller authentication, the clock —
//! stays with the caller: operations take timestamps and externally observed
//! balances as arguments and return the transfers the payment rail must
//! perform.

pub mod bucket;
pub mod consumer;
pub mod deal;
pub mod laws;
pub mod market;
pub mod provider;
pub mod settlement;
pub mod types;
