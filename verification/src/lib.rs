//! Membership and stake registry of a round-based Byzantine-fault-tolerant
//! committee: the stake ledger with its thresholds, the round counter, the
//! peer directory and the write-once sender binding.

pub mod committee;
pub mod error;
pub mod peers;
pub mod round;
pub mod sender;
pub mod stake;
