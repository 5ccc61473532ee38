//! A ledger engine: replays deposits, withdrawals, disputes, resolutions and
//! chargebacks against client accounts, remembering every transaction in a
//! partitioned store whose partitions can be spilled out of memory.
pub mod type_defs;
pub mod transaction_cache;
pub mod client;
pub mod processor;
