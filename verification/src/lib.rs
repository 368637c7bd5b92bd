//! Cooperative consumption of a sharded record stream: lease bookkeeping,
//! rebalancing decisions, and the schedules that tie leases to shard consumers.
pub mod balance;
pub mod broker;
pub mod clock;
pub mod counts;
pub mod decimal;
pub mod exception;
pub mod item;
pub mod lease;
pub mod manager;
pub mod pick;
pub mod record;
pub mod renewer;
pub mod retry;
pub mod runnable;
pub mod scheduler;
pub mod shadow;
pub mod shard;
pub mod taker;
pub mod worker;
