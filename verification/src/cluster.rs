//! Clustering: log replication to followers and peer liveness.

pub mod append;
pub mod applier;
pub mod election;
pub mod follower;
pub mod gossip;
pub mod idempotence;
pub mod log;
pub mod pending;
pub mod rollback;
pub mod transitions;
