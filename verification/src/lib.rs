//! Replication core of a clustered JMAP mail server: the Raft-derived
//! follower, the change log it reconciles, the staging queue of pending
//! updates, and the supporting JMAP value types.

pub mod bitmap;
pub mod collection;
pub mod table;
pub mod raft;
pub mod changes;
pub mod document;
pub mod cluster;
pub mod codec;
pub mod store;
pub mod jmap;
pub mod text;
pub mod mail;
pub mod config;
pub mod api;
