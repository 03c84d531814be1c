//! What a node offers to clients.

pub mod session;
