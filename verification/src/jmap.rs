//! Values of the mail access protocol.

pub mod error;
pub mod types;
pub mod uri;
