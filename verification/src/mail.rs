//! Mail objects.

pub mod header;
pub mod schema;
pub mod search_snippet;
