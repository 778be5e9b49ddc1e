//! Static link checker for a corpus of markup documents.
//!
//! The crate derives a slug identifier for every heading of every document,
//! extracts link and image targets from the parsed token stream, resolves
//! internal targets against the corpus's path space, and classifies each
//! failure precisely.

pub mod bytes;
pub mod corpus;
pub mod links;
pub mod slug;
pub mod tokens;
pub mod version;
