//! Persistence core of a block-based document editor.
//!
//! Pages are documents, blocks are ordered, typed content units inside a
//! page, and properties are key/value annotations on blocks. The store
//! keeps the three tables with explicit integrity guarantees: every block
//! identifier and page identifier is unique, and every block's checksum is
//! the deterministic fingerprint of its current content, so that no-op
//! writes can be detected and skipped.

pub mod blocks;
pub mod checksum;
pub mod errors;
pub mod laws;
pub mod order;
pub mod pages;
pub mod props;
pub mod records;
pub mod session;
pub mod store;
