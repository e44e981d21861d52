//! A small snapshot engine: it captures a directory tree into content-hashed
//! archives, keeps a linear history counter, and restores any earlier snapshot
//! after checking the archive against its recorded digest.
//!
//! The filesystem work (walking trees, writing and reading archives) is done by
//! the caller; this library decides what is packed, what is removed, what the
//! history counter becomes and whether a stored snapshot may be restored.

mod text;
pub mod path_filter;
pub mod history;
pub mod record;
pub mod plan;
pub mod repository;
