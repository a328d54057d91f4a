//! Synchronizing a local directory tree with a remote content-addressed
//! file store, and serving the stored files with digest-based cache
//! validation.
//!
//! - [`digest`] — streaming content hashing; a 32-byte digest stands for a
//!   file's bytes.
//! - [`paths`] — store path validation, percent-unescaping, and path
//!   construction.
//! - [`store`] — an in-memory model of the content store the logic is
//!   verified against.
//! - [`sync`] — the diff planner: reconciling a local scan against a
//!   remote snapshot into create / replace / delete operations.
//! - [`upload`] — the chunked, verified, retrying uploader and the
//!   executor applying planned operations.
//! - [`page`] — the conditional serving layer, with the digest as a strong
//!   cache validator.
//! - [`api`] — the sync API's request types and error taxonomy.
//! - [`schema`] — the plain data model.

pub mod api;
pub mod digest;
pub mod page;
pub mod paths;
pub mod schema;
pub mod store;
pub mod sync;
pub mod text;
pub mod upload;
