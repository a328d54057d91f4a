//! The plain data model: file metadata, projects, and API tokens.

use vstd::prelude::*;

verus! {

/// Marker type for the schema that groups the collections below together
/// with the stored files.
pub struct Dossier;

/// The metadata recorded against a stored file: the digest of its contents,
/// written once when the final chunk of an upload arrives.
#[derive(Clone)]
pub struct Metadata {
    pub blake3: [u8; 32],
}

/// A project: the top-level namespace a file path is filed under.
#[derive(Clone)]
pub struct Project {
    pub slug: String,
}

/// A token authorizing its bearer to sync files under one project.
#[derive(Clone)]
pub struct ApiToken {
    pub label: String,
    pub authentication_token_id: u64,
    pub project_id: u32,
}

/// The actions a permission statement can grant on a project.
#[derive(Clone, Copy, PartialEq, Eq, Structural, Debug)]
pub enum DossierAction {
    SyncFiles,
}

} // verus!
