//! Docker image manifest, schema 1.

use vstd::prelude::*;

use crate::digest::Digest;

verus! {

/// A history record of a schema-1 manifest (its contents are not used).
pub struct History {}

/// A layer of a schema-1 manifest: the digest of its blob.
pub struct Layer {
    pub digest: Digest,
}

/// A schema-1 manifest.
pub struct Manifest {
    pub schema_version: usize,
    pub name: String,
    pub tag: String,
    pub architecture: String,
    pub layers: Vec<Layer>,
    pub history: Vec<History>,
}

} // verus!
