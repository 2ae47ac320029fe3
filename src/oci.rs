//! OCI image manifest.

use vstd::prelude::*;

use crate::digest::Digest;

verus! {

/// A content descriptor: media type, digest, size, mirrors, annotations.
pub struct Descriptor {
    pub media_type: String,
    pub digest: Digest,
    pub size: u64,
    pub urls: Vec<String>,
    pub annotations: Vec<(String, String)>,
}

/// An OCI manifest.
pub struct Manifest {
    pub schema_version: usize,
    pub media_type: Option<String>,
    pub config: Descriptor,
    pub layers: Vec<Descriptor>,
    pub annotations: Vec<(String, String)>,
}

} // verus!
