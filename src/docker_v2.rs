//! Docker image manifest, schema 2, and the manifest list.

use vstd::prelude::*;

use crate::digest::Digest;

verus! {

/// The platform a manifest of a list is built for.
pub struct Platform {
    pub architecture: String,
    pub os: String,
    pub os_version: Option<String>,
    pub os_features: Vec<String>,
    pub variant: Option<String>,
    pub features: Vec<String>,
}

/// One manifest of a manifest list.
pub struct Item {
    pub media_type: Option<String>,
    pub size: u64,
    pub digest: Digest,
    pub platform: Platform,
}

/// A list of platform-specific manifests.
pub struct ManifestList {
    pub schema_version: usize,
    pub media_type: Option<String>,
    pub manifests: Vec<Item>,
}

/// The configuration blob of an image.
pub struct Config {
    pub media_type: Option<String>,
    pub size: u64,
    pub digest: Digest,
}

/// A layer of an image: its media type, size, digest and mirror addresses.
pub struct Layer {
    pub media_type: Option<String>,
    pub size: u64,
    pub digest: Digest,
    pub urls: Vec<String>,
}

/// A schema-2 manifest.
pub struct Manifest {
    pub schema_version: usize,
    pub media_type: Option<String>,
    pub config: Config,
    pub layers: Vec<Layer>,
}

} // verus!
