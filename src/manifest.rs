//! The manifest kinds a registry may answer with.

use vstd::prelude::*;

use crate::{docker_v1, docker_v2, oci};

verus! {

/// An image manifest of one of the supported kinds.
pub enum Manifest {
    DockerV1(docker_v1::Manifest),
    DockerV2(docker_v2::Manifest),
    DockerV2List(docker_v2::ManifestList),
    Oci(oci::Manifest),
}

} // verus!
