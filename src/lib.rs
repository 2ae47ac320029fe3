//! Container-image bootloader toolkit: the verified core.
//!
//! The library parses image references and content digests, models the
//! manifests of an image registry, decides how each layer is decompressed,
//! applies the union-filesystem whiteout rules across layers, and plans what
//! becomes of every archive entry when an image is unpacked or converted into
//! an initrd. The streaming adapters that move bytes between readers, writers
//! and digests live here too.

pub mod text;

pub mod digest;
pub mod repository;
pub mod auth;

pub mod docker_v1;
pub mod docker_v2;
pub mod oci;
pub mod manifest;
pub mod image;

pub mod iotools;
pub mod spool;

mod keyset;
pub mod union;
pub mod unpacker;

pub mod entry;
pub mod extract;
pub mod unpack;
