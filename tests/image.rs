use wyrcan::digest::Digest;
use wyrcan::docker_v1;
use wyrcan::docker_v2;
use wyrcan::image::{manifest_path, Compression, Layer, LayerError};
use wyrcan::manifest::Manifest;
use wyrcan::repository::Repository;
use wyrcan::unpacker::Unpacker;

const D1: &str = "sha256:2cf24dba5fb0a30e26e83b2ac5b9e29e1b161e5c1fa7425e73043362938b9824";
const D2: &str = "sha256:e3b0c44298fc1c149afbf4c8996fb92427ae41e4649b934ca495991b7852b855";

fn level(media: Option<&str>, size: u64) -> docker_v2::Layer {
    docker_v2::Layer {
        media_type: media.map(|m| m.to_string()),
        size,
        digest: Digest::parse(D1).unwrap(),
        urls: Vec::new(),
    }
}

#[test]
fn decompressor_by_media_type() {
    let gz = [
        "application/vnd.docker.image.rootfs.diff.tar.gzip",
        "application/vnd.oci.image.layer.v1.tar+gzip",
        "application/vnd.oci.image.layer.nondistributable.v1.tar+gzip",
    ];
    let plain = [
        "application/vnd.docker.image.rootfs.diff.tar",
        "application/vnd.oci.image.layer.v1.tar",
        "application/vnd.oci.image.layer.nondistributable.v1.tar",
    ];
    for m in gz {
        assert_eq!(Layer::new(level(Some(m), 0)).decompressor(), Ok(Compression::Gzip));
    }
    for m in plain {
        assert_eq!(Layer::new(level(Some(m), 0)).decompressor(), Ok(Compression::Plain));
    }
    assert_eq!(Layer::new(level(None, 0)).decompressor(), Ok(Compression::Plain));
    assert_eq!(
        Layer::new(level(Some("text/plain"), 0)).decompressor(),
        Err(LayerError::UnknownMediaType(Some("text/plain".to_string())))
    );
}

#[test]
fn download_checks_declared_size() {
    let sized = Layer::new(level(None, 10));
    assert!(sized.download(Some(10)).is_ok());
    assert_eq!(sized.download(Some(11)).err(), Some(LayerError::UnexpectedSize(Some(11))));
    assert_eq!(sized.download(None).err(), Some(LayerError::UnexpectedSize(None)));
    let unknown = Layer::new(level(None, 0));
    assert_eq!(unknown.download(None).unwrap().display(), D1);
    assert_eq!(unknown.blob_path(), format!("blobs/{}", D1));
    assert_eq!(sized.size(), 10);
}

fn v1_manifest() -> Manifest {
    Manifest::DockerV1(docker_v1::Manifest {
        schema_version: 1,
        name: "library/busybox".to_string(),
        tag: "1.36".to_string(),
        architecture: "amd64".to_string(),
        layers: vec![
            docker_v1::Layer { digest: Digest::parse(D1).unwrap() },
            docker_v1::Layer { digest: Digest::parse(D2).unwrap() },
        ],
        history: Vec::new(),
    })
}

#[test]
fn schema1_layers_get_default_media_type() {
    let (repo, tag) = Repository::new("busybox:1.36");
    let image = repo.image(&tag, v1_manifest());
    assert_eq!(image.display(), "docker.io/library/busybox/1.36");
    let layers = image.layers().unwrap();
    assert_eq!(layers.len(), 2);
    assert_eq!(layers[0].digest_text(), D1);
    assert_eq!(layers[1].digest_text(), D2);
    assert_eq!(layers[0].decompressor(), Ok(Compression::Gzip));
    assert_eq!(layers[0].size(), 0);
}

#[test]
fn manifest_list_has_no_layers() {
    let (repo, tag) = Repository::new("busybox");
    let list = Manifest::DockerV2List(docker_v2::ManifestList {
        schema_version: 2,
        media_type: None,
        manifests: Vec::new(),
    });
    let image = repo.image(&tag, list);
    assert_eq!(image.layers().err(), Some(LayerError::ManifestList));
    assert!(Unpacker::new(&image, false).is_err());
}

#[test]
fn unpacker_reads_top_layer_first() {
    let (repo, tag) = Repository::new("busybox:1.36");
    let image = repo.image(&tag, v1_manifest());
    let mut u = Unpacker::new(&image, true).unwrap();
    assert_eq!(u.bundle_order(), vec![1, 0]);
    assert_eq!(u.image(), "docker.io/library/busybox/1.36");
    assert!(u.progress());
    assert!(!u.skip("etc/hostname"));
    assert!(u.seen("etc/hostname"));
    u.finish_layer();
    assert!(u.skip("etc/hostname"));
    assert_eq!(u.layers().len(), 2);
}

#[test]
fn manifest_path_for_selector() {
    assert_eq!(manifest_path("sha256:abc"), "manifests/sha256:abc");
}
