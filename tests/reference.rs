use wyrcan::repository::Repository;

#[test]
fn bare_name_gets_defaults() {
    let (repo, sel) = Repository::new("alpine");
    assert_eq!(sel, "latest");
    assert_eq!(repo.display(), "docker.io/library/alpine");
    assert_eq!(repo.url("tags/list"), "https://registry.hub.docker.com/v2/library/alpine/tags/list");
}

#[test]
fn host_path_and_tag() {
    let (repo, sel) = Repository::new("quay.io/foo/bar:1.0");
    assert_eq!(sel, "1.0");
    assert_eq!(repo.display(), "quay.io/foo/bar");
    assert_eq!(repo.url("manifests/1.0"), "https://quay.io/v2/foo/bar/manifests/1.0");
}

#[test]
fn host_with_port_and_digest() {
    let (repo, sel) = Repository::new("localhost:5000/a/b@sha256:abc");
    assert_eq!(sel, "sha256:abc");
    assert_eq!(repo.display(), "localhost:5000/a/b");
}

#[test]
fn digest_wins_over_tag() {
    let (repo, sel) = Repository::new("busybox:1.36@sha256:0123");
    assert_eq!(sel, "sha256:0123");
    assert_eq!(repo.display(), "docker.io/library/busybox");
}

#[test]
fn tag_on_default_registry() {
    let (repo, sel) = Repository::new("busybox:1.36");
    assert_eq!(sel, "1.36");
    assert_eq!(repo.url("x"), "https://registry.hub.docker.com/v2/library/busybox/x");
}

#[test]
fn first_segment_without_dot_is_path() {
    let (repo, sel) = Repository::new("user/app");
    assert_eq!(sel, "latest");
    assert_eq!(repo.display(), "docker.io/user/app");
    let (repo, _) = Repository::new("localhost/app");
    assert_eq!(repo.display(), "localhost/library/app");
}

#[test]
fn alias_host_is_shown_short() {
    let (repo, _) = Repository::new("registry.hub.docker.com/library/alpine:3.18");
    assert_eq!(repo.display(), "docker.io/library/alpine");
    let (repo, _) = Repository::new("docker.io/library/alpine:3.18");
    assert_eq!(repo.url("t"), "https://registry.hub.docker.com/v2/library/alpine/t");
}

#[test]
fn empty_reference() {
    let (repo, sel) = Repository::new("");
    assert_eq!(sel, "latest");
    assert_eq!(repo.display(), "docker.io/library/");
}
