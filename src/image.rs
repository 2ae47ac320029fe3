//! An image bound to its repository, and the layers it is made of.

use vstd::prelude::*;

use crate::digest::{digest_text, Algorithm, Digest};
use crate::docker_v2;
use crate::manifest::Manifest;
use crate::repository::Repository;
use crate::text::{append_chars, chars_of, same_chars, string_of};

verus! {

/// The characters of an optional string.
pub open spec fn opt_view(s: Option<String>) -> Option<Seq<char>> {
    match s {
        Some(t) => Some(t@),
        None => None,
    }
}

/// The characters of each string.
pub open spec fn strings_view(v: Vec<String>) -> Seq<Seq<char>> {
    Seq::new(v@.len(), |i: int| v@[i]@)
}

/// What the library knows of a layer.
pub struct LayerInfo {
    pub media_type: Option<Seq<char>>,
    pub size: u64,
    pub algorithm: Algorithm,
    pub expected: Seq<u8>,
    pub urls: Seq<Seq<char>>,
}

/// The record of a schema-2 layer.
pub open spec fn level_info(l: docker_v2::Layer) -> LayerInfo {
    LayerInfo {
        media_type: opt_view(l.media_type),
        size: l.size,
        algorithm: l.digest.algorithm_spec(),
        expected: l.digest.expected(),
        urls: strings_view(l.urls),
    }
}

/// The media type given to the layers of a schema-1 manifest.
pub open spec fn default_media_type() -> Seq<char> {
    "application/vnd.docker.image.rootfs.diff.tar.gzip"@
}

/// The layers a manifest lists, base first; a manifest list has none of its
/// own.
pub open spec fn manifest_layers(m: Manifest) -> Option<Seq<LayerInfo>> {
    match m {
        Manifest::DockerV1(v) => Some(
            Seq::new(
                v.layers@.len(),
                |i: int|
                    LayerInfo {
                        media_type: Some(default_media_type()),
                        size: 0,
                        algorithm: v.layers@[i].digest.algorithm_spec(),
                        expected: v.layers@[i].digest.expected(),
                        urls: Seq::empty(),
                    },
            ),
        ),
        Manifest::DockerV2(v) => Some(Seq::new(v.layers@.len(), |i: int| level_info(v.layers@[i]))),
        Manifest::DockerV2List(_) => None,
        Manifest::Oci(v) => Some(
            Seq::new(
                v.layers@.len(),
                |i: int|
                    LayerInfo {
                        media_type: Some(v.layers@[i].media_type@),
                        size: v.layers@[i].size,
                        algorithm: v.layers@[i].digest.algorithm_spec(),
                        expected: v.layers@[i].digest.expected(),
                        urls: strings_view(v.layers@[i].urls),
                    },
            ),
        ),
    }
}

/// How a layer's blob is compressed.
#[derive(Clone, Copy, Debug, PartialEq, Eq, Structural)]
pub enum Compression {
    Gzip,
    Plain,
}

/// The compression a layer media type stands for; none for an unknown type.
pub open spec fn compression_of(media_type: Option<Seq<char>>) -> Option<Compression> {
    match media_type {
        None => Some(Compression::Plain),
        Some(t) => if t == "application/vnd.docker.image.rootfs.diff.tar.gzip"@ {
            Some(Compression::Gzip)
        } else if t == "application/vnd.docker.image.rootfs.diff.tar"@ {
            Some(Compression::Plain)
        } else if t == "application/vnd.oci.image.layer.nondistributable.v1.tar+gzip"@ {
            Some(Compression::Gzip)
        } else if t == "application/vnd.oci.image.layer.nondistributable.v1.tar"@ {
            Some(Compression::Plain)
        } else if t == "application/vnd.oci.image.layer.v1.tar+gzip"@ {
            Some(Compression::Gzip)
        } else if t == "application/vnd.oci.image.layer.v1.tar"@ {
            Some(Compression::Plain)
        } else {
            None
        },
    }
}

/// Why a layer or a list of layers cannot be had.
#[derive(Clone, Debug, PartialEq, Eq)]
pub enum LayerError {
    /// A manifest list must first be resolved to one platform's manifest.
    ManifestList,
    /// The layer's media type is not one of the known ones.
    UnknownMediaType(Option<String>),
    /// The blob's length differs from the size the manifest declares.
    UnexpectedSize(Option<u64>),
}

/// A layer of an image.
pub struct Layer {
    level: docker_v2::Layer,
}

fn copy_strings(v: &Vec<String>) -> (r: Vec<String>)
    ensures
        strings_view(r) == strings_view(*v),
{
    let mut out: Vec<String> = Vec::new();
    let mut i: usize = 0;
    while i < v.len()
        invariant
            i <= v@.len(),
            out@.len() == i,
            forall|j: int| 0 <= j < i ==> out@[j]@ == v@[j]@,
        decreases v@.len() - i,
    {
        out.push(v[i].clone());
        i = i + 1;
    }
    assert(strings_view(out) =~= strings_view(*v));
    out
}

fn copy_opt(s: &Option<String>) -> (r: Option<String>)
    ensures
        opt_view(r) == opt_view(*s),
{
    match s {
        Some(t) => Some(t.clone()),
        None => None,
    }
}

impl Layer {
    /// What the library knows of the layer.
    pub closed spec fn info(&self) -> LayerInfo {
        level_info(self.level)
    }

    /// Whether nothing has been written into the layer's digest yet.
    pub closed spec fn unread(&self) -> bool {
        self.level.digest.written() == Seq::<u8>::empty()
    }

    /// A layer described by `level`.
    pub fn new(level: docker_v2::Layer) -> (r: Layer)
        ensures
            r.info() == level_info(level),
    {
        Layer { level }
    }

    /// A copy of the layer's description, with nothing read of its blob.
    pub fn duplicate(&self) -> (r: Layer)
        ensures
            r.info() == self.info(),
            r.unread(),
    {
        Layer {
            level: docker_v2::Layer {
                media_type: copy_opt(&self.level.media_type),
                size: self.level.size,
                digest: self.level.digest.fresh(),
                urls: copy_strings(&self.level.urls),
            },
        }
    }

    /// The size the manifest declares; 0 where it is unknown.
    pub fn size(&self) -> (r: u64)
        ensures
            r == self.info().size,
    {
        self.level.size
    }

    /// The digest text of the layer's blob.
    pub fn digest_text(&self) -> (r: String)
        ensures
            r@ == digest_text(self.info().algorithm, self.info().expected),
    {
        self.level.digest.display()
    }

    /// The path of the layer's blob below the repository.
    pub fn blob_path(&self) -> (r: String)
        ensures
            r@ == "blobs/"@ + digest_text(self.info().algorithm, self.info().expected),
    {
        let mut out = chars_of("blobs/");
        append_chars(&mut out, chars_of(self.level.digest.display().as_str()).as_slice());
        string_of(out.as_slice())
    }

    /// How the layer's blob is to be decompressed, by its media type.
    pub fn decompressor(&self) -> (r: Result<Compression, LayerError>)
        ensures
            match compression_of(self.info().media_type) {
                Some(c) => r == Ok::<Compression, LayerError>(c),
                None => r matches Err(LayerError::UnknownMediaType(t)) && opt_view(t) == self.info().media_type,
            },
    {
        match &self.level.media_type {
            None => Ok(Compression::Plain),
            Some(t) => {
                let cs = chars_of(t.as_str());
                if same_chars(cs.as_slice(), chars_of("application/vnd.docker.image.rootfs.diff.tar.gzip").as_slice()) {
                    Ok(Compression::Gzip)
                } else if same_chars(cs.as_slice(), chars_of("application/vnd.docker.image.rootfs.diff.tar").as_slice()) {
                    Ok(Compression::Plain)
                } else if same_chars(cs.as_slice(), chars_of("application/vnd.oci.image.layer.nondistributable.v1.tar+gzip").as_slice()) {
                    Ok(Compression::Gzip)
                } else if same_chars(cs.as_slice(), chars_of("application/vnd.oci.image.layer.nondistributable.v1.tar").as_slice()) {
                    Ok(Compression::Plain)
                } else if same_chars(cs.as_slice(), chars_of("application/vnd.oci.image.layer.v1.tar+gzip").as_slice()) {
                    Ok(Compression::Gzip)
                } else if same_chars(cs.as_slice(), chars_of("application/vnd.oci.image.layer.v1.tar").as_slice()) {
                    Ok(Compression::Plain)
                } else {
                    Err(LayerError::UnknownMediaType(Some(t.clone())))
                }
            },
        }
    }

    /// Checks the blob's announced length against the declared size and, when
    /// it fits, gives the digest that the blob's bytes must match.
    pub fn download(&self, content_length: Option<u64>) -> (r: Result<Digest, LayerError>)
        ensures
            match r {
                Ok(d) => (self.info().size == 0 || content_length == Some(self.info().size))
                    && d.algorithm_spec() == self.info().algorithm && d.expected()
                    == self.info().expected && d.written() == Seq::<u8>::empty(),
                Err(e) => self.info().size != 0 && content_length != Some(self.info().size)
                    && e == LayerError::UnexpectedSize(content_length),
            },
    {
        if self.level.size != 0 {
            let fits = match content_length {
                Some(n) => n == self.level.size,
                None => false,
            };
            if !fits {
                return Err(LayerError::UnexpectedSize(content_length));
            }
        }
        Ok(self.level.digest.fresh())
    }
}

/// An image: a repository, the manifest it gave for a selector, and the
/// selector.
pub struct Image {
    repo: Repository,
    manifest: Manifest,
    tag: String,
}

/// The path of the manifest for `tag` below the repository.
pub fn manifest_path(tag: &str) -> (r: String)
    ensures
        r@ == "manifests/"@ + tag@,
{
    let mut out = chars_of("manifests/");
    append_chars(&mut out, chars_of(tag).as_slice());
    string_of(out.as_slice())
}

impl Image {
    /// The repository the image lives in.
    pub closed spec fn repository(&self) -> Repository {
        self.repo
    }

    /// The image's manifest.
    pub closed spec fn manifest_spec(&self) -> Manifest {
        self.manifest
    }

    /// The selector the manifest was fetched by.
    pub closed spec fn tag_view(&self) -> Seq<char> {
        self.tag@
    }

    /// Binds `manifest`, fetched for `tag`, to its repository.
    pub fn new(repo: Repository, tag: &str, manifest: Manifest) -> (r: Image)
        ensures
            r.repository() == repo,
            r.manifest_spec() == manifest,
            r.tag_view() == tag@,
    {
        Image { repo, manifest, tag: tag.to_owned() }
    }

    /// `host/path/tag`, with the host shown by its shorter alias.
    pub fn display(&self) -> (r: String)
        ensures
            r@ == crate::repository::shown_host(self.repository().host_view()) + "/"@
                + self.repository().path_view() + "/"@ + self.tag_view(),
    {
        let mut out = chars_of(self.repo.display().as_str());
        append_chars(&mut out, chars_of("/").as_slice());
        append_chars(&mut out, chars_of(self.tag.as_str()).as_slice());
        string_of(out.as_slice())
    }

    /// The image's layers, base first. A manifest list has to be resolved to
    /// one platform's manifest first: it gives an error.
    pub fn layers(&self) -> (r: Result<Vec<Layer>, LayerError>)
        ensures
            match manifest_layers(self.manifest_spec()) {
                Some(infos) => r matches Ok(ls) && ls@.len() == infos.len() && forall|i: int|
                    0 <= i < infos.len() ==> (#[trigger] ls@[i]).info() == infos[i] && ls@[i].unread(),
                None => r == Err::<Vec<Layer>, LayerError>(LayerError::ManifestList),
            },
    {
        let mut out: Vec<Layer> = Vec::new();
        match &self.manifest {
            Manifest::DockerV1(m) => {
                let ghost infos = manifest_layers(self.manifest)->0;
                let mut i: usize = 0;
                while i < m.layers.len()
                    invariant
                        i <= m.layers@.len(),
                        infos == manifest_layers(self.manifest)->0,
                        self.manifest == Manifest::DockerV1(*m),
                        out@.len() == i,
                        forall|j: int| 0 <= j < i ==> (#[trigger] out@[j]).info() == infos[j] && out@[j].unread(),
                    decreases m.layers@.len() - i,
                {
                    let level = docker_v2::Layer {
                        media_type: Some(default_type()),
                        size: 0,
                        digest: m.layers[i].digest.fresh(),
                        urls: Vec::new(),
                    };
                    proof {
                        assert(strings_view(level.urls) =~= Seq::<Seq<char>>::empty());
                    }
                    out.push(Layer { level });
                    i = i + 1;
                }
            },
            Manifest::DockerV2(m) => {
                let ghost infos = manifest_layers(self.manifest)->0;
                let mut i: usize = 0;
                while i < m.layers.len()
                    invariant
                        i <= m.layers@.len(),
                        infos == manifest_layers(self.manifest)->0,
                        self.manifest == Manifest::DockerV2(*m),
                        out@.len() == i,
                        forall|j: int| 0 <= j < i ==> (#[trigger] out@[j]).info() == infos[j] && out@[j].unread(),
                    decreases m.layers@.len() - i,
                {
                    let l = &m.layers[i];
                    let level = docker_v2::Layer {
                        media_type: copy_opt(&l.media_type),
                        size: l.size,
                        digest: l.digest.fresh(),
                        urls: copy_strings(&l.urls),
                    };
                    out.push(Layer { level });
                    i = i + 1;
                }
            },
            Manifest::DockerV2List(_) => {
                return Err(LayerError::ManifestList);
            },
            Manifest::Oci(m) => {
                let ghost infos = manifest_layers(self.manifest)->0;
                let mut i: usize = 0;
                while i < m.layers.len()
                    invariant
                        i <= m.layers@.len(),
                        infos == manifest_layers(self.manifest)->0,
                        self.manifest == Manifest::Oci(*m),
                        out@.len() == i,
                        forall|j: int| 0 <= j < i ==> (#[trigger] out@[j]).info() == infos[j] && out@[j].unread(),
                    decreases m.layers@.len() - i,
                {
                    let l = &m.layers[i];
                    let level = docker_v2::Layer {
                        media_type: Some(l.media_type.clone()),
                        size: l.size,
                        digest: l.digest.fresh(),
                        urls: copy_strings(&l.urls),
                    };
                    out.push(Layer { level });
                    i = i + 1;
                }
            },
        }
        Ok(out)
    }
}

fn default_type() -> (r: String)
    ensures
        r@ == default_media_type(),
{
    string_of(chars_of("application/vnd.docker.image.rootfs.diff.tar.gzip").as_slice())
}

impl Repository {
    /// The image whose manifest for `tag` is `manifest`.
    pub fn image(&self, tag: &str, manifest: Manifest) -> (r: Image)
        ensures
            r.repository().host_view() == self.host_view(),
            r.repository().path_view() == self.path_view(),
            r.manifest_spec() == manifest,
            r.tag_view() == tag@,
    {
        Image::new(self.copy(), tag, manifest)
    }
}

} // verus!
