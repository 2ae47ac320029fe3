//! The unpacker: an image's layers, and the union state shared by them while
//! their entries are read from the top layer down.

use vstd::prelude::*;

use crate::image::{Image, Layer, LayerError, LayerInfo, manifest_layers};
use crate::union::{components, finish, skip_step, Seen, SeenSets};

verus! {

/// The layers of an image and what has been seen of them.
pub struct Unpacker {
    progress: bool,
    seen: Seen,
    layers: Vec<Layer>,
    image: String,
}

impl Unpacker {
    /// The union state.
    pub closed spec fn sets(&self) -> SeenSets {
        self.seen.sets()
    }

    /// What is known of each layer, base first.
    pub closed spec fn layer_infos(&self) -> Seq<LayerInfo> {
        Seq::new(self.layers@.len(), |i: int| self.layers@[i].info())
    }

    /// Whether a progress bar is wanted.
    pub closed spec fn shows_progress(&self) -> bool {
        self.progress
    }

    /// The image's name as shown to people.
    pub closed spec fn image_view(&self) -> Seq<char> {
        self.image@
    }

    /// An unpacker for the layers of `image`, with nothing seen yet.
    pub fn new(image: &Image, progress: bool) -> (r: Result<Unpacker, LayerError>)
        ensures
            match manifest_layers(image.manifest_spec()) {
                Some(infos) => r matches Ok(u) && u.layer_infos() == infos && u.sets().done
                    == Set::<crate::union::Key>::empty() && u.sets().current == Set::<
                    crate::union::Key,
                >::empty() && u.shows_progress() == progress && u.image_view()
                    == crate::repository::shown_host(image.repository().host_view()) + "/"@
                    + image.repository().path_view() + "/"@ + image.tag_view(),
                None => r == Err::<Unpacker, LayerError>(LayerError::ManifestList),
            },
    {
        let layers = image.layers()?;
        let r = Unpacker { progress, seen: Seen::new(), layers, image: image.display() };
        assert(r.layer_infos() =~= manifest_layers(image.manifest_spec())->0);
        Ok(r)
    }

    /// Whether a progress bar is wanted.
    pub fn progress(&self) -> (r: bool)
        ensures
            r == self.shows_progress(),
    {
        self.progress
    }

    /// The image's name as shown to people.
    pub fn image(&self) -> (r: &String)
        ensures
            r@ == self.image_view(),
    {
        &self.image
    }

    /// The layers, base first.
    pub fn layers(&self) -> (r: &Vec<Layer>)
        ensures
            r@.len() == self.layer_infos().len(),
            forall|i: int| 0 <= i < r@.len() ==> (#[trigger] r@[i]).info() == self.layer_infos()[i],
    {
        &self.layers
    }

    /// The order in which layers are fetched and read: from the top of the
    /// image down, so that upper layers decide over lower ones.
    pub fn bundle_order(&self) -> (r: Vec<usize>)
        ensures
            r@.len() == self.layer_infos().len(),
            forall|i: int| 0 <= i < r@.len() ==> r@[i] == self.layer_infos().len() - 1 - i,
    {
        let n = self.layers.len();
        let mut out: Vec<usize> = Vec::new();
        let mut i: usize = 0;
        while i < n
            invariant
                i <= n,
                n == self.layer_infos().len(),
                out@.len() == i,
                forall|j: int| 0 <= j < i ==> out@[j] == n - 1 - j,
            decreases n - i,
        {
            out.push(n - 1 - i);
            i = i + 1;
        }
        out
    }

    /// Whether `path` was seen in a finished layer or in the current one.
    pub fn seen(&self, path: &str) -> (r: bool)
        ensures
            r == (self.sets().done.contains(components(path@)) || self.sets().current.contains(
                components(path@),
            )),
    {
        self.seen.seen(path)
    }

    /// Records the entry `path` of the layer being read and says whether it
    /// is left out of the output.
    pub fn skip(&mut self, path: &str) -> (r: bool)
        ensures
            (r, final(self).sets()) == skip_step(old(self).sets(), components(path@)),
            final(self).layer_infos() == old(self).layer_infos(),
    {
        self.seen.skip(path)
    }

    /// Ends the layer being read.
    pub fn finish_layer(&mut self)
        ensures
            final(self).sets() == finish(old(self).sets()),
            final(self).layer_infos() == old(self).layer_infos(),
    {
        self.seen.finish_layer()
    }
}

} // verus!
