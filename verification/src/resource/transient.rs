//! The transient images of a runtime: physical images that stand in for
//! graph images whose contents need not outlive a frame.

use crate::arena::ArenaMap;
use crate::graph::GraphImage;
use crate::resource::image::{Image, ImageInfo};
use vstd::prelude::*;

verus! {

/// What has to be done so that a graph image has a physical image with a
/// given descriptor.
#[derive(Copy, Clone, Debug, PartialEq, Eq, Structural)]
pub enum TransientAction {
    /// The image is there with that descriptor.
    Keep,
    /// There is no image yet: one has to be created.
    Create,
    /// The image has another descriptor: a new one has to be created, and
    /// the old one destroyed.
    Recreate,
}

/// A set of transient images used by a runtime, by graph image.
pub struct TransientResources {
    images: ArenaMap<GraphImage, Image>,
}

impl View for TransientResources {
    type V = Map<nat, Image>;

    /// The physical image of each graph image that has one.
    closed spec fn view(&self) -> Map<nat, Image> {
        self.images@
    }
}

impl TransientResources {
    pub closed spec fn wf(&self) -> bool {
        self.images.wf()
    }

    /// A set without images.
    pub fn new() -> (bank: TransientResources)
        ensures
            bank.wf(),
            bank@ == Map::<nat, Image>::empty(),
    {
        TransientResources { images: ArenaMap::new() }
    }

    /// What has to be done so that `image` has a physical image with the
    /// descriptor `info`.
    pub fn create(&self, image: GraphImage, info: &ImageInfo) -> (action: TransientAction)
        ensures
            action == if !self@.contains_key(image@) {
                TransientAction::Create
            } else if self@[image@].info != *info {
                TransientAction::Recreate
            } else {
                TransientAction::Keep
            },
    {
        match self.images.get(image) {
            None => TransientAction::Create,
            Some(current) => {
                if current.info != *info {
                    TransientAction::Recreate
                } else {
                    TransientAction::Keep
                }
            },
        }
    }

    /// Takes `created` as the physical image of `image`, and hands back the
    /// image that it replaces, which has to be destroyed.
    pub fn install(&mut self, image: GraphImage, created: Image) -> (replaced: Option<Image>)
        requires
            old(self).wf(),
            image@ < u32::MAX,
        ensures
            final(self).wf(),
            final(self)@ == old(self)@.insert(image@, created),
            replaced == if old(self)@.contains_key(image@) {
                Some(old(self)@[image@])
            } else {
                None
            },
    {
        self.images.insert(image, created)
    }

    /// The physical image of `image`, if it has one.
    pub fn get(&self, image: GraphImage) -> (found: Option<&Image>)
        ensures
            found == if self@.contains_key(image@) {
                Some(&self@[image@])
            } else {
                None
            },
    {
        self.images.get(image)
    }

    /// Every physical image, for tearing the set down.
    pub fn images(&self) -> (all: Vec<(GraphImage, &Image)>)
        requires
            self.wf(),
        ensures
            forall|i: int|
                0 <= i < all@.len() ==> self@.contains_key((#[trigger] all@[i]).0@) && *all@[i].1
                    == self@[all@[i].0@],
            forall|i: int, j: int| 0 <= i < j < all@.len() ==> all@[i].0@ < all@[j].0@,
            forall|k: nat|
                self@.contains_key(k) ==> exists|i: int|
                    0 <= i < all@.len() && (#[trigger] all@[i]).0@ == k,
    {
        self.images.iter()
    }
}

} // verus!
