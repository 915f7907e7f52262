//! Typed world composition: the installations of one gallery world and the resolution of
//! untrusted artwork navigation inside it.
//!
//! The shell pairs each component with its runtime factory by position.

use vstd::prelude::*;
use crate::gallery_core::{is_canonical_id, is_valid_stable_id, Artwork, InstallationId, WorldId};
use crate::text::str_equal;
use vstd::string::StringSliceAdditionalSpecFns;

verus! {

/// `artwork` is mounted in `world` by `installation`.
pub open spec fn hosts(world: Seq<char>, installation: Seq<char>, artwork: Artwork) -> bool {
    artwork.destination.world@ == world && artwork.destination.installation@ == installation
}

/// `index` is the first component of `world` mounted by `installation`.
pub open spec fn first_hosting(
    world: Seq<char>,
    components: Seq<Artwork>,
    installation: Seq<char>,
    index: int,
) -> bool {
    &&& 0 <= index < components.len()
    &&& hosts(world, installation, components[index])
    &&& forall|k: int| 0 <= k < index ==> !hosts(world, installation, #[trigger] components[k])
}

/// `artwork` carries `id` and is placed in `world`.
pub open spec fn is_artwork_in(world: Seq<char>, id: Seq<char>, artwork: Artwork) -> bool {
    artwork.id@ == id && artwork.destination.world@ == world
}

/// `index` is the first component of `world` carrying `id`.
pub open spec fn first_artwork(world: Seq<char>, components: Seq<Artwork>, id: Seq<char>, index: int) -> bool {
    &&& 0 <= index < components.len()
    &&& is_artwork_in(world, id, components[index])
    &&& forall|k: int| 0 <= k < index ==> !is_artwork_in(world, id, #[trigger] components[k])
}

/// The catalogued installations of one gallery world, in mounting order.
pub struct GalleryWorld<'a> {
    id: WorldId,
    components: &'a [Artwork],
}

impl<'a> GalleryWorld<'a> {
    pub closed spec fn spec_id(&self) -> Seq<char> {
        self.id@
    }

    pub closed spec fn view(&self) -> Seq<Artwork> {
        self.components@
    }

    pub fn new(id: WorldId, components: &'a [Artwork]) -> (r: Self)
        ensures
            r.spec_id() == id@,
            r@ == components@,
    {
        GalleryWorld { id, components }
    }

    /// The components in mounting order.
    pub fn components(&self) -> (r: &'a [Artwork])
        ensures
            r@ == self@,
    {
        self.components
    }

    /// Position of the first component of this world mounted by `installation`.
    pub fn resolve_installation(&self, installation: InstallationId) -> (r: Option<usize>)
        ensures
            r matches Some(index) ==> first_hosting(self.spec_id(), self@, installation@, index as int),
            r is None ==> forall|k: int|
                0 <= k < self@.len() ==> !hosts(self.spec_id(), installation@, #[trigger] self@[k]),
    {
        let world = self.id.as_ref();
        let wanted = installation.as_ref();
        let mut i: usize = 0;
        while i < self.components.len()
            invariant
                i <= self@.len(),
                world@ == self.spec_id(),
                wanted@ == installation@,
                forall|k: int|
                    0 <= k < i ==> !hosts(self.spec_id(), installation@, #[trigger] self@[k]),
            decreases self@.len() - i,
        {
            let destination = self.components[i].destination;
            if str_equal(destination.world.as_ref(), world) && str_equal(
                destination.installation.as_ref(),
                wanted,
            ) {
                return Some(i);
            }
            i += 1;
        }
        None
    }

    /// Resolves untrusted artwork navigation only inside this world: the identifier must be
    /// canonical, name a component of this world, and that component must be the one its
    /// installation mounts.
    pub fn resolve_artwork(&self, raw_id: &str) -> (r: Option<usize>)
        ensures
            r matches Some(index) ==> {
                &&& is_canonical_id(raw_id.spec_bytes())
                &&& first_artwork(self.spec_id(), self@, raw_id@, index as int)
                &&& first_hosting(
                    self.spec_id(),
                    self@,
                    self@[index as int].destination.installation@,
                    index as int,
                )
            },
            r is None ==> {
                ||| !is_canonical_id(raw_id.spec_bytes())
                ||| forall|k: int|
                    0 <= k < self@.len() ==> !is_artwork_in(self.spec_id(), raw_id@, #[trigger] self@[k])
                ||| exists|index: int|
                    first_artwork(self.spec_id(), self@, raw_id@, index) && !first_hosting(
                        self.spec_id(),
                        self@,
                        self@[index].destination.installation@,
                        index,
                    )
            },
    {
        if !is_valid_stable_id(raw_id) {
            return None;
        }
        let world = self.id.as_ref();
        let mut i: usize = 0;
        while i < self.components.len()
            invariant
                i <= self@.len(),
                world@ == self.spec_id(),
                is_canonical_id(raw_id.spec_bytes()),
                forall|k: int|
                    0 <= k < i ==> !is_artwork_in(self.spec_id(), raw_id@, #[trigger] self@[k]),
            decreases self@.len() - i,
        {
            let artwork = &self.components[i];
            if str_equal(artwork.id.as_ref(), raw_id) && str_equal(
                artwork.destination.world.as_ref(),
                world,
            ) {
                assert(first_artwork(self.spec_id(), self@, raw_id@, i as int));
                let mounted = self.resolve_installation(artwork.destination.installation);
                match mounted {
                    Some(index) => {
                        if index == i {
                            return Some(i);
                        }
                        return None;
                    },
                    None => {
                        return None;
                    },
                }
            }
            i += 1;
        }
        None
    }
}

} // verus!
