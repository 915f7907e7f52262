//! Renderer-independent artwork discovery and destination contracts of the gallery shell.

use vstd::prelude::*;
use vstd::string::StringSliceAdditionalSpecFns;
use crate::text::str_equal;

verus! {

/// Stable world identifier used by every currently published installation.
pub const MVP_GALLERY_WORLD: &'static str = "mvp-gallery";

#[derive(Clone, Copy, Debug, PartialEq, Eq)]
pub struct Destination {
    pub world: &'static str,
    pub installation: &'static str,
}

/// The browser adapter selects a renderer from this stable, domain-owned kind.
#[derive(Clone, Copy, Debug, PartialEq, Eq)]
pub enum ArtworkKind {
    BlackCubeRoom,
    OrbitingEarth,
}

#[derive(Clone, Copy, Debug, PartialEq, Eq)]
pub struct Artwork {
    pub id: &'static str,
    pub title: &'static str,
    pub artist: &'static str,
    pub description: &'static str,
    pub destination: Destination,
    pub kind: ArtworkKind,
}

/// `index` is the first position of `artworks` whose identifier is `id`.
pub open spec fn first_with_id(artworks: Seq<Artwork>, id: Seq<char>, index: int) -> bool {
    &&& 0 <= index < artworks.len()
    &&& artworks[index].id@ == id
    &&& forall|k: int| 0 <= k < index ==> (#[trigger] artworks[k]).id@ != id
}

/// Lowercase ASCII letter, ASCII digit or hyphen.
pub open spec fn is_route_byte(byte: u8) -> bool {
    (0x61 <= byte <= 0x7a) || (0x30 <= byte <= 0x39) || byte == 0x2d
}

/// A non-empty identifier made only of lowercase letters, digits and hyphens.
pub open spec fn is_route_id(id: &str) -> bool {
    &&& id@.len() > 0
    &&& forall|i: int| 0 <= i < id.spec_bytes().len() ==> is_route_byte(#[trigger] id.spec_bytes()[i])
}

/// First registered artwork with the given identifier.
pub fn artwork_by_id(artworks: &'static [Artwork], id: &str) -> (r: Option<&'static Artwork>)
    ensures
        r matches Some(artwork) ==> exists|index: int|
            first_with_id(artworks@, id@, index) && *artwork == artworks@[index],
        r is None ==> forall|k: int| 0 <= k < artworks@.len() ==> (#[trigger] artworks@[k]).id@ != id@,
{
    let mut i: usize = 0;
    while i < artworks.len()
        invariant
            i <= artworks@.len(),
            forall|k: int| 0 <= k < i ==> (#[trigger] artworks@[k]).id@ != id@,
        decreases artworks@.len() - i,
    {
        if str_equal(artworks[i].id, id) {
            assert(first_with_id(artworks@, id@, i as int));
            return Some(&artworks[i]);
        }
        i += 1;
    }
    None
}

/// Resolves only stable public IDs to registered destinations.
pub fn resolve_destination(artworks: &'static [Artwork], id: &str) -> (r: Option<
    (&'static Artwork, Destination),
>)
    ensures
        !is_route_id(id) ==> r is None,
        is_route_id(id) ==> {
            &&& r matches Some(found) ==> exists|index: int|
                first_with_id(artworks@, id@, index) && *found.0 == artworks@[index]
                    && found.1 == artworks@[index].destination
            &&& r is None ==> forall|k: int| 0 <= k < artworks@.len() ==> (#[trigger] artworks@[k]).id@ != id@
        },
{
    if !is_valid_artwork_id(id) {
        return None;
    }
    match artwork_by_id(artworks, id) {
        Some(artwork) => Some((artwork, artwork.destination)),
        None => None,
    }
}

/// Whether `id` is a non-empty string of lowercase letters, digits and hyphens.
pub fn is_valid_artwork_id(id: &str) -> (r: bool)
    ensures
        r == is_route_id(id),
{
    let bytes = id.as_bytes();
    if bytes.len() == 0 {
        proof {
            vstd::utf8::encode_utf8_decode_utf8(id@);
        }
        assert(id.spec_bytes() =~= Seq::<u8>::empty());
        return false;
    }
    let mut i: usize = 0;
    while i < bytes.len()
        invariant
            bytes@ == id.spec_bytes(),
            i <= bytes@.len(),
            forall|k: int| 0 <= k < i ==> is_route_byte(#[trigger] bytes@[k]),
        decreases bytes@.len() - i,
    {
        let byte = bytes[i];
        if !((0x61 <= byte && byte <= 0x7a) || (0x30 <= byte && byte <= 0x39) || byte == 0x2d) {
            return false;
        }
        i += 1;
    }
    proof {
        if id@.len() == 0 {
            assert(id.spec_bytes() =~= Seq::<u8>::empty());
        }
    }
    true
}

/// Registry entry of the Black Cube / White Room.
pub fn black_cube_room_entry() -> (r: Artwork)
    ensures
        r.id@ == "black-cube-room"@,
        r.title@ == "Black Cube / White Room"@,
        r.artist@ == "Gallery collection"@,
        r.description@ == "A black cube held in a silent white room."@,
        r.destination.world@ == "mvp-gallery"@,
        r.destination.installation@ == "black-cube-room"@,
        r.kind == ArtworkKind::BlackCubeRoom,
{
    Artwork {
        id: "black-cube-room",
        title: "Black Cube / White Room",
        artist: "Gallery collection",
        description: "A black cube held in a silent white room.",
        destination: Destination { world: MVP_GALLERY_WORLD, installation: "black-cube-room" },
        kind: ArtworkKind::BlackCubeRoom,
    }
}

/// Registry entry of A World in Light.
pub fn orbiting_earth_entry() -> (r: Artwork)
    ensures
        r.id@ == "orbiting-earth"@,
        r.title@ == "A World in Light"@,
        r.artist@ == "Gallery collection"@,
        r.description@ == "A living blue world, held in a room beneath an unseen sun."@,
        r.destination.world@ == "mvp-gallery"@,
        r.destination.installation@ == "orbiting-earth"@,
        r.kind == ArtworkKind::OrbitingEarth,
{
    Artwork {
        id: "orbiting-earth",
        title: "A World in Light",
        artist: "Gallery collection",
        description: "A living blue world, held in a room beneath an unseen sun.",
        destination: Destination { world: MVP_GALLERY_WORLD, installation: "orbiting-earth" },
        kind: ArtworkKind::OrbitingEarth,
    }
}

/// Every published artwork, in catalogue order.
pub fn registered_artworks() -> (r: [Artwork; 2])
    ensures
        r@[0].id@ == "black-cube-room"@,
        r@[0].kind == ArtworkKind::BlackCubeRoom,
        r@[0].destination.world@ == "mvp-gallery"@,
        r@[0].destination.installation@ == "black-cube-room"@,
        r@[1].id@ == "orbiting-earth"@,
        r@[1].kind == ArtworkKind::OrbitingEarth,
        r@[1].destination.world@ == "mvp-gallery"@,
        r@[1].destination.installation@ == "orbiting-earth"@,
{
    [black_cube_room_entry(), orbiting_earth_entry()]
}

} // verus!
