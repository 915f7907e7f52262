//! Renderer-independent identifiers, metadata, and catalogue operations for the gallery.
//!
//! All metadata uses borrowed static strings, so artwork registries need no allocation.

use vstd::prelude::*;
use vstd::string::{StringExecFns, StringSliceAdditionalSpecFns};
use crate::text::str_equal;

verus! {

/// Maximum byte length accepted by every public gallery identifier.
pub const MAX_STABLE_ID_BYTES: usize = 64;

/// Lowercase ASCII letter, ASCII digit or hyphen.
pub open spec fn is_id_byte(byte: u8) -> bool {
    (0x61 <= byte <= 0x7a) || (0x30 <= byte <= 0x39) || byte == 0x2d
}

/// Canonical identifier: 1 to 64 bytes of lowercase letters and digits separated by single
/// hyphens, neither starting nor ending with a hyphen.
pub open spec fn is_canonical_id(bytes: Seq<u8>) -> bool {
    &&& 1 <= bytes.len() <= MAX_STABLE_ID_BYTES
    &&& forall|i: int| 0 <= i < bytes.len() ==> is_id_byte(#[trigger] bytes[i])
    &&& bytes[0] != 0x2d
    &&& bytes[bytes.len() - 1] != 0x2d
    &&& forall|i: int| 0 <= i < bytes.len() - 1 ==> !(#[trigger] bytes[i] == 0x2d && bytes[i + 1] == 0x2d)
}

/// Returns whether `value` is a canonical, URL-safe gallery identifier.
///
/// IDs contain lowercase ASCII letters and digits separated by single hyphens. They cannot
/// begin or end with a hyphen, and their bounded size makes validation predictable for
/// untrusted route or fragment input.
pub fn is_valid_stable_id(value: &str) -> (r: bool)
    ensures
        r == is_canonical_id(value.spec_bytes()),
{
    let bytes = value.as_bytes();
    let len = bytes.len();
    if len == 0 || len > MAX_STABLE_ID_BYTES {
        return false;
    }
    let mut index: usize = 0;
    let mut previous_was_hyphen = false;
    while index < len
        invariant
            bytes@ == value.spec_bytes(),
            len == bytes@.len(),
            1 <= len <= MAX_STABLE_ID_BYTES,
            index <= len,
            forall|i: int| 0 <= i < index ==> is_id_byte(#[trigger] bytes@[i]),
            index > 0 ==> bytes@[0] != 0x2d,
            forall|i: int| 0 <= i < index - 1 ==> !(#[trigger] bytes@[i] == 0x2d && bytes@[i + 1] == 0x2d),
            index > 0 ==> previous_was_hyphen == (bytes@[index - 1] == 0x2d),
            index == len ==> bytes@[len - 1] != 0x2d,
        decreases len - index,
    {
        let byte = bytes[index];
        let is_alphanumeric = (0x61 <= byte && byte <= 0x7a) || (0x30 <= byte && byte <= 0x39);
        if !is_alphanumeric && byte != 0x2d {
            return false;
        }
        if byte == 0x2d && (index == 0 || index + 1 == len || previous_was_hyphen) {
            assert(index > 0 && previous_was_hyphen ==> bytes@[index - 1] == 0x2d && bytes@[index as int] == 0x2d);
            return false;
        }
        previous_was_hyphen = byte == 0x2d;
        index += 1;
    }
    true
}

/// Stable public identifier for an artwork.
#[derive(Clone, Copy, Debug, PartialEq, Eq, Hash, PartialOrd, Ord)]
pub struct ArtworkId(&'static str);

/// Stable identifier for an installation within a world.
#[derive(Clone, Copy, Debug, PartialEq, Eq, Hash, PartialOrd, Ord)]
pub struct InstallationId(&'static str);

/// Stable identifier for a gallery world.
#[derive(Clone, Copy, Debug, PartialEq, Eq, Hash, PartialOrd, Ord)]
pub struct WorldId(&'static str);

impl ArtworkId {
    #[verifier::type_invariant]
    spec fn canonical(self) -> bool {
        is_canonical_id(self.0.spec_bytes())
    }

    /// The identifier's text.
    pub closed spec fn view(&self) -> Seq<char> {
        self.0@
    }

    /// Creates an identifier for static catalogue data; the value must be canonical.
    pub fn new(value: &'static str) -> (r: Self)
        requires
            is_canonical_id(value.spec_bytes()),
        ensures
            r@ == value@,
    {
        ArtworkId(value)
    }

    /// Creates an identifier when `value` is canonical.
    pub fn try_new(value: &'static str) -> (r: Option<Self>)
        ensures
            r is Some <==> is_canonical_id(value.spec_bytes()),
            r matches Some(id) ==> id@ == value@,
    {
        if is_valid_stable_id(value) {
            Some(ArtworkId(value))
        } else {
            None
        }
    }

    /// Returns the canonical string representation.
    pub fn as_str(self) -> (r: &'static str)
        ensures
            r@ == self@,
            is_canonical_id(r.spec_bytes()),
    {
        proof {
            use_type_invariant(&self);
        }
        self.0
    }

    pub fn as_ref(&self) -> (r: &str)
        ensures
            r@ == self@,
    {
        self.0
    }

    pub fn to_string(&self) -> (r: String)
        ensures
            r@ == self@,
    {
        String::from_str(self.0)
    }
}

impl InstallationId {
    #[verifier::type_invariant]
    spec fn canonical(self) -> bool {
        is_canonical_id(self.0.spec_bytes())
    }

    /// The identifier's text.
    pub closed spec fn view(&self) -> Seq<char> {
        self.0@
    }

    /// Creates an identifier for static catalogue data; the value must be canonical.
    pub fn new(value: &'static str) -> (r: Self)
        requires
            is_canonical_id(value.spec_bytes()),
        ensures
            r@ == value@,
    {
        InstallationId(value)
    }

    /// Creates an identifier when `value` is canonical.
    pub fn try_new(value: &'static str) -> (r: Option<Self>)
        ensures
            r is Some <==> is_canonical_id(value.spec_bytes()),
            r matches Some(id) ==> id@ == value@,
    {
        if is_valid_stable_id(value) {
            Some(InstallationId(value))
        } else {
            None
        }
    }

    /// Returns the canonical string representation.
    pub fn as_str(self) -> (r: &'static str)
        ensures
            r@ == self@,
            is_canonical_id(r.spec_bytes()),
    {
        proof {
            use_type_invariant(&self);
        }
        self.0
    }

    pub fn as_ref(&self) -> (r: &str)
        ensures
            r@ == self@,
    {
        self.0
    }

    pub fn to_string(&self) -> (r: String)
        ensures
            r@ == self@,
    {
        String::from_str(self.0)
    }
}

impl WorldId {
    #[verifier::type_invariant]
    spec fn canonical(self) -> bool {
        is_canonical_id(self.0.spec_bytes())
    }

    /// The identifier's text.
    pub closed spec fn view(&self) -> Seq<char> {
        self.0@
    }

    /// Creates an identifier for static catalogue data; the value must be canonical.
    pub fn new(value: &'static str) -> (r: Self)
        requires
            is_canonical_id(value.spec_bytes()),
        ensures
            r@ == value@,
    {
        WorldId(value)
    }

    /// Creates an identifier when `value` is canonical.
    pub fn try_new(value: &'static str) -> (r: Option<Self>)
        ensures
            r is Some <==> is_canonical_id(value.spec_bytes()),
            r matches Some(id) ==> id@ == value@,
    {
        if is_valid_stable_id(value) {
            Some(WorldId(value))
        } else {
            None
        }
    }

    /// Returns the canonical string representation.
    pub fn as_str(self) -> (r: &'static str)
        ensures
            r@ == self@,
            is_canonical_id(r.spec_bytes()),
    {
        proof {
            use_type_invariant(&self);
        }
        self.0
    }

    pub fn as_ref(&self) -> (r: &str)
        ensures
            r@ == self@,
    {
        self.0
    }

    pub fn to_string(&self) -> (r: String)
        ensures
            r@ == self@,
    {
        String::from_str(self.0)
    }
}

/// A typed destination resolved by the gallery before mounting an installation.
#[derive(Clone, Copy, Debug, PartialEq, Eq, Hash)]
pub struct Destination {
    pub world: WorldId,
    pub installation: InstallationId,
}

/// Visitor-facing presentation owned by an artwork rather than by the gallery shell.
#[derive(Clone, Copy, Debug, PartialEq, Eq)]
pub struct ArtworkPresentation {
    pub canvas_label: &'static str,
    pub observer_label: &'static str,
    pub enter_label: &'static str,
    pub controls_help: &'static str,
}

/// Renderer-independent metadata for a catalogued artwork.
#[derive(Clone, Copy, Debug, PartialEq, Eq)]
pub struct Artwork {
    pub id: ArtworkId,
    pub title: &'static str,
    pub artist: &'static str,
    pub description: &'static str,
    pub destination: Destination,
    pub presentation: ArtworkPresentation,
}

/// A resolved catalogue entry and its copyable destination.
#[derive(Clone, Copy, Debug, PartialEq, Eq)]
pub struct ResolvedArtwork<'a> {
    pub artwork: &'a Artwork,
    pub destination: Destination,
}

/// `index` is the first position of `artworks` whose identifier is `id`.
pub open spec fn first_match(artworks: Seq<Artwork>, id: Seq<char>, index: int) -> bool {
    &&& 0 <= index < artworks.len()
    &&& artworks[index].id@ == id
    &&& forall|k: int| 0 <= k < index ==> (#[trigger] artworks[k]).id@ != id
}

/// The registry entry that a lookup of `id` finds: the first artwork carrying `id`.
pub open spec fn finds(artworks: Seq<Artwork>, id: Seq<char>, found: Option<&Artwork>) -> bool {
    match found {
        Some(artwork) => exists|index: int| first_match(artworks, id, index) && *artwork == artworks[index],
        None => forall|k: int| 0 <= k < artworks.len() ==> (#[trigger] artworks[k]).id@ != id,
    }
}

/// A lookup has one answer: finding and resolving the same identifier in the same registry
/// yield the same entry.
pub proof fn lemma_lookup_is_deterministic(
    artworks: Seq<Artwork>,
    id: Seq<char>,
    first: Option<&Artwork>,
    second: Option<&Artwork>,
)
    requires
        finds(artworks, id, first),
        finds(artworks, id, second),
    ensures
        first == second,
{
    if let Some(a) = first {
        let i = choose|i: int| first_match(artworks, id, i) && *a == artworks[i];
        if let Some(b) = second {
            let j = choose|j: int| first_match(artworks, id, j) && *b == artworks[j];
            if i < j {
                assert(artworks[i].id@ != id);
            } else if j < i {
                assert(artworks[j].id@ != id);
            }
        } else {
            assert(artworks[i].id@ != id);
        }
    } else if let Some(b) = second {
        let j = choose|j: int| first_match(artworks, id, j) && *b == artworks[j];
        assert(artworks[j].id@ != id);
    }
}

/// The registry entry of a resolution.
pub open spec fn resolved_entry<'a>(resolved: Option<ResolvedArtwork<'a>>) -> Option<&'a Artwork> {
    match resolved {
        Some(entry) => Some(entry.artwork),
        None => None,
    }
}

/// Identifier lookup in registry order.
fn position_of(artworks: &[Artwork], id: &str) -> (r: Option<usize>)
    ensures
        r matches Some(index) ==> first_match(artworks@, id@, index as int),
        r is None ==> forall|k: int| 0 <= k < artworks@.len() ==> (#[trigger] artworks@[k]).id@ != id@,
{
    let mut i: usize = 0;
    while i < artworks.len()
        invariant
            i <= artworks@.len(),
            forall|k: int| 0 <= k < i ==> (#[trigger] artworks@[k]).id@ != id@,
        decreases artworks@.len() - i,
    {
        if str_equal(artworks[i].id.as_str(), id) {
            return Some(i);
        }
        i += 1;
    }
    None
}

/// Read-only view over any artwork registry.
#[derive(Clone, Copy, Debug)]
pub struct Catalogue<'a> {
    artworks: &'a [Artwork],
}

impl<'a> Catalogue<'a> {
    /// The registry in its declared order.
    pub closed spec fn view(&self) -> Seq<Artwork> {
        self.artworks@
    }

    /// Wraps a static or borrowed artwork registry without allocating.
    pub fn new(artworks: &'a [Artwork]) -> (r: Self)
        ensures
            r@ == artworks@,
    {
        Catalogue { artworks }
    }

    /// Returns the registry in its declared order.
    pub fn artworks(self) -> (r: &'a [Artwork])
        ensures
            r@ == self@,
    {
        self.artworks
    }

    /// Finds an artwork through a validated typed identifier.
    pub fn find(self, id: ArtworkId) -> (r: Option<&'a Artwork>)
        ensures
            finds(self@, id@, r),
    {
        self.find_raw(id.as_str())
    }

    /// Validates an untrusted string before looking it up in the registry.
    pub fn find_raw(self, id: &str) -> (r: Option<&'a Artwork>)
        ensures
            is_canonical_id(id.spec_bytes()) ==> finds(self@, id@, r),
            !is_canonical_id(id.spec_bytes()) ==> r is None,
    {
        if !is_valid_stable_id(id) {
            return None;
        }
        match position_of(self.artworks, id) {
            Some(index) => Some(&self.artworks[index]),
            None => None,
        }
    }

    /// Resolves a typed artwork identifier to its metadata and destination.
    pub fn resolve(self, id: ArtworkId) -> (r: Option<ResolvedArtwork<'a>>)
        ensures
            finds(self@, id@, resolved_entry(r)),
            r matches Some(resolved) ==> resolved.destination == resolved.artwork.destination,
    {
        self.resolve_raw(id.as_str())
    }

    /// Validates and resolves an untrusted string without constructing an identifier value.
    pub fn resolve_raw(self, id: &str) -> (r: Option<ResolvedArtwork<'a>>)
        ensures
            is_canonical_id(id.spec_bytes()) ==> finds(
                self@,
                id@,
                resolved_entry(r),
            ),
            !is_canonical_id(id.spec_bytes()) ==> r is None,
            r matches Some(resolved) ==> resolved.destination == resolved.artwork.destination,
    {
        match self.find_raw(id) {
            Some(artwork) => Some(ResolvedArtwork { artwork, destination: artwork.destination }),
            None => None,
        }
    }
}

/// Finds an artwork in an arbitrary registry through a typed identifier.
pub fn artwork_by_id(artworks: &[Artwork], id: ArtworkId) -> (r: Option<&Artwork>)
    ensures
        finds(artworks@, id@, r),
{
    Catalogue::new(artworks).find(id)
}

/// Validates and finds an artwork in an arbitrary registry.
pub fn artwork_by_raw_id<'a>(artworks: &'a [Artwork], id: &str) -> (r: Option<&'a Artwork>)
    ensures
        is_canonical_id(id.spec_bytes()) ==> finds(artworks@, id@, r),
        !is_canonical_id(id.spec_bytes()) ==> r is None,
{
    Catalogue::new(artworks).find_raw(id)
}

/// Resolves an artwork in an arbitrary registry through a typed identifier.
pub fn resolve_destination(artworks: &[Artwork], id: ArtworkId) -> (r: Option<ResolvedArtwork<'_>>)
    ensures
        finds(artworks@, id@, resolved_entry(r)),
        r matches Some(resolved) ==> resolved.destination == resolved.artwork.destination,
{
    Catalogue::new(artworks).resolve(id)
}

/// Validates and resolves an artwork in an arbitrary registry.
pub fn resolve_raw_destination<'a>(artworks: &'a [Artwork], id: &str) -> (r: Option<ResolvedArtwork<'a>>)
    ensures
        is_canonical_id(id.spec_bytes()) ==> finds(
            artworks@,
            id@,
            resolved_entry(r),
        ),
        !is_canonical_id(id.spec_bytes()) ==> r is None,
        r matches Some(resolved) ==> resolved.destination == resolved.artwork.destination,
{
    Catalogue::new(artworks).resolve_raw(id)
}

} // verus!
