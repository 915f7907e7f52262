//! Catalogue descriptors of the gallery's installations.

use vstd::prelude::*;
use vstd::string::{StringSliceAdditionalSpecFns, is_ascii_spec_bytes};
use crate::gallery_core::{
    Artwork, ArtworkId, ArtworkPresentation, Destination, InstallationId, WorldId, is_canonical_id,
};

verus! {

proof fn lemma_black_cube_room_is_canonical()
    ensures
        is_canonical_id("black-cube-room".spec_bytes()),
{
    reveal_strlit("black-cube-room");
    is_ascii_spec_bytes("black-cube-room");
}

proof fn lemma_mvp_gallery_is_canonical()
    ensures
        is_canonical_id("mvp-gallery".spec_bytes()),
{
    reveal_strlit("mvp-gallery");
    is_ascii_spec_bytes("mvp-gallery");
}

proof fn lemma_orbiting_earth_is_canonical()
    ensures
        is_canonical_id("orbiting-earth".spec_bytes()),
{
    reveal_strlit("orbiting-earth");
    is_ascii_spec_bytes("orbiting-earth");
}

/// Stable catalogue entry and visitor-facing presentation of the Black Cube / White Room.
pub fn black_cube_room() -> (r: Artwork)
    ensures
        r.id@ == "black-cube-room"@,
        r.title@ == "Black Cube / White Room"@,
        r.artist@ == "Gallery collection"@,
        r.description@ == "A black cube held in a silent white room."@,
        r.destination.world@ == "mvp-gallery"@,
        r.destination.installation@ == "black-cube-room"@,
        r.presentation.canvas_label@ == "A white room containing a black cube"@,
        r.presentation.observer_label@ == "First-person room. Activate to use mouse look. Move with WASD, jump with Space, and crouch with Control."@,
        r.presentation.enter_label@ == "Explore room"@,
        r.presentation.controls_help@ == "Click the room to capture the mouse · WASD moves · Space jumps · Ctrl crouches · Esc releases the mouse"@,
{
    proof {
        lemma_black_cube_room_is_canonical();
        lemma_mvp_gallery_is_canonical();
    }
    Artwork {
        id: ArtworkId::new("black-cube-room"),
        title: "Black Cube / White Room",
        artist: "Gallery collection",
        description: "A black cube held in a silent white room.",
        destination: Destination {
            world: WorldId::new("mvp-gallery"),
            installation: InstallationId::new("black-cube-room"),
        },
        presentation: ArtworkPresentation {
            canvas_label: "A white room containing a black cube",
            observer_label: "First-person room. Activate to use mouse look. Move with WASD, jump with Space, and crouch with Control.",
            enter_label: "Explore room",
            controls_help: "Click the room to capture the mouse · WASD moves · Space jumps · Ctrl crouches · Esc releases the mouse",
        },
    }
}

/// Identifier of the astronomical installation.
pub fn world_in_light_artwork_id() -> (r: ArtworkId)
    ensures
        r@ == "orbiting-earth"@,
{
    proof {
        lemma_orbiting_earth_is_canonical();
    }
    ArtworkId::new("orbiting-earth")
}

/// Installation identifier of the astronomical installation.
pub fn world_in_light_installation_id() -> (r: InstallationId)
    ensures
        r@ == "orbiting-earth"@,
{
    proof {
        lemma_orbiting_earth_is_canonical();
    }
    InstallationId::new("orbiting-earth")
}

/// World that hosts every published installation.
pub fn gallery_world_id() -> (r: WorldId)
    ensures
        r@ == "mvp-gallery"@,
{
    proof {
        lemma_mvp_gallery_is_canonical();
    }
    WorldId::new("mvp-gallery")
}

/// Stable catalogue descriptor of A World in Light.
pub fn world_in_light() -> (r: Artwork)
    ensures
        r.id@ == "orbiting-earth"@,
        r.title@ == "A World in Light"@,
        r.artist@ == "Gallery collection"@,
        r.description@ == "Earth, Moon, atmosphere, sunlight, and shadow at astronomical scale."@,
        r.destination.world@ == "mvp-gallery"@,
        r.destination.installation@ == "orbiting-earth"@,
        r.presentation.canvas_label@ == "A physically scaled Earth, Moon, and Sun viewed from a free-flight camera"@,
        r.presentation.observer_label@ == "Free-flight space view. Activate to use mouse look. Move with WASD, ascend with Space, descend with Control, and hold Shift for fast travel."@,
        r.presentation.enter_label@ == "Explore space"@,
        r.presentation.controls_help@ == "Click the view to capture the mouse · WASD moves · Space/Ctrl ascend/descend · Shift boosts · F faces Earth · R resets · Z/C changes speed · X stops · T changes time · Esc releases"@,
{
    Artwork {
        id: world_in_light_artwork_id(),
        title: "A World in Light",
        artist: "Gallery collection",
        description: "Earth, Moon, atmosphere, sunlight, and shadow at astronomical scale.",
        destination: Destination {
            world: gallery_world_id(),
            installation: world_in_light_installation_id(),
        },
        presentation: ArtworkPresentation {
            canvas_label: "A physically scaled Earth, Moon, and Sun viewed from a free-flight camera",
            observer_label: "Free-flight space view. Activate to use mouse look. Move with WASD, ascend with Space, descend with Control, and hold Shift for fast travel.",
            enter_label: "Explore space",
            controls_help: "Click the view to capture the mouse · WASD moves · Space/Ctrl ascend/descend · Shift boosts · F faces Earth · R resets · Z/C changes speed · X stops · T changes time · Esc releases",
        },
    }
}

} // verus!
