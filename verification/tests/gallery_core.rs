use black_cube_gallery::gallery_core::{
    Artwork, ArtworkId, ArtworkPresentation, Catalogue, Destination, InstallationId,
    MAX_STABLE_ID_BYTES, WorldId, artwork_by_id, artwork_by_raw_id, is_valid_stable_id,
    resolve_destination, resolve_raw_destination,
};

fn world() -> WorldId {
    WorldId::new("mvp-gallery")
}

fn cube_id() -> ArtworkId {
    ArtworkId::new("black-cube-room")
}

fn cube_installation() -> InstallationId {
    InstallationId::new("black-cube-room")
}

fn earth_id() -> ArtworkId {
    ArtworkId::new("orbiting-earth")
}

fn earth_installation() -> InstallationId {
    InstallationId::new("orbiting-earth")
}

fn presentation() -> ArtworkPresentation {
    ArtworkPresentation {
        canvas_label: "Artwork canvas",
        observer_label: "Artwork observer",
        enter_label: "Explore",
        controls_help: "Use the configured controls",
    }
}

fn artworks() -> [Artwork; 2] {
    [
        Artwork {
            id: cube_id(),
            title: "Black Cube / White Room",
            artist: "Gallery collection",
            description: "A black cube held in a silent white room.",
            destination: Destination {
                world: world(),
                installation: cube_installation(),
            },
            presentation: presentation(),
        },
        Artwork {
            id: earth_id(),
            title: "A World in Light",
            artist: "Gallery collection",
            description: "A physically scaled planetary installation.",
            destination: Destination {
                world: world(),
                installation: earth_installation(),
            },
            presentation: presentation(),
        },
    ]
}

#[test]
fn typed_ids_are_const_friendly_and_preserve_their_canonical_value() {
    assert_eq!(cube_id().as_str(), "black-cube-room");
    assert_eq!(cube_installation().as_ref(), "black-cube-room");
    assert_eq!(world().to_string(), "mvp-gallery");
}

#[test]
fn stable_id_validation_rejects_noncanonical_or_oversized_input() {
    for valid in ["a", "art-2", "black-cube-room", "mvp-gallery"] {
        assert!(is_valid_stable_id(valid), "{valid}");
    }
    for invalid in [
        "",
        "-art",
        "art-",
        "art--room",
        "Black-cube",
        "black_cube",
        "../black-cube",
        "art room",
    ] {
        assert!(!is_valid_stable_id(invalid), "{invalid}");
    }
    let oversized = "a".repeat(MAX_STABLE_ID_BYTES + 1);
    assert!(!is_valid_stable_id(&oversized));
    assert_eq!(ArtworkId::try_new("not_canonical"), None);
}

#[test]
fn catalogue_looks_up_typed_and_validated_raw_ids() {
    let registry = artworks();
    let catalogue = Catalogue::new(&registry);

    assert_eq!(catalogue.artworks(), &registry);
    assert_eq!(
        catalogue.find(cube_id()).map(|artwork| artwork.title),
        Some("Black Cube / White Room")
    );
    assert_eq!(
        catalogue
            .find_raw("orbiting-earth")
            .map(|artwork| artwork.id),
        Some(earth_id())
    );
    assert_eq!(catalogue.find_raw("../orbiting-earth"), None);
    assert_eq!(catalogue.find_raw("unknown-artwork"), None);
}

#[test]
fn catalogue_resolves_the_registered_destination_without_renderer_data() {
    let registry = artworks();
    let resolved = Catalogue::new(&registry)
        .resolve_raw("orbiting-earth")
        .expect("registered artwork");

    assert_eq!(resolved.artwork.id, earth_id());
    assert_eq!(resolved.destination.world, world());
    assert_eq!(resolved.destination.installation, earth_installation());
}

#[test]
fn free_functions_work_with_any_borrowed_registry() {
    let registry = artworks();
    let subset = &registry[..1];

    assert_eq!(artwork_by_id(subset, cube_id()), Some(&registry[0]));
    assert_eq!(artwork_by_raw_id(subset, "orbiting-earth"), None);
    assert_eq!(
        resolve_destination(subset, cube_id()).map(|resolved| resolved.destination),
        Some(registry[0].destination)
    );
    assert_eq!(resolve_raw_destination(subset, "invalid_id"), None);
}

#[test]
fn lookup_returns_the_first_registered_match() {
    let mut registry = artworks().to_vec();
    let mut duplicate = registry[0];
    duplicate.title = "Second copy";
    registry.push(duplicate);
    let found = Catalogue::new(&registry).find(cube_id()).expect("registered artwork");
    assert_eq!(found.title, "Black Cube / White Room");
}

#[test]
fn try_new_accepts_exactly_the_canonical_identifiers() {
    assert_eq!(
        WorldId::try_new("mvp-gallery").map(|id| id.as_str()),
        Some("mvp-gallery")
    );
    assert_eq!(InstallationId::try_new("-room"), None);
    assert!(is_valid_stable_id(&"a".repeat(MAX_STABLE_ID_BYTES)));
    assert!(!is_valid_stable_id("room-"));
    assert!(is_valid_stable_id("a-b-c-1"));
}

#[test]
fn resolution_copies_the_destination_of_the_found_artwork() {
    let registry = artworks();
    let resolved = resolve_destination(&registry, earth_id()).expect("registered artwork");
    assert_eq!(resolved.destination, resolved.artwork.destination);
    assert_eq!(resolved.artwork.title, "A World in Light");
    assert_eq!(resolve_raw_destination(&registry, "Orbiting-earth"), None);
}
