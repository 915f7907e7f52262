use black_cube_gallery::artwork::{
    ArtworkKind, MVP_GALLERY_WORLD, artwork_by_id, is_valid_artwork_id, registered_artworks,
    resolve_destination,
};
use black_cube_gallery::descriptors::{
    black_cube_room, gallery_world_id, world_in_light, world_in_light_artwork_id,
    world_in_light_installation_id,
};

#[test]
fn descriptor_owns_stable_catalogue_and_presentation_data() {
    let black_cube_room = black_cube_room();
    assert_eq!(black_cube_room.id.as_str(), "black-cube-room");
    assert_eq!(black_cube_room.destination.world.as_str(), "mvp-gallery");
    assert_eq!(
        black_cube_room.destination.installation.as_str(),
        black_cube_room.id.as_str()
    );
    assert_eq!(black_cube_room.presentation.enter_label, "Explore room");
    assert!(black_cube_room.presentation.controls_help.contains("WASD"));
}

#[test]
fn descriptor_keeps_its_published_identity_and_destination() {
    let world_in_light = world_in_light();
    assert_eq!(world_in_light.id, world_in_light_artwork_id());
    assert_eq!(world_in_light.destination.world, gallery_world_id());
    assert_eq!(
        world_in_light.destination.installation,
        world_in_light_installation_id()
    );
    assert!(!world_in_light.presentation.controls_help.is_empty());
}

#[test]
fn registry_resolves_only_valid_registered_ids() {
    let registry: &'static [_; 2] = Box::leak(Box::new(registered_artworks()));
    let (artwork, destination) =
        resolve_destination(registry, "orbiting-earth").expect("registered artwork");
    assert_eq!(artwork.kind, ArtworkKind::OrbitingEarth);
    assert_eq!(destination.world, MVP_GALLERY_WORLD);
    assert_eq!(destination.installation, "orbiting-earth");
    assert!(resolve_destination(registry, "Orbiting-earth").is_none());
    assert!(resolve_destination(registry, "").is_none());
    assert!(resolve_destination(registry, "missing-room").is_none());
    assert_eq!(
        artwork_by_id(registry, "black-cube-room").map(|artwork| artwork.kind),
        Some(ArtworkKind::BlackCubeRoom)
    );
}

#[test]
fn route_ids_allow_only_lowercase_digits_and_hyphens() {
    assert!(is_valid_artwork_id("black-cube-room"));
    assert!(is_valid_artwork_id("-"));
    assert!(!is_valid_artwork_id(""));
    assert!(!is_valid_artwork_id("Black"));
    assert!(!is_valid_artwork_id("a b"));
}
