use black_cube_gallery::browser::artworks::GalleryWorld;
use black_cube_gallery::browser::controls::{KeyDown, Session};
use black_cube_gallery::browser::room_controls::RoomActions;
use black_cube_gallery::browser::runtime::{ActionState, VisitorAction};
use black_cube_gallery::browser::space_commands::{SpaceCommand, SpaceCommandKeys};
use black_cube_gallery::descriptors::{black_cube_room, gallery_world_id, world_in_light};
use black_cube_gallery::gallery_core::{Artwork, InstallationId, WorldId};
use black_cube_gallery::input::KeyBindings;

fn session() -> Session {
    Session::new(KeyBindings::default())
}

#[test]
fn a_new_session_is_active_and_idle() {
    let session = session();
    assert!(session.is_active());
    assert!(!session.is_pointer_locked());
    assert_eq!(session.listening(), None);
    assert_eq!(session.action_state(), ActionState::default());
    assert_eq!(session.binding(VisitorAction::Jump), "Space");
}

#[test]
fn keys_map_to_the_first_action_bound_to_them() {
    let session = session();
    assert_eq!(session.action_for_code("KeyW"), Some(VisitorAction::Forward));
    assert_eq!(session.action_for_code("KeyD"), Some(VisitorAction::Right));
    assert_eq!(session.action_for_code("Space"), Some(VisitorAction::Jump));
    assert_eq!(session.action_for_code("KeyQ"), None);
}

#[test]
fn either_control_key_crouches_when_crouch_is_on_control() {
    let mut session = session();
    assert_eq!(session.action_for_code("ControlRight"), Some(VisitorAction::Crouch));
    session.press("ControlRight".to_owned());
    assert!(session.action_state().crouch);
    session.set_binding(VisitorAction::Crouch, "KeyC".to_owned());
    assert_eq!(session.action_for_code("ControlRight"), None);
    assert!(!session.action_state().crouch);
}

#[test]
fn held_keys_drive_the_action_state() {
    let mut session = session();
    session.press("KeyW".to_owned());
    session.press("KeyA".to_owned());
    session.press("KeyW".to_owned());
    let state = session.action_state();
    assert!(state.forward && state.left);
    assert!(!state.backward && !state.right && !state.jump && !state.crouch);
    session.release("KeyW");
    let state = session.action_state();
    assert!(!state.forward && state.left);
    session.release("KeyX");
    assert!(session.action_state().left);
}

#[test]
fn released_keys_come_back_in_sorted_order() {
    let mut session = session();
    for code in ["Space", "KeyW", "ArrowUp", "KeyA", "KeyW"] {
        session.press(code.to_owned());
    }
    assert_eq!(
        session.take_pressed(),
        vec!["ArrowUp".to_owned(), "KeyA".to_owned(), "KeyW".to_owned(), "Space".to_owned()]
    );
    assert!(session.take_pressed().is_empty());
    assert_eq!(session.action_state(), ActionState::default());
}

#[test]
fn capture_takes_a_first_press_of_a_supported_key() {
    let mut session = session();
    session.press("KeyW".to_owned());
    assert!(!session.capture_binding("KeyK", false));
    session.listen_for(VisitorAction::Jump);
    assert!(!session.capture_binding("Enter", false));
    assert!(!session.capture_binding("KeyK", true));
    assert_eq!(session.listening(), Some(VisitorAction::Jump));
    assert!(session.capture_binding("KeyK", false));
    assert_eq!(session.listening(), None);
    assert_eq!(session.binding(VisitorAction::Jump), "KeyK");
    assert_eq!(session.action_state(), ActionState::default());
}

#[test]
fn capturing_a_taken_key_keeps_the_bindings_unique() {
    let mut session = session();
    session.listen_for(VisitorAction::Backward);
    assert!(session.capture_binding("KeyW", false));
    assert_eq!(session.binding(VisitorAction::Forward), "KeyW");
    assert_eq!(session.binding(VisitorAction::Backward), "KeyS");
    let bindings = session.bindings();
    assert_eq!(bindings.backward, "KeyS");
}

#[test]
fn deactivating_forgets_held_keys() {
    let mut session = session();
    session.press("KeyS".to_owned());
    session.set_pointer_locked(true);
    session.deactivate();
    assert!(!session.is_active());
    assert!(session.is_pointer_locked());
    assert_eq!(session.action_state(), ActionState::default());
}

#[test]
fn visitor_actions_are_listed_in_panel_order() {
    assert_eq!(
        VisitorAction::all(),
        [
            VisitorAction::Forward,
            VisitorAction::Backward,
            VisitorAction::Left,
            VisitorAction::Right,
            VisitorAction::Jump,
            VisitorAction::Crouch,
        ]
    );
}

#[test]
fn space_keys_hold_modifiers_and_fire_commands_once() {
    let mut keys = SpaceCommandKeys::default();
    assert_eq!(keys.command_key_changed("ShiftLeft", true, false), (true, None));
    assert_eq!(keys.command_key_changed("KeyX", true, true), (true, None));
    assert!(keys.shift_left && keys.braking && !keys.shift_right);
    assert_eq!(
        keys.command_key_changed("KeyT", true, false),
        (true, Some(SpaceCommand::CycleTimeScale))
    );
    assert_eq!(keys.command_key_changed("KeyT", true, true), (true, None));
    assert_eq!(keys.command_key_changed("KeyT", false, false), (true, None));
    assert_eq!(
        keys.command_key_changed("KeyF", true, false),
        (true, Some(SpaceCommand::PointAtEarth))
    );
    assert_eq!(
        keys.command_key_changed("KeyR", true, false),
        (true, Some(SpaceCommand::ResetView))
    );
    assert_eq!(
        keys.command_key_changed("KeyZ", true, false),
        (true, Some(SpaceCommand::SlowerCamera))
    );
    assert_eq!(
        keys.command_key_changed("KeyC", true, false),
        (true, Some(SpaceCommand::FasterCamera))
    );
    assert_eq!(keys.command_key_changed("KeyW", true, false), (false, None));
    keys.command_key_changed("ShiftLeft", false, false);
    assert!(!keys.shift_left);
}

#[test]
fn space_input_accelerates_on_either_shift_and_stops_on_brake() {
    let mut keys = SpaceCommandKeys::default();
    keys.command_key_changed("ShiftRight", true, false);
    let actions = ActionState {
        forward: true,
        jump: true,
        ..ActionState::default()
    };
    let input = keys.spaceflight_input(actions);
    assert!(input.forward && input.ascend && input.accelerated);
    assert!(!input.stop && !input.descend && !input.backward);
    keys.command_key_changed("KeyX", true, false);
    assert!(keys.spaceflight_input(actions).stop);
}

#[test]
fn room_jump_is_an_edge_consumed_by_the_next_frame() {
    let mut room = RoomActions::default();
    room.action_changed(VisitorAction::Jump, true, true);
    room.action_changed(VisitorAction::Forward, true, false);
    assert!(!room.jump_requested);
    room.action_changed(VisitorAction::Jump, true, false);
    let held = ActionState {
        crouch: true,
        ..ActionState::default()
    };
    let input = room.player_input(held);
    assert!(input.jump_pressed && input.crouch && !input.forward);
    assert!(!room.player_input(held).jump_pressed);
}

fn registry() -> [Artwork; 2] {
    [black_cube_room(), world_in_light()]
}

#[test]
fn world_resolves_its_own_artworks_to_their_components() {
    let components = registry();
    let world = GalleryWorld::new(gallery_world_id(), &components);
    assert_eq!(world.components().len(), 2);
    assert_eq!(world.resolve_artwork("black-cube-room"), Some(0));
    assert_eq!(world.resolve_artwork("orbiting-earth"), Some(1));
    assert_eq!(world.resolve_installation(InstallationId::new("orbiting-earth")), Some(1));
}

#[test]
fn world_rejects_unknown_foreign_and_malformed_artworks() {
    let components = registry();
    let world = GalleryWorld::new(gallery_world_id(), &components);
    assert_eq!(world.resolve_artwork("missing-room"), None);
    assert_eq!(world.resolve_artwork("Black-Cube-Room"), None);
    assert_eq!(world.resolve_artwork("../orbiting-earth"), None);
    let elsewhere = GalleryWorld::new(WorldId::new("other-gallery"), &components);
    assert_eq!(elsewhere.resolve_artwork("black-cube-room"), None);
    assert_eq!(elsewhere.resolve_installation(InstallationId::new("black-cube-room")), None);
}

#[test]
fn an_artwork_shadowed_by_an_earlier_component_of_its_installation_is_refused() {
    let mut second = black_cube_room();
    second.id = world_in_light().id;
    let components = [black_cube_room(), second];
    let world = GalleryWorld::new(gallery_world_id(), &components);
    assert_eq!(world.resolve_artwork("orbiting-earth"), None);
    assert_eq!(world.resolve_artwork("black-cube-room"), Some(0));
}

#[test]
fn binding_buttons_show_the_action_and_its_key() {
    let mut session = session();
    assert_eq!(session.binding_button_text(VisitorAction::Left), "Strafe left: KeyA");
    session.set_binding(VisitorAction::Crouch, "KeyC".to_owned());
    assert_eq!(session.binding_button_text(VisitorAction::Crouch), "Crouch / descend: KeyC");
}

#[test]
fn key_presses_are_dispatched_captured_or_ignored() {
    let mut session = session();
    assert_eq!(session.key_down("KeyA", false, false), KeyDown::Dispatch(Some(VisitorAction::Left)));
    assert_eq!(session.key_down("KeyT", false, false), KeyDown::Dispatch(None));
    assert_eq!(session.key_down("KeyA", false, true), KeyDown::Ignored);
    assert!(session.finish_key_down("KeyA".to_owned(), Some(VisitorAction::Left), false));
    assert!(!session.finish_key_down("KeyQ".to_owned(), None, false));
    assert!(session.finish_key_down("KeyT".to_owned(), None, true));
    assert_eq!(session.take_pressed(), vec!["KeyA".to_owned(), "KeyT".to_owned()]);

    session.listen_for(VisitorAction::Right);
    assert_eq!(session.key_down("Tab", false, false), KeyDown::Ignored);
    assert_eq!(session.key_down("KeyL", false, true), KeyDown::Rebound);
    assert_eq!(session.binding(VisitorAction::Right), "KeyL");

    session.deactivate();
    assert_eq!(session.key_down("KeyW", false, false), KeyDown::Ignored);
    assert_eq!(session.key_up("KeyW"), None);
}

#[test]
fn key_releases_report_the_driven_action() {
    let mut session = session();
    session.press("Space".to_owned());
    assert_eq!(session.key_up("Space"), Some(Some(VisitorAction::Jump)));
    assert!(!session.action_state().jump);
    assert_eq!(session.key_up("KeyT"), Some(None));
}
