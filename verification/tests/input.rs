use black_cube_gallery::browser::earth_surface::{pixels_rgba, HEIGHT, WIDTH};
use black_cube_gallery::browser::runtime::VisitorAction;
use black_cube_gallery::fps;
use black_cube_gallery::input::{first_available_binding, is_supported_key_code, KeyBindings};

fn bindings(codes: [&str; 6]) -> KeyBindings {
    KeyBindings {
        forward: codes[0].to_owned(),
        backward: codes[1].to_owned(),
        left: codes[2].to_owned(),
        right: codes[3].to_owned(),
        jump: codes[4].to_owned(),
        crouch: codes[5].to_owned(),
    }
}

fn codes(bindings: &KeyBindings) -> [String; 6] {
    [
        bindings.forward.clone(),
        bindings.backward.clone(),
        bindings.left.clone(),
        bindings.right.clone(),
        bindings.jump.clone(),
        bindings.crouch.clone(),
    ]
}

#[test]
fn supported_key_codes_follow_the_browser_code_names() {
    for code in [
        "Space", "ControlLeft", "ControlRight", "ShiftLeft", "ShiftRight", "KeyA", "KeyZ",
        "ArrowUp", "ArrowDown", "ArrowLeft", "ArrowRight",
    ] {
        assert!(is_supported_key_code(code), "{code}");
    }
    for code in ["", "<script>", "Keya", "Key", "KeyAB", "KeY", "Digit1", "Enter", "space"] {
        assert!(!is_supported_key_code(code), "{code}");
    }
    assert!(fps::is_supported_key_code("KeyQ"));
    assert!(!fps::is_supported_key_code("Tab"));
}

#[test]
fn first_available_binding_prefers_the_default_then_the_fallbacks() {
    assert_eq!(first_available_binding("KeyS", &[]), "KeyS");
    let used = vec!["KeyS".to_owned(), "KeyW".to_owned()];
    assert_eq!(first_available_binding("KeyS", &used), "KeyA");
    let all: Vec<String> = [
        "KeyW", "KeyS", "KeyA", "KeyD", "Space", "ControlLeft", "KeyQ", "KeyE", "ArrowUp",
        "ArrowDown", "ArrowLeft", "ArrowRight",
    ]
    .iter()
    .map(|code| code.to_string())
    .collect();
    assert_eq!(first_available_binding("KeyW", &all), "KeyZ");
    assert_eq!(fps::first_available_binding("KeyD", &used), "KeyD");
}

#[test]
fn default_bindings_are_wasd_space_and_control() {
    let defaults = KeyBindings::default();
    assert_eq!(
        codes(&defaults),
        ["KeyW", "KeyS", "KeyA", "KeyD", "Space", "ControlLeft"].map(String::from)
    );
    assert_eq!(defaults.clone().sanitized(), defaults);
}

#[test]
fn unsafe_and_repeated_bindings_are_replaced_by_unique_safe_codes() {
    let sanitized =
        bindings(["<script>", "KeyS", "KeyS", "KeyS", "KeyS", "KeyS"]).sanitized();
    assert_eq!(
        codes(&sanitized),
        ["KeyW", "KeyS", "KeyA", "KeyD", "Space", "ControlLeft"].map(String::from)
    );
}

#[test]
fn valid_custom_bindings_are_kept() {
    let custom = bindings(["ArrowUp", "ArrowDown", "ArrowLeft", "ArrowRight", "ShiftLeft", "KeyC"]);
    assert_eq!(custom.clone().sanitized(), custom);
}

#[test]
fn a_taken_default_falls_through_to_the_next_free_key() {
    let sanitized = bindings(["KeyS", "KeyS", "KeyA", "KeyD", "Space", "ControlLeft"]).sanitized();
    assert_eq!(
        codes(&sanitized),
        ["KeyS", "KeyW", "KeyA", "KeyD", "Space", "ControlLeft"].map(String::from)
    );
}

#[test]
fn room_bindings_sanitize_like_the_shared_bindings() {
    let room = fps::KeyBindings {
        forward: "KeyS".to_owned(),
        backward: "KeyS".to_owned(),
        left: "bad".to_owned(),
        right: "KeyD".to_owned(),
        jump: "KeyD".to_owned(),
        crouch: "KeyC".to_owned(),
    }
    .sanitized();
    assert_eq!(room.forward, "KeyS");
    assert_eq!(room.backward, "KeyW");
    assert_eq!(room.left, "KeyA");
    assert_eq!(room.right, "KeyD");
    assert_eq!(room.jump, "Space");
    assert_eq!(room.crouch, "KeyC");
    assert_eq!(fps::KeyBindings::default().crouch, "ControlLeft");
}

#[test]
fn visitor_action_labels_match_the_settings_panel() {
    assert_eq!(VisitorAction::Forward.label(), "Forward");
    assert_eq!(VisitorAction::Backward.label(), "Backward");
    assert_eq!(VisitorAction::Left.label(), "Strafe left");
    assert_eq!(VisitorAction::Right.label(), "Strafe right");
    assert_eq!(VisitorAction::Jump.label(), "Jump / ascend");
    assert_eq!(VisitorAction::Crouch.label(), "Crouch / descend");
}

#[test]
fn texel_map_decodes_each_character_class() {
    let pixels = pixels_rgba(b"A_\r\n0r\ng");
    assert_eq!(
        pixels,
        vec![
            4, 25, 66, 0, // ocean
            220, 225, 224, 255, // ice
            171, 144, 101, 255, // desert
            75, 86, 45, 255, // vegetation
            42, 67, 27, 255, // forest
        ]
    );
}

#[test]
fn full_texel_map_fills_the_texture() {
    let row = vec![b'g'; WIDTH as usize];
    let mut map = Vec::new();
    for _ in 0..HEIGHT {
        map.extend_from_slice(&row);
        map.push(b'\n');
    }
    assert_eq!(pixels_rgba(&map).len(), (WIDTH * HEIGHT * 4) as usize);
}
