use black_cube_gallery::planet_shader;
use black_cube_gallery::world_in_light::planet_shader::{
    compose_detailed_fragment_source, detailed_fragment_source, fragment_source,
    replace_exactly_once, ATMOSPHERE_MARKER_ERROR, ATMOSPHERE_RAYMARCH_BASE,
    CLOUD_LIGHT_MARKER_ERROR, CLOUD_LIGHT_TRANSMISSION_BASE, CLOUD_MARKER_ERROR,
    CLOUD_RAYMARCH_BASE, DIRECT_LIGHT_MARKER,
    DIRECT_LIGHT_MARKER_ERROR, OCEAN_MARKER_ERROR, OCEAN_NORMAL_BASE, SHADOW_INSERTION_MARKER,
    SHADOW_MARKER_ERROR,
};

const TERRAIN_SHADOW_MODULE: &str = "float terrain_shadow_visibility(vec3 p, vec3 g, vec3 l, float land) {\n    if (u_camera_altitude_m > 750000.0) { return 1.0; }\n    return land;\n}";

const OCEAN_SURFACE_MODULE: &str = "float deep_water_angular_frequency(float k) { return sqrt(9.81 * k); }\nvec3 ocean_normal(vec3 point, vec3 geometric) { return geometric; }";

fn lighting_base() -> String {
    format!(
        "void prelude() {{}}\n{SHADOW_INSERTION_MARKER}\n    return 1.0;\n}}\nvoid light() {{\n{DIRECT_LIGHT_MARKER}\n}}\n"
    )
}

fn detailed_base() -> String {
    format!(
        "{OCEAN_NORMAL_BASE}\nvoid atmosphere() {{\n{ATMOSPHERE_RAYMARCH_BASE}\n    }}\n}}\nvoid clouds() {{\n{CLOUD_RAYMARCH_BASE}\n    }}\n}}\n{CLOUD_LIGHT_TRANSMISSION_BASE}\n{}",
        lighting_base()
    )
}

#[test]
fn planet_shader_exact_replacement_rejects_missing_and_duplicate_markers() {
    assert!(replace_exactly_once("abc", "x", "y", "missing").is_err());
    assert!(replace_exactly_once("x-x", "x", "y", "duplicate").is_err());
    assert_eq!(
        replace_exactly_once("a-x-b", "x", "y", "error"),
        Ok("a-y-b".to_owned())
    );
}

#[test]
fn exact_replacement_reports_the_given_error() {
    assert_eq!(replace_exactly_once("abc", "x", "y", "missing"), Err("missing"));
    assert_eq!(replace_exactly_once("x-x", "x", "y", "duplicate"), Err("duplicate"));
}

#[test]
fn exact_replacement_counts_non_overlapping_matches() {
    assert_eq!(replace_exactly_once("aaa", "aa", "b", "error"), Ok("ba".to_owned()));
    assert_eq!(replace_exactly_once("aaaa", "aa", "b", "error"), Err("error"));
}

#[test]
fn exact_replacement_handles_multibyte_text() {
    assert_eq!(
        replace_exactly_once("ä→x←ö", "x", "yz", "error"),
        Ok("ä→yz←ö".to_owned())
    );
}

#[test]
fn composed_shader_has_one_terrain_shadow_function_and_use_site() {
    let shader =
        planet_shader::fragment_source(&lighting_base(), TERRAIN_SHADOW_MODULE).expect("markers");
    assert_eq!(shader.matches("float terrain_shadow_visibility(").count(), 1);
    assert_eq!(shader.matches("* terrain_light;").count(), 1);
    assert!(shader.contains("u_camera_altitude_m > 750000.0"));
    assert_eq!(shader.matches(SHADOW_INSERTION_MARKER).count(), 1);
    assert!(shader.contains(&format!("{TERRAIN_SHADOW_MODULE}\n\n{SHADOW_INSERTION_MARKER}")));
    assert!(!shader.contains(DIRECT_LIGHT_MARKER));
}

#[test]
fn composition_reports_the_first_missing_marker() {
    assert_eq!(
        planet_shader::fragment_source("void main() {}", TERRAIN_SHADOW_MODULE),
        Err(SHADOW_MARKER_ERROR)
    );
    let without_light = format!("{SHADOW_INSERTION_MARKER}\n}}\n");
    assert_eq!(
        planet_shader::fragment_source(&without_light, TERRAIN_SHADOW_MODULE),
        Err(DIRECT_LIGHT_MARKER_ERROR)
    );
}

#[test]
fn startup_shader_is_the_orbital_shader_unchanged() {
    let orbital = "void main() { gl_FragColor = vec4(1.0); }";
    assert_eq!(fragment_source(orbital), Ok(orbital.to_owned()));
}

#[test]
fn detailed_shader_splices_every_module_once() {
    let shader =
        detailed_fragment_source(&detailed_base(), OCEAN_SURFACE_MODULE, TERRAIN_SHADOW_MODULE)
            .expect("markers");
    assert_eq!(shader.matches("float terrain_shadow_visibility(").count(), 1);
    assert_eq!(shader.matches("* terrain_light;").count(), 1);
    assert_eq!(shader.matches("float deep_water_angular_frequency(").count(), 1);
    assert_eq!(shader.matches("vec3 ocean_normal(").count(), 1);
    assert!(!shader.contains("float wave_a = sin("));
    assert!(shader.contains("int atmosphere_sample_count"));
    assert!(shader.contains("sample_index >= atmosphere_sample_count"));
    assert!(shader.contains("int cloud_sample_count"));
    assert!(shader.contains("sample_index >= cloud_sample_count"));
    assert!(shader.contains("step_index < 2"));
    assert!(shader.contains("sample_jitter"));
    assert!(!shader.contains(CLOUD_LIGHT_TRANSMISSION_BASE));
}

#[test]
fn detailed_shader_drops_trailing_whitespace_of_the_ocean_module() {
    let padded = format!("{OCEAN_SURFACE_MODULE}\n\n  \t\n");
    let trimmed =
        detailed_fragment_source(&detailed_base(), &padded, TERRAIN_SHADOW_MODULE).expect("markers");
    let untrimmed =
        compose_detailed_fragment_source(&detailed_base(), &padded, TERRAIN_SHADOW_MODULE)
            .expect("markers");
    assert!(!trimmed.contains(&padded));
    assert!(untrimmed.contains(&padded));
    assert_eq!(
        trimmed,
        compose_detailed_fragment_source(&detailed_base(), OCEAN_SURFACE_MODULE, TERRAIN_SHADOW_MODULE)
            .expect("markers")
    );
}

#[test]
fn detailed_shader_reports_missing_quality_markers() {
    assert_eq!(
        detailed_fragment_source(&lighting_base(), OCEAN_SURFACE_MODULE, TERRAIN_SHADOW_MODULE),
        Err(OCEAN_MARKER_ERROR)
    );
    let ocean_only = format!("{OCEAN_NORMAL_BASE}\n{}", lighting_base());
    assert_eq!(
        detailed_fragment_source(&ocean_only, OCEAN_SURFACE_MODULE, TERRAIN_SHADOW_MODULE),
        Err(ATMOSPHERE_MARKER_ERROR)
    );
}

#[test]
fn ocean_module_trimming_follows_unicode_white_space() {
    let padded = format!("{OCEAN_SURFACE_MODULE}\u{a0}\u{3000}\u{2029}\r\n");
    assert_eq!(
        detailed_fragment_source(&detailed_base(), &padded, TERRAIN_SHADOW_MODULE),
        compose_detailed_fragment_source(&detailed_base(), OCEAN_SURFACE_MODULE, TERRAIN_SHADOW_MODULE)
    );
    let kept = format!("{OCEAN_SURFACE_MODULE}\u{feff}");
    let shader = detailed_fragment_source(&detailed_base(), &kept, TERRAIN_SHADOW_MODULE)
        .expect("markers");
    assert!(shader.contains(&kept));
}

#[test]
fn detailed_shader_reports_missing_cloud_markers() {
    let without_clouds = format!(
        "{OCEAN_NORMAL_BASE}\n{ATMOSPHERE_RAYMARCH_BASE}\n{}",
        lighting_base()
    );
    assert_eq!(
        detailed_fragment_source(&without_clouds, OCEAN_SURFACE_MODULE, TERRAIN_SHADOW_MODULE),
        Err(CLOUD_MARKER_ERROR)
    );
    let without_cloud_light = format!(
        "{OCEAN_NORMAL_BASE}\n{ATMOSPHERE_RAYMARCH_BASE}\n{CLOUD_RAYMARCH_BASE}\n{}",
        lighting_base()
    );
    assert_eq!(
        detailed_fragment_source(&without_cloud_light, OCEAN_SURFACE_MODULE, TERRAIN_SHADOW_MODULE),
        Err(CLOUD_LIGHT_MARKER_ERROR)
    );
    let twice = format!("{}{}", detailed_base(), CLOUD_LIGHT_TRANSMISSION_BASE);
    assert_eq!(
        detailed_fragment_source(&twice, OCEAN_SURFACE_MODULE, TERRAIN_SHADOW_MODULE),
        Err(CLOUD_LIGHT_MARKER_ERROR)
    );
}
