//! Deterministic planetary shader selection and detailed-shader composition.
//!
//! The GLSL sources are handed in by the caller; this module decides what is compiled and
//! splices the quality and lighting modules into the detailed shader at stable markers.

use vstd::prelude::*;
use vstd::string::StringExecFns;
use crate::text::{text_result, then_replace, trim_end, trimmed_end};

pub use crate::text::replace_exactly_once;

verus! {

pub const OCEAN_NORMAL_BASE: &'static str = r#"vec3 ocean_normal(vec3 point, vec3 geometric) {
    vec3 radial = normalize(point - u_earth_center_m);
    vec3 local = earth_fixed_direction(point);
    vec3 tangent = cross(abs(radial.y) < 0.95 ? vec3(0.0, 1.0, 0.0) : vec3(1.0, 0.0, 0.0), radial);
    tangent = normalize(tangent);
    vec3 bitangent = normalize(cross(radial, tangent));
    float time = u_time;
    float wave_a = sin(local.x * 1100.0 + local.z * 740.0 + time * 0.85);
    float wave_b = sin(local.z * 1550.0 - local.x * 430.0 + time * 1.17);
    float wave_c = noise3(local * 950.0 + vec3(time * 0.02, 0.0, -time * 0.015)) * 2.0 - 1.0;
    return normalize(geometric + tangent * (wave_a + wave_c) * 0.012 + bitangent * wave_b * 0.010);
}"#;

pub const ATMOSPHERE_RAYMARCH_BASE: &'static str = r#"    float step_length = (end_distance - start_distance) / 10.0;
    vec3 view_depth = vec3(0.0);
    vec3 rayleigh_sum = vec3(0.0);
    vec3 mie_sum = vec3(0.0);
    for (int sample_index = 0; sample_index < 10; ++sample_index) {
        float distance_along_ray = start_distance + (float(sample_index) + 0.5) * step_length;"#;

pub const ATMOSPHERE_RAYMARCH_REPLACEMENT: &'static str = r#"    int atmosphere_sample_count = u_camera_altitude_m < 500000.0
        ? 10
        : (u_camera_altitude_m < 5000000.0 ? 8 : 6);
    float step_length = (end_distance - start_distance) / float(atmosphere_sample_count);
    vec3 view_depth = vec3(0.0);
    vec3 rayleigh_sum = vec3(0.0);
    vec3 mie_sum = vec3(0.0);
    for (int sample_index = 0; sample_index < 10; ++sample_index) {
        if (sample_index >= atmosphere_sample_count) {
            break;
        }
        float distance_along_ray = start_distance + (float(sample_index) + 0.5) * step_length;"#;

pub const CLOUD_RAYMARCH_BASE: &'static str = r#"    float step_length = (end_distance - start_distance) / 8.0;
    for (int sample_index = 0; sample_index < 8; ++sample_index) {
        float distance_along_ray = start_distance + (float(sample_index) + 0.5) * step_length;"#;

pub const CLOUD_RAYMARCH_REPLACEMENT: &'static str = r#"    int cloud_sample_count = u_camera_altitude_m < 500000.0
        ? 8
        : (u_camera_altitude_m < 2000000.0 ? 6 : 4);
    float step_length = (end_distance - start_distance) / float(cloud_sample_count);
    float sample_jitter = mix(0.2, 0.8, hash31(vec3(gl_FragCoord.xy, 17.0)));
    for (int sample_index = 0; sample_index < 8; ++sample_index) {
        if (sample_index >= cloud_sample_count) {
            break;
        }
        float distance_along_ray =
            start_distance + (float(sample_index) + sample_jitter) * step_length;"#;

pub const CLOUD_LIGHT_TRANSMISSION_BASE: &'static str = r#"float cloud_light_transmission(vec3 point, vec3 light_direction) {
    float optical = 0.0;
    for (int step_index = 0; step_index < 4; ++step_index) {
        float distance_along_light = (float(step_index) + 1.0) * 3600.0;
        optical += cloud_density(point + light_direction * distance_along_light);
    }
    return exp(-optical * 0.72);
}"#;

pub const CLOUD_LIGHT_TRANSMISSION_REPLACEMENT: &'static str = r#"float cloud_light_transmission(vec3 point, vec3 light_direction) {
    float optical = 0.0;
    for (int step_index = 0; step_index < 2; ++step_index) {
        float distance_along_light = (float(step_index) + 1.0) * 6000.0;
        optical += cloud_density(point + light_direction * distance_along_light);
    }
    return exp(-optical * 1.05);
}"#;

pub const SHADOW_INSERTION_MARKER: &'static str = "float cloud_shadow(vec3 surface_point, vec3 light_direction) {";

pub const DIRECT_LIGHT_MARKER: &'static str = "    float direct = n_dot_l * visibility * cloud_light;";

pub const DIRECT_LIGHT_REPLACEMENT: &'static str = r#"    float terrain_light = n_dot_l > 0.0
        ? terrain_shadow_visibility(point, geometric, light_direction, land)
        : 1.0;
    float direct = n_dot_l * visibility * cloud_light * terrain_light;"#;

pub const OCEAN_MARKER_ERROR: &'static str = "planet shader ocean-normal marker is missing or duplicated";

pub const ATMOSPHERE_MARKER_ERROR: &'static str = "planet shader atmosphere-raymarch marker is missing or duplicated";

pub const CLOUD_MARKER_ERROR: &'static str = "planet shader cloud-raymarch marker is missing or duplicated";

pub const CLOUD_LIGHT_MARKER_ERROR: &'static str = "planet shader cloud-light marker is missing or duplicated";

pub const SHADOW_MARKER_ERROR: &'static str = "planet shader terrain-shadow insertion marker is missing or duplicated";

pub const DIRECT_LIGHT_MARKER_ERROR: &'static str = "planet shader direct-light marker is missing or duplicated";

/// The terrain-shadow module followed by a blank line and the marker it is inserted before.
pub open spec fn shadow_insertion(terrain_shadow_module: Seq<char>) -> Seq<char> {
    terrain_shadow_module + seq!['\n', '\n'] + SHADOW_INSERTION_MARKER@
}

/// The detailed shader: the ocean module replaces the legacy ocean normal, the atmosphere and
/// cloud raymarches and the cloud light transmission get their altitude-dependent quality,
/// the terrain-shadow module is inserted before the cloud shadow, and direct light is
/// attenuated by terrain shadow. The first missing or repeated marker decides the error.
pub open spec fn detailed_shader(
    base: Seq<char>,
    ocean_surface_module: Seq<char>,
    terrain_shadow_module: Seq<char>,
) -> Result<Seq<char>, Seq<char>> {
    let with_ocean = then_replace(Ok(base), OCEAN_NORMAL_BASE@, ocean_surface_module, OCEAN_MARKER_ERROR@);
    let with_atmosphere = then_replace(
        with_ocean,
        ATMOSPHERE_RAYMARCH_BASE@,
        ATMOSPHERE_RAYMARCH_REPLACEMENT@,
        ATMOSPHERE_MARKER_ERROR@,
    );
    let with_clouds = then_replace(
        with_atmosphere,
        CLOUD_RAYMARCH_BASE@,
        CLOUD_RAYMARCH_REPLACEMENT@,
        CLOUD_MARKER_ERROR@,
    );
    let with_cloud_light = then_replace(
        with_clouds,
        CLOUD_LIGHT_TRANSMISSION_BASE@,
        CLOUD_LIGHT_TRANSMISSION_REPLACEMENT@,
        CLOUD_LIGHT_MARKER_ERROR@,
    );
    let with_shadow = then_replace(
        with_cloud_light,
        SHADOW_INSERTION_MARKER@,
        shadow_insertion(terrain_shadow_module),
        SHADOW_MARKER_ERROR@,
    );
    then_replace(with_shadow, DIRECT_LIGHT_MARKER@, DIRECT_LIGHT_REPLACEMENT@, DIRECT_LIGHT_MARKER_ERROR@)
}

/// Shader compiled synchronously when the visitor enters the Earth installation: the small
/// orbital shader, unchanged.
pub fn fragment_source(orbital_fragment: &str) -> (r: Result<String, &'static str>)
    ensures
        r matches Ok(text) && text@ == orbital_fragment@,
{
    Ok(String::from_str(orbital_fragment))
}

/// The terrain-shadow insertion text.
pub(crate) fn insertion_for(terrain_shadow_module: &str) -> (r: String)
    ensures
        r@ == shadow_insertion(terrain_shadow_module@),
{
    let mut insertion = String::from_str(terrain_shadow_module);
    let blank_line = "\n\n";
    proof {
        reveal_strlit("\n\n");
    }
    insertion.append(blank_line);
    insertion.append(SHADOW_INSERTION_MARKER);
    insertion
}

/// Builds the near-surface shader from its base and modules; the ocean module is used as
/// given.
pub fn compose_detailed_fragment_source(
    planet_fragment_base: &str,
    ocean_surface_module: &str,
    terrain_shadow_module: &str,
) -> (r: Result<String, &'static str>)
    ensures
        text_result(r) == detailed_shader(
            planet_fragment_base@,
            ocean_surface_module@,
            terrain_shadow_module@,
        ),
{
    let with_ocean = match replace_exactly_once(
        planet_fragment_base,
        OCEAN_NORMAL_BASE,
        ocean_surface_module,
        OCEAN_MARKER_ERROR,
    ) {
        Ok(text) => text,
        Err(error) => {
            return Err(error);
        },
    };
    let with_atmosphere = match replace_exactly_once(
        with_ocean.as_str(),
        ATMOSPHERE_RAYMARCH_BASE,
        ATMOSPHERE_RAYMARCH_REPLACEMENT,
        ATMOSPHERE_MARKER_ERROR,
    ) {
        Ok(text) => text,
        Err(error) => {
            return Err(error);
        },
    };
    let with_clouds = match replace_exactly_once(
        with_atmosphere.as_str(),
        CLOUD_RAYMARCH_BASE,
        CLOUD_RAYMARCH_REPLACEMENT,
        CLOUD_MARKER_ERROR,
    ) {
        Ok(text) => text,
        Err(error) => {
            return Err(error);
        },
    };
    let with_cloud_light = match replace_exactly_once(
        with_clouds.as_str(),
        CLOUD_LIGHT_TRANSMISSION_BASE,
        CLOUD_LIGHT_TRANSMISSION_REPLACEMENT,
        CLOUD_LIGHT_MARKER_ERROR,
    ) {
        Ok(text) => text,
        Err(error) => {
            return Err(error);
        },
    };
    let insertion = insertion_for(terrain_shadow_module);
    let with_shadow = match replace_exactly_once(
        with_cloud_light.as_str(),
        SHADOW_INSERTION_MARKER,
        insertion.as_str(),
        SHADOW_MARKER_ERROR,
    ) {
        Ok(text) => text,
        Err(error) => {
            return Err(error);
        },
    };
    replace_exactly_once(
        with_shadow.as_str(),
        DIRECT_LIGHT_MARKER,
        DIRECT_LIGHT_REPLACEMENT,
        DIRECT_LIGHT_MARKER_ERROR,
    )
}

/// Builds the higher-cost near-surface shader, with the ocean module's trailing whitespace
/// removed, without making it part of installation startup.
pub fn detailed_fragment_source(
    planet_fragment_base: &str,
    ocean_surface_module: &str,
    terrain_shadow_module: &str,
) -> (r: Result<String, &'static str>)
    ensures
        text_result(r) == detailed_shader(
            planet_fragment_base@,
            trimmed_end(ocean_surface_module@),
            terrain_shadow_module@,
        ),
{
    compose_detailed_fragment_source(
        planet_fragment_base,
        trim_end(ocean_surface_module),
        terrain_shadow_module,
    )
}

} // verus!
