//! Deterministic composition of the planetary fragment shader from small effect modules.
//!
//! The terrain cast-shadow module is injected at stable markers of the base shader, so new
//! lighting effects evolve without editing the large planet shader itself.

use vstd::prelude::*;
use crate::text::{text_result, then_replace};
use crate::world_in_light::planet_shader::{
    DIRECT_LIGHT_MARKER, DIRECT_LIGHT_MARKER_ERROR, DIRECT_LIGHT_REPLACEMENT,
    SHADOW_INSERTION_MARKER, SHADOW_MARKER_ERROR, insertion_for, shadow_insertion,
};

pub use crate::text::replace_exactly_once;

verus! {

/// The base shader with the terrain-shadow module inserted before the cloud shadow and direct
/// light attenuated by terrain shadow; the first missing or repeated marker decides the error.
pub open spec fn terrain_shadowed_shader(base: Seq<char>, terrain_shadow_module: Seq<char>) -> Result<
    Seq<char>,
    Seq<char>,
> {
    let with_shadow = then_replace(
        Ok(base),
        SHADOW_INSERTION_MARKER@,
        shadow_insertion(terrain_shadow_module),
        SHADOW_MARKER_ERROR@,
    );
    then_replace(with_shadow, DIRECT_LIGHT_MARKER@, DIRECT_LIGHT_REPLACEMENT@, DIRECT_LIGHT_MARKER_ERROR@)
}

/// Builds the fragment shader with terrain cast-shadow support injected at stable markers.
pub fn fragment_source(planet_fragment_base: &str, terrain_shadow_module: &str) -> (r: Result<
    String,
    &'static str,
>)
    ensures
        text_result(r) == terrain_shadowed_shader(planet_fragment_base@, terrain_shadow_module@),
{
    let insertion = insertion_for(terrain_shadow_module);
    let with_shadow = match replace_exactly_once(
        planet_fragment_base,
        SHADOW_INSERTION_MARKER,
        insertion.as_str(),
        SHADOW_MARKER_ERROR,
    ) {
        Ok(text) => text,
        Err(error) => {
            return Err(error);
        },
    };
    replace_exactly_once(
        with_shadow.as_str(),
        DIRECT_LIGHT_MARKER,
        DIRECT_LIGHT_REPLACEMENT,
        DIRECT_LIGHT_MARKER_ERROR,
    )
}

} // verus!
