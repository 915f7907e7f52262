//! Renderer-independent domain of the astronomical installation A World in Light.

pub mod planet_shader;
pub mod exhibition_camera;
pub mod star_catalogue;
pub mod celestial_bounds;
