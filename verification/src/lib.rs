//! Verified renderer-independent core of the Black Cube gallery.

pub mod planet_tiles;
pub mod tile_cache;
pub mod tile_streaming;
pub mod text;
pub mod gallery_core;
pub mod descriptors;
pub mod artwork;
pub mod input;
pub mod world_in_light;
pub mod planet_shader;
pub mod black_cube;
pub mod exhibition_camera;
pub mod spaceflight;
pub mod surface_lod;
pub mod fps;
pub mod browser;
