//! Browser-independent parts of the gallery's browser adapter.

pub mod earth_surface;
pub mod runtime;
pub mod controls;
pub mod artworks;
pub mod space_commands;
pub mod room_controls;
