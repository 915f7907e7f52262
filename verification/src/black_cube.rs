//! Logical visitor actions of the Black Cube / White Room installation.

use vstd::prelude::*;

verus! {

/// Logical room actions supplied by an adapter.
///
/// This type knows nothing about keyboard codes or browser storage. `jump_pressed` is an
/// edge-triggered action; crouch is a held action.
#[derive(Clone, Copy, Debug, Default, PartialEq, Eq)]
pub struct PlayerInput {
    pub forward: bool,
    pub backward: bool,
    pub left: bool,
    pub right: bool,
    pub jump_pressed: bool,
    pub crouch: bool,
}

} // verus!
