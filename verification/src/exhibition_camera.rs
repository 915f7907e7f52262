//! Logical input of the gallery shell's astronomical exhibition camera.

use vstd::prelude::*;

verus! {

/// Camera actions held during a frame.
#[derive(Clone, Copy, Debug, Default, PartialEq, Eq)]
pub struct SpaceflightInput {
    pub forward: bool,
    pub backward: bool,
    pub left: bool,
    pub right: bool,
    pub ascend: bool,
    pub descend: bool,
    pub accelerated: bool,
    pub stop: bool,
}

} // verus!
