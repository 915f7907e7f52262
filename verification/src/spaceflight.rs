//! Logical input of the noclip navigation for astronomical-scale installations.

use vstd::prelude::*;

verus! {

/// Navigation actions held during a frame.
#[derive(Clone, Copy, Debug, Default, PartialEq, Eq)]
pub struct SpaceflightInput {
    pub forward: bool,
    pub backward: bool,
    pub left: bool,
    pub right: bool,
    pub ascend: bool,
    pub descend: bool,
    pub fast: bool,
    pub brake: bool,
}

} // verus!
