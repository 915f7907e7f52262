//! Earth surface level-of-detail tiers.

use vstd::prelude::*;

verus! {

/// Surface imagery tier: the global reference texture, or the orbital texture when it is
/// available and the camera is close enough.
#[derive(Clone, Copy, Debug, PartialEq, Eq)]
pub enum SurfaceTier {
    Global,
    Orbital,
}

} // verus!
