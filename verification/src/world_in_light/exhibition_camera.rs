//! Inspection targets and logical input of the astronomical free-flight camera.

use vstd::prelude::*;

verus! {

#[derive(Clone, Copy, Debug, PartialEq, Eq, Structural)]
pub enum CelestialTarget {
    Earth,
    EarthSurface,
    Moon,
    Sun,
}

/// Position of a target in the browser control's cycle.
pub open spec fn target_order(target: CelestialTarget) -> int {
    match target {
        CelestialTarget::Earth => 0,
        CelestialTarget::EarthSurface => 1,
        CelestialTarget::Moon => 2,
        CelestialTarget::Sun => 3,
    }
}

impl CelestialTarget {
    /// The target after this one in the fixed cycle Earth, Earth surface, Moon, Sun.
    pub fn next(self) -> (r: Self)
        ensures
            target_order(r) == (target_order(self) + 1) % 4,
    {
        match self {
            CelestialTarget::Earth => CelestialTarget::EarthSurface,
            CelestialTarget::EarthSurface => CelestialTarget::Moon,
            CelestialTarget::Moon => CelestialTarget::Sun,
            CelestialTarget::Sun => CelestialTarget::Earth,
        }
    }

    /// Visitor-facing name of the target.
    pub fn label(self) -> (r: &'static str)
        ensures
            self == CelestialTarget::Earth ==> r@ == "Earth"@,
            self == CelestialTarget::EarthSurface ==> r@ == "Earth surface"@,
            self == CelestialTarget::Moon ==> r@ == "Moon"@,
            self == CelestialTarget::Sun ==> r@ == "Sun"@,
    {
        match self {
            CelestialTarget::Earth => "Earth",
            CelestialTarget::EarthSurface => "Earth surface",
            CelestialTarget::Moon => "Moon",
            CelestialTarget::Sun => "Sun",
        }
    }
}

/// The cycle visits every target exactly once before returning: four successive `next`
/// steps from any target pass through four different targets and end where they began.
pub proof fn lemma_target_cycle(
    first: CelestialTarget,
    second: CelestialTarget,
    third: CelestialTarget,
    fourth: CelestialTarget,
    fifth: CelestialTarget,
)
    requires
        target_order(second) == (target_order(first) + 1) % 4,
        target_order(third) == (target_order(second) + 1) % 4,
        target_order(fourth) == (target_order(third) + 1) % 4,
        target_order(fifth) == (target_order(fourth) + 1) % 4,
    ensures
        fifth == first,
        first != second && first != third && first != fourth,
        second != third && second != fourth,
        third != fourth,
{
}

/// Logical camera actions supplied by the browser adapter.
#[derive(Clone, Copy, Debug, Default, PartialEq, Eq)]
pub struct SpaceflightInput {
    pub forward: bool,
    pub backward: bool,
    pub left: bool,
    pub right: bool,
    pub ascend: bool,
    pub descend: bool,
    pub accelerated: bool,
    pub stop: bool,
}

} // verus!
