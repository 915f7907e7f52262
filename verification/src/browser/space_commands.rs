//! Installation-specific keys of the astronomical free flight: held modifiers and one-shot
//! camera and clock commands.

use vstd::prelude::*;
use crate::browser::runtime::ActionState;
use crate::text::str_equal;
use crate::world_in_light::exhibition_camera::SpaceflightInput;

verus! {

/// One-shot commands of the free-flight installation.
#[derive(Clone, Copy, Debug, PartialEq, Eq, Structural)]
pub enum SpaceCommand {
    PointAtEarth,
    ResetView,
    SlowerCamera,
    FasterCamera,
    CycleTimeScale,
}

/// The one-shot command bound to `code`, if any.
pub open spec fn command_bound_to(code: Seq<char>) -> Option<SpaceCommand> {
    if code == "KeyF"@ {
        Some(SpaceCommand::PointAtEarth)
    } else if code == "KeyR"@ {
        Some(SpaceCommand::ResetView)
    } else if code == "KeyZ"@ {
        Some(SpaceCommand::SlowerCamera)
    } else if code == "KeyC"@ {
        Some(SpaceCommand::FasterCamera)
    } else if code == "KeyT"@ {
        Some(SpaceCommand::CycleTimeScale)
    } else {
        None
    }
}

/// Keys that belong to the installation rather than to the configurable actions.
pub open spec fn is_command_key(code: Seq<char>) -> bool {
    code == "ShiftLeft"@ || code == "ShiftRight"@ || code == "KeyX"@ || command_bound_to(code) is Some
}

/// Modifier keys held in the free-flight installation.
#[derive(Clone, Copy, Debug, Default, PartialEq, Eq)]
pub struct SpaceCommandKeys {
    pub shift_left: bool,
    pub shift_right: bool,
    pub braking: bool,
}

impl SpaceCommandKeys {
    /// Updates the held modifiers for a key event and reports whether the key belongs to the
    /// installation, with the one-shot command that a first press triggers.
    pub fn command_key_changed(&mut self, code: &str, pressed: bool, repeat: bool) -> (r: (
        bool,
        Option<SpaceCommand>,
    ))
        ensures
            r.0 == is_command_key(code@),
            r.1 == (if pressed && !repeat {
                command_bound_to(code@)
            } else {
                None
            }),
            final(self).shift_left == (if code@ == "ShiftLeft"@ {
                pressed
            } else {
                old(self).shift_left
            }),
            final(self).shift_right == (if code@ == "ShiftRight"@ {
                pressed
            } else {
                old(self).shift_right
            }),
            final(self).braking == (if code@ == "KeyX"@ {
                pressed
            } else {
                old(self).braking
            }),
    {
        proof {
            reveal_strlit("ShiftLeft");
            reveal_strlit("ShiftRight");
            reveal_strlit("KeyX");
            reveal_strlit("KeyF");
            reveal_strlit("KeyR");
            reveal_strlit("KeyZ");
            reveal_strlit("KeyC");
            reveal_strlit("KeyT");
            assert("ShiftLeft"@.len() == 9 && "ShiftRight"@.len() == 10);
            assert("KeyX"@.len() == 4 && "KeyX"@[3] == 'X');
            assert("KeyF"@.len() == 4 && "KeyF"@[3] == 'F');
            assert("KeyR"@.len() == 4 && "KeyR"@[3] == 'R');
            assert("KeyZ"@.len() == 4 && "KeyZ"@[3] == 'Z');
            assert("KeyC"@.len() == 4 && "KeyC"@[3] == 'C');
            assert("KeyT"@.len() == 4 && "KeyT"@[3] == 'T');
        }
        if str_equal(code, "ShiftLeft") {
            self.shift_left = pressed;
            return (true, None);
        }
        if str_equal(code, "ShiftRight") {
            self.shift_right = pressed;
            return (true, None);
        }
        if str_equal(code, "KeyX") {
            self.braking = pressed;
            return (true, None);
        }
        let command = if str_equal(code, "KeyF") {
            SpaceCommand::PointAtEarth
        } else if str_equal(code, "KeyR") {
            SpaceCommand::ResetView
        } else if str_equal(code, "KeyZ") {
            SpaceCommand::SlowerCamera
        } else if str_equal(code, "KeyC") {
            SpaceCommand::FasterCamera
        } else if str_equal(code, "KeyT") {
            SpaceCommand::CycleTimeScale
        } else {
            return (false, None);
        };
        if pressed && !repeat {
            (true, Some(command))
        } else {
            (true, None)
        }
    }

    /// The camera input of a frame: the held actions, with either shift key accelerating
    /// and the brake key stopping.
    pub fn spaceflight_input(&self, actions: ActionState) -> (r: SpaceflightInput)
        ensures
            r.forward == actions.forward,
            r.backward == actions.backward,
            r.left == actions.left,
            r.right == actions.right,
            r.ascend == actions.jump,
            r.descend == actions.crouch,
            r.accelerated == (self.shift_left || self.shift_right),
            r.stop == self.braking,
    {
        SpaceflightInput {
            forward: actions.forward,
            backward: actions.backward,
            left: actions.left,
            right: actions.right,
            ascend: actions.jump,
            descend: actions.crouch,
            accelerated: self.shift_left || self.shift_right,
            stop: self.braking,
        }
    }
}

} // verus!
