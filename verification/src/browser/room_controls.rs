//! Action handling of the Black Cube / White Room installation: jumping is an edge, latched
//! until the next frame; the other actions are held.

use vstd::prelude::*;
use crate::black_cube::PlayerInput;
use crate::browser::runtime::{ActionState, VisitorAction};

verus! {

/// Room action edges waiting for the next frame.
#[derive(Clone, Copy, Debug, Default, PartialEq, Eq)]
pub struct RoomActions {
    pub jump_requested: bool,
}

impl RoomActions {
    /// A first press of jump requests a jump; every other change is left to the held state.
    pub fn action_changed(&mut self, action: VisitorAction, pressed: bool, repeat: bool)
        ensures
            final(self).jump_requested == (old(self).jump_requested || (action
                == VisitorAction::Jump && pressed && !repeat)),
    {
        if action == VisitorAction::Jump && pressed && !repeat {
            self.jump_requested = true;
        }
    }

    /// The player input of a frame; a pending jump request is consumed.
    pub fn player_input(&mut self, actions: ActionState) -> (r: PlayerInput)
        ensures
            r.forward == actions.forward,
            r.backward == actions.backward,
            r.left == actions.left,
            r.right == actions.right,
            r.jump_pressed == old(self).jump_requested,
            r.crouch == actions.crouch,
            !final(self).jump_requested,
    {
        let jump_pressed = self.jump_requested;
        self.jump_requested = false;
        PlayerInput {
            forward: actions.forward,
            backward: actions.backward,
            left: actions.left,
            right: actions.right,
            jump_pressed,
            crouch: actions.crouch,
        }
    }
}

} // verus!
