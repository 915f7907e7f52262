//! Visitor actions that the gallery shell binds to keys.

use vstd::prelude::*;

verus! {

#[derive(Clone, Copy, Debug, PartialEq, Eq, Structural)]
pub enum VisitorAction {
    Forward,
    Backward,
    Left,
    Right,
    Jump,
    Crouch,
}

/// Label of an action in the settings panel.
pub open spec fn action_label(action: VisitorAction) -> Seq<char> {
    match action {
        VisitorAction::Forward => "Forward"@,
        VisitorAction::Backward => "Backward"@,
        VisitorAction::Left => "Strafe left"@,
        VisitorAction::Right => "Strafe right"@,
        VisitorAction::Jump => "Jump / ascend"@,
        VisitorAction::Crouch => "Crouch / descend"@,
    }
}

impl VisitorAction {
    /// Every action, in the order of the settings panel.
    pub fn all() -> (r: [VisitorAction; 6])
        ensures
            r@ == seq![
                VisitorAction::Forward,
                VisitorAction::Backward,
                VisitorAction::Left,
                VisitorAction::Right,
                VisitorAction::Jump,
                VisitorAction::Crouch,
            ],
    {
        [
            VisitorAction::Forward,
            VisitorAction::Backward,
            VisitorAction::Left,
            VisitorAction::Right,
            VisitorAction::Jump,
            VisitorAction::Crouch,
        ]
    }

    /// Label of the action in the settings panel.
    pub fn label(self) -> (r: &'static str)
        ensures
            r@ == action_label(self),
    {
        match self {
            VisitorAction::Forward => "Forward",
            VisitorAction::Backward => "Backward",
            VisitorAction::Left => "Strafe left",
            VisitorAction::Right => "Strafe right",
            VisitorAction::Jump => "Jump / ascend",
            VisitorAction::Crouch => "Crouch / descend",
        }
    }
}

/// Which actions are held during a frame.
#[derive(Clone, Copy, Debug, Default, PartialEq, Eq)]
pub struct ActionState {
    pub forward: bool,
    pub backward: bool,
    pub left: bool,
    pub right: bool,
    pub jump: bool,
    pub crouch: bool,
}

} // verus!
