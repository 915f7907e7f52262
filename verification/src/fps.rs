//! Key bindings and logical input of the first-person room.

use vstd::prelude::*;
use vstd::string::StringExecFns;
use crate::input::{default_codes, fallback_codes, first_unused, is_supported_code, sanitize_codes, sanitized_codes};

verus! {

#[derive(Clone, Debug, PartialEq, Eq)]
pub struct KeyBindings {
    pub forward: String,
    pub backward: String,
    pub left: String,
    pub right: String,
    pub jump: String,
    pub crouch: String,
}

impl KeyBindings {
    /// Bound keys in action order: forward, backward, left, right, jump, crouch.
    pub open spec fn codes(&self) -> Seq<Seq<char>> {
        seq![self.forward@, self.backward@, self.left@, self.right@, self.jump@, self.crouch@]
    }

    /// The same bindings with every unsupported or repeated key replaced.
    pub fn sanitized(self) -> (r: Self)
        ensures
            r.codes() == sanitized_codes(self.codes(), default_codes(), Seq::empty()),
    {
        let (forward, backward, left, right, jump, crouch) = sanitize_codes(
            &self.forward,
            &self.backward,
            &self.left,
            &self.right,
            &self.jump,
            &self.crouch,
        );
        KeyBindings { forward, backward, left, right, jump, crouch }
    }
}

impl Default for KeyBindings {
    fn default() -> (r: Self)
        ensures
            r.codes() == default_codes(),
    {
        KeyBindings {
            forward: String::from_str("KeyW"),
            backward: String::from_str("KeyS"),
            left: String::from_str("KeyA"),
            right: String::from_str("KeyD"),
            jump: String::from_str("Space"),
            crouch: String::from_str("ControlLeft"),
        }
    }
}

/// The first of the action's default and the fallback keys that no earlier action uses.
pub fn first_available_binding<'a>(preferred: &'a str, used: &[String]) -> (r: &'a str)
    ensures
        r@ == first_unused(seq![preferred@] + fallback_codes(), used@.map_values(|s: String| s@)),
{
    crate::input::first_available_binding(preferred, used)
}

/// Whether `code` is a key code that an action may be bound to.
pub fn is_supported_key_code(code: &str) -> (r: bool)
    ensures
        r == is_supported_code(code@),
{
    crate::input::is_supported_key_code(code)
}

/// Room actions held during a frame.
#[derive(Clone, Copy, Debug, Default, PartialEq, Eq)]
pub struct FpsInput {
    pub forward: bool,
    pub backward: bool,
    pub left: bool,
    pub right: bool,
    pub crouch: bool,
}

} // verus!
