//! The visitor's keyboard session: configurable bindings, the keys currently held, and key
//! capture while the visitor reassigns an action.
//!
//! Browser events are turned into calls on a `Session` by the shell; the session decides
//! which action a key drives and which actions are held in a frame.

use vstd::prelude::*;
use vstd::string::StringExecFns;
use crate::browser::runtime::{action_label, ActionState, VisitorAction};
use crate::input::{
    default_codes, is_supported_code, is_supported_key_code,
    lemma_sanitized_bindings_are_distinct_and_supported, sanitize_codes, sanitized_codes,
    KeyBindings,
};
use crate::text::{
    chars_lt, lemma_chars_lt_irreflexive, lemma_chars_lt_total, lemma_chars_lt_transitive,
    str_equal, str_less,
};

verus! {

/// Position of an action in the bindings: forward, backward, left, right, jump, crouch.
pub open spec fn action_index(action: VisitorAction) -> int {
    match action {
        VisitorAction::Forward => 0,
        VisitorAction::Backward => 1,
        VisitorAction::Left => 2,
        VisitorAction::Right => 3,
        VisitorAction::Jump => 4,
        VisitorAction::Crouch => 5,
    }
}

pub open spec fn is_control_code(code: Seq<char>) -> bool {
    code == "ControlLeft"@ || code == "ControlRight"@
}

/// A key drives an action when it is the bound key, or when the action is crouch bound to
/// either control key and the key is either control key.
pub open spec fn answers(action: VisitorAction, binding: Seq<char>, code: Seq<char>) -> bool {
    binding == code || (action == VisitorAction::Crouch && is_control_code(binding)
        && is_control_code(code))
}

/// The first action, in binding order, that `code` drives.
pub open spec fn action_answering(codes: Seq<Seq<char>>, code: Seq<char>) -> Option<VisitorAction> {
    if answers(VisitorAction::Forward, codes[0], code) {
        Some(VisitorAction::Forward)
    } else if answers(VisitorAction::Backward, codes[1], code) {
        Some(VisitorAction::Backward)
    } else if answers(VisitorAction::Left, codes[2], code) {
        Some(VisitorAction::Left)
    } else if answers(VisitorAction::Right, codes[3], code) {
        Some(VisitorAction::Right)
    } else if answers(VisitorAction::Jump, codes[4], code) {
        Some(VisitorAction::Jump)
    } else if answers(VisitorAction::Crouch, codes[5], code) {
        Some(VisitorAction::Crouch)
    } else {
        None
    }
}

/// An action is held when its bound key is held, or when it is crouch bound to a control key
/// and either control key is held.
pub open spec fn is_held(action: VisitorAction, binding: Seq<char>, pressed: Set<Seq<char>>) -> bool {
    pressed.contains(binding) || (action == VisitorAction::Crouch && is_control_code(binding) && (
    pressed.contains("ControlLeft"@) || pressed.contains("ControlRight"@)))
}

/// Every code comes before the codes after it.
pub open spec fn strictly_sorted(codes: Seq<Seq<char>>) -> bool {
    forall|i: int, j: int| 0 <= i < j < codes.len() ==> chars_lt(#[trigger] codes[i], #[trigger] codes[j])
}

pub open spec fn string_views(strings: Seq<String>) -> Seq<Seq<char>> {
    strings.map_values(|s: String| s@)
}

/// The bindings after a captured key replaced `action`'s binding and every binding was
/// sanitized.
pub open spec fn recaptured_codes(codes: Seq<Seq<char>>, action: VisitorAction, code: Seq<char>) -> Seq<Seq<char>> {
    sanitized_codes(codes.update(action_index(action), code), default_codes(), Seq::empty())
}

/// What a key press means for the shell.
#[derive(Clone, Copy, Debug, PartialEq, Eq)]
pub enum KeyDown {
    /// Left to the browser.
    Ignored,
    /// Captured as the new binding of the action being reassigned.
    Rebound,
    /// To be handed to the installation: the configurable action the key drives, if any,
    /// and the key itself as a possible installation command.
    Dispatch(Option<VisitorAction>),
}

/// Keyboard state of one mounted installation.
pub struct Session {
    bindings: KeyBindings,
    pressed: Vec<String>,
    listening: Option<VisitorAction>,
    active: bool,
    pointer_locked: bool,
}

impl Session {
    /// Bound key codes in action order.
    pub closed spec fn codes(&self) -> Seq<Seq<char>> {
        self.bindings.codes()
    }

    /// Held key codes, in lexicographic order.
    pub closed spec fn pressed_codes(&self) -> Seq<Seq<char>> {
        string_views(self.pressed@)
    }

    /// The set of held key codes.
    pub open spec fn pressed_keys(&self) -> Set<Seq<char>> {
        self.pressed_codes().to_set()
    }

    /// The action whose key is being captured, if any.
    pub closed spec fn spec_listening(&self) -> Option<VisitorAction> {
        self.listening
    }

    pub closed spec fn spec_active(&self) -> bool {
        self.active
    }

    pub closed spec fn spec_pointer_locked(&self) -> bool {
        self.pointer_locked
    }

    /// Held keys are kept sorted and without repeats, as in an ordered set.
    pub open spec fn wf(&self) -> bool {
        strictly_sorted(self.pressed_codes())
    }

    /// An active session with no held keys and no capture in progress.
    pub fn new(bindings: KeyBindings) -> (r: Self)
        ensures
            r.wf(),
            r.codes() == bindings.codes(),
            r.pressed_codes() == Seq::<Seq<char>>::empty(),
            r.spec_listening() is None,
            r.spec_active(),
            !r.spec_pointer_locked(),
    {
        let r = Session {
            bindings,
            pressed: Vec::new(),
            listening: None,
            active: true,
            pointer_locked: false,
        };
        assert(r.pressed_codes() =~= Seq::<Seq<char>>::empty());
        r
    }

    /// Stops reacting to input and forgets every held key.
    pub fn deactivate(&mut self)
        ensures
            final(self).wf(),
            final(self).codes() == old(self).codes(),
            final(self).pressed_codes() == Seq::<Seq<char>>::empty(),
            final(self).spec_listening() == old(self).spec_listening(),
            !final(self).spec_active(),
            final(self).spec_pointer_locked() == old(self).spec_pointer_locked(),
    {
        self.active = false;
        self.pressed.clear();
        assert(self.pressed_codes() =~= Seq::<Seq<char>>::empty());
    }

    pub fn is_active(&self) -> (r: bool)
        ensures
            r == self.spec_active(),
    {
        self.active
    }

    pub fn is_pointer_locked(&self) -> (r: bool)
        ensures
            r == self.spec_pointer_locked(),
    {
        self.pointer_locked
    }

    /// Records whether the pointer is locked to the installation.
    pub fn set_pointer_locked(&mut self, locked: bool)
        ensures
            final(self).spec_pointer_locked() == locked,
            final(self).codes() == old(self).codes(),
            final(self).pressed_codes() == old(self).pressed_codes(),
            final(self).spec_listening() == old(self).spec_listening(),
            final(self).spec_active() == old(self).spec_active(),
    {
        self.pointer_locked = locked;
    }

    /// The current bindings.
    pub fn bindings(&self) -> (r: &KeyBindings)
        ensures
            r.codes() == self.codes(),
    {
        &self.bindings
    }

    /// The key bound to `action`.
    pub fn binding(&self, action: VisitorAction) -> (r: &str)
        ensures
            r@ == self.codes()[action_index(action)],
    {
        match action {
            VisitorAction::Forward => self.bindings.forward.as_str(),
            VisitorAction::Backward => self.bindings.backward.as_str(),
            VisitorAction::Left => self.bindings.left.as_str(),
            VisitorAction::Right => self.bindings.right.as_str(),
            VisitorAction::Jump => self.bindings.jump.as_str(),
            VisitorAction::Crouch => self.bindings.crouch.as_str(),
        }
    }

    /// Text of the settings button of `action`: its label and its key.
    pub fn binding_button_text(&self, action: VisitorAction) -> (r: String)
        ensures
            r@ == action_label(action) + ": "@ + self.codes()[action_index(action)],
    {
        let mut text = String::from_str(action.label());
        let separator = ": ";
        proof {
            reveal_strlit(": ");
        }
        text.append(separator);
        text.append(self.binding(action));
        text
    }

    /// Binds `action` to `value`, as given.
    pub fn set_binding(&mut self, action: VisitorAction, value: String)
        ensures
            final(self).codes() == old(self).codes().update(action_index(action), value@),
            final(self).pressed_codes() == old(self).pressed_codes(),
            final(self).spec_listening() == old(self).spec_listening(),
            final(self).spec_active() == old(self).spec_active(),
            final(self).spec_pointer_locked() == old(self).spec_pointer_locked(),
    {
        match action {
            VisitorAction::Forward => self.bindings.forward = value,
            VisitorAction::Backward => self.bindings.backward = value,
            VisitorAction::Left => self.bindings.left = value,
            VisitorAction::Right => self.bindings.right = value,
            VisitorAction::Jump => self.bindings.jump = value,
            VisitorAction::Crouch => self.bindings.crouch = value,
        }
        assert(self.codes() =~= old(self).codes().update(action_index(action), value@));
    }

    /// The first action, in binding order, that `code` drives.
    pub fn action_for_code(&self, code: &str) -> (r: Option<VisitorAction>)
        ensures
            r == action_answering(self.codes(), code@),
    {
        proof {
            reveal_strlit("ControlLeft");
            reveal_strlit("ControlRight");
        }
        let code_is_control = str_equal(code, "ControlLeft") || str_equal(code, "ControlRight");
        let actions = VisitorAction::all();
        let mut i: usize = 0;
        while i < 6
            invariant
                i <= 6,
                actions@ == seq![
                    VisitorAction::Forward,
                    VisitorAction::Backward,
                    VisitorAction::Left,
                    VisitorAction::Right,
                    VisitorAction::Jump,
                    VisitorAction::Crouch,
                ],
                code_is_control == is_control_code(code@),
                forall|k: int|
                    0 <= k < i ==> !answers(actions@[k], self.codes()[k], code@),
            decreases 6 - i,
        {
            let action = actions[i];
            assert(action_index(action) == i);
            let binding = self.binding(action);
            let binding_is_control = str_equal(binding, "ControlLeft") || str_equal(
                binding,
                "ControlRight",
            );
            let is_crouch = match action {
                VisitorAction::Crouch => true,
                _ => false,
            };
            if str_equal(binding, code) || (is_crouch && binding_is_control && code_is_control) {
                assert(answers(action, self.codes()[i as int], code@));
                return Some(action);
            }
            i += 1;
        }
        None
    }

    /// Whether `code` is held.
    fn is_pressed(&self, code: &str) -> (r: bool)
        ensures
            r == self.pressed_keys().contains(code@),
    {
        let ghost views = self.pressed_codes();
        let mut i: usize = 0;
        while i < self.pressed.len()
            invariant
                i <= self.pressed@.len(),
                views == self.pressed_codes(),
                views == string_views(self.pressed@),
                forall|k: int| 0 <= k < i ==> views[k] != code@,
            decreases self.pressed@.len() - i,
        {
            if str_equal(self.pressed[i].as_str(), code) {
                assert(views[i as int] == code@);
                assert(views.contains(code@));
                return true;
            }
            i += 1;
        }
        false
    }

    /// Whether `action` is held.
    fn holds(&self, action: VisitorAction) -> (r: bool)
        ensures
            r == is_held(action, self.codes()[action_index(action)], self.pressed_keys()),
    {
        proof {
            reveal_strlit("ControlLeft");
            reveal_strlit("ControlRight");
        }
        let binding = self.binding(action);
        if self.is_pressed(binding) {
            return true;
        }
        let is_crouch = match action {
            VisitorAction::Crouch => true,
            _ => false,
        };
        is_crouch && (str_equal(binding, "ControlLeft") || str_equal(binding, "ControlRight")) && (
        self.is_pressed("ControlLeft") || self.is_pressed("ControlRight"))
    }

    /// Which actions the held keys drive.
    pub fn action_state(&self) -> (r: ActionState)
        ensures
            r.forward == is_held(VisitorAction::Forward, self.codes()[0], self.pressed_keys()),
            r.backward == is_held(VisitorAction::Backward, self.codes()[1], self.pressed_keys()),
            r.left == is_held(VisitorAction::Left, self.codes()[2], self.pressed_keys()),
            r.right == is_held(VisitorAction::Right, self.codes()[3], self.pressed_keys()),
            r.jump == is_held(VisitorAction::Jump, self.codes()[4], self.pressed_keys()),
            r.crouch == is_held(VisitorAction::Crouch, self.codes()[5], self.pressed_keys()),
    {
        ActionState {
            forward: self.holds(VisitorAction::Forward),
            backward: self.holds(VisitorAction::Backward),
            left: self.holds(VisitorAction::Left),
            right: self.holds(VisitorAction::Right),
            jump: self.holds(VisitorAction::Jump),
            crouch: self.holds(VisitorAction::Crouch),
        }
    }

    /// The action whose key is being captured, if any.
    pub fn listening(&self) -> (r: Option<VisitorAction>)
        ensures
            r == self.spec_listening(),
    {
        self.listening
    }

    /// Starts capturing the next key for `action`.
    pub fn listen_for(&mut self, action: VisitorAction)
        ensures
            final(self).spec_listening() == Some(action),
            final(self).codes() == old(self).codes(),
            final(self).pressed_codes() == old(self).pressed_codes(),
            final(self).spec_active() == old(self).spec_active(),
            final(self).spec_pointer_locked() == old(self).spec_pointer_locked(),
    {
        self.listening = Some(action);
    }

    /// While a key is being captured, a first press of a supported key becomes the action's
    /// binding: the bindings are then sanitized, the capture ends and every held key is
    /// forgotten. Returns whether the key was taken; otherwise nothing changes.
    pub fn capture_binding(&mut self, code: &str, repeat: bool) -> (r: bool)
        ensures
            r == (old(self).spec_listening() is Some && is_supported_code(code@) && !repeat),
            r ==> final(self).wf() && final(self).codes() == recaptured_codes(
                old(self).codes(),
                old(self).spec_listening()->0,
                code@,
            ),
            r ==> final(self).codes().no_duplicates(),
            r ==> forall|k: int| 0 <= k < 6 ==> is_supported_code(#[trigger] final(self).codes()[k]),
            r ==> final(self).pressed_codes() == Seq::<Seq<char>>::empty(),
            r ==> final(self).spec_listening() is None,
            r ==> final(self).spec_active() == old(self).spec_active(),
            r ==> final(self).spec_pointer_locked() == old(self).spec_pointer_locked(),
            !r ==> *final(self) == *old(self),
    {
        let action = match self.listening {
            Some(action) => action,
            None => {
                return false;
            },
        };
        if !is_supported_key_code(code) || repeat {
            return false;
        }
        self.set_binding(action, String::from_str(code));
        let (forward, backward, left, right, jump, crouch) = sanitize_codes(
            &self.bindings.forward,
            &self.bindings.backward,
            &self.bindings.left,
            &self.bindings.right,
            &self.bindings.jump,
            &self.bindings.crouch,
        );
        self.bindings = KeyBindings { forward, backward, left, right, jump, crouch };
        proof {
            lemma_sanitized_bindings_are_distinct_and_supported(
                old(self).codes().update(action_index(action), code@),
            );
        }
        self.listening = None;
        self.pressed.clear();
        assert(self.pressed_codes() =~= Seq::<Seq<char>>::empty());
        true
    }

    /// Index of the first held key that does not come before `code`.
    fn insertion_point(&self, code: &str) -> (r: usize)
        requires
            self.wf(),
        ensures
            r <= self.pressed_codes().len(),
            forall|k: int| 0 <= k < r ==> chars_lt(#[trigger] self.pressed_codes()[k], code@),
            r < self.pressed_codes().len() ==> !chars_lt(self.pressed_codes()[r as int], code@),
    {
        let ghost views = self.pressed_codes();
        let mut i: usize = 0;
        while i < self.pressed.len()
            invariant
                i <= self.pressed@.len(),
                views == self.pressed_codes(),
                views == string_views(self.pressed@),
                forall|k: int| 0 <= k < i ==> chars_lt(#[trigger] views[k], code@),
            decreases self.pressed@.len() - i,
        {
            if !str_less(self.pressed[i].as_str(), code) {
                return i;
            }
            i += 1;
        }
        i
    }

    /// Index of the held key `code`, if it is held.
    fn position_of_pressed(&self, code: &str) -> (r: Option<usize>)
        ensures
            r matches Some(i) ==> i < self.pressed_codes().len() && self.pressed_codes()[i as int]
                == code@,
            r is None ==> !self.pressed_codes().contains(code@),
    {
        let ghost views = self.pressed_codes();
        let mut i: usize = 0;
        while i < self.pressed.len()
            invariant
                i <= self.pressed@.len(),
                views == self.pressed_codes(),
                views == string_views(self.pressed@),
                forall|k: int| 0 <= k < i ==> views[k] != code@,
            decreases self.pressed@.len() - i,
        {
            if str_equal(self.pressed[i].as_str(), code) {
                return Some(i);
            }
            i += 1;
        }
        None
    }

    /// First half of a key press. An inactive session ignores keys; while a binding is
    /// being captured the key is offered to the capture; keys typed into form controls are
    /// left alone; any other key is handed to the installation with the action it drives.
    pub fn key_down(&mut self, code: &str, repeat: bool, target_is_form_control: bool) -> (r: KeyDown)
        requires
            old(self).wf(),
        ensures
            final(self).wf(),
            r == (if !old(self).spec_active() {
                KeyDown::Ignored
            } else if old(self).spec_listening() is Some {
                if is_supported_code(code@) && !repeat {
                    KeyDown::Rebound
                } else {
                    KeyDown::Ignored
                }
            } else if target_is_form_control {
                KeyDown::Ignored
            } else {
                KeyDown::Dispatch(action_answering(old(self).codes(), code@))
            }),
            r == KeyDown::Rebound ==> final(self).codes() == recaptured_codes(
                old(self).codes(),
                old(self).spec_listening()->0,
                code@,
            ),
            r == KeyDown::Rebound ==> final(self).pressed_codes() == Seq::<Seq<char>>::empty(),
            r == KeyDown::Rebound ==> final(self).spec_listening() is None,
            r == KeyDown::Rebound ==> final(self).spec_active() == old(self).spec_active(),
            r == KeyDown::Rebound ==> final(self).spec_pointer_locked() == old(
                self,
            ).spec_pointer_locked(),
            r != KeyDown::Rebound ==> *final(self) == *old(self),
    {
        if !self.active {
            return KeyDown::Ignored;
        }
        if self.listening.is_some() {
            if self.capture_binding(code, repeat) {
                return KeyDown::Rebound;
            }
            return KeyDown::Ignored;
        }
        if target_is_form_control {
            return KeyDown::Ignored;
        }
        KeyDown::Dispatch(self.action_for_code(code))
    }

    /// Second half of a dispatched key press: the key is held when it drove an action or the
    /// installation claimed it as a command. Returns whether it did.
    pub fn finish_key_down(&mut self, code: String, action: Option<VisitorAction>, command: bool) -> (r: bool)
        requires
            old(self).wf(),
        ensures
            final(self).wf(),
            r == (action is Some || command),
            r ==> final(self).pressed_keys() == old(self).pressed_keys().insert(code@),
            r ==> final(self).codes() == old(self).codes(),
            r ==> final(self).spec_listening() == old(self).spec_listening(),
            r ==> final(self).spec_active() == old(self).spec_active(),
            r ==> final(self).spec_pointer_locked() == old(self).spec_pointer_locked(),
            !r ==> *final(self) == *old(self),
    {
        if action.is_none() && !command {
            return false;
        }
        self.press(code);
        true
    }

    /// A key release: an inactive session ignores it; otherwise the key is no longer held
    /// and the action it drives, if any, is returned for the installation.
    pub fn key_up(&mut self, code: &str) -> (r: Option<Option<VisitorAction>>)
        requires
            old(self).wf(),
        ensures
            final(self).wf(),
            !old(self).spec_active() ==> r is None && *final(self) == *old(self),
            old(self).spec_active() ==> r == Some(action_answering(old(self).codes(), code@)),
            old(self).spec_active() ==> final(self).pressed_keys() == old(self).pressed_keys().remove(
                code@,
            ),
            final(self).codes() == old(self).codes(),
            final(self).spec_listening() == old(self).spec_listening(),
            final(self).spec_active() == old(self).spec_active(),
            final(self).spec_pointer_locked() == old(self).spec_pointer_locked(),
    {
        if !self.active {
            return None;
        }
        let action = self.action_for_code(code);
        self.release(code);
        Some(action)
    }

    /// Records `code` as held.
    pub fn press(&mut self, code: String)
        requires
            old(self).wf(),
        ensures
            final(self).wf(),
            final(self).pressed_keys() == old(self).pressed_keys().insert(code@),
            final(self).codes() == old(self).codes(),
            final(self).spec_listening() == old(self).spec_listening(),
            final(self).spec_active() == old(self).spec_active(),
            final(self).spec_pointer_locked() == old(self).spec_pointer_locked(),
    {
        let ghost before = self.pressed_codes();
        let i = self.insertion_point(code.as_str());
        if i < self.pressed.len() && str_equal(self.pressed[i].as_str(), code.as_str()) {
            assert(before[i as int] == code@);
            assert(before.to_set() =~= before.to_set().insert(code@));
            return;
        }
        proof {
            if i < before.len() {
                lemma_chars_lt_total(before[i as int], code@);
            }
        }
        self.pressed.insert(i, code);
        proof {
            let after = self.pressed_codes();
            assert(after =~= before.insert(i as int, code@));
            assert forall|a: int, b: int| 0 <= a < b < after.len() implies chars_lt(
                #[trigger] after[a],
                #[trigger] after[b],
            ) by {
                if b < i {
                    assert(chars_lt(before[a], before[b]));
                } else if b == i {
                    assert(chars_lt(before[a], code@));
                } else if a < i {
                    assert(chars_lt(before[a], before[b - 1]));
                } else if a == i {
                    if b - 1 > i {
                        assert(chars_lt(before[i as int], before[b - 1]));
                        lemma_chars_lt_transitive(code@, before[i as int], before[b - 1]);
                    }
                } else {
                    assert(chars_lt(before[a - 1], before[b - 1]));
                }
            }
            assert forall|x: Seq<char>| after.to_set().contains(x) == before.to_set().insert(
                code@,
            ).contains(x) by {
                if after.contains(x) {
                    let k = choose|k: int| 0 <= k < after.len() && after[k] == x;
                    if k < i {
                        assert(before[k] == x);
                    } else if k > i {
                        assert(before[k - 1] == x);
                    }
                }
                if before.contains(x) {
                    let k = choose|k: int| 0 <= k < before.len() && before[k] == x;
                    if k < i {
                        assert(after[k] == x);
                    } else {
                        assert(after[k + 1] == x);
                    }
                }
                if x == code@ {
                    assert(after[i as int] == x);
                }
            }
            assert(after.to_set() =~= before.to_set().insert(code@));
        }
    }

    /// Records `code` as no longer held.
    pub fn release(&mut self, code: &str)
        requires
            old(self).wf(),
        ensures
            final(self).wf(),
            final(self).pressed_keys() == old(self).pressed_keys().remove(code@),
            final(self).codes() == old(self).codes(),
            final(self).spec_listening() == old(self).spec_listening(),
            final(self).spec_active() == old(self).spec_active(),
            final(self).spec_pointer_locked() == old(self).spec_pointer_locked(),
    {
        let ghost before = self.pressed_codes();
        let at = match self.position_of_pressed(code) {
            Some(at) => at,
            None => {
                assert(before.to_set() =~= before.to_set().remove(code@));
                return;
            },
        };
        self.pressed.remove(at);
        proof {
            let after = self.pressed_codes();
            assert(after =~= before.remove(at as int));
            assert forall|a: int, b: int| 0 <= a < b < after.len() implies chars_lt(
                #[trigger] after[a],
                #[trigger] after[b],
            ) by {
                if b < at {
                    assert(chars_lt(before[a], before[b]));
                } else if a < at {
                    assert(chars_lt(before[a], before[b + 1]));
                } else {
                    assert(chars_lt(before[a + 1], before[b + 1]));
                }
            }
            assert forall|x: Seq<char>| after.to_set().contains(x) == before.to_set().remove(
                code@,
            ).contains(x) by {
                if after.contains(x) {
                    let k = choose|k: int| 0 <= k < after.len() && after[k] == x;
                    lemma_chars_lt_irreflexive(x);
                    if k < at {
                        assert(before[k] == x);
                        assert(chars_lt(before[k], before[at as int]));
                    } else {
                        assert(before[k + 1] == x);
                        assert(chars_lt(before[at as int], before[k + 1]));
                    }
                }
                if before.contains(x) && x != code@ {
                    let k = choose|k: int| 0 <= k < before.len() && before[k] == x;
                    if k < at {
                        assert(after[k] == x);
                    } else {
                        assert(after[k - 1] == x);
                    }
                }
            }
            assert(after.to_set() =~= before.to_set().remove(code@));
        }
    }

    /// Forgets every held key and hands them back in lexicographic order.
    pub fn take_pressed(&mut self) -> (r: Vec<String>)
        requires
            old(self).wf(),
        ensures
            string_views(r@) == old(self).pressed_codes(),
            final(self).wf(),
            final(self).pressed_codes() == Seq::<Seq<char>>::empty(),
            final(self).codes() == old(self).codes(),
            final(self).spec_listening() == old(self).spec_listening(),
            final(self).spec_active() == old(self).spec_active(),
            final(self).spec_pointer_locked() == old(self).spec_pointer_locked(),
    {
        let mut taken: Vec<String> = Vec::new();
        std::mem::swap(&mut taken, &mut self.pressed);
        assert(self.pressed_codes() =~= Seq::<Seq<char>>::empty());
        taken
    }
}

/// Releasing a key that was not held before it was pressed restores the held keys.
pub proof fn lemma_release_undoes_press(keys: Set<Seq<char>>, code: Seq<char>)
    requires
        !keys.contains(code),
    ensures
        keys.insert(code).remove(code) == keys,
{
    assert(keys.insert(code).remove(code) =~= keys);
}

/// Actions in binding order: forward, backward, left, right, jump, crouch.
pub open spec fn actions_in_order() -> Seq<VisitorAction> {
    seq![
        VisitorAction::Forward,
        VisitorAction::Backward,
        VisitorAction::Left,
        VisitorAction::Right,
        VisitorAction::Jump,
        VisitorAction::Crouch,
    ]
}

/// A key drives the first action bound to it; a control key also drives crouch when crouch is
/// bound to either control key and no earlier action is bound to that key; a key bound to no
/// action drives nothing, unless it is a control key and crouch is on control.
pub proof fn lemma_key_lookup(codes: Seq<Seq<char>>, code: Seq<char>, k: int)
    requires
        codes.len() == 6,
        0 <= k < 6,
    ensures
        codes[k] == code && (forall|j: int| 0 <= j < k ==> codes[j] != code) ==> action_answering(
            codes,
            code,
        ) == Some(actions_in_order()[k]),
        (code == "ControlLeft"@ || code == "ControlRight"@) && (codes[5] == "ControlLeft"@
            || codes[5] == "ControlRight"@) && (forall|j: int| 0 <= j < 5 ==> codes[j] != code)
            ==> action_answering(codes, code) == Some(VisitorAction::Crouch),
        (forall|j: int| 0 <= j < 6 ==> codes[j] != code) && !((code == "ControlLeft"@
            || code == "ControlRight"@) && (codes[5] == "ControlLeft"@ || codes[5]
            == "ControlRight"@)) ==> action_answering(codes, code) is None,
{
}

/// A held key holds the action it drives.
pub proof fn lemma_held_key_holds_its_action(codes: Seq<Seq<char>>, pressed: Set<Seq<char>>, code: Seq<char>)
    requires
        codes.len() == 6,
        pressed.contains(code),
    ensures
        action_answering(codes, code) matches Some(action) ==> is_held(
            action,
            codes[action_index(action)],
            pressed,
        ),
{
}

} // verus!
