//! Renderer-independent visitor key bindings shared by all installations.
//!
//! Persisted bindings are untrusted: sanitizing replaces every unsupported or repeated key
//! code, so the six actions always end up on six different supported keys.

use vstd::prelude::*;
use vstd::string::{StringExecFns, is_ascii_spec_bytes};
use vstd::utf8::encode_utf8;
use vstd::set_lib::lemma_len_subset;
use crate::text::str_equal;

verus! {

/// Browser `KeyboardEvent.code` values that an action may be bound to: the space bar, the
/// control and shift keys, the arrow keys, and any `Key?` code whose fourth byte is an ASCII
/// capital letter.
pub open spec fn is_supported_code(code: Seq<char>) -> bool {
    ||| code == "Space"@
    ||| code == "ControlLeft"@
    ||| code == "ControlRight"@
    ||| code == "ShiftLeft"@
    ||| code == "ShiftRight"@
    ||| {
        let bytes = encode_utf8(code);
        &&& bytes.len() == 4
        &&& bytes[0] == 0x4b
        &&& bytes[1] == 0x65
        &&& bytes[2] == 0x79
        &&& 0x41 <= bytes[3] <= 0x5a
    }
    ||| code == "ArrowUp"@
    ||| code == "ArrowDown"@
    ||| code == "ArrowLeft"@
    ||| code == "ArrowRight"@
}

/// Replacement keys tried, in order, after the action's own default.
pub open spec fn fallback_codes() -> Seq<Seq<char>> {
    seq![
        "KeyW"@,
        "KeyS"@,
        "KeyA"@,
        "KeyD"@,
        "Space"@,
        "ControlLeft"@,
        "KeyQ"@,
        "KeyE"@,
        "ArrowUp"@,
        "ArrowDown"@,
        "ArrowLeft"@,
        "ArrowRight"@,
    ]
}

/// Default keys of forward, backward, left, right, jump and crouch.
pub open spec fn default_codes() -> Seq<Seq<char>> {
    seq!["KeyW"@, "KeyS"@, "KeyA"@, "KeyD"@, "Space"@, "ControlLeft"@]
}

/// The first of `candidates` that is not in `used`, or `KeyZ` when all are taken.
pub open spec fn first_unused(candidates: Seq<Seq<char>>, used: Seq<Seq<char>>) -> Seq<char>
    decreases candidates.len(),
{
    if candidates.len() == 0 {
        "KeyZ"@
    } else if !used.contains(candidates[0]) {
        candidates[0]
    } else {
        first_unused(candidates.drop_first(), used)
    }
}

/// The key an action keeps: its own binding when supported and not yet taken, else the first
/// free key among its default and the fallback keys.
pub open spec fn sanitized_code(used: Seq<Seq<char>>, binding: Seq<char>, default: Seq<char>) -> Seq<char> {
    if !is_supported_code(binding) || used.contains(binding) {
        first_unused(seq![default] + fallback_codes(), used)
    } else {
        binding
    }
}

/// Sanitizes `bindings` in order, each against the keys already kept; returns every kept key
/// after the ones in `used`.
pub open spec fn sanitized_codes(
    bindings: Seq<Seq<char>>,
    defaults: Seq<Seq<char>>,
    used: Seq<Seq<char>>,
) -> Seq<Seq<char>>
    decreases bindings.len(),
{
    if bindings.len() == 0 || defaults.len() == 0 {
        used
    } else {
        sanitized_codes(
            bindings.drop_first(),
            defaults.drop_first(),
            used.push(sanitized_code(used, bindings[0], defaults[0])),
        )
    }
}

/// Whether `code` is a key code that an action may be bound to.
pub fn is_supported_key_code(code: &str) -> (r: bool)
    ensures
        r == is_supported_code(code@),
{
    if str_equal(code, "Space") || str_equal(code, "ControlLeft") || str_equal(code, "ControlRight")
        || str_equal(code, "ShiftLeft") || str_equal(code, "ShiftRight") {
        return true;
    }
    let bytes = code.as_bytes();
    if bytes.len() == 4 && bytes[0] == 0x4b && bytes[1] == 0x65 && bytes[2] == 0x79 && 0x41
        <= bytes[3] && bytes[3] <= 0x5a {
        return true;
    }
    str_equal(code, "ArrowUp") || str_equal(code, "ArrowDown") || str_equal(code, "ArrowLeft")
        || str_equal(code, "ArrowRight")
}

fn is_used(code: &str, used: &[String]) -> (r: bool)
    ensures
        r == used@.map_values(|s: String| s@).contains(code@),
{
    let ghost views = used@.map_values(|s: String| s@);
    let mut i: usize = 0;
    while i < used.len()
        invariant
            i <= used@.len(),
            views == used@.map_values(|s: String| s@),
            forall|k: int| 0 <= k < i ==> views[k] != code@,
        decreases used@.len() - i,
    {
        if str_equal(used[i].as_str(), code) {
            assert(views[i as int] == code@);
            return true;
        }
        i += 1;
    }
    false
}

/// The first of the action's default and the fallback keys that no earlier action uses.
pub fn first_available_binding<'a>(preferred: &'a str, used: &[String]) -> (r: &'a str)
    ensures
        r@ == first_unused(seq![preferred@] + fallback_codes(), used@.map_values(|s: String| s@)),
{
    let candidates: [&'a str; 13] = [
        preferred,
        "KeyW",
        "KeyS",
        "KeyA",
        "KeyD",
        "Space",
        "ControlLeft",
        "KeyQ",
        "KeyE",
        "ArrowUp",
        "ArrowDown",
        "ArrowLeft",
        "ArrowRight",
    ];
    let ghost all = seq![preferred@] + fallback_codes();
    let ghost views = used@.map_values(|s: String| s@);
    assert(candidates@.map_values(|c: &str| c@) =~= all);
    assert(all.skip(0) =~= all);
    let mut i: usize = 0;
    while i < 13
        invariant
            i <= 13,
            all == seq![preferred@] + fallback_codes(),
            all.len() == 13,
            forall|k: int| 0 <= k < 13 ==> (#[trigger] candidates@[k])@ == all[k],
            views == used@.map_values(|s: String| s@),
            first_unused(all, views) == first_unused(all.skip(i as int), views),
        decreases 13 - i,
    {
        let candidate = candidates[i];
        assert(all.skip(i as int)[0] == candidate@);
        assert(all.skip(i as int).drop_first() =~= all.skip(i + 1));
        if !is_used(candidate, used) {
            assert(!views.contains(all.skip(i as int)[0]));
            assert(first_unused(all.skip(i as int), views) == all.skip(i as int)[0]);
            return candidate;
        }
        i += 1;
    }
    assert(all.skip(13) =~= Seq::<Seq<char>>::empty());
    proof {
        reveal_strlit("KeyZ");
    }
    "KeyZ"
}

/// Sanitizes one binding against the keys kept so far and records the kept key.
fn sanitize_binding(binding: &String, default: &str, used: &mut Vec<String>) -> (r: String)
    ensures
        r@ == sanitized_code(old(used)@.map_values(|s: String| s@), binding@, default@),
        final(used)@.map_values(|s: String| s@) == old(used)@.map_values(|s: String| s@).push(r@),
{
    let kept = if !is_supported_key_code(binding.as_str()) || is_used(binding.as_str(), used.as_slice()) {
        String::from_str(first_available_binding(default, used.as_slice()))
    } else {
        binding.clone()
    };
    let copy = kept.clone();
    used.push(copy);
    assert(used@.map_values(|s: String| s@) =~= old(used)@.map_values(|s: String| s@).push(kept@));
    kept
}

/// The six action bindings after sanitizing, in action order.
pub(crate) fn sanitize_codes(
    forward: &String,
    backward: &String,
    left: &String,
    right: &String,
    jump: &String,
    crouch: &String,
) -> (r: (String, String, String, String, String, String))
    ensures
        seq![r.0@, r.1@, r.2@, r.3@, r.4@, r.5@] == sanitized_codes(
            seq![forward@, backward@, left@, right@, jump@, crouch@],
            default_codes(),
            Seq::empty(),
        ),
{
    let mut used: Vec<String> = Vec::new();
    proof {
        reveal_strlit("KeyW");
        reveal_strlit("KeyS");
        reveal_strlit("KeyA");
        reveal_strlit("KeyD");
        reveal_strlit("Space");
        reveal_strlit("ControlLeft");
    }
    let ghost bindings = seq![forward@, backward@, left@, right@, jump@, crouch@];
    let ghost defaults = default_codes();
    assert(used@.map_values(|s: String| s@) =~= Seq::<Seq<char>>::empty());
    let f = sanitize_binding(forward, "KeyW", &mut used);
    let b = sanitize_binding(backward, "KeyS", &mut used);
    let l = sanitize_binding(left, "KeyA", &mut used);
    let ri = sanitize_binding(right, "KeyD", &mut used);
    let j = sanitize_binding(jump, "Space", &mut used);
    let c = sanitize_binding(crouch, "ControlLeft", &mut used);
    let result = (f, b, l, ri, j, c);
    proof {
        let v0 = Seq::<Seq<char>>::empty();
        let v1 = v0.push(f@);
        let v2 = v1.push(b@);
        let v3 = v2.push(l@);
        let v4 = v3.push(ri@);
        let v5 = v4.push(j@);
        let v6 = v5.push(c@);
        assert(bindings.drop_first() =~= seq![backward@, left@, right@, jump@, crouch@]);
        assert(defaults.drop_first() =~= seq!["KeyS"@, "KeyA"@, "KeyD"@, "Space"@, "ControlLeft"@]);
        assert(sanitized_codes(bindings, defaults, v0) == sanitized_codes(bindings.drop_first(), defaults.drop_first(), v1));
        let b2 = bindings.drop_first().drop_first();
        let d2 = defaults.drop_first().drop_first();
        assert(b2 =~= seq![left@, right@, jump@, crouch@]);
        assert(d2 =~= seq!["KeyA"@, "KeyD"@, "Space"@, "ControlLeft"@]);
        assert(sanitized_codes(bindings.drop_first(), defaults.drop_first(), v1) == sanitized_codes(b2, d2, v2));
        let b3 = b2.drop_first();
        let d3 = d2.drop_first();
        assert(b3 =~= seq![right@, jump@, crouch@]);
        assert(d3 =~= seq!["KeyD"@, "Space"@, "ControlLeft"@]);
        assert(sanitized_codes(b2, d2, v2) == sanitized_codes(b3, d3, v3));
        let b4 = b3.drop_first();
        let d4 = d3.drop_first();
        assert(b4 =~= seq![jump@, crouch@]);
        assert(d4 =~= seq!["Space"@, "ControlLeft"@]);
        assert(sanitized_codes(b3, d3, v3) == sanitized_codes(b4, d4, v4));
        let b5 = b4.drop_first();
        let d5 = d4.drop_first();
        assert(b5 =~= seq![crouch@]);
        assert(d5 =~= seq!["ControlLeft"@]);
        assert(sanitized_codes(b4, d4, v4) == sanitized_codes(b5, d5, v5));
        let b6 = b5.drop_first();
        let d6 = d5.drop_first();
        assert(b6.len() == 0);
        assert(sanitized_codes(b5, d5, v5) == sanitized_codes(b6, d6, v6));
        assert(seq![result.0@, result.1@, result.2@, result.3@, result.4@, result.5@] =~= v6);
    }
    result
}

proof fn lemma_key_code_supported(code: Seq<char>)
    requires
        code.len() == 4,
        code[0] == 'K',
        code[1] == 'e',
        code[2] == 'y',
        'A' <= code[3] <= 'Z',
    ensures
        is_supported_code(code),
{
    assert(vstd::utf8::is_ascii_chars(code));
    vstd::utf8::is_ascii_chars_encode_utf8(code);
    assert(encode_utf8(code)[0] == code[0] as u8);
    assert(encode_utf8(code)[1] == code[1] as u8);
    assert(encode_utf8(code)[2] == code[2] as u8);
    assert(encode_utf8(code)[3] == code[3] as u8);
}

/// Every default and fallback key is supported, and the six defaults are different keys.
proof fn lemma_fallbacks_supported()
    ensures
        forall|k: int| 0 <= k < 12 ==> is_supported_code(#[trigger] fallback_codes()[k]),
        forall|k: int| 0 <= k < 6 ==> #[trigger] default_codes()[k] == fallback_codes()[k],
        default_codes().no_duplicates(),
        default_codes().len() == 6,
{
    reveal_strlit("KeyW");
    reveal_strlit("KeyS");
    reveal_strlit("KeyA");
    reveal_strlit("KeyD");
    reveal_strlit("Space");
    reveal_strlit("ControlLeft");
    reveal_strlit("KeyQ");
    reveal_strlit("KeyE");
    lemma_key_code_supported("KeyW"@);
    lemma_key_code_supported("KeyS"@);
    lemma_key_code_supported("KeyA"@);
    lemma_key_code_supported("KeyD"@);
    lemma_key_code_supported("KeyQ"@);
    lemma_key_code_supported("KeyE"@);
    let f = fallback_codes();
    assert forall|k: int| 0 <= k < 12 implies is_supported_code(#[trigger] f[k]) by {
        if k == 0 { assert(f[0] == "KeyW"@); }
        if k == 1 { assert(f[1] == "KeyS"@); }
        if k == 2 { assert(f[2] == "KeyA"@); }
        if k == 3 { assert(f[3] == "KeyD"@); }
        if k == 4 { assert(f[4] == "Space"@); }
        if k == 5 { assert(f[5] == "ControlLeft"@); }
        if k == 6 { assert(f[6] == "KeyQ"@); }
        if k == 7 { assert(f[7] == "KeyE"@); }
        if k == 8 { assert(f[8] == "ArrowUp"@); }
        if k == 9 { assert(f[9] == "ArrowDown"@); }
        if k == 10 { assert(f[10] == "ArrowLeft"@); }
        if k == 11 { assert(f[11] == "ArrowRight"@); }
    }
    let d = default_codes();
    assert forall|i: int, j: int| 0 <= i < d.len() && 0 <= j < d.len() && i != j implies d[i] != d[j] by {
        assert(d[i].len() != d[j].len() || d[i][0] != d[j][0] || d[i][3] != d[j][3]);
    }
}

/// A candidate list with a free candidate yields a free candidate from the list.
proof fn lemma_first_unused_is_free(candidates: Seq<Seq<char>>, used: Seq<Seq<char>>, free: int)
    requires
        0 <= free < candidates.len(),
        !used.contains(candidates[free]),
    ensures
        candidates.contains(first_unused(candidates, used)),
        !used.contains(first_unused(candidates, used)),
    decreases candidates.len(),
{
    if used.contains(candidates[0]) {
        lemma_first_unused_is_free(candidates.drop_first(), used, free - 1);
        let k = choose|k: int| 0 <= k < candidates.drop_first().len() && candidates.drop_first()[k] == first_unused(candidates, used);
        assert(candidates[k + 1] == first_unused(candidates, used));
    } else {
        assert(candidates[0] == first_unused(candidates, used));
    }
}

proof fn lemma_sanitized_code_is_free(used: Seq<Seq<char>>, binding: Seq<char>, default: Seq<char>)
    requires
        used.len() < 6,
        is_supported_code(default),
    ensures
        is_supported_code(sanitized_code(used, binding, default)),
        !used.contains(sanitized_code(used, binding, default)),
{
    if !is_supported_code(binding) || used.contains(binding) {
        lemma_fallbacks_supported();
        let candidates = seq![default] + fallback_codes();
        let d = default_codes();
        let free = choose|k: int| 0 <= k < 6 && !used.contains(d[k]);
        if !(exists|k: int| 0 <= k < 6 && !used.contains(d[k])) {
            assert(d.to_set().subset_of(used.to_set())) by {
                assert forall|x: Seq<char>| d.to_set().contains(x) implies used.to_set().contains(x) by {
                    let k = choose|k: int| 0 <= k < d.len() && d[k] == x;
                }
            }
            d.unique_seq_to_set();
            used.lemma_cardinality_of_set();
            vstd::seq_lib::seq_to_set_is_finite(used);
            lemma_len_subset(d.to_set(), used.to_set());
        }
        assert(candidates[free + 1] == d[free]);
        lemma_first_unused_is_free(candidates, used, free + 1);
        let c = first_unused(candidates, used);
        let k = choose|k: int| 0 <= k < candidates.len() && candidates[k] == c;
        if k > 0 {
            assert(candidates[k] == fallback_codes()[k - 1]);
        }
    }
}

proof fn lemma_sanitized_codes_distinct(bindings: Seq<Seq<char>>, defaults: Seq<Seq<char>>, used: Seq<Seq<char>>)
    requires
        bindings.len() == defaults.len(),
        used.len() + bindings.len() <= 6,
        used.no_duplicates(),
        forall|k: int| 0 <= k < used.len() ==> is_supported_code(#[trigger] used[k]),
        forall|k: int| 0 <= k < defaults.len() ==> is_supported_code(#[trigger] defaults[k]),
    ensures
        sanitized_codes(bindings, defaults, used).len() == used.len() + bindings.len(),
        sanitized_codes(bindings, defaults, used).no_duplicates(),
        forall|k: int|
            0 <= k < sanitized_codes(bindings, defaults, used).len() ==> is_supported_code(
                #[trigger] sanitized_codes(bindings, defaults, used)[k],
            ),
    decreases bindings.len(),
{
    if bindings.len() > 0 {
        let c = sanitized_code(used, bindings[0], defaults[0]);
        lemma_sanitized_code_is_free(used, bindings[0], defaults[0]);
        let next = used.push(c);
        assert(next.no_duplicates()) by {
            assert forall|i: int, j: int| 0 <= i < next.len() && 0 <= j < next.len() && i != j implies next[i] != next[j] by {
                if i == used.len() {
                    assert(!used.contains(next[j]) ==> next[i] != next[j]);
                    assert(used[j] == next[j]);
                } else if j == used.len() {
                    assert(used[i] == next[i]);
                }
            }
        }
        assert forall|k: int| 0 <= k < defaults.drop_first().len() implies is_supported_code(
            #[trigger] defaults.drop_first()[k],
        ) by {
            assert(defaults.drop_first()[k] == defaults[k + 1]);
        }
        lemma_sanitized_codes_distinct(bindings.drop_first(), defaults.drop_first(), next);
    }
}

/// Sanitizing any six bindings yields six different supported keys.
pub proof fn lemma_sanitized_bindings_are_distinct_and_supported(bindings: Seq<Seq<char>>)
    requires
        bindings.len() == 6,
    ensures
        sanitized_codes(bindings, default_codes(), Seq::empty()).len() == 6,
        sanitized_codes(bindings, default_codes(), Seq::empty()).no_duplicates(),
        forall|k: int|
            0 <= k < 6 ==> is_supported_code(
                #[trigger] sanitized_codes(bindings, default_codes(), Seq::empty())[k],
            ),
{
    lemma_fallbacks_supported();
    lemma_sanitized_codes_distinct(bindings, default_codes(), Seq::empty());
}

#[derive(Clone, Debug, PartialEq, Eq)]
pub struct KeyBindings {
    pub forward: String,
    pub backward: String,
    pub left: String,
    pub right: String,
    pub jump: String,
    pub crouch: String,
}

impl KeyBindings {
    /// Bound keys in action order: forward, backward, left, right, jump, crouch.
    pub open spec fn codes(&self) -> Seq<Seq<char>> {
        seq![self.forward@, self.backward@, self.left@, self.right@, self.jump@, self.crouch@]
    }

    /// The same bindings with every unsupported or repeated key replaced.
    pub fn sanitized(self) -> (r: Self)
        ensures
            r.codes() == sanitized_codes(self.codes(), default_codes(), Seq::empty()),
    {
        let (forward, backward, left, right, jump, crouch) = sanitize_codes(
            &self.forward,
            &self.backward,
            &self.left,
            &self.right,
            &self.jump,
            &self.crouch,
        );
        KeyBindings { forward, backward, left, right, jump, crouch }
    }
}

impl Default for KeyBindings {
    fn default() -> (r: Self)
        ensures
            r.codes() == default_codes(),
    {
        KeyBindings {
            forward: String::from_str("KeyW"),
            backward: String::from_str("KeyS"),
            left: String::from_str("KeyA"),
            right: String::from_str("KeyD"),
            jump: String::from_str("Space"),
            crouch: String::from_str("ControlLeft"),
        }
    }
}

} // verus!
