//! Exact comparisons of string slices.

use vstd::prelude::*;
use vstd::string::{StrSliceExecFns, StringExecFns, StringSliceAdditionalSpecFns};
use vstd::utf8::{decode_utf8, encode_utf8_decode_utf8};

verus! {

/// Byte-wise equality of two strings, which is equality of their characters.
pub fn str_equal(a: &str, b: &str) -> (r: bool)
    ensures
        r == (a@ == b@),
{
    let left = a.as_bytes();
    let right = b.as_bytes();
    proof {
        encode_utf8_decode_utf8(a@);
        encode_utf8_decode_utf8(b@);
    }
    if left.len() != right.len() {
        assert(a.spec_bytes() != b.spec_bytes());
        return false;
    }
    let mut i: usize = 0;
    while i < left.len()
        invariant
            left@ == a.spec_bytes(),
            right@ == b.spec_bytes(),
            left@.len() == right@.len(),
            i <= left@.len(),
            forall|k: int| 0 <= k < i ==> left@[k] == right@[k],
        decreases left@.len() - i,
    {
        if left[i] != right[i] {
            assert(a.spec_bytes()[i as int] != b.spec_bytes()[i as int]);
            return false;
        }
        i += 1;
    }
    assert(a.spec_bytes() =~= b.spec_bytes());
    assert(decode_utf8(a.spec_bytes()) == a@);
    true
}

} // verus!

verus! {

/// The characters of `s`, in order.
pub fn chars_of(s: &str) -> (r: Vec<char>)
    ensures
        r@ == s@,
{
    broadcast use vstd::string::group_string_axioms;
    let mut out: Vec<char> = Vec::new();
    for c in it: s.chars()
        invariant
            out@ == it.seq().take(it.index()),
            it.seq() == s@,
    {
        out.push(c);
        assert(it.seq().take(it.index() + 1) =~= it.seq().take(it.index()).push(c));
    }
    assert(out@ =~= s@);
    out
}

} // verus!

verus! {

/// `marker` appears in `source` starting at character `index`.
pub open spec fn occurs_at(source: Seq<char>, marker: Seq<char>, index: int) -> bool {
    &&& 0 <= index
    &&& index + marker.len() <= source.len()
    &&& source.subrange(index, index + marker.len()) == marker
}

/// `index` is the leftmost occurrence of `marker`, and no further occurrence starts after it
/// ends (for an empty marker: after it).
pub open spec fn occurs_only_at(source: Seq<char>, marker: Seq<char>, index: int) -> bool {
    &&& occurs_at(source, marker, index)
    &&& forall|j: int| 0 <= j < index ==> !#[trigger] occurs_at(source, marker, j)
    &&& forall|j: int|
        index + (if marker.len() == 0 { 1 } else { marker.len() as int }) <= j ==> !#[trigger] occurs_at(
            source,
            marker,
            j,
        )
}

/// `source` with the occurrence of `marker` at `index` replaced.
pub open spec fn replaced_at(
    source: Seq<char>,
    marker: Seq<char>,
    replacement: Seq<char>,
    index: int,
) -> Seq<char> {
    source.subrange(0, index) + replacement + source.subrange(index + marker.len(), source.len() as int)
}

fn occurs_at_exec(source: &Vec<char>, marker: &Vec<char>, index: usize) -> (r: bool)
    requires
        index + marker@.len() <= source@.len(),
    ensures
        r == occurs_at(source@, marker@, index as int),
{
    let total = source.len();
    let mut k: usize = 0;
    while k < marker.len()
        invariant
            k <= marker@.len(),
            index + marker@.len() <= source@.len(),
            source@.len() == total,
            forall|t: int| 0 <= t < k ==> source@[index + t] == marker@[t],
        decreases marker@.len() - k,
    {
        if source[index + k] != marker[k] {
            assert(source@.subrange(index as int, index + marker@.len())[k as int] != marker@[k as int]);
            return false;
        }
        k += 1;
    }
    assert(source@.subrange(index as int, index + marker@.len()) =~= marker@);
    true
}

/// The leftmost occurrence of `marker` at or after `start`.
fn find_from(source: &Vec<char>, marker: &Vec<char>, start: usize) -> (r: Option<usize>)
    ensures
        r matches Some(i) ==> start <= i && occurs_at(source@, marker@, i as int) && forall|j: int|
            start <= j < i ==> !#[trigger] occurs_at(source@, marker@, j),
        r is None ==> forall|j: int| start <= j ==> !#[trigger] occurs_at(source@, marker@, j),
{
    if marker.len() > source.len() {
        return None;
    }
    let last = source.len() - marker.len();
    let mut i = start;
    while i <= last
        invariant
            last + marker@.len() == source@.len(),
            start <= i,
            forall|j: int| start <= j < i ==> !#[trigger] occurs_at(source@, marker@, j),
        decreases last + 1 - i,
    {
        if occurs_at_exec(source, marker, i) {
            return Some(i);
        }
        if i == last {
            return None;
        }
        i += 1;
    }
    None
}

/// The leftmost occurrence is the only index at which `occurs_only_at` can hold.
pub proof fn lemma_single_occurrence_is_unique(source: Seq<char>, marker: Seq<char>, i: int, j: int)
    requires
        occurs_only_at(source, marker, i),
        occurs_only_at(source, marker, j),
    ensures
        i == j,
{
    if i < j {
        assert(occurs_at(source, marker, i));
    } else if j < i {
        assert(occurs_at(source, marker, j));
    }
}

/// `source` with its single occurrence of `marker` replaced, or none when `marker` is missing
/// or repeated.
pub open spec fn replace_once(source: Seq<char>, marker: Seq<char>, replacement: Seq<char>) -> Option<
    Seq<char>,
> {
    if exists|index: int| occurs_only_at(source, marker, index) {
        let index = choose|index: int| occurs_only_at(source, marker, index);
        Some(replaced_at(source, marker, replacement, index))
    } else {
        None
    }
}

/// One more replacement step of a text pipeline: the first failing step's message wins.
pub open spec fn then_replace(
    previous: Result<Seq<char>, Seq<char>>,
    marker: Seq<char>,
    replacement: Seq<char>,
    message: Seq<char>,
) -> Result<Seq<char>, Seq<char>> {
    match previous {
        Ok(text) => match replace_once(text, marker, replacement) {
            Some(next) => Ok(next),
            None => Err(message),
        },
        Err(earlier) => Err(earlier),
    }
}

/// The characters of a text result or of its error message.
pub open spec fn text_result(result: Result<String, &'static str>) -> Result<Seq<char>, Seq<char>> {
    match result {
        Ok(text) => Ok(text@),
        Err(message) => Err(message@),
    }
}

/// Replaces the single occurrence of `marker` in `source` by `replacement`.
///
/// Fails with `error` when `marker` does not occur or occurs more than once (counting
/// non-overlapping matches from the left, as `str::match_indices` does).
pub fn replace_exactly_once(
    source: &str,
    marker: &str,
    replacement: &str,
    error: &'static str,
) -> (r: Result<String, &'static str>)
    ensures
        r matches Ok(text) ==> exists|index: int|
            occurs_only_at(source@, marker@, index) && text@ == replaced_at(
                source@,
                marker@,
                replacement@,
                index,
            ),
        r matches Err(message) ==> message == error && forall|index: int|
            !#[trigger] occurs_only_at(source@, marker@, index),
        text_result(r) == then_replace(Ok(source@), marker@, replacement@, error@),
{
    let chars = chars_of(source);
    let pattern = chars_of(marker);
    let first = match find_from(&chars, &pattern, 0) {
        Some(index) => index,
        None => {
            assert forall|index: int| !#[trigger] occurs_only_at(source@, marker@, index) by {
                if occurs_only_at(source@, marker@, index) {
                    assert(occurs_at(source@, marker@, index));
                }
            }
            return Err(error);
        },
    };
    let total = chars.len();
    let later = if pattern.len() == 0 {
        if first < chars.len() {
            find_from(&chars, &pattern, first + 1)
        } else {
            None
        }
    } else {
        find_from(&chars, &pattern, first + pattern.len())
    };
    if let Some(second) = later {
        assert forall|index: int| !#[trigger] occurs_only_at(source@, marker@, index) by {
            if occurs_only_at(source@, marker@, index) {
                if index < first {
                } else if index > first {
                } else {
                    assert(occurs_at(source@, marker@, second as int));
                }
            }
        }
        return Err(error);
    }
    assert(occurs_only_at(source@, marker@, first as int));
    proof {
        let chosen = choose|index: int| occurs_only_at(source@, marker@, index);
        lemma_single_occurrence_is_unique(source@, marker@, chosen, first as int);
    }
    let prefix = source.substring_char(0, first);
    let suffix = source.substring_char(first + pattern.len(), chars.len());
    let mut out = String::from_str(prefix);
    out.append(replacement);
    out.append(suffix);
    Ok(out)
}

} // verus!

verus! {

/// A character with the Unicode `White_Space` property.
pub open spec fn is_white_space(c: char) -> bool {
    let code = c as int;
    ||| 0x09 <= code <= 0x0d
    ||| code == 0x20
    ||| code == 0x85
    ||| code == 0xa0
    ||| code == 0x1680
    ||| 0x2000 <= code <= 0x200a
    ||| code == 0x2028
    ||| code == 0x2029
    ||| code == 0x202f
    ||| code == 0x205f
    ||| code == 0x3000
}

/// `text` without its trailing white space.
pub open spec fn trimmed_end(text: Seq<char>) -> Seq<char>
    decreases text.len(),
{
    if text.len() > 0 && is_white_space(text.last()) {
        trimmed_end(text.drop_last())
    } else {
        text
    }
}

/// Whether `c` has the Unicode `White_Space` property.
fn is_white_space_char(c: char) -> (r: bool)
    ensures
        r == is_white_space(c),
{
    ('\u{9}' <= c && c <= '\u{d}') || c == ' ' || c == '\u{85}' || c == '\u{a0}' || c
        == '\u{1680}' || ('\u{2000}' <= c && c <= '\u{200a}') || c == '\u{2028}' || c
        == '\u{2029}' || c == '\u{202f}' || c == '\u{205f}' || c == '\u{3000}'
}

/// `text` without its trailing white space, as `str::trim_end` returns it.
pub fn trim_end(text: &str) -> (r: &str)
    ensures
        r@ == trimmed_end(text@),
{
    let chars = chars_of(text);
    let mut end: usize = chars.len();
    assert(text@.subrange(0, end as int) =~= text@);
    while end > 0 && is_white_space_char(chars[end - 1])
        invariant
            chars@ == text@,
            end <= chars@.len(),
            trimmed_end(text@) == trimmed_end(text@.subrange(0, end as int)),
        decreases end,
    {
        assert(text@.subrange(0, end as int).drop_last() =~= text@.subrange(0, end - 1));
        end -= 1;
    }
    text.substring_char(0, end)
}

} // verus!

verus! {

/// Lexicographic order of character sequences by code point, a proper prefix first: the
/// order in which `String`'s `Ord` (byte-wise on UTF-8) ranks them.
pub open spec fn chars_lt(a: Seq<char>, b: Seq<char>) -> bool
    decreases a.len(),
{
    if b.len() == 0 {
        false
    } else if a.len() == 0 {
        true
    } else if a[0] != b[0] {
        (a[0] as int) < (b[0] as int)
    } else {
        chars_lt(a.drop_first(), b.drop_first())
    }
}

/// No sequence precedes itself.
pub proof fn lemma_chars_lt_irreflexive(a: Seq<char>)
    ensures
        !chars_lt(a, a),
    decreases a.len(),
{
    if a.len() > 0 {
        lemma_chars_lt_irreflexive(a.drop_first());
    }
}

/// Of two different sequences one precedes the other.
pub proof fn lemma_chars_lt_total(a: Seq<char>, b: Seq<char>)
    requires
        a != b,
    ensures
        chars_lt(a, b) || chars_lt(b, a),
    decreases a.len(),
{
    if a.len() > 0 && b.len() > 0 && a[0] == b[0] {
        if a.drop_first() == b.drop_first() {
            assert(a =~= seq![a[0]] + a.drop_first());
            assert(b =~= seq![b[0]] + b.drop_first());
        }
        lemma_chars_lt_total(a.drop_first(), b.drop_first());
    } else if a.len() == 0 && b.len() == 0 {
        assert(a =~= b);
    }
}

/// The order is transitive.
pub proof fn lemma_chars_lt_transitive(a: Seq<char>, b: Seq<char>, c: Seq<char>)
    requires
        chars_lt(a, b),
        chars_lt(b, c),
    ensures
        chars_lt(a, c),
    decreases a.len(),
{
    if a.len() > 0 && a[0] == b[0] && b[0] == c[0] {
        lemma_chars_lt_transitive(a.drop_first(), b.drop_first(), c.drop_first());
    }
}

/// Whether `a` comes before `b` in lexicographic code point order.
pub fn str_less(a: &str, b: &str) -> (r: bool)
    ensures
        r == chars_lt(a@, b@),
{
    let left = chars_of(a);
    let right = chars_of(b);
    let mut i: usize = 0;
    assert(a@.skip(0) =~= a@);
    assert(b@.skip(0) =~= b@);
    while i < left.len() && i < right.len()
        invariant
            left@ == a@,
            right@ == b@,
            i <= left@.len(),
            i <= right@.len(),
            chars_lt(a@, b@) == chars_lt(a@.skip(i as int), b@.skip(i as int)),
        decreases left@.len() - i,
    {
        let x = left[i];
        let y = right[i];
        assert(a@.skip(i as int)[0] == x);
        assert(b@.skip(i as int)[0] == y);
        if x != y {
            return x < y;
        }
        assert(a@.skip(i as int).drop_first() =~= a@.skip(i + 1));
        assert(b@.skip(i as int).drop_first() =~= b@.skip(i + 1));
        i += 1;
    }
    i < right.len()
}

} // verus!
