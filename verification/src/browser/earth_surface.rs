//! Compact global Earth reference texture decoded from its one-character-per-texel map.

use vstd::prelude::*;

verus! {

pub const WIDTH: i32 = 128;

pub const HEIGHT: i32 = 64;

/// Map characters that mark land: lowercase `g` to `z`, digits, `-` and `_`.
pub open spec fn is_land(byte: u8) -> bool {
    (0x67 <= byte <= 0x7a) || (0x30 <= byte <= 0x39) || byte == 0x2d || byte == 0x5f
}

/// RGBA texel of a map character: ocean is transparent deep blue; land is ice, desert,
/// vegetation or forest by character class, fully opaque.
pub open spec fn texel(byte: u8) -> Seq<u8> {
    if !is_land(byte) {
        seq![4u8, 25u8, 66u8, 0u8]
    } else if byte == 0x5f || byte == 0x2d || byte == 0x39 || byte == 0x38 || byte == 0x37 {
        seq![220u8, 225u8, 224u8, 255u8]
    } else if (0x30 <= byte <= 0x36) || (0x78 <= byte <= 0x7a) {
        seq![171u8, 144u8, 101u8, 255u8]
    } else if 0x72 <= byte <= 0x77 {
        seq![75u8, 86u8, 45u8, 255u8]
    } else {
        seq![42u8, 67u8, 27u8, 255u8]
    }
}

pub open spec fn is_line_break(byte: u8) -> bool {
    byte == 0x0a || byte == 0x0d
}

/// RGBA bytes of every map character in order, skipping line breaks.
pub open spec fn decoded_texels(map: Seq<u8>) -> Seq<u8>
    decreases map.len(),
{
    if map.len() == 0 {
        Seq::empty()
    } else if is_line_break(map.last()) {
        decoded_texels(map.drop_last())
    } else {
        decoded_texels(map.drop_last()) + texel(map.last())
    }
}

/// Decodes the texel map into RGBA pixels.
pub fn pixels_rgba(map: &[u8]) -> (r: Vec<u8>)
    ensures
        r@ == decoded_texels(map@),
{
    let mut pixels: Vec<u8> = Vec::new();
    let mut i: usize = 0;
    while i < map.len()
        invariant
            i <= map@.len(),
            pixels@ == decoded_texels(map@.take(i as int)),
        decreases map@.len() - i,
    {
        let byte = map[i];
        proof {
            assert(map@.take(i + 1).drop_last() =~= map@.take(i as int));
            assert(map@.take(i + 1).last() == byte);
        }
        if byte != 0x0a && byte != 0x0d {
            let land = (0x67 <= byte && byte <= 0x7a) || (0x30 <= byte && byte <= 0x39) || byte == 0x2d
                || byte == 0x5f;
            let (red, green, blue): (u8, u8, u8) = if !land {
                (4, 25, 66)
            } else if byte == 0x5f || byte == 0x2d || byte == 0x39 || byte == 0x38 || byte == 0x37 {
                (220, 225, 224)
            } else if (0x30 <= byte && byte <= 0x36) || (0x78 <= byte && byte <= 0x7a) {
                (171, 144, 101)
            } else if 0x72 <= byte && byte <= 0x77 {
                (75, 86, 45)
            } else {
                (42, 67, 27)
            };
            let alpha: u8 = if land { 255 } else { 0 };
            let ghost before = pixels@;
            pixels.push(red);
            pixels.push(green);
            pixels.push(blue);
            pixels.push(alpha);
            assert(pixels@ =~= before + texel(byte));
        }
        i += 1;
    }
    assert(map@.take(i as int) =~= map@);
    pixels
}

/// The colour of every map character, class by class: `_`, `-`, `7`, `8`, `9` are ice;
/// `0` to `6` and `x` to `z` are desert; `r` to `w` are vegetation; `g` to `q` are forest; all
/// land is opaque, and every other character is transparent deep-blue ocean.
pub proof fn lemma_map_character_colours(byte: u8)
    ensures
        byte == ('_' as u8) || byte == ('-' as u8) || byte == ('7' as u8) || byte == ('8' as u8) || byte == ('9' as u8) ==> texel(byte)
            == seq![220u8, 225u8, 224u8, 255u8],
        (('0' as u8) <= byte <= ('6' as u8) || ('x' as u8) <= byte <= ('z' as u8)) ==> texel(byte) == seq![171u8, 144u8, 101u8, 255u8],
        ('r' as u8) <= byte <= ('w' as u8) ==> texel(byte) == seq![75u8, 86u8, 45u8, 255u8],
        ('g' as u8) <= byte <= ('q' as u8) ==> texel(byte) == seq![42u8, 67u8, 27u8, 255u8],
        !(('g' as u8) <= byte <= ('z' as u8) || ('0' as u8) <= byte <= ('9' as u8) || byte == ('-' as u8) || byte == ('_' as u8)) ==> texel(byte)
            == seq![4u8, 25u8, 66u8, 0u8],
{
}

/// The decoded pixels are four bytes per map character with line breaks (`\n`, `\r`)
/// skipped: the `k`-th group of four is the colour of the `k`-th other character.
pub proof fn lemma_pixels_follow_the_map(map: Seq<u8>)
    ensures
        decoded_texels(map).len() == 4 * map.filter(|b: u8| b != ('\n' as u8) && b != ('\r' as u8)).len(),
        forall|k: int|
            0 <= k < map.filter(|b: u8| b != ('\n' as u8) && b != ('\r' as u8)).len() ==> #[trigger] decoded_texels(
                map,
            ).subrange(4 * k, 4 * k + 4) == texel(map.filter(|b: u8| b != ('\n' as u8) && b != ('\r' as u8))[k]),
    decreases map.len(),
{
    reveal(Seq::filter);
    let keep = |b: u8| b != ('\n' as u8) && b != ('\r' as u8);
    if map.len() > 0 {
        lemma_pixels_follow_the_map(map.drop_last());
        let earlier = decoded_texels(map.drop_last());
        let kept = map.drop_last().filter(keep);
        assert(map.filter(keep) == (if keep(map.last()) {
            kept.push(map.last())
        } else {
            kept
        }));
        if keep(map.last()) {
            let now = earlier + texel(map.last());
            assert(decoded_texels(map) == now);
            assert forall|k: int| 0 <= k < map.filter(keep).len() implies #[trigger] decoded_texels(
                map,
            ).subrange(4 * k, 4 * k + 4) == texel(map.filter(keep)[k]) by {
                if k < kept.len() {
                    assert(now.subrange(4 * k, 4 * k + 4) =~= earlier.subrange(4 * k, 4 * k + 4));
                } else {
                    assert(now.subrange(4 * k, 4 * k + 4) =~= texel(map.last()));
                }
            }
        }
    }
}

} // verus!
