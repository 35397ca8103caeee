//! `:matrix`: the integer half of the falling glyphs, the random numbers
//! that start each drop and the glyph a cell shows. How far a drop has fallen
//! is fractional and lives with the drawing.

use vstd::prelude::*;

use crate::text::chars_of;

verus! {

/// Latin, digits and a few signs: no glyph here needs a font the terminal
/// might lack.
pub open spec fn glyphs() -> Seq<char> {
    "abcdefghijklmnopqrstuvwxyz0123456789=+*<>[]{}/\\|-_$#@%&"@
}

/// One step of xorshift64: shifts by 13, 7 and 17, each xored back in.
pub open spec fn spec_next_random(x: u64) -> u64 {
    let a = x ^ (x << 13u64);
    let b = a ^ (a >> 7u64);
    b ^ (b << 17u64)
}

/// Moves the generator `rng` on one step and hands back its new state.
pub fn next_random(rng: &mut u64) -> (r: u64)
    ensures
        *final(rng) == spec_next_random(*old(rng)),
        r == *final(rng),
{
    let x = *rng;
    let a = x ^ (x << 13u64);
    let b = a ^ (a >> 7u64);
    let c = b ^ (b << 17u64);
    *rng = c;
    c
}

/// The hash that picks a cell's glyph: the column, the row and which sixth
/// of the frames it is, so a glyph holds for a while and the rain does not
/// seethe.
pub open spec fn glyph_hash(frame: u64, col: u64, row: u64) -> u64 {
    let era = frame / 6;
    let h = col.wrapping_mul(0x9E37_79B9).wrapping_add(row.wrapping_mul(0x85EB_CA6B)).wrapping_add(
        era.wrapping_mul(0xC2B2_AE35),
    );
    h ^ (h >> 15u64)
}

fn glyph_at(i: u64) -> (c: char)
    requires
        i < 55,
    ensures
        c == glyphs()[i as int],
{
    let all = chars_of("abcdefghijklmnopqrstuvwxyz0123456789=+*<>[]{}/\\|-_$#@%&");
    proof {
        reveal_strlit("abcdefghijklmnopqrstuvwxyz0123456789=+*<>[]{}/\\|-_$#@%&");
    }
    all[i as usize]
}

/// The glyph in cell (`col`, `row`) at frame `frame`.
pub fn glyph(frame: u64, col: u64, row: u64) -> (c: char)
    ensures
        c == glyphs()[(glyph_hash(frame, col, row) % 55) as int],
{
    let era = frame / 6;
    let h = col.wrapping_mul(0x9E37_79B9).wrapping_add(row.wrapping_mul(0x85EB_CA6B)).wrapping_add(
        era.wrapping_mul(0xC2B2_AE35),
    );
    let h = h ^ (h >> 15u64);
    glyph_at(h % 55)
}

} // verus!
