//! Basic building blocks of low-level layout output.

use vstd::prelude::*;

verus! {

/// Encode glyph identifiers into a big-endian byte buffer, two bytes per
/// glyph, high byte first.
pub fn encode_glyphs_be(glyphs: &Vec<u16>) -> (bytes: Vec<u8>)
    ensures
        bytes@.len() == 2 * glyphs@.len(),
        forall|i: int|
            0 <= i < glyphs@.len() ==> bytes@[2 * i] == (#[trigger] glyphs@[i] >> 8) as u8
                && bytes@[2 * i + 1] == (glyphs@[i] & 0xff) as u8,
{
    let mut bytes: Vec<u8> = Vec::new();
    let n = glyphs.len();
    let mut i: usize = 0;
    while i < n
        invariant
            i <= n,
            n == glyphs@.len(),
            bytes@.len() == 2 * i as int,
            forall|j: int|
                0 <= j < i as int ==> bytes@[2 * j] == (#[trigger] glyphs@[j] >> 8) as u8
                    && bytes@[2 * j + 1] == (glyphs@[j] & 0xff) as u8,
        decreases n - i,
    {
        let g = glyphs[i];
        bytes.push((g >> 8) as u8);
        bytes.push((g & 0xff) as u8);
        i = i + 1;
    }
    bytes
}

} // verus!
