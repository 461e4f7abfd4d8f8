//! Utilities for Kitty graphics protocol Unicode placeholder encoding.
//!
//! The Kitty graphics protocol uses Unicode placeholders for multiplexer-safe image display.
//! Each cell containing a placeholder encodes:
//! - Image ID (24-bit, encoded in foreground color RGB)
//! - Row index (5-bit, encoded as combining diacritic U+0305..U+0324)
//! - Column index (5-bit, encoded as combining diacritic U+0305..U+0324)

use vstd::prelude::*;
use vstd::utf8::is_scalar;

use crate::text::{char_from_u32, string_push};

verus! {

/// The Unicode placeholder character for Kitty graphics protocol image cells.
/// U+10EEEE — Supplementary Private Use Area-B
pub const KITTY_PLACEHOLDER_CHAR: char = '\u{10EEEE}';

/// The foreground colour that carries an image id: the low 24 bits of the
/// id, most significant byte first.
pub open spec fn fg_color(image_id: u32) -> (u8, u8, u8) {
    (
        ((image_id / 0x10000) % 0x100) as u8,
        ((image_id / 0x100) % 0x100) as u8,
        (image_id % 0x100) as u8,
    )
}

/// The image id a foreground colour carries.
pub open spec fn color_id(r: u8, g: u8, b: u8) -> u32 {
    (r * 0x10000 + g * 0x100 + b) as u32
}

/// The combining diacritic that encodes a row or column index (modulo 32).
pub open spec fn diacritic(value: u32) -> char {
    (0x305 + value % 32) as char
}

/// The row or column index a character encodes, if it is one of the
/// combining diacritics U+0305..U+0324.
pub open spec fn diacritic_value(c: char) -> Option<u32> {
    if 0x305 <= (c as u32) && (c as u32) <= 0x324 {
        Some(((c as u32) - 0x305) as u32)
    } else {
        None
    }
}

/// Check if a character is the Kitty graphics placeholder
pub fn is_kitty_placeholder(c: char) -> (r: bool)
    ensures
        r == (c == KITTY_PLACEHOLDER_CHAR),
{
    c == KITTY_PLACEHOLDER_CHAR
}

/// Encode an image ID (u32) into an RGB foreground color.
/// The image ID is encoded in the lower 24 bits of the u32.
/// Returns (r, g, b) where r is the most significant byte.
pub fn image_id_to_fg_color(image_id: u32) -> (r: (u8, u8, u8))
    ensures
        r == fg_color(image_id),
{
    let id = image_id & 0x00FFFFFF;
    let r: u8 = ((id >> 16) & 0xFF) as u8;
    let g: u8 = ((id >> 8) & 0xFF) as u8;
    let b: u8 = (id & 0xFF) as u8;
    proof {
        assert(((image_id & 0x00FFFFFF) >> 16) & 0xFF == (image_id / 0x10000) % 0x100)
            by (bit_vector);
        assert(((image_id & 0x00FFFFFF) >> 8) & 0xFF == (image_id / 0x100) % 0x100)
            by (bit_vector);
        assert((image_id & 0x00FFFFFF) & 0xFF == image_id % 0x100) by (bit_vector);
    }
    (r, g, b)
}

/// Decode an RGB foreground color back into an image ID.
pub fn fg_color_to_image_id(r: u8, g: u8, b: u8) -> (id: u32)
    ensures
        id == color_id(r, g, b),
        id == r * 0x10000 + g * 0x100 + b,
{
    let id = ((r as u32) << 16) | ((g as u32) << 8) | (b as u32);
    proof {
        let (r32, g32, b32) = (r as u32, g as u32, b as u32);
        assert(r32 < 0x100 && g32 < 0x100 && b32 < 0x100 ==> (r32 << 16) | (g32 << 8) | b32 == r32
            * 0x10000 + g32 * 0x100 + b32) by (bit_vector);
    }
    id
}

/// Encode a row/column index as a combining diacritic character.
/// Uses U+0305 through U+0324 for values 0–31.
/// Values > 31 will wrap (value % 32).
pub fn encode_row_col_diacritic(value: u32) -> (c: char)
    ensures
        c == diacritic(value),
{
    let codepoint = 0x0305 + (value % 32);
    assert(is_scalar(codepoint));
    match char_from_u32(codepoint) {
        Some(c) => c,
        None => '\u{0305}',
    }
}

/// Decode a combining diacritic character back to a row/column index.
/// Returns None if the character is not a valid diacritic.
pub fn decode_row_col_diacritic(c: char) -> (r: Option<u32>)
    ensures
        r == diacritic_value(c),
{
    let cp = c as u32;
    if cp >= 0x0305 && cp <= 0x0324 {
        Some(cp - 0x0305)
    } else {
        None
    }
}

/// Build the string to write into a placeholder cell:
/// [KITTY_PLACEHOLDER_CHAR][row_diacritic][col_diacritic]
/// with foreground color set to encode the image_id.
/// Returns (placeholder_string, fg_color_rgb)
pub fn build_placeholder_cell(image_id: u32, row: u32, col: u32) -> (r: (String, (u8, u8, u8)))
    ensures
        r.0@ == seq![KITTY_PLACEHOLDER_CHAR, diacritic(row), diacritic(col)],
        r.1 == fg_color(image_id),
{
    let mut s = String::new();
    string_push(&mut s, KITTY_PLACEHOLDER_CHAR);
    string_push(&mut s, encode_row_col_diacritic(row));
    string_push(&mut s, encode_row_col_diacritic(col));
    let fg = image_id_to_fg_color(image_id);
    assert(s@ =~= seq![KITTY_PLACEHOLDER_CHAR, diacritic(row), diacritic(col)]);
    (s, fg)
}

/// The colour of an image id gives back the id's low 24 bits; ids below
/// 2^24 come back unchanged.
pub proof fn lemma_color_roundtrip(image_id: u32)
    ensures
        color_id(fg_color(image_id).0, fg_color(image_id).1, fg_color(image_id).2) == image_id
            % 0x1000000,
        image_id < 0x1000000 ==> color_id(
            fg_color(image_id).0,
            fg_color(image_id).1,
            fg_color(image_id).2,
        ) == image_id,
{
    assert((((image_id / 0x10000) % 0x100) as u8) * 0x10000 + (((image_id / 0x100) % 0x100) as u8)
        * 0x100 + ((image_id % 0x100) as u8) == image_id % 0x1000000) by (bit_vector);
}

/// A colour read back from an image id is the colour it came from.
pub proof fn lemma_id_roundtrip(r: u8, g: u8, b: u8)
    ensures
        fg_color(color_id(r, g, b)) == (r, g, b),
{
    assert(((((r * 0x10000 + g * 0x100 + b) as u32) / 0x10000) % 0x100) as u8 == r
        && (((((r * 0x10000 + g * 0x100 + b) as u32) / 0x100) % 0x100) as u8) == g && ((((r
        * 0x10000 + g * 0x100 + b) as u32) % 0x100) as u8) == b) by (bit_vector);
}

/// A row or column index read back from its diacritic is the index modulo
/// 32; indices below 32 come back unchanged.
pub proof fn lemma_diacritic_roundtrip(value: u32)
    ensures
        diacritic_value(diacritic(value)) == Some(value % 32),
        value < 32 ==> diacritic_value(diacritic(value)) == Some(value),
{
    let cp: u32 = (0x305 + value % 32) as u32;
    assert(is_scalar(cp));
}

} // verus!
