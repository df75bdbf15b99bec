//! Object picking: every entity is drawn into an offscreen buffer in a flat
//! colour that spells its identity, and the colour sampled under the cursor
//! is decoded back into that identity.

use vstd::prelude::*;

verus! {

/// One sample of the picking buffer: red, green, blue and alpha.
pub type Color = (u8, u8, u8, u8);

/// Opaque white is the colour the picking buffer is cleared to. A sample of
/// it means that no entity was drawn at that pixel.
pub open spec fn is_background(color: Color) -> bool {
    color.0 == 255 && color.1 == 255 && color.2 == 255 && color.3 == 255
}

/// The number that the four channels spell when they are read as digits in
/// base 256, red first.
pub open spec fn packed(color: Color) -> int {
    color.0 * 0x100_0000 + color.1 * 0x1_0000 + color.2 * 0x100 + color.3
}

/// The identity that a sample stands for, if it stands for one.
pub open spec fn decoded(color: Color) -> Option<u32> {
    if is_background(color) {
        None
    } else {
        Some(packed(color) as u32)
    }
}

/// The colour in which the picking pass draws the entity `id`: the four
/// base-256 digits of `id`, the most significant in the red channel.
pub open spec fn color_of(id: u32) -> Color {
    (
        (id / 0x100_0000) as u8,
        (id / 0x1_0000 % 0x100) as u8,
        (id / 0x100 % 0x100) as u8,
        (id % 0x100) as u8,
    )
}

/// Decodes one sample of the picking buffer into the identity of the entity
/// drawn there, or into `None` for the background.
pub fn color_to_id(color: &Color) -> (id: Option<u32>)
    ensures
        id == decoded(*color),
        id is None <==> is_background(*color),
        id matches Some(n) ==> n == packed(*color) && color_of(n) == *color,
{
    let (red, green, blue, alpha) = *color;
    if red == 255 && green == 255 && blue == 255 && alpha == 255 {
        None
    } else {
        let id = ((red as u32) << 24) | ((green as u32) << 16) | ((blue as u32) << 8) | (alpha as u32);
        proof {
            lemma_shift_or_is_packed(red, green, blue, alpha);
            lemma_encode_inverts_decode(*color);
        }
        Some(id)
    }
}

/// The colour in which to draw the entity `id` into the picking buffer, so
/// that a sample of it is decoded into `id` again. There is none for the last
/// identity: its four digits are the background's.
pub fn id_to_color(id: u32) -> (color: Option<Color>)
    ensures
        id == u32::MAX ==> color is None,
        id != u32::MAX ==> color == Some(color_of(id)) && decoded(color_of(id)) == Some(id),
{
    if id == u32::MAX {
        None
    } else {
        proof {
            lemma_shifts_are_digits(id);
            lemma_decode_inverts_encode(id);
        }
        let red = (id >> 24) as u8;
        let green = ((id >> 16) & 0xff) as u8;
        let blue = ((id >> 8) & 0xff) as u8;
        let alpha = (id & 0xff) as u8;
        Some((red, green, blue, alpha))
    }
}

/// Shifting and masking takes the base-256 digits of `id` apart.
proof fn lemma_shifts_are_digits(id: u32)
    ensures
        id >> 24 == id / 0x100_0000,
        (id >> 16) & 0xff == id / 0x1_0000 % 0x100,
        (id >> 8) & 0xff == id / 0x100 % 0x100,
        id & 0xff == id % 0x100,
        id >> 24 <= 0xff,
{
    assert(id >> 24 == id / 0x100_0000) by (bit_vector);
    assert((id >> 16) & 0xff == id / 0x1_0000 % 0x100) by (bit_vector);
    assert((id >> 8) & 0xff == id / 0x100 % 0x100) by (bit_vector);
    assert(id & 0xff == id % 0x100) by (bit_vector);
    assert(id >> 24 <= 0xff) by (bit_vector);
}

/// Shifting the channels into place and joining them with `|` gives the
/// base-256 number that they spell.
proof fn lemma_shift_or_is_packed(red: u8, green: u8, blue: u8, alpha: u8)
    ensures
        ((red as u32) << 24) | ((green as u32) << 16) | ((blue as u32) << 8) | (alpha as u32)
            == packed((red, green, blue, alpha)),
{
    assert(((red as u32) << 24) | ((green as u32) << 16) | ((blue as u32) << 8) | (alpha as u32)
        == red * 0x100_0000 + green * 0x1_0000 + blue * 0x100 + alpha) by (bit_vector);
}

/// Every sample spells a number that fits in 32 bits, and only the background
/// spells the largest of them.
pub proof fn lemma_packed_bounds(color: Color)
    ensures
        0 <= packed(color) <= u32::MAX,
        packed(color) == u32::MAX <==> is_background(color),
{
}

/// Decoding undoes encoding: the colour drawn for `id` is decoded into `id`
/// again, for every identity but the last one, whose colour is the
/// background's.
pub proof fn lemma_decode_inverts_encode(id: u32)
    requires
        id != u32::MAX,
    ensures
        decoded(color_of(id)) == Some(id),
{
    lemma_digits_spell_id(id);
}

/// The last identity cannot be picked: its colour is the background's.
pub proof fn lemma_last_id_is_background()
    ensures
        is_background(color_of(u32::MAX)),
        decoded(color_of(u32::MAX)) is None,
{
}

/// Encoding undoes decoding: a sample that stands for an identity is the
/// colour in which that identity is drawn.
pub proof fn lemma_encode_inverts_decode(color: Color)
    ensures
        decoded(color) matches Some(id) ==> color_of(id) == color,
{
    lemma_packed_bounds(color);
    let n = packed(color);
    assert(n / 0x100_0000 == color.0 && n / 0x1_0000 % 0x100 == color.1
        && n / 0x100 % 0x100 == color.2 && n % 0x100 == color.3);
}

/// Two samples that are decoded alike are the same sample: no two colours
/// stand for one identity, and only one stands for the background.
pub proof fn lemma_decoding_is_injective(a: Color, b: Color)
    requires
        decoded(a) == decoded(b),
    ensures
        a == b,
{
    lemma_encode_inverts_decode(a);
    lemma_encode_inverts_decode(b);
}

/// The four base-256 digits of `id` spell `id`.
proof fn lemma_digits_spell_id(id: u32)
    ensures
        packed(color_of(id)) == id,
        is_background(color_of(id)) <==> id == u32::MAX,
{
    lemma_packed_bounds(color_of(id));
}

} // verus!
