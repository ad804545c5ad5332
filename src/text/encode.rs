//! Fixed-point packing of glyph vertices: screen positions, atlas positions
//! and the per-glyph property word.
use vstd::prelude::*;
use crate::ui::element::{color_id_spec, font_id_spec, TextLine};
use crate::ui::walk::{mul_alpha, scale_alpha};

verus! {

/// Largest magnitude, in tenths of a pixel, of a position handed to
/// `encode_screen`.
pub const POSITION_LIMIT: i64 = 0x400_0000_0000;

/// Largest extent, in tenths of a pixel, of a viewport handed to `encode_screen`.
pub const EXTENT_LIMIT: i64 = 0x10_0000_0000;

/// One corner of a glyph quad, ready for the GPU.
#[derive(Debug, Clone, Copy, PartialEq, Eq, Structural)]
pub struct GlyphVertex {
    /// Screen position: x in the high 16 bits, y in the low 16 bits.
    pub encoded_screen: u32,
    /// Atlas position: u in the high 16 bits, v in the low 16 bits.
    pub encoded_uv: u32,
    /// Bits 0..7 alpha, 8..9 font, 10..12 colour, 13..15 outline colour,
    /// 16 outline flag, 24..31 ten times the margin.
    pub props: u32,
}

pub open spec fn clamp(v: int, lo: int, hi: int) -> int {
    if v < lo {
        lo
    } else if v > hi {
        hi
    } else {
        v
    }
}

/// A position `pos` along a viewport axis of extent `extent` (both in
/// tenths of a pixel) as a 16-bit code: the viewport maps to
/// 10000..=55535, rounded to nearest, and positions off the screen are
/// clamped to 0..=65535.
pub open spec fn screen_axis(pos: int, extent: int) -> int {
    clamp((91070 * pos + 20001 * extent) / (2 * extent), 0, 65535)
}

/// A position in the atlas, in tenths of a pixel, as a 16-bit code offset
/// by 10000, clamped to 0..=65535.
pub open spec fn uv_axis(t: int) -> int {
    clamp(t + 10000, 0, 65535)
}

pub open spec fn pack(hi: int, lo: int) -> u32 {
    (hi * 65536 + lo) as u32
}

fn screen_axis_code(pos: i64, extent: i64) -> (r: u32)
    requires
        -POSITION_LIMIT <= pos <= POSITION_LIMIT,
        0 < extent <= EXTENT_LIMIT,
    ensures
        r == screen_axis(pos as int, extent as int),
{
    let num: i64 = 91070 * pos + 20001 * extent;
    let den: i64 = 2 * extent;
    if num < 0 {
        assert(num / den < 0) by (nonlinear_arith)
            requires
                num < 0,
                den > 0,
        ;
        0
    } else {
        let q: i64 = num / den;
        if q > 65535 {
            65535
        } else {
            q as u32
        }
    }
}

/// Packs a screen position, given in tenths of a pixel within a viewport
/// of `width` by `height` tenths, into the 32-bit screen word.
pub fn encode_screen(x: i64, y: i64, width: i64, height: i64) -> (r: u32)
    requires
        -POSITION_LIMIT <= x <= POSITION_LIMIT,
        -POSITION_LIMIT <= y <= POSITION_LIMIT,
        0 < width <= EXTENT_LIMIT,
        0 < height <= EXTENT_LIMIT,
    ensures
        r == pack(screen_axis(x as int, width as int), screen_axis(y as int, height as int)),
{
    let hx = screen_axis_code(x, width);
    let ly = screen_axis_code(y, height);
    hx * 65536 + ly
}

fn uv_axis_code(t: i64) -> (r: u32)
    requires
        -POSITION_LIMIT <= t <= POSITION_LIMIT,
    ensures
        r == uv_axis(t as int),
{
    let v = t + 10000;
    if v < 0 {
        0
    } else if v > 65535 {
        65535
    } else {
        v as u32
    }
}

/// Packs an atlas position, given in tenths of a pixel, into the 32-bit
/// atlas word.
pub fn encode_uv(x: i64, y: i64) -> (r: u32)
    requires
        -POSITION_LIMIT <= x <= POSITION_LIMIT,
        -POSITION_LIMIT <= y <= POSITION_LIMIT,
    ensures
        r == pack(uv_axis(x as int), uv_axis(y as int)),
{
    uv_axis_code(x) * 65536 + uv_axis_code(y)
}

/// The property word of the glyphs of `line`, drawn with a margin of
/// `margin` tenths of a pixel under an accumulated alpha of `alpha`.
pub open spec fn props_code(line: TextLine, margin: int, alpha: u8) -> u32 {
    (scale_alpha(line.alpha, alpha) + font_id_spec(line.font) * 256 + color_id_spec(line.color) * 1024
        + match line.outline {
        Some(c) => color_id_spec(c) * 8192 + 65536,
        None => 0,
    } + clamp(margin, 0, 255) * 16777216) as u32
}

/// Builds the property word of the glyphs of `line`.
pub fn encode_props_plus(line: &TextLine, margin: i64, alpha: u8) -> (r: u32)
    ensures
        r == props_code(*line, margin as int, alpha),
{
    let a: u32 = mul_alpha(line.alpha, alpha) as u32;
    let mut output: u32 = a + line.font.id() * 256 + line.color.id() * 1024;
    if let Some(ocolor) = line.outline {
        output = output + ocolor.id() * 8192 + 65536;
    }
    let m: u32 = if margin < 0 {
        0
    } else if margin > 255 {
        255
    } else {
        margin as u32
    };
    output + m * 16777216
}

/// A packed word holds its two codes whole: the high half is the first,
/// the low half the second.
pub proof fn lemma_pack_halves(hi: int, lo: int)
    requires
        0 <= hi <= 65535,
        0 <= lo <= 65535,
    ensures
        pack(hi, lo) as int == hi * 65536 + lo,
        pack(hi, lo) as int / 65536 == hi,
        pack(hi, lo) as int % 65536 == lo,
{
    assert(0 <= hi * 65536 + lo <= 0xffff_ffff) by (nonlinear_arith)
        requires
            0 <= hi <= 65535,
            0 <= lo <= 65535,
    ;
    vstd::arithmetic::div_mod::lemma_fundamental_div_mod_converse(hi * 65536 + lo, 65536, hi, lo);
}

/// Raising an input never lowers its code: screen and atlas codes are
/// monotone in each coordinate, and so are the packed words.
pub proof fn lemma_encode_monotone(x1: int, x2: int, y: int, extent: int, extent_y: int)
    requires
        x1 <= x2,
        0 < extent,
        0 < extent_y,
    ensures
        screen_axis(x1, extent) <= screen_axis(x2, extent),
        uv_axis(x1) <= uv_axis(x2),
        pack(screen_axis(x1, extent), screen_axis(y, extent_y)) <= pack(
            screen_axis(x2, extent),
            screen_axis(y, extent_y),
        ),
        pack(screen_axis(y, extent_y), screen_axis(x1, extent)) <= pack(
            screen_axis(y, extent_y),
            screen_axis(x2, extent),
        ),
        pack(uv_axis(x1), uv_axis(y)) <= pack(uv_axis(x2), uv_axis(y)),
        pack(uv_axis(y), uv_axis(x1)) <= pack(uv_axis(y), uv_axis(x2)),
{
    let n1 = 91070 * x1 + 20001 * extent;
    let n2 = 91070 * x2 + 20001 * extent;
    assert(n1 <= n2) by (nonlinear_arith)
        requires
            x1 <= x2,
            n1 == 91070 * x1 + 20001 * extent,
            n2 == 91070 * x2 + 20001 * extent,
    ;
    vstd::arithmetic::div_mod::lemma_div_is_ordered(n1, n2, 2 * extent);
}

} // verus!
