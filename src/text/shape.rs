//! Text shaping: a line of text, laid out with the atlas's glyph metrics
//! and scaled to the line's height, becomes six vertices per drawn glyph.
use vstd::prelude::*;
use crate::text::atlas::{find_glyph, GlyphAtlas, GlyphMetrics, METRIC_LIMIT};
use crate::text::encode::{
    clamp, encode_props_plus, encode_screen, encode_uv, pack, props_code, screen_axis, uv_axis,
    GlyphVertex,
};
use crate::ui::arena::Ui;
use crate::ui::element::TextLine;
use crate::ui::geom::AbsRect;

verus! {

/// The pen stays within this many tenths of a pixel of the viewport's origin.
pub const PEN_LIMIT: i64 = 0x100_0000_0000;

/// An atlas metric `v` scaled from the atlas's line height to a line of
/// `lineheight` pixels; both metrics are in tenths of a pixel.
pub open spec fn scale_metric(v: int, lineheight: int, atlas_line_height: int) -> int {
    v * lineheight * 10 / atlas_line_height
}

pub open spec fn clamp_pen(v: int) -> int {
    clamp(v, -PEN_LIMIT as int, PEN_LIMIT as int)
}

pub open spec fn vertex(sx: int, sy: int, ux: int, uy: int, vw: int, vh: int, props: u32) -> GlyphVertex {
    GlyphVertex {
        encoded_screen: pack(screen_axis(sx, vw), screen_axis(sy, vh)),
        encoded_uv: pack(uv_axis(ux), uv_axis(uy)),
        props,
    }
}

/// The six vertices (two triangles) of glyph `g` drawn with its pen at
/// (`pen_x`, `pen_y`) in a viewport of `vw` by `vh`, all in tenths of a pixel.
pub open spec fn glyph_quad(
    atlas: GlyphAtlas,
    lh: int,
    g: GlyphMetrics,
    pen_x: int,
    pen_y: int,
    vw: int,
    vh: int,
    props: u32,
) -> Seq<GlyphVertex> {
    let alh = atlas.line_height as int;
    let b = g.inner_bounding_box;
    let margin = scale_metric(atlas.margin as int, lh, alh);
    let w = scale_metric(b.w as int, lh, alh);
    let h = scale_metric(b.h as int, lh, alh);
    let sx = pen_x + scale_metric(g.pre_draw_advance as int, lh, alh) - margin;
    let sy = pen_y + scale_metric(g.height_offset as int, lh, alh) - h - margin;
    let sw = w + 2 * margin;
    let sh = h + 2 * margin;
    let ux = b.x - atlas.margin - 5;
    let uy = b.y - atlas.margin - 5;
    let uw = b.w + 2 * atlas.margin + 5;
    let uh = b.h + 2 * atlas.margin + 5;
    let ul = vertex(sx, sy, ux, uy, vw, vh, props);
    let ll = vertex(sx, sy + sh, ux, uy + uh, vw, vh, props);
    let ur = vertex(sx + sw, sy, ux + uw, uy, vw, vh, props);
    let lr = vertex(sx + sw, sy + sh, ux + uw, uy + uh, vw, vh, props);
    seq![ul, ll, ur, ur, ll, lr]
}

/// The vertices of `chars` with the pen starting at (`pen_x`, `pen_y`):
/// a character the atlas lacks is skipped and does not move the pen.
pub open spec fn shape_chars(
    atlas: GlyphAtlas,
    lh: int,
    chars: Seq<char>,
    pen_x: int,
    pen_y: int,
    vw: int,
    vh: int,
    props: u32,
) -> Seq<GlyphVertex>
    decreases chars.len(),
{
    if chars.len() == 0 {
        Seq::empty()
    } else {
        match find_glyph(atlas.glyphs@, chars[0]) {
            None => shape_chars(atlas, lh, chars.drop_first(), pen_x, pen_y, vw, vh, props),
            Some(g) => glyph_quad(atlas, lh, g, pen_x, pen_y, vw, vh, props) + shape_chars(
                atlas,
                lh,
                chars.drop_first(),
                clamp_pen(
                    pen_x + scale_metric(g.post_draw_advance as int, lh, atlas.line_height as int),
                ),
                pen_y,
                vw,
                vh,
                props,
            ),
        }
    }
}

/// The characters of `chars` that the atlas holds, in order.
pub open spec fn known_chars(atlas: GlyphAtlas, chars: Seq<char>) -> Seq<char>
    decreases chars.len(),
{
    if chars.len() == 0 {
        Seq::empty()
    } else if find_glyph(atlas.glyphs@, chars[0]) is Some {
        seq![chars[0]] + known_chars(atlas, chars.drop_first())
    } else {
        known_chars(atlas, chars.drop_first())
    }
}

/// Characters the atlas lacks draw nothing and leave the pen where it was:
/// shaping a text gives the same vertices as shaping only the characters the
/// atlas holds.
pub proof fn lemma_missing_glyphs_skipped(
    atlas: GlyphAtlas,
    lh: int,
    chars: Seq<char>,
    pen_x: int,
    pen_y: int,
    vw: int,
    vh: int,
    props: u32,
)
    ensures
        shape_chars(atlas, lh, chars, pen_x, pen_y, vw, vh, props) == shape_chars(
            atlas,
            lh,
            known_chars(atlas, chars),
            pen_x,
            pen_y,
            vw,
            vh,
            props,
        ),
    decreases chars.len(),
{
    if chars.len() > 0 {
        let rest = chars.drop_first();
        match find_glyph(atlas.glyphs@, chars[0]) {
            None => {
                lemma_missing_glyphs_skipped(atlas, lh, rest, pen_x, pen_y, vw, vh, props);
            },
            Some(g) => {
                let next_x = clamp_pen(
                    pen_x + scale_metric(g.post_draw_advance as int, lh, atlas.line_height as int),
                );
                lemma_missing_glyphs_skipped(atlas, lh, rest, next_x, pen_y, vw, vh, props);
                let k = seq![chars[0]] + known_chars(atlas, rest);
                assert(k[0] == chars[0]);
                assert(k.drop_first() =~= known_chars(atlas, rest));
            },
        }
    }
}

/// The vertices of `line` drawn in viewport `vport` under accumulated alpha
/// `alpha`, with the pen starting at (`pen_x`, `pen_y`) pixels from the
/// viewport's origin; an empty viewport shows nothing.
pub open spec fn shape_line(
    atlas: GlyphAtlas,
    line: TextLine,
    vport: AbsRect,
    pen_x: int,
    pen_y: int,
    alpha: u8,
) -> Seq<GlyphVertex> {
    if vport.width <= 0 || vport.height <= 0 {
        Seq::empty()
    } else {
        let lh = line.lineheight as int;
        let margin = scale_metric(atlas.margin as int, lh, atlas.line_height as int);
        shape_chars(
            atlas,
            lh,
            line.text@,
            clamp_pen(pen_x * 10),
            clamp_pen(pen_y * 10),
            vport.width * 10,
            vport.height * 10,
            props_code(line, margin, alpha),
        )
    }
}

fn scale(v: i32, lineheight: u8, atlas_line_height: i32) -> (r: i64)
    requires
        -METRIC_LIMIT <= v <= METRIC_LIMIT,
        1 <= atlas_line_height <= METRIC_LIMIT,
    ensures
        r == scale_metric(v as int, lineheight as int, atlas_line_height as int),
        -0x1_0000_0000 <= r <= 0x1_0000_0000,
{
    let lh = lineheight as i64;
    assert(-0x1_0000_0000 <= v as int * lh as int * 10 <= 0x1_0000_0000) by (nonlinear_arith)
        requires
            -0x10_0000 <= v <= 0x10_0000,
            0 <= lh <= 255,
    ;
    let num: i64 = v as i64 * lh * 10;
    let den: i64 = atlas_line_height as i64;
    if num >= 0 {
        assert(0 <= num / den <= num) by (nonlinear_arith)
            requires
                0 <= num,
                1 <= den,
        ;
        num / den
    } else {
        let q: i64 = (-num + den - 1) / den;
        assert(-q == num as int / den as int && q <= -num) by (nonlinear_arith)
            requires
                num < 0,
                1 <= den,
                q == (-num as int + den as int - 1) / den as int,
        ;
        -q
    }
}

fn clamp_pen_exec(v: i64) -> (r: i64)
    ensures
        r == clamp_pen(v as int),
{
    if v < -PEN_LIMIT {
        -PEN_LIMIT
    } else if v > PEN_LIMIT {
        PEN_LIMIT
    } else {
        v
    }
}

/// The vertices of `line` in viewport `vport` under accumulated alpha
/// `alpha`, the pen starting at (`px`, `py`) pixels from the viewport's
/// origin: six per character that the atlas holds, in order.
pub fn generate_vertices(atlas: &GlyphAtlas, line: &TextLine, vport: &AbsRect, px: i64, py: i64, alpha: u8) -> (r: Vec<
    GlyphVertex,
>)
    requires
        atlas.wf(),
        -0x1_0000_0000 <= px <= 0x1_0000_0000,
        -0x1_0000_0000 <= py <= 0x1_0000_0000,
    ensures
        r@ == shape_line(*atlas, *line, *vport, px as int, py as int, alpha),
{
    if vport.width <= 0 || vport.height <= 0 {
        return Vec::new();
    }
    let lh = line.lineheight;
    let alh = atlas.line_height;
    let margin = scale(atlas.margin, lh, alh);
    let props = encode_props_plus(line, margin, alpha);
    let vw: i64 = vport.width as i64 * 10;
    let vh: i64 = vport.height as i64 * 10;
    let mut pen_x = clamp_pen_exec(px * 10);
    let pen_y = clamp_pen_exec(py * 10);
    let ghost chars = line.text@;
    let ghost lhi = lh as int;
    let ghost whole = shape_chars(*atlas, lhi, chars, pen_x as int, pen_y as int, vw as int, vh as int, props);
    let mut out: Vec<GlyphVertex> = Vec::new();
    assert(chars.subrange(0, chars.len() as int) =~= chars);
    for ch in it: line.text.chars()
        invariant
            atlas.wf(),
            chars == line.text@,
            it.seq() == chars,
            0 < vw <= 0x8_0000_0000,
            0 < vh <= 0x8_0000_0000,
            -PEN_LIMIT <= pen_x <= PEN_LIMIT,
            -PEN_LIMIT <= pen_y <= PEN_LIMIT,
            -0x1_0000_0000 <= margin <= 0x1_0000_0000,
            margin == scale_metric(atlas.margin as int, lhi, atlas.line_height as int),
            lhi == lh as int,
            alh == atlas.line_height,
            whole == out@ + shape_chars(
                *atlas,
                lhi,
                chars.subrange(it.index() as int, chars.len() as int),
                pen_x as int,
                pen_y as int,
                vw as int,
                vh as int,
                props,
            ),
    {
        let ghost rest = chars.subrange(it.index() as int, chars.len() as int);
        assert(rest[0] == ch);
        assert(rest.drop_first() =~= chars.subrange(it.index() + 1, chars.len() as int));
        match atlas.lookup(ch) {
            None => {},
            Some(g) => {
                let b = g.inner_bounding_box;
                let w = scale(b.w, lh, alh);
                let h = scale(b.h, lh, alh);
                let sx = pen_x + scale(g.pre_draw_advance, lh, alh) - margin;
                let sy = pen_y + scale(g.height_offset, lh, alh) - h - margin;
                let sw = w + 2 * margin;
                let sh = h + 2 * margin;
                let ux: i64 = b.x as i64 - atlas.margin as i64 - 5;
                let uy: i64 = b.y as i64 - atlas.margin as i64 - 5;
                let uw: i64 = b.w as i64 + 2 * atlas.margin as i64 + 5;
                let uh: i64 = b.h as i64 + 2 * atlas.margin as i64 + 5;
                let ul = GlyphVertex {
                    encoded_screen: encode_screen(sx, sy, vw, vh),
                    encoded_uv: encode_uv(ux, uy),
                    props,
                };
                let ll = GlyphVertex {
                    encoded_screen: encode_screen(sx, sy + sh, vw, vh),
                    encoded_uv: encode_uv(ux, uy + uh),
                    props,
                };
                let ur = GlyphVertex {
                    encoded_screen: encode_screen(sx + sw, sy, vw, vh),
                    encoded_uv: encode_uv(ux + uw, uy),
                    props,
                };
                let lr = GlyphVertex {
                    encoded_screen: encode_screen(sx + sw, sy + sh, vw, vh),
                    encoded_uv: encode_uv(ux + uw, uy + uh),
                    props,
                };
                let ghost before = out@;
                out.push(ul);
                out.push(ll);
                out.push(ur);
                out.push(ur);
                out.push(ll);
                out.push(lr);
                let ghost quad = glyph_quad(*atlas, lhi, g, pen_x as int, pen_y as int, vw as int, vh as int, props);
                assert(out@ =~= before + quad);
                pen_x = clamp_pen_exec(pen_x + scale(g.post_draw_advance, lh, alh));
            },
        }
    }
    proof {
        assert(chars.subrange(chars.len() as int, chars.len() as int) =~= Seq::<char>::empty());
        assert(out@ =~= whole);
    }
    out
}

/// How far the pen moves over `chars`, starting at `pen`, in tenths of a pixel.
pub open spec fn advance_width(atlas: GlyphAtlas, lh: int, chars: Seq<char>, pen: int) -> int
    decreases chars.len(),
{
    if chars.len() == 0 {
        pen
    } else {
        match find_glyph(atlas.glyphs@, chars[0]) {
            None => advance_width(atlas, lh, chars.drop_first(), pen),
            Some(g) => advance_width(
                atlas,
                lh,
                chars.drop_first(),
                clamp_pen(pen + scale_metric(g.post_draw_advance as int, lh, atlas.line_height as int)),
            ),
        }
    }
}

impl Ui {
    /// The width of `line` when drawn, in tenths of a pixel: the sum of the
    /// scaled advances of the characters `atlas` holds.
    pub fn get_pixel_length(&self, atlas: &GlyphAtlas, line: &TextLine) -> (r: i64)
        requires
            atlas.wf(),
        ensures
            r == advance_width(*atlas, line.lineheight as int, line.text@, 0),
    {
        pixel_length(atlas, line)
    }
}

fn pixel_length(atlas: &GlyphAtlas, line: &TextLine) -> (r: i64)
    requires
        atlas.wf(),
    ensures
        r == advance_width(*atlas, line.lineheight as int, line.text@, 0),
{
    let ghost chars = line.text@;
    let ghost lhi = line.lineheight as int;
    let mut pen: i64 = 0;
    assert(chars.subrange(0, chars.len() as int) =~= chars);
    for ch in it: line.text.chars()
        invariant
            atlas.wf(),
            chars == line.text@,
            it.seq() == chars,
            lhi == line.lineheight as int,
            -PEN_LIMIT <= pen <= PEN_LIMIT,
            advance_width(*atlas, lhi, chars, 0) == advance_width(
                *atlas,
                lhi,
                chars.subrange(it.index() as int, chars.len() as int),
                pen as int,
            ),
    {
        let ghost rest = chars.subrange(it.index() as int, chars.len() as int);
        assert(rest[0] == ch);
        assert(rest.drop_first() =~= chars.subrange(it.index() + 1, chars.len() as int));
        match atlas.lookup(ch) {
            None => {},
            Some(g) => {
                pen = clamp_pen_exec(pen + scale(g.post_draw_advance, line.lineheight, atlas.line_height));
            },
        }
    }
    assert(chars.subrange(chars.len() as int, chars.len() as int) =~= Seq::<char>::empty());
    pen
}

} // verus!
