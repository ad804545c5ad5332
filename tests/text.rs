use siege_ui::text::atlas::{GlyphAtlas, GlyphBox, GlyphMetrics};
use siege_ui::text::buffer::TextGfx;
use siege_ui::text::encode::{encode_props_plus, encode_screen, encode_uv, GlyphVertex};
use siege_ui::text::shape::generate_vertices;
use siege_ui::ui::arena::Ui;
use siege_ui::ui::element::{Font, TextColor, TextLine, UiElement, UiWindow};
use siege_ui::ui::geom::{AbsRect, Coord, Point, Rect, RectX, RectY};

fn glyph(x: i32) -> GlyphMetrics {
    GlyphMetrics {
        inner_bounding_box: GlyphBox { x, y: 0, w: 80, h: 100 },
        pre_draw_advance: 10,
        post_draw_advance: 100,
        height_offset: 0,
    }
}

fn atlas() -> GlyphAtlas {
    let mut a = GlyphAtlas::new(200, 20);
    a.insert('a', glyph(0));
    a.insert('b', glyph(100));
    a
}

fn line(s: &str, alpha: u8) -> TextLine {
    TextLine {
        ui_coordinates: Point { x: Coord::near(0, 0), y: Coord::near(0, 20) },
        lineheight: 20,
        color: TextColor::Red,
        outline: Some(TextColor::Blue),
        font: Font::Mono,
        alpha,
        text: s.to_owned(),
    }
}

#[test]
fn encode_screen_maps_viewport_to_code_range() {
    assert_eq!(encode_screen(0, 0, 1000, 1000), (10000 << 16) | 10000);
    assert_eq!(encode_screen(1000, 500, 1000, 1000), (55535 << 16) | 32768);
    assert_eq!(encode_screen(-1_000_000, 5_000_000, 1000, 1000), 65535);
}

#[test]
fn encode_uv_offsets_tenths() {
    assert_eq!(encode_uv(0, 0), (10000 << 16) | 10000);
    assert_eq!(encode_uv(123, -45), (10123 << 16) | 9955);
    assert_eq!(encode_uv(-20000, 70000), 65535);
}

#[test]
fn encodings_are_monotone() {
    let mut last_screen = 0;
    let mut last_uv = 0;
    for x in (-3000..3000).step_by(7) {
        let s = encode_screen(x, 250, 1000, 1000);
        let u = encode_uv(x * 5, 3);
        assert!(s >= last_screen);
        assert!(u >= last_uv);
        last_screen = s;
        last_uv = u;
    }
}

#[test]
fn props_pack_every_field() {
    let l = line("", 255);
    let p = encode_props_plus(&l, 17, 255);
    assert_eq!(p, 255 | (1 << 8) | (2 << 10) | (6 << 13) | (1 << 16) | (17 << 24));
    let p = encode_props_plus(&line("", 200), 999, 128);
    assert_eq!(p & 0xff, 100);
    assert_eq!(p >> 24, 255);
    let mut plain = line("", 255);
    plain.outline = None;
    assert_eq!(encode_props_plus(&plain, -3, 0) & 0xffff_0000, 0);
}

#[test]
fn glyph_quad_positions() {
    let a = atlas();
    let vport = AbsRect { x: 0, y: 0, width: 100, height: 100 };
    let v = generate_vertices(&a, &line("a", 255), &vport, 0, 20, 255);
    assert_eq!(v.len(), 6);
    // scale 20px / 20px: metrics unchanged; margin 2px
    // screen box in tenths: x = 0 + 10 - 20 = -10, y = 200 + 0 - 100 - 20 = 80, w = 120, h = 140
    let code = |p: i64| ((91070 * p + 20001 * 1000) / 2000) as u32;
    assert_eq!(v[0].encoded_screen, (code(-10) << 16) | code(80));
    assert_eq!(v[5].encoded_screen, (code(110) << 16) | code(220));
    // atlas box: x = 0 - 20 - 5, w = 80 + 40 + 5
    assert_eq!(v[0].encoded_uv, ((10000 - 25) << 16) | (10000 - 25));
    assert_eq!(v[5].encoded_uv, ((10000 + 100) << 16) | (10000 + 120));
    assert_eq!(v[1], v[4]);
    assert_eq!(v[2], v[3]);
    assert_eq!(v[0].props & 0xff, 255);
    assert_eq!(v[0].props >> 24, 20);
}

#[test]
fn missing_glyph_is_skipped() {
    let a = atlas();
    let vport = AbsRect { x: 0, y: 0, width: 300, height: 100 };
    let with_gap = generate_vertices(&a, &line("a?b", 255), &vport, 0, 20, 255);
    let without = generate_vertices(&a, &line("ab", 255), &vport, 0, 20, 255);
    assert_eq!(with_gap.len(), 12);
    assert_eq!(with_gap, without);
    let none = generate_vertices(&a, &line("??", 255), &vport, 0, 20, 255);
    assert!(none.is_empty());
}

#[test]
fn empty_viewport_draws_nothing() {
    let a = atlas();
    let vport = AbsRect { x: 5, y: 5, width: 0, height: 100 };
    assert!(generate_vertices(&a, &line("ab", 255), &vport, 0, 20, 255).is_empty());
}

#[test]
fn pixel_length_sums_advances() {
    let a = atlas();
    let ui = Ui::new();
    assert_eq!(ui.get_pixel_length(&a, &line("ab?a", 255)), 300);
    let mut big = line("ab", 255);
    big.lineheight = 40;
    assert_eq!(ui.get_pixel_length(&a, &big), 400);
    assert_eq!(ui.get_pixel_length(&a, &line("", 255)), 0);
}

#[test]
fn atlas_validity_and_lookup() {
    let a = atlas();
    assert!(a.is_valid());
    assert_eq!(a.lookup('b').unwrap().inner_bounding_box.x, 100);
    assert!(a.lookup('z').is_none());
    let bad = GlyphAtlas::new(0, 0);
    assert!(!bad.is_valid());
    let mut huge = atlas();
    let mut g = glyph(0);
    g.post_draw_advance = 0x10_0001;
    huge.insert('c', g);
    assert!(!huge.is_valid());
    huge.insert('c', glyph(7));
    assert!(huge.is_valid());
    assert_eq!(huge.lookup('c').unwrap().inner_bounding_box.x, 7);
}

#[test]
fn regenerate_groups_text_lines() {
    let mut ui = Ui::new();
    let full = Rect::new(
        RectX::LeftRight(Coord::near(0, 10), Coord::far(0, 0)),
        RectY::TopBottom(Coord::near(0, 0), Coord::far(0, 0)),
    );
    let w = ui.add_element(UiElement::Window(UiWindow::new(full, [0; 4], 255)), None).unwrap();
    ui.add_element(UiElement::Text(line("ab", 255)), Some(w)).unwrap();
    ui.add_element(UiElement::Text(line("a", 255)), Some(w)).unwrap();
    let mut gfx = TextGfx::new(atlas(), 200, 100);
    assert!(gfx.update(&mut ui));
    assert!(!ui.is_text_dirty());
    assert_eq!(gfx.vertex_buffer.len(), 18);
    assert_eq!(gfx.vertex_groups.len(), 2);
    assert_eq!((gfx.vertex_groups[0].offset, gfx.vertex_groups[0].len), (0, 12));
    assert_eq!((gfx.vertex_groups[1].offset, gfx.vertex_groups[1].len), (12, 6));
    assert_eq!(gfx.vertex_groups[1].arect, AbsRect { x: 10, y: 0, width: 190, height: 100 });
    assert_eq!(gfx.vertex_groups[1].depth, 1);
    assert!(!gfx.update(&mut ui));
    let first: Vec<GlyphVertex> = gfx.vertex_buffer.clone();
    gfx.rebuild(400, 100, &mut ui);
    assert_eq!(gfx.vertex_buffer.len(), 18);
    assert_ne!(gfx.vertex_buffer, first);
}
