//! Nine-slice window decoration: corner, edge and pane tiles of the
//! user-interface atlas laid around a window, with an inner window inside
//! the border.
use vstd::prelude::*;
use crate::ui::arena::{category, Handle, Ui, UiNode, MAX_HANDLE};
use crate::ui::element::{Font, TextColor, TextLine, UiElement, UiImage, UiWindow, ALPHA_OPAQUE};
use crate::ui::geom::{AbsRect, Anchor, Coord, Dim, Point, Rect, RectX, RectY};

verus! {

/// Side of a square tile of the user-interface atlas, in pixels; also the
/// thickness of a window's border.
pub const TILE_SIZE: i32 = 12;

/// The tiles of the user-interface atlas that frame a window.
#[derive(Debug, Clone, Copy, PartialEq, Eq, Structural)]
pub enum WindowTile {
    TopLeftCorner,
    TopRightCorner,
    BottomLeftCorner,
    BottomRightCorner,
    Top,
    Bottom,
    Left,
    Right,
    Pane,
    LeftRule,
    Rule,
    RightRule,
}

/// Column and row of a tile in the atlas's grid of `TILE_SIZE` squares.
pub open spec fn tile_cell(t: WindowTile) -> (int, int) {
    match t {
        WindowTile::TopLeftCorner => (0, 0),
        WindowTile::Top => (1, 0),
        WindowTile::TopRightCorner => (2, 0),
        WindowTile::Left => (0, 1),
        WindowTile::Pane => (1, 1),
        WindowTile::Right => (2, 1),
        WindowTile::LeftRule => (0, 2),
        WindowTile::Rule => (1, 2),
        WindowTile::RightRule => (2, 2),
        WindowTile::BottomLeftCorner => (0, 3),
        WindowTile::Bottom => (1, 3),
        WindowTile::BottomRightCorner => (2, 3),
    }
}

/// Where tile `t` lies in the atlas.
pub open spec fn tile_rect(t: WindowTile) -> AbsRect {
    AbsRect {
        x: (tile_cell(t).0 * TILE_SIZE) as i32,
        y: (tile_cell(t).1 * TILE_SIZE) as i32,
        width: TILE_SIZE,
        height: TILE_SIZE,
    }
}

impl WindowTile {
    /// Where the tile lies in the atlas.
    pub fn source_rect(&self) -> (r: AbsRect)
        ensures
            r == tile_rect(*self),
    {
        let (col, row): (i32, i32) = match *self {
            WindowTile::TopLeftCorner => (0, 0),
            WindowTile::Top => (1, 0),
            WindowTile::TopRightCorner => (2, 0),
            WindowTile::Left => (0, 1),
            WindowTile::Pane => (1, 1),
            WindowTile::Right => (2, 1),
            WindowTile::LeftRule => (0, 2),
            WindowTile::Rule => (1, 2),
            WindowTile::RightRule => (2, 2),
            WindowTile::BottomLeftCorner => (0, 3),
            WindowTile::Bottom => (1, 3),
            WindowTile::BottomRightCorner => (2, 3),
        };
        AbsRect { x: col * TILE_SIZE, y: row * TILE_SIZE, width: TILE_SIZE, height: TILE_SIZE }
    }
}

pub open spec fn near(px: int) -> Coord {
    Coord { anchor: Anchor::TopOrLeft, dim: Dim { fraction: 0, pixel_offset: px as i32 } }
}

pub open spec fn far(px: int) -> Coord {
    Coord { anchor: Anchor::BottomOrRight, dim: Dim { fraction: 0, pixel_offset: px as i32 } }
}

/// The border's thickness.
pub open spec fn border() -> Dim {
    Dim { fraction: 0, pixel_offset: TILE_SIZE }
}

/// The rectangle of the inner window: the parent inset by a border on every side.
pub open spec fn inner_rect() -> Rect {
    Rect {
        rectx: RectX::LeftRight(near(TILE_SIZE as int), far(-TILE_SIZE)),
        recty: RectY::TopBottom(near(TILE_SIZE as int), far(-TILE_SIZE)),
    }
}

/// The tile of the `k`-th frame image: the top row, the sides and pane,
/// then the bottom row.
pub open spec fn frame_tile(k: int) -> WindowTile {
    if k == 0 {
        WindowTile::TopLeftCorner
    } else if k == 1 {
        WindowTile::TopRightCorner
    } else if k == 2 {
        WindowTile::Top
    } else if k == 3 {
        WindowTile::Left
    } else if k == 4 {
        WindowTile::Right
    } else if k == 5 {
        WindowTile::Pane
    } else if k == 6 {
        WindowTile::BottomLeftCorner
    } else if k == 7 {
        WindowTile::BottomRightCorner
    } else {
        WindowTile::Bottom
    }
}

/// Where the `k`-th frame image's tile is pinned, and the area it repeats
/// over.
pub open spec fn frame_rects(k: int) -> (Rect, Rect) {
    let b = TILE_SIZE as int;
    let lw_out = RectX::LeftWidth(near(0), border());
    let rw_out = RectX::RightWidth(far(0), border());
    let lw_in = RectX::LeftWidth(near(b), border());
    let lr_in = RectX::LeftRight(near(b), far(-b));
    let th_out = RectY::TopHeight(near(0), border());
    let bh_out = RectY::BottomHeight(far(0), border());
    let th_in = RectY::TopHeight(near(b), border());
    let tb_in = RectY::TopBottom(near(b), far(-b));
    if k == 0 {
        (Rect { rectx: lw_out, recty: th_out }, Rect { rectx: lw_out, recty: th_out })
    } else if k == 1 {
        (Rect { rectx: rw_out, recty: th_out }, Rect { rectx: rw_out, recty: th_out })
    } else if k == 2 {
        (Rect { rectx: lw_in, recty: th_out }, Rect { rectx: lr_in, recty: th_out })
    } else if k == 3 {
        (Rect { rectx: lw_out, recty: th_in }, Rect { rectx: lw_out, recty: tb_in })
    } else if k == 4 {
        (Rect { rectx: rw_out, recty: th_in }, Rect { rectx: rw_out, recty: tb_in })
    } else if k == 5 {
        (Rect { rectx: lw_in, recty: th_in }, Rect { rectx: lr_in, recty: tb_in })
    } else if k == 6 {
        (Rect { rectx: lw_out, recty: bh_out }, Rect { rectx: lw_out, recty: bh_out })
    } else if k == 7 {
        (Rect { rectx: rw_out, recty: bh_out }, Rect { rectx: rw_out, recty: bh_out })
    } else {
        (Rect { rectx: lw_in, recty: bh_out }, Rect { rectx: lr_in, recty: bh_out })
    }
}

/// The `k`-th of the nine images that frame a window.
pub open spec fn frame_image(k: int) -> UiElement {
    UiElement::Image(
        UiImage {
            widget: tile_rect(frame_tile(k)),
            widget_pin_rect: frame_rects(k).0,
            screen_draw_rect: frame_rects(k).1,
        },
    )
}

/// The title line of a decorated window reads `s`.
pub open spec fn title_line(t: TextLine, s: Seq<char>) -> bool {
    &&& t.ui_coordinates == Point { x: near(TILE_SIZE + 5), y: near(TILE_SIZE - 2) }
    &&& t.lineheight == TILE_SIZE - 4
    &&& t.color == TextColor::Black
    &&& t.outline is None
    &&& t.font == Font::Mono
    &&& t.alpha == ALPHA_OPAQUE
    &&& t.text@ == s
}

/// The inner window of a decorated window.
pub open spec fn inner_window() -> UiElement {
    UiElement::Window(UiWindow { rect: inner_rect(), color: [0u8, 0u8, 0u8, 0u8], child_alpha: ALPHA_OPAQUE })
}

fn frame_element(k: usize) -> (r: UiElement)
    requires
        k < 9,
    ensures
        r == frame_image(k as int),
{
    let border = Dim::new(0, TILE_SIZE);
    let lw_out = RectX::LeftWidth(Coord::near(0, 0), border);
    let rw_out = RectX::RightWidth(Coord::far(0, 0), border);
    let lw_in = RectX::LeftWidth(Coord::near(0, TILE_SIZE), border);
    let lr_in = RectX::LeftRight(Coord::near(0, TILE_SIZE), Coord::far(0, -TILE_SIZE));
    let th_out = RectY::TopHeight(Coord::near(0, 0), border);
    let bh_out = RectY::BottomHeight(Coord::far(0, 0), border);
    let th_in = RectY::TopHeight(Coord::near(0, TILE_SIZE), border);
    let tb_in = RectY::TopBottom(Coord::near(0, TILE_SIZE), Coord::far(0, -TILE_SIZE));
    let (tile, pin, draw) = if k == 0 {
        (WindowTile::TopLeftCorner, Rect::new(lw_out, th_out), Rect::new(lw_out, th_out))
    } else if k == 1 {
        (WindowTile::TopRightCorner, Rect::new(rw_out, th_out), Rect::new(rw_out, th_out))
    } else if k == 2 {
        (WindowTile::Top, Rect::new(lw_in, th_out), Rect::new(lr_in, th_out))
    } else if k == 3 {
        (WindowTile::Left, Rect::new(lw_out, th_in), Rect::new(lw_out, tb_in))
    } else if k == 4 {
        (WindowTile::Right, Rect::new(rw_out, th_in), Rect::new(rw_out, tb_in))
    } else if k == 5 {
        (WindowTile::Pane, Rect::new(lw_in, th_in), Rect::new(lr_in, tb_in))
    } else if k == 6 {
        (WindowTile::BottomLeftCorner, Rect::new(lw_out, bh_out), Rect::new(lw_out, bh_out))
    } else if k == 7 {
        (WindowTile::BottomRightCorner, Rect::new(rw_out, bh_out), Rect::new(rw_out, bh_out))
    } else {
        (WindowTile::Bottom, Rect::new(lw_in, bh_out), Rect::new(lr_in, bh_out))
    };
    UiElement::Image(UiImage { widget: tile.source_rect(), widget_pin_rect: pin, screen_draw_rect: draw })
}

/// Adds `e` as the last child of `parent`, which is a node.
fn add_child(ui: &mut Ui, e: UiElement, parent: Handle) -> (h: Handle)
    requires
        old(ui).wf(),
        old(ui).nodes().contains_key(parent.0),
        old(ui).next_id() <= MAX_HANDLE,
    ensures
        final(ui).wf(),
        h.0 == old(ui).next_id(),
        final(ui).next_id() == old(ui).next_id() + 1,
        final(ui).roots() == old(ui).roots(),
        final(ui).flags_after(*old(ui), category(e)),
        final(ui).nodes().contains_key(parent.0),
        final(ui).nodes().contains_key(h.0),
        final(ui).nodes()[h.0].element == e,
        final(ui).nodes()[h.0].children@ == Seq::<Handle>::empty(),
        final(ui).nodes()[parent.0].element == old(ui).nodes()[parent.0].element,
        final(ui).nodes()[parent.0].children@ == old(ui).nodes()[parent.0].children@.push(h),
        forall|k: usize|
            k != parent.0 && #[trigger] old(ui).nodes().contains_key(k) ==> final(ui).nodes().contains_key(k)
                && final(ui).nodes()[k] == old(ui).nodes()[k],
{
    proof {
        old(ui).lemma_wf();
    }
    let r = ui.add_element(e, Some(parent));
    match r {
        Some(h) => h,
        None => {
            assert(false);
            Handle(0)
        },
    }
}

/// Node `base + j` exists and has no children.
pub open spec fn fresh_at(m: Map<usize, UiNode>, base: nat, j: int) -> bool {
    m.contains_key((base + j) as usize) && m[(base + j) as usize].children@ == Seq::<Handle>::empty()
}

/// Every node of `before` but `parent` is in `after`, unchanged.
pub open spec fn others_kept(before: Map<usize, UiNode>, after: Map<usize, UiNode>, parent: usize) -> bool {
    forall|key: usize|
        key != parent && #[trigger] before.contains_key(key) ==> after.contains_key(key) && after[key] == before[key]
}

proof fn lemma_fresh_kept(before: Map<usize, UiNode>, after: Map<usize, UiNode>, parent: usize, base: nat, n: int)
    requires
        others_kept(before, after, parent),
        parent < base,
        base + n <= MAX_HANDLE,
        forall|j: int| 0 <= j < n ==> #[trigger] fresh_at(before, base, j),
    ensures
        forall|j: int|
            #![trigger fresh_at(after, base, j)]
            0 <= j < n ==> fresh_at(after, base, j) && after[(base + j) as usize] == before[(base + j) as usize],
{
    assert forall|j: int|
        #![trigger fresh_at(after, base, j)]
        0 <= j < n implies fresh_at(after, base, j) && after[(base + j) as usize] == before[(base + j) as usize] by {
        lemma_fresh_kept_one(before, after, parent, base, j);
    }
    assert(forall|j: int| 0 <= j < n ==> #[trigger] fresh_at(after, base, j));
    assert(forall|j: int| 0 <= j < n ==> #[trigger] fresh_at(after, base, j) ==> after[(base + j) as usize] == before[(base + j) as usize]);
}

proof fn lemma_fresh_kept_one(before: Map<usize, UiNode>, after: Map<usize, UiNode>, parent: usize, base: nat, j: int)
    requires
        others_kept(before, after, parent),
        parent < base,
        0 <= j,
        base + j < MAX_HANDLE,
        fresh_at(before, base, j),
    ensures
        fresh_at(after, base, j),
        after[(base + j) as usize] == before[(base + j) as usize],
{
    let key = (base + j) as usize;
    assert(before.contains_key(key));
    assert(key != parent);
}

/// The handles `base`, `base + 1`, ... of `n` nodes added one after another.
pub open spec fn new_handles(base: nat, n: int) -> Seq<Handle> {
    Seq::new(n as nat, |j: int| Handle((base + j) as usize))
}

impl UiWindow {
    /// Frames the window `handle` with corner, edge and pane tiles (and the
    /// title, when there is one), then adds an inner window inset by the
    /// border on every side, and returns it: further content goes there.
    /// The list of split positions is accepted and not used.
    pub fn decorate_window(ui: &mut Ui, handle: Handle, splits: Vec<Coord>, title: Option<&str>) -> (r: Handle)
        requires
            old(ui).wf(),
            old(ui).nodes().contains_key(handle.0),
            old(ui).next_id() + 10 <= MAX_HANDLE,
        ensures
            ({
                let o = old(ui).nodes();
                let n = final(ui).nodes();
                let base = old(ui).next_id();
                let count: int = if title is Some { 11 } else { 10 };
                &&& final(ui).wf()
                &&& final(ui).roots() == old(ui).roots()
                &&& final(ui).next_id() == base + count
                &&& r.0 == base + count - 1
                &&& n.contains_key(handle.0)
                &&& n[handle.0].element == o[handle.0].element
                &&& n[handle.0].children@ == o[handle.0].children@ + new_handles(base, count)
                &&& forall|k: int|
                    0 <= k < count ==> n.contains_key(#[trigger] new_handles(base, count)[k].0)
                        && n[new_handles(base, count)[k].0].children@ == Seq::<Handle>::empty()
                &&& forall|k: int| 0 <= k < 9 ==> n[#[trigger] new_handles(base, count)[k].0].element == frame_image(k)
                &&& title is Some ==> n[(base + 9) as usize].element is Text && title_line(
                    n[(base + 9) as usize].element->Text_0,
                    title->0@,
                )
                &&& n.contains_key(r.0)
                &&& n[r.0].children@ == Seq::<Handle>::empty()
                &&& n[r.0].element == inner_window()
                &&& forall|k: usize|
                    k != handle.0 && #[trigger] o.contains_key(k) ==> n.contains_key(k) && n[k] == o[k]
                &&& final(ui).image_dirty()
                &&& final(ui).win_dirty()
                &&& final(ui).text_dirty() == (old(ui).text_dirty() || title is Some)
            }),
    {
        let ghost o = old(ui).nodes();
        let ghost base = old(ui).next_id();
        let ghost oc = o[handle.0].children@;
        let ghost count: int = if title is Some { 11 } else { 10 };
        proof {
            old(ui).lemma_wf();
        }
        let mut k: usize = 0;
        assert(oc + new_handles(base, 0) =~= oc);
        while k < 9
            invariant
                ui.wf(),
                k <= 9,
                handle.0 < base,
                base + 10 <= MAX_HANDLE,
                ui.roots() == old(ui).roots(),
                ui.next_id() == base + k,
                ui.nodes().contains_key(handle.0),
                ui.nodes()[handle.0].element == o[handle.0].element,
                ui.nodes()[handle.0].children@ == oc + new_handles(base, k as int),
                forall|j: int|
                    #![trigger fresh_at(ui.nodes(), base, j)]
                    0 <= j < k ==> fresh_at(ui.nodes(), base, j) && ui.nodes()[(base + j) as usize].element
                        == frame_image(j),
                others_kept(o, ui.nodes(), handle.0),
                k > 0 ==> ui.image_dirty(),
                ui.win_dirty() == old(ui).win_dirty(),
                ui.text_dirty() == old(ui).text_dirty(),
            decreases 9 - k,
        {
            let ghost before = ui.nodes();
            let e = frame_element(k);
            let h = add_child(ui, e, handle);
            proof {
                assert(oc + new_handles(base, k + 1) =~= (oc + new_handles(base, k as int)).push(h));
                lemma_fresh_kept(before, ui.nodes(), handle.0, base, k as int);
                assert(fresh_at(ui.nodes(), base, k as int));
                assert forall|j: int|
                    #![trigger fresh_at(ui.nodes(), base, j)]
                    0 <= j < k + 1 implies fresh_at(ui.nodes(), base, j) && ui.nodes()[(base + j) as usize].element
                        == frame_image(j) by {
                    if j < k {
                        assert(fresh_at(before, base, j));
                    }
                }
                assert forall|key: usize| key != handle.0 && #[trigger] o.contains_key(key) implies ui.nodes().contains_key(key)
                    && ui.nodes()[key] == o[key] by {
                    assert(before.contains_key(key));
                }
            }
            k = k + 1;
        }
        let ghost s9 = ui.nodes();
        let ghost text_before = ui.text_dirty();
        if let Some(title) = title {
            let line = TextLine {
                ui_coordinates: Point { x: Coord::near(0, TILE_SIZE + 5), y: Coord::near(0, TILE_SIZE - 2) },
                lineheight: (TILE_SIZE - 4) as u8,
                color: TextColor::Black,
                outline: None,
                font: Font::Mono,
                alpha: ALPHA_OPAQUE,
                text: title.to_owned(),
            };
            let h = add_child(ui, UiElement::Text(line), handle);
            proof {
                assert(oc + new_handles(base, 10) =~= (oc + new_handles(base, 9)).push(h));
                lemma_fresh_kept(s9, ui.nodes(), handle.0, base, 9);
                assert forall|key: usize| key != handle.0 && #[trigger] o.contains_key(key) implies ui.nodes().contains_key(key)
                    && ui.nodes()[key] == o[key] by {
                    assert(s9.contains_key(key));
                }
            }
        }
        let ghost s10 = ui.nodes();
        let ghost made: int = ui.next_id() - base;
        proof {
            assert(made == count - 1);
            assert forall|j: int| 0 <= j < made implies #[trigger] fresh_at(s10, base, j) by {
                if j < 9 {
                    assert(fresh_at(s9, base, j));
                    if title is Some {
                        lemma_fresh_kept(s9, s10, handle.0, base, 9);
                    }
                }
            }
        }
        let inner = UiWindow::new(
            Rect::new(
                RectX::LeftRight(Coord::near(0, TILE_SIZE), Coord::far(0, -TILE_SIZE)),
                RectY::TopBottom(Coord::near(0, TILE_SIZE), Coord::far(0, -TILE_SIZE)),
            ),
            [0, 0, 0, 0],
            ALPHA_OPAQUE,
        );
        let r = add_child(ui, UiElement::Window(inner), handle);
        proof {
            let n = ui.nodes();
            assert(oc + new_handles(base, made + 1) =~= (oc + new_handles(base, made)).push(r));
            lemma_fresh_kept(s10, n, handle.0, base, made);
            assert(fresh_at(n, base, made));
            assert forall|j: int| 0 <= j < count implies n.contains_key(#[trigger] new_handles(base, count)[j].0)
                && n[new_handles(base, count)[j].0].children@ == Seq::<Handle>::empty() by {
                assert(fresh_at(n, base, j));
            }
            assert forall|j: int| 0 <= j < 9 implies n[#[trigger] new_handles(base, count)[j].0].element == frame_image(j) by {
                assert(fresh_at(s9, base, j));
                assert(fresh_at(s10, base, j));
                assert(n[(base + j) as usize] == s10[(base + j) as usize]);
                if title is Some {
                    lemma_fresh_kept(s9, s10, handle.0, base, 9);
                }
            }
            if title is Some {
                assert(fresh_at(s10, base, 9));
                assert(n[(base + 9) as usize] == s10[(base + 9) as usize]);
            }
            assert forall|key: usize| key != handle.0 && #[trigger] o.contains_key(key) implies n.contains_key(key)
                && n[key] == o[key] by {
                assert(s10.contains_key(key));
            }
        }
        r
    }
}

} // verus!
