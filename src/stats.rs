//! The statistics panel: a window at the top right of the screen holding
//! one text line per measurement.
use vstd::prelude::*;
use crate::ui::arena::{Handle, Ui, MAX_HANDLE};
use crate::ui::element::{Font, TextColor, TextLine, UiElement, UiWindow, ALPHA_OPAQUE};
use crate::ui::geom::{Anchor, Coord, Dim, Point, Rect, RectX, RectY};

verus! {

/// Number of lines: frames per second, eight pass timings, render, cpu,
/// frame, and the server clock offset.
pub const STATS_LINES: usize = 13;

/// Height of a panel line in pixels.
pub const STATS_LINEHEIGHT: u8 = 14;

/// The colour of line `i`: totals in green, pass timings in white, the
/// clock offset in gold.
pub open spec fn stats_line_color(i: int) -> TextColor {
    if i == 0 {
        TextColor::Green
    } else if i <= 8 {
        TextColor::White
    } else if i <= 11 {
        TextColor::Green
    } else {
        TextColor::Gold
    }
}

/// The offset of line `i` from the top of the panel; the clock offset sits
/// half a line further down.
pub open spec fn stats_line_y(i: int) -> int {
    if i < 12 {
        22 + 14 * i
    } else {
        (22 + 14 * 11 + 21) as int
    }
}

/// Line `i` of the panel, before any measurement is written to it.
pub open spec fn stats_line(i: int, line: TextLine) -> bool {
    &&& line.ui_coordinates == Point {
        x: Coord { anchor: Anchor::TopOrLeft, dim: Dim { fraction: 0, pixel_offset: 10 } },
        y: Coord { anchor: Anchor::TopOrLeft, dim: Dim { fraction: 0, pixel_offset: stats_line_y(i) as i32 } },
    }
    &&& line.lineheight == STATS_LINEHEIGHT
    &&& line.color == stats_line_color(i)
    &&& line.outline is None
    &&& line.font == Font::Mono
    &&& line.alpha == ALPHA_OPAQUE
    &&& line.text@ == " "@
}

/// The panel's window and the handles of its lines, in order.
pub struct StatsGfx {
    pub lines: Vec<Handle>,
    pub win_handle: Handle,
    pub win: UiWindow,
}

impl StatsGfx {
    /// Adds the panel as a new root, with its lines as children of it.
    pub fn new(ui: &mut Ui) -> (r: StatsGfx)
        requires
            old(ui).wf(),
            old(ui).next_id() + STATS_LINES + 1 <= MAX_HANDLE,
        ensures
            final(ui).wf(),
            final(ui).roots() == old(ui).roots().push(r.win_handle),
            r.lines@.len() == STATS_LINES,
            final(ui).nodes().contains_key(r.win_handle.0),
            final(ui).nodes()[r.win_handle.0].children@ == r.lines@,
            forall|i: int|
                0 <= i < STATS_LINES ==> final(ui).nodes().contains_key((#[trigger] r.lines@[i]).0)
                    && final(ui).nodes()[r.lines@[i].0].element is Text && stats_line(
                    i,
                    final(ui).nodes()[r.lines@[i].0].element->Text_0,
                ),
    {
        let win = UiWindow::new(
            Rect::new(
                RectX::RightWidth(Coord::far(0, -5), Dim::new(0, 167)),
                RectY::TopHeight(Coord::near(0, 5), Dim::new(0, 255)),
            ),
            [0, 0, 0, 128],
            204,
        );
        let win_handle = match ui.add_element(UiElement::Window(win), None) {
            Some(h) => h,
            None => {
                assert(false);
                Handle(0)
            },
        };
        let ghost roots = ui.roots();
        proof {
            ui.lemma_wf();
        }
        let mut lines: Vec<Handle> = Vec::new();
        let mut i: usize = 0;
        let mut y: i32 = 22;
        while i < STATS_LINES
            invariant
                ui.wf(),
                ui.roots() == roots,
                ui.nodes().contains_key(win_handle.0),
                ui.nodes()[win_handle.0].children@ == lines@,
                ui.next_id() + STATS_LINES - i <= MAX_HANDLE,
                i <= STATS_LINES,
                lines@.len() == i,
                i < 12 ==> y == stats_line_y(i as int),
                i == 12 ==> y == 22 + 14 * 11,
                forall|j: int|
                    0 <= j < i ==> ui.nodes().contains_key((#[trigger] lines@[j]).0) && lines@[j].0 != win_handle.0
                        && ui.nodes()[lines@[j].0].element is Text && stats_line(
                        j,
                        ui.nodes()[lines@[j].0].element->Text_0,
                    ),
            decreases STATS_LINES - i,
        {
            if i == 12 {
                y = y + 21;
            }
            let color = if i == 0 {
                TextColor::Green
            } else if i <= 8 {
                TextColor::White
            } else if i <= 11 {
                TextColor::Green
            } else {
                TextColor::Gold
            };
            let line = TextLine {
                ui_coordinates: Point { x: Coord::near(0, 10), y: Coord::near(0, y) },
                lineheight: STATS_LINEHEIGHT,
                color,
                outline: None,
                font: Font::Mono,
                alpha: ALPHA_OPAQUE,
                text: " ".to_owned(),
            };
            proof {
                reveal_strlit(" ");
            }
            assert(stats_line(i as int, line));
            let ghost before = ui.nodes();
            proof {
                ui.lemma_wf();
            }
            let h = match ui.add_element(UiElement::Text(line), Some(win_handle)) {
                Some(h) => h,
                None => {
                    assert(false);
                    Handle(0)
                },
            };
            proof {
                assert forall|j: int| 0 <= j < i implies ui.nodes().contains_key((#[trigger] lines@[j]).0)
                    && lines@[j].0 != win_handle.0 && ui.nodes()[lines@[j].0].element is Text && stats_line(
                    j,
                    ui.nodes()[lines@[j].0].element->Text_0,
                ) by {
                    assert(before.contains_key(lines@[j].0));
                }
            }
            lines.push(h);
            if i < 11 {
                y = y + 14;
            }
            i = i + 1;
        }
        StatsGfx { lines, win_handle, win }
    }

    /// Writes `text` into line `i`.
    pub fn set_line(&self, ui: &mut Ui, i: usize, text: String) -> (r: bool)
        requires
            old(ui).wf(),
            i < self.lines@.len(),
        ensures
            final(ui).wf(),
            r == (old(ui).nodes().contains_key(self.lines@[i as int].0)
                && old(ui).nodes()[self.lines@[i as int].0].element is Text),
            r ==> final(ui).nodes()[self.lines@[i as int].0].element->Text_0.text@ == text@,
            !r ==> *final(ui) == *old(ui),
    {
        ui.set_text(self.lines[i], text)
    }
}

} // verus!
