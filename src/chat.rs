//! A scrolling terminal of ten text lines inside a decorated window; the
//! newest line sits at the bottom.
use vstd::prelude::*;
use crate::ui::arena::{Handle, Ui, MAX_HANDLE};
use crate::ui::element::{Font, TextColor, TextLine, UiElement, UiWindow, ALPHA_OPAQUE};
use crate::ui::geom::{Anchor, Coord, Dim, Point, Rect, RectX, RectY};

verus! {

/// How many lines the terminal shows.
pub const CHAT_LINES: usize = 10;

/// Gap, in pixels, between the bottom line and the bottom of the window.
pub const LINEDROP: i32 = 5;

/// Height of a terminal line in pixels.
pub const CHAT_LINEHEIGHT: u8 = 15;

/// A text element moved to `up` lines above the bottom; other content is
/// left alone.
pub open spec fn raised(e: UiElement, up: int) -> UiElement {
    match e {
        UiElement::Text(t) => UiElement::Text(
            TextLine {
                ui_coordinates: Point {
                    x: t.ui_coordinates.x,
                    y: Coord {
                        anchor: Anchor::BottomOrRight,
                        dim: Dim { fraction: 0, pixel_offset: (-LINEDROP - t.lineheight * up) as i32 },
                    },
                },
                ..t
            },
        ),
        _ => e,
    }
}

fn raise(e: UiElement, up: usize) -> (r: UiElement)
    requires
        up < CHAT_LINES,
    ensures
        r == raised(e, up as int),
{
    match e {
        UiElement::Text(t) => {
            let mut t = t;
            assert(0 <= t.lineheight as int * up as int <= 255 * 10) by (nonlinear_arith)
                requires
                    t.lineheight <= 255,
                    up < 10,
            ;
            t.ui_coordinates.y = Coord::far(0, -LINEDROP - t.lineheight as i32 * up as i32);
            UiElement::Text(t)
        },
        other => other,
    }
}

fn blank_line() -> (r: UiElement)
    ensures
        r is Text,
{
    UiElement::Text(
        TextLine {
            ui_coordinates: Point { x: Coord::near(0, 0), y: Coord::far(0, 0) },
            lineheight: CHAT_LINEHEIGHT,
            color: TextColor::White,
            outline: None,
            font: Font::Mono,
            alpha: ALPHA_OPAQUE,
            text: String::new(),
        },
    )
}

/// The terminal: its window, the inner window its lines live in, and the
/// handles of the lines; `next` is the slot the next line is written to.
pub struct Chat {
    pub next: usize,
    pub handles: Vec<Handle>,
    pub inner_win_handle: Handle,
    pub win_handle: Handle,
    pub win: UiWindow,
}

impl Chat {
    pub open spec fn wf(&self) -> bool {
        &&& self.handles@.len() == CHAT_LINES
        &&& self.next < CHAT_LINES
    }

    /// Every line of the terminal is a text node of `ui`.
    pub open spec fn lines_in(&self, ui: Ui) -> bool {
        forall|j: int|
            0 <= j < self.handles@.len() ==> ui.nodes().contains_key((#[trigger] self.handles@[j]).0)
                && ui.nodes()[self.handles@[j].0].element is Text
    }

    /// Opens the terminal: a root window at the bottom left of the screen,
    /// decorated and titled, with ten empty lines stacked inside.
    pub fn new(ui: &mut Ui) -> (r: Chat)
        requires
            old(ui).wf(),
            old(ui).next_id() + 22 <= MAX_HANDLE,
        ensures
            final(ui).wf(),
            r.wf(),
            r.lines_in(*final(ui)),
            final(ui).roots() == old(ui).roots().push(r.win_handle),
    {
        let margin: i32 = 6;
        let win = UiWindow::new(
            Rect::new(
                RectX::LeftWidth(Coord::near(0, margin), Dim::new(0, 470)),
                RectY::BottomHeight(Coord::far(0, -margin), Dim::new(0, 150)),
            ),
            [0, 0, 0, 0],
            204,
        );
        let win_handle = match ui.add_element(UiElement::Window(win), None) {
            Some(h) => h,
            None => {
                assert(false);
                Handle(0)
            },
        };
        let ghost roots = ui.roots();
        let inner_win_handle = UiWindow::decorate_window(ui, win_handle, Vec::new(), Some("Chat"));
        proof {
            ui.lemma_wf();
        }
        let mut handles: Vec<Handle> = Vec::new();
        let mut slot: usize = 0;
        while slot < CHAT_LINES
            invariant
                ui.wf(),
                ui.roots() == roots,
                ui.nodes().contains_key(inner_win_handle.0),
                ui.next_id() + CHAT_LINES - slot <= MAX_HANDLE,
                slot <= CHAT_LINES,
                handles@.len() == slot,
                forall|j: int|
                    0 <= j < handles@.len() ==> ui.nodes().contains_key((#[trigger] handles@[j]).0)
                        && ui.nodes()[handles@[j].0].element is Text,
            decreases CHAT_LINES - slot,
        {
            let ghost before = ui.nodes();
            let h = match ui.add_element(blank_line(), Some(inner_win_handle)) {
                Some(h) => h,
                None => {
                    assert(false);
                    Handle(0)
                },
            };
            proof {
                assert forall|j: int| 0 <= j < handles@.len() implies ui.nodes().contains_key(
                    (#[trigger] handles@[j]).0,
                ) && ui.nodes()[handles@[j].0].element is Text by {
                    let k = handles@[j].0;
                    if k == inner_win_handle.0 {
                        assert(before[k].element is Text);
                    }
                }
            }
            handles.push(h);
            slot = slot + 1;
        }
        let mut chat = Chat { next: CHAT_LINES - 1, handles, inner_win_handle, win_handle, win };
        chat.scroll(ui);
        chat
    }

    /// Scrolls every line up by one and writes `text` into the bottom line.
    pub fn emit_line(&mut self, ui: &mut Ui, text: &str)
        requires
            old(ui).wf(),
            old(self).wf(),
            old(self).lines_in(*old(ui)),
        ensures
            final(ui).wf(),
            final(self).wf(),
            final(self).lines_in(*final(ui)),
            final(self).handles@ == old(self).handles@,
            final(self).next == (old(self).next + 1) % (CHAT_LINES as int),
            final(ui).roots() == old(ui).roots(),
            final(ui).text_dirty(),
            final(ui).nodes()[old(self).handles@[old(self).next as int].0].element->Text_0.text@ == text@,
    {
        let n = self.next;
        self.scroll(ui);
        let h = self.handles[n];
        let ok = ui.set_text(h, text.to_owned());
        assert(ok);
    }

    /// Moves every line to its place above the bottom and advances `next`:
    /// the line in slot `next` goes to the bottom, the one after it to the top.
    fn scroll(&mut self, ui: &mut Ui)
        requires
            old(ui).wf(),
            old(self).wf(),
            old(self).lines_in(*old(ui)),
        ensures
            final(ui).wf(),
            final(self).wf(),
            final(self).lines_in(*final(ui)),
            final(self).handles@ == old(self).handles@,
            final(self).next == (old(self).next + 1) % (CHAT_LINES as int),
            final(self).inner_win_handle == old(self).inner_win_handle,
            final(self).win_handle == old(self).win_handle,
            final(ui).roots() == old(ui).roots(),
            final(ui).text_dirty(),
    {
        let mut slot: usize = 0;
        while slot < CHAT_LINES
            invariant
                ui.wf(),
                self.wf(),
                self.handles@ == old(self).handles@,
                self.next == old(self).next,
                self.inner_win_handle == old(self).inner_win_handle,
                self.win_handle == old(self).win_handle,
                self.lines_in(*ui),
                ui.roots() == old(ui).roots(),
                slot <= CHAT_LINES,
                slot > 0 ==> ui.text_dirty(),
            decreases CHAT_LINES - slot,
        {
            let up: usize = (self.next + CHAT_LINES - slot) % CHAT_LINES;
            let h = self.handles[slot];
            let ghost before = *ui;
            let ghost elem = before.nodes()[h.0].element;
            let update = |e: UiElement| -> (r: UiElement)
                requires
                    up < CHAT_LINES,
                ensures
                    r == raised(e, up as int),
                { raise(e, up) };
            let insert = || -> (r: UiElement)
                ensures
                    r is Text,
                { blank_line() };
            assert(self.handles@[slot as int] == h);
            proof {
                ui.lemma_wf();
                assert(ui.nodes().contains_key(h.0));
            }
            ui.upsert(h, insert, update);
            proof {
                assert(ui.nodes()[h.0].element == raised(elem, up as int));
                assert forall|j: int| 0 <= j < self.handles@.len() implies ui.nodes().contains_key(
                    (#[trigger] self.handles@[j]).0,
                ) && ui.nodes()[self.handles@[j].0].element is Text by {
                    assert(before.nodes().contains_key(self.handles@[j].0));
                }
            }
            slot = slot + 1;
        }
        self.next = (self.next + 1) % CHAT_LINES;
    }
}

} // verus!
