//! Draw lists for the window and image pipelines: which nodes of a walk
//! they draw, in which viewport, at which depth and with what.
use vstd::prelude::*;
use crate::ui::arena::{Ui, UiNode};
use crate::ui::element::UiElement;
use crate::ui::geom::AbsRect;
use crate::ui::walk::{walk_result, NodeInfo};

verus! {

/// One window background to draw.
#[derive(Debug, Clone, Copy)]
pub struct WindowDraw {
    pub rect: AbsRect,
    pub depth: u64,
    pub color: [u8; 4],
}

/// One image to draw: the atlas region, and where it is pinned and drawn
/// within the node's viewport (relative to the viewport's origin).
#[derive(Debug, Clone, Copy, PartialEq, Eq, Structural)]
pub struct ImageDraw {
    pub rect: AbsRect,
    pub depth: u64,
    pub alpha: u8,
    pub uv: AbsRect,
    pub pin: AbsRect,
    pub area: AbsRect,
}

/// The window draws of the records `infos`, in walk order.
pub open spec fn window_draws_of(m: Map<usize, UiNode>, infos: Seq<NodeInfo>) -> Seq<WindowDraw>
    decreases infos.len(),
{
    if infos.len() == 0 {
        Seq::empty()
    } else {
        let prev = window_draws_of(m, infos.drop_last());
        let info = infos.last();
        if m.contains_key(info.handle.0) && m[info.handle.0].element is Window {
            prev.push(
                WindowDraw {
                    rect: info.rect,
                    depth: info.depth,
                    color: (m[info.handle.0].element->Window_0).color,
                },
            )
        } else {
            prev
        }
    }
}

/// The viewport of a record, moved to the origin.
pub open spec fn local_rect(r: AbsRect) -> AbsRect {
    AbsRect { x: 0, y: 0, width: r.width, height: r.height }
}

/// The image draws of the records `infos`, in walk order.
pub open spec fn image_draws_of(m: Map<usize, UiNode>, infos: Seq<NodeInfo>) -> Seq<ImageDraw>
    decreases infos.len(),
{
    if infos.len() == 0 {
        Seq::empty()
    } else {
        let prev = image_draws_of(m, infos.drop_last());
        let info = infos.last();
        if m.contains_key(info.handle.0) && m[info.handle.0].element is Image {
            let img = m[info.handle.0].element->Image_0;
            prev.push(
                ImageDraw {
                    rect: info.rect,
                    depth: info.depth,
                    alpha: info.alpha,
                    uv: img.widget,
                    pin: img.widget_pin_rect.resolved(local_rect(info.rect)),
                    area: img.screen_draw_rect.resolved(local_rect(info.rect)),
                },
            )
        } else {
            prev
        }
    }
}

impl Ui {
    /// The windows of a walk over a screen of the given size, in walk order.
    pub fn window_draws(&self, width: i32, height: i32) -> (r: Vec<WindowDraw>)
        requires
            self.wf(),
            0 <= width,
            0 <= height,
        ensures
            r@ == window_draws_of(
                self.nodes(),
                walk_result(self.nodes(), self.roots(), self.next_id(), width, height),
            ),
    {
        let nodes = self.walk(width, height);
        let mut out: Vec<WindowDraw> = Vec::new();
        let mut i: usize = 0;
        while i < nodes.len()
            invariant
                0 <= i <= nodes@.len(),
                out@ == window_draws_of(self.nodes(), nodes@.subrange(0, i as int)),
            decreases nodes.len() - i,
        {
            let info = nodes[i];
            assert(nodes@.subrange(0, i + 1).drop_last() =~= nodes@.subrange(0, i as int));
            match self.get_element(info.handle) {
                Some(UiElement::Window(w)) => {
                    out.push(WindowDraw { rect: info.rect, depth: info.depth, color: w.color });
                },
                _ => {},
            }
            i = i + 1;
        }
        assert(nodes@.subrange(0, nodes@.len() as int) =~= nodes@);
        out
    }

    /// The images of a walk over a screen of the given size, in walk order.
    pub fn image_draws(&self, width: i32, height: i32) -> (r: Vec<ImageDraw>)
        requires
            self.wf(),
            0 <= width,
            0 <= height,
        ensures
            r@ == image_draws_of(
                self.nodes(),
                walk_result(self.nodes(), self.roots(), self.next_id(), width, height),
            ),
    {
        let nodes = self.walk(width, height);
        proof {
            crate::ui::walk::lemma_walk_rects(self, width, height);
        }
        let mut out: Vec<ImageDraw> = Vec::new();
        let mut i: usize = 0;
        while i < nodes.len()
            invariant
                0 <= i <= nodes@.len(),
                forall|j: int| 0 <= j < nodes@.len() ==> (#[trigger] nodes@[j]).rect.wf(),
                out@ == image_draws_of(self.nodes(), nodes@.subrange(0, i as int)),
            decreases nodes.len() - i,
        {
            let info = nodes[i];
            assert(nodes@.subrange(0, i + 1).drop_last() =~= nodes@.subrange(0, i as int));
            match self.get_element(info.handle) {
                Some(UiElement::Image(img)) => {
                    assert(nodes@[i as int].rect.wf());
                    let local = AbsRect { x: 0, y: 0, width: info.rect.width, height: info.rect.height };
                    out.push(
                        ImageDraw {
                            rect: info.rect,
                            depth: info.depth,
                            alpha: info.alpha,
                            uv: img.widget,
                            pin: img.widget_pin_rect.absolute(&local),
                            area: img.screen_draw_rect.absolute(&local),
                        },
                    );
                },
                _ => {},
            }
            i = i + 1;
        }
        assert(nodes@.subrange(0, nodes@.len() as int) =~= nodes@);
        out
    }
}

} // verus!
