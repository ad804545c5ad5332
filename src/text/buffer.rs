//! The text vertex buffer: every text line of the tree shaped into one
//! buffer, with one group per line that records where its vertices are and
//! which viewport and depth they are drawn with.
use vstd::prelude::*;
use crate::text::atlas::GlyphAtlas;
use crate::text::encode::GlyphVertex;
use crate::text::shape::{generate_vertices, shape_line};
use crate::ui::arena::{Ui, UiNode};
use crate::ui::element::{TextLine, UiElement};
use crate::ui::geom::AbsRect;
use crate::ui::walk::{walk_result, NodeInfo};

verus! {

/// The vertices of one text line within the shared buffer.
#[derive(Debug, Clone, Copy, PartialEq, Eq, Structural)]
pub struct GroupData {
    /// Index of the group's first vertex in the buffer.
    pub offset: usize,
    /// Number of vertices in the group.
    pub len: usize,
    /// The viewport the group is drawn in: the text node's parent.
    pub arect: AbsRect,
    /// Tree depth of the text node.
    pub depth: u64,
}

/// The buffer and groups made from the walk records `infos`: each text node
/// in turn appends its shaped vertices and one group.
pub open spec fn text_groups(m: Map<usize, UiNode>, atlas: GlyphAtlas, infos: Seq<NodeInfo>) -> (
    Seq<GlyphVertex>,
    Seq<GroupData>,
)
    decreases infos.len(),
{
    if infos.len() == 0 {
        (Seq::empty(), Seq::empty())
    } else {
        let (vs, gs) = text_groups(m, atlas, infos.drop_last());
        let info = infos.last();
        if m.contains_key(info.handle.0) && m[info.handle.0].element is Text {
            let run = shape_line(
                atlas,
                m[info.handle.0].element->Text_0,
                info.clip,
                info.rect.x - info.clip.x,
                info.rect.y - info.clip.y,
                info.alpha,
            );
            (
                vs + run,
                gs.push(
                    GroupData {
                        offset: vs.len() as usize,
                        len: run.len() as usize,
                        arect: info.clip,
                        depth: info.depth,
                    },
                ),
            )
        } else {
            (vs, gs)
        }
    }
}

/// The text renderer's data: the atlas, the viewport size, and the buffer
/// and groups made by the last regeneration.
pub struct TextGfx {
    pub atlas: GlyphAtlas,
    pub viewport_width: i32,
    pub viewport_height: i32,
    pub vertex_buffer: Vec<GlyphVertex>,
    pub vertex_groups: Vec<GroupData>,
}

impl TextGfx {
    pub open spec fn wf(&self) -> bool {
        &&& self.atlas.wf()
        &&& 0 <= self.viewport_width
        &&& 0 <= self.viewport_height
    }

    /// What regenerating from `ui` makes.
    pub open spec fn regenerated(&self, ui: Ui) -> (Seq<GlyphVertex>, Seq<GroupData>) {
        text_groups(
            ui.nodes(),
            self.atlas,
            walk_result(ui.nodes(), ui.roots(), ui.next_id(), self.viewport_width, self.viewport_height),
        )
    }

    pub fn new(atlas: GlyphAtlas, viewport_width: i32, viewport_height: i32) -> (r: TextGfx)
        ensures
            r.atlas == atlas,
            r.viewport_width == viewport_width,
            r.viewport_height == viewport_height,
            r.vertex_buffer@ == Seq::<GlyphVertex>::empty(),
            r.vertex_groups@ == Seq::<GroupData>::empty(),
    {
        TextGfx { atlas, viewport_width, viewport_height, vertex_buffer: Vec::new(), vertex_groups: Vec::new() }
    }

    /// The vertices of the text line recorded as `info`: drawn in its
    /// viewport, from its anchor, under its alpha.
    pub fn generate_vertices(&self, line: &TextLine, info: &NodeInfo) -> (r: Vec<GlyphVertex>)
        requires
            self.atlas.wf(),
        ensures
            r@ == shape_line(
                self.atlas,
                *line,
                info.clip,
                info.rect.x - info.clip.x,
                info.rect.y - info.clip.y,
                info.alpha,
            ),
    {
        generate_vertices(
            &self.atlas,
            line,
            &info.clip,
            info.rect.x as i64 - info.clip.x as i64,
            info.rect.y as i64 - info.clip.y as i64,
            info.alpha,
        )
    }

    /// Walks `ui` and rebuilds the buffer and groups from its text nodes.
    pub fn regenerate(&mut self, ui: &Ui)
        requires
            old(self).wf(),
            ui.wf(),
        ensures
            final(self).atlas == old(self).atlas,
            final(self).viewport_width == old(self).viewport_width,
            final(self).viewport_height == old(self).viewport_height,
            (final(self).vertex_buffer@, final(self).vertex_groups@) == old(self).regenerated(*ui),
    {
        let nodes = ui.walk(self.viewport_width, self.viewport_height);
        self.vertex_buffer.clear();
        self.vertex_groups.clear();
        let ghost m = ui.nodes();
        let mut i: usize = 0;
        while i < nodes.len()
            invariant
                self.atlas == old(self).atlas,
                self.viewport_width == old(self).viewport_width,
                self.viewport_height == old(self).viewport_height,
                self.atlas.wf(),
                m == ui.nodes(),
                0 <= i <= nodes@.len(),
                (self.vertex_buffer@, self.vertex_groups@) == text_groups(
                    m,
                    self.atlas,
                    nodes@.subrange(0, i as int),
                ),
            decreases nodes.len() - i,
        {
            let info = nodes[i];
            assert(nodes@.subrange(0, i + 1).drop_last() =~= nodes@.subrange(0, i as int));
            assert(nodes@.subrange(0, i + 1).last() == info);
            match ui.get_element(info.handle) {
                Some(UiElement::Text(line)) => {
                    let mut run = self.generate_vertices(&line, &info);
                    let offset = self.vertex_buffer.len();
                    let len = run.len();
                    self.vertex_buffer.append(&mut run);
                    self.vertex_groups.push(GroupData { offset, len, arect: info.clip, depth: info.depth });
                },
                _ => {},
            }
            i = i + 1;
        }
        assert(nodes@.subrange(0, nodes@.len() as int) =~= nodes@);
    }

    /// Regenerates when the text flag of `ui` is set, then clears the flag.
    /// Returns whether it regenerated, that is whether draw commands must
    /// be recorded again.
    pub fn update(&mut self, ui: &mut Ui) -> (r: bool)
        requires
            old(self).wf(),
            old(ui).wf(),
        ensures
            r == old(ui).text_dirty(),
            final(ui).wf(),
            !final(ui).text_dirty(),
            final(ui).nodes() == old(ui).nodes(),
            final(ui).roots() == old(ui).roots(),
            final(ui).next_id() == old(ui).next_id(),
            final(ui).win_dirty() == old(ui).win_dirty(),
            final(ui).image_dirty() == old(ui).image_dirty(),
            final(self).atlas == old(self).atlas,
            final(self).viewport_width == old(self).viewport_width,
            final(self).viewport_height == old(self).viewport_height,
            r ==> (final(self).vertex_buffer@, final(self).vertex_groups@) == old(self).regenerated(*old(ui)),
            !r ==> final(self).vertex_buffer@ == old(self).vertex_buffer@ && final(self).vertex_groups@
                == old(self).vertex_groups@,
    {
        if ui.is_text_dirty() {
            self.regenerate(ui);
            ui.clear_text_dirty();
            true
        } else {
            ui.clear_text_dirty();
            false
        }
    }

    /// Takes a new viewport size, regenerates, and clears the text flag.
    pub fn rebuild(&mut self, width: i32, height: i32, ui: &mut Ui)
        requires
            old(self).atlas.wf(),
            0 <= width,
            0 <= height,
            old(ui).wf(),
        ensures
            final(ui).wf(),
            !final(ui).text_dirty(),
            final(ui).nodes() == old(ui).nodes(),
            final(ui).roots() == old(ui).roots(),
            final(ui).next_id() == old(ui).next_id(),
            final(ui).win_dirty() == old(ui).win_dirty(),
            final(ui).image_dirty() == old(ui).image_dirty(),
            final(self).atlas == old(self).atlas,
            final(self).viewport_width == width,
            final(self).viewport_height == height,
            (final(self).vertex_buffer@, final(self).vertex_groups@) == final(self).regenerated(*old(ui)),
    {
        self.viewport_width = width;
        self.viewport_height = height;
        self.regenerate(ui);
        ui.clear_text_dirty();
    }
}

} // verus!
