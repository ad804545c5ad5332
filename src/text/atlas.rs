//! Glyph metrics of a font atlas, in tenths of a pixel.
use vstd::prelude::*;
use std::collections::HashMap;
use vstd::std_specs::iter::IteratorSpec;

verus! {

/// Largest magnitude of any metric of an atlas, in tenths of a pixel.
pub const METRIC_LIMIT: i32 = 0x10_0000;

/// A box in the atlas, in tenths of a pixel.
#[derive(Debug, Clone, Copy, PartialEq, Eq, Structural)]
pub struct GlyphBox {
    pub x: i32,
    pub y: i32,
    pub w: i32,
    pub h: i32,
}

/// How one character is drawn: its inked box in the atlas, the advance
/// before and after drawing it, and its offset from the baseline.
#[derive(Debug, Clone, Copy, PartialEq, Eq, Structural)]
pub struct GlyphMetrics {
    pub inner_bounding_box: GlyphBox,
    pub pre_draw_advance: i32,
    pub post_draw_advance: i32,
    pub height_offset: i32,
}

/// A font atlas: the line height it was drawn at, the margin around every
/// glyph, and the glyphs it holds, by code point.
#[derive(Debug, Clone)]
pub struct GlyphAtlas {
    pub line_height: i32,
    pub margin: i32,
    pub glyphs: HashMap<u32, GlyphMetrics>,
}

pub open spec fn in_limit(v: i32) -> bool {
    -METRIC_LIMIT <= v <= METRIC_LIMIT
}

impl GlyphMetrics {
    pub open spec fn wf(&self) -> bool {
        &&& in_limit(self.inner_bounding_box.x)
        &&& in_limit(self.inner_bounding_box.y)
        &&& in_limit(self.inner_bounding_box.w)
        &&& in_limit(self.inner_bounding_box.h)
        &&& in_limit(self.pre_draw_advance)
        &&& in_limit(self.post_draw_advance)
        &&& in_limit(self.height_offset)
    }

    pub fn is_valid(&self) -> (r: bool)
        ensures
            r == self.wf(),
    {
        let b = self.inner_bounding_box;
        check_limit(b.x) && check_limit(b.y) && check_limit(b.w) && check_limit(b.h) && check_limit(
            self.pre_draw_advance,
        ) && check_limit(self.post_draw_advance) && check_limit(self.height_offset)
    }
}

fn check_limit(v: i32) -> (r: bool)
    ensures
        r == in_limit(v),
{
    -METRIC_LIMIT <= v && v <= METRIC_LIMIT
}

/// The metrics of `ch`, if the atlas holds it.
pub open spec fn find_glyph(gs: Map<u32, GlyphMetrics>, ch: char) -> Option<GlyphMetrics> {
    if gs.contains_key(ch as u32) {
        Some(gs[ch as u32])
    } else {
        None
    }
}

impl GlyphAtlas {
    pub open spec fn wf(&self) -> bool {
        &&& 1 <= self.line_height <= METRIC_LIMIT
        &&& 0 <= self.margin <= METRIC_LIMIT
        &&& forall|k: u32| #[trigger] self.glyphs@.contains_key(k) ==> self.glyphs@[k].wf()
    }

    /// An atlas holding no glyph yet.
    pub fn new(line_height: i32, margin: i32) -> (r: GlyphAtlas)
        ensures
            r.line_height == line_height,
            r.margin == margin,
            r.glyphs@ == Map::<u32, GlyphMetrics>::empty(),
    {
        GlyphAtlas { line_height, margin, glyphs: HashMap::new() }
    }

    /// Adds or replaces the glyph of `ch`.
    pub fn insert(&mut self, ch: char, metrics: GlyphMetrics)
        ensures
            final(self).line_height == old(self).line_height,
            final(self).margin == old(self).margin,
            final(self).glyphs@ == old(self).glyphs@.insert(ch as u32, metrics),
    {
        broadcast use vstd::std_specs::hash::group_hash_axioms;
        let _ = self.glyphs.insert(ch as u32, metrics);
    }

    /// Whether every metric is within the limits the shaper works in.
    pub fn is_valid(&self) -> (r: bool)
        ensures
            r == self.wf(),
    {
        broadcast use vstd::std_specs::hash::group_hash_axioms;
        if !(1 <= self.line_height && self.line_height <= METRIC_LIMIT) {
            return false;
        }
        if !(0 <= self.margin && self.margin <= METRIC_LIMIT) {
            return false;
        }
        let ghost m = self.glyphs@;
        let ghost v = vstd::std_specs::hash::spec_hash_map_iter(&self.glyphs).remaining();
        let ghost mut n: int = 0;
        for kv in it: self.glyphs.iter()
            invariant
                m == self.glyphs@,
                it.seq() == v,
                n == it.index(),
                forall|i: int| 0 <= i < n ==> (#[trigger] v[i]).1.wf(),
        {
            if !kv.1.is_valid() {
                proof {
                    let i = it.index() as int;
                    assert(it.seq()[i] == kv);
                    assert(m.contains_key(*kv.0) && m[*kv.0] == *kv.1);
                }
                return false;
            }
            proof {
                n = n + 1;
            }
        }
        proof {
            assert(n == v.len());
            assert forall|k: u32| #[trigger] m.contains_key(k) implies m[k].wf() by {
                assert(v.contains((&k, &m[k])));
                let i = choose|i: int| 0 <= i < v.len() && v[i] == (&k, &m[k]);
                assert(v[i].1.wf());
            }
        }
        true
    }

    /// The metrics of `ch`, or nothing when the atlas has no such glyph.
    pub fn lookup(&self, ch: char) -> (r: Option<GlyphMetrics>)
        ensures
            r == find_glyph(self.glyphs@, ch),
            self.wf() && r is Some ==> r->0.wf(),
    {
        broadcast use vstd::std_specs::hash::group_hash_axioms;
        match self.glyphs.get(&(ch as u32)) {
            Some(g) => Some(*g),
            None => None,
        }
    }
}

} // verus!
