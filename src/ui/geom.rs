//! Relative layout: dimensions, anchored coordinates and rectangles that are
//! resolved to absolute pixel rectangles against a parent rectangle.
//!
//! Fractions of a parent's extent are written in ten-thousandths
//! (`FRACTION_ONE` is the whole extent); everything else is in whole pixels.
use vstd::prelude::*;

verus! {

/// The fraction that stands for the whole extent of a parent.
pub const FRACTION_ONE: i32 = 10000;

/// A viewport in absolute screen coordinates, measured in pixels.
#[derive(Debug, Clone, Copy, PartialEq, Eq, Structural)]
pub struct AbsRect {
    pub x: i32,
    pub y: i32,
    pub width: i32,
    pub height: i32,
}

impl AbsRect {
    /// A rectangle that lies on the screen: non-negative origin and extent,
    /// and a far edge that is still representable.
    pub open spec fn wf(&self) -> bool {
        &&& 0 <= self.x
        &&& 0 <= self.y
        &&& 0 <= self.width
        &&& 0 <= self.height
        &&& self.x + self.width <= i32::MAX
        &&& self.y + self.height <= i32::MAX
    }

    /// `self` lies within `parent`: its origin is not before the parent's and
    /// its far edges are not beyond the parent's.
    pub open spec fn contained_in(&self, parent: AbsRect) -> bool {
        &&& parent.x <= self.x
        &&& parent.y <= self.y
        &&& self.x + self.width <= parent.x + parent.width
        &&& self.y + self.height <= parent.y + parent.height
    }
}

/// `fraction` ten-thousandths of `extent`, rounded down.
pub open spec fn fraction_of(fraction: int, extent: int) -> int {
    (fraction * extent) / (FRACTION_ONE as int)
}

fn scaled(fraction: i32, extent: i32) -> (r: i64)
    requires
        0 <= extent,
    ensures
        r == fraction_of(fraction as int, extent as int),
        -0x4_0000_0000_0000 <= r <= 0x4_0000_0000_0000,
{
    assert(-0x4000_0000_0000_0000 <= fraction as int * extent as int <= 0x4000_0000_0000_0000)
        by (nonlinear_arith)
        requires
            -0x8000_0000 <= fraction <= 0x7fff_ffff,
            0 <= extent <= 0x7fff_ffff,
    ;
    let p: i64 = fraction as i64 * extent as i64;
    if p >= 0 {
        assert(p / 10000 <= 0x4_0000_0000_0000) by (nonlinear_arith)
            requires
                0 <= p <= 0x4000_0000_0000_0000,
        ;
        p / 10000
    } else {
        let q: i64 = (-p + 9999) / 10000;
        assert(-q == (p as int) / 10000) by (nonlinear_arith)
            requires
                p < 0,
                q == (-p + 9999) / 10000,
        ;
        assert(q <= 0x4_0000_0000_0000) by (nonlinear_arith)
            requires
                0 < -p <= 0x4000_0000_0000_0000,
                q == (-p + 9999) / 10000,
        ;
        -q
    }
}

/// A size given as a fraction of some total size plus a pixel offset.
#[derive(Debug, Clone, Copy, PartialEq, Eq, Structural)]
pub struct Dim {
    /// Ten-thousandths of the parent's extent.
    pub fraction: i32,
    pub pixel_offset: i32,
}

impl Dim {
    pub fn new(fraction: i32, pixel_offset: i32) -> (r: Dim)
        ensures
            r.fraction == fraction,
            r.pixel_offset == pixel_offset,
    {
        Dim { fraction, pixel_offset }
    }

    /// This size measured against an extent of the parent.
    pub open spec fn resolve(&self, extent: int) -> int {
        fraction_of(self.fraction as int, extent) + self.pixel_offset
    }

    pub fn absolute_xdim(&self, abs_parent: &AbsRect) -> (r: i64)
        requires
            abs_parent.wf(),
        ensures
            r == self.resolve(abs_parent.width as int),
            -0x8_0000_0000_0000 <= r <= 0x8_0000_0000_0000,
    {
        scaled(self.fraction, abs_parent.width) + self.pixel_offset as i64
    }

    pub fn absolute_ydim(&self, abs_parent: &AbsRect) -> (r: i64)
        requires
            abs_parent.wf(),
        ensures
            r == self.resolve(abs_parent.height as int),
            -0x8_0000_0000_0000 <= r <= 0x8_0000_0000_0000,
    {
        scaled(self.fraction, abs_parent.height) + self.pixel_offset as i64
    }
}

/// Which edge of the parent a coordinate is measured from.
#[derive(Debug, Clone, Copy, PartialEq, Eq, Structural)]
pub enum Anchor {
    TopOrLeft,
    BottomOrRight,
}

/// A point coordinate: an anchor edge plus a dimension away from it.
#[derive(Debug, Clone, Copy, PartialEq, Eq, Structural)]
pub struct Coord {
    pub anchor: Anchor,
    pub dim: Dim,
}

impl Coord {
    pub fn near(fraction: i32, pixel_offset: i32) -> (r: Coord)
        ensures
            r.anchor == Anchor::TopOrLeft,
            r.dim.fraction == fraction,
            r.dim.pixel_offset == pixel_offset,
    {
        Coord { anchor: Anchor::TopOrLeft, dim: Dim { fraction, pixel_offset } }
    }

    pub fn far(fraction: i32, pixel_offset: i32) -> (r: Coord)
        ensures
            r.anchor == Anchor::BottomOrRight,
            r.dim.fraction == fraction,
            r.dim.pixel_offset == pixel_offset,
    {
        Coord { anchor: Anchor::BottomOrRight, dim: Dim { fraction, pixel_offset } }
    }

    /// The absolute position along one axis of a parent that starts at
    /// `origin` and spans `extent`.
    pub open spec fn resolve(&self, origin: int, extent: int) -> int {
        origin + (if self.anchor == Anchor::BottomOrRight { extent } else { 0 })
            + self.dim.resolve(extent)
    }

    pub fn absolute_xpoint(&self, abs_parent: &AbsRect) -> (r: i64)
        requires
            abs_parent.wf(),
        ensures
            r == self.resolve(abs_parent.x as int, abs_parent.width as int),
            -0x10_0000_0000_0000 <= r <= 0x10_0000_0000_0000,
    {
        let anch: i64 = if self.anchor == Anchor::BottomOrRight {
            abs_parent.width as i64
        } else {
            0
        };
        abs_parent.x as i64 + anch + self.dim.absolute_xdim(abs_parent)
    }

    pub fn absolute_ypoint(&self, abs_parent: &AbsRect) -> (r: i64)
        requires
            abs_parent.wf(),
        ensures
            r == self.resolve(abs_parent.y as int, abs_parent.height as int),
            -0x10_0000_0000_0000 <= r <= 0x10_0000_0000_0000,
    {
        let anch: i64 = if self.anchor == Anchor::BottomOrRight {
            abs_parent.height as i64
        } else {
            0
        };
        abs_parent.y as i64 + anch + self.dim.absolute_ydim(abs_parent)
    }
}

/// A point given by two coordinates.
#[derive(Debug, Clone, Copy, PartialEq, Eq, Structural)]
pub struct Point {
    pub x: Coord,
    pub y: Coord,
}

impl Point {
    pub fn absolute(&self, abs_parent: &AbsRect) -> (r: (i64, i64))
        requires
            abs_parent.wf(),
        ensures
            r.0 == self.x.resolve(abs_parent.x as int, abs_parent.width as int),
            r.1 == self.y.resolve(abs_parent.y as int, abs_parent.height as int),
            -0x10_0000_0000_0000 <= r.0 <= 0x10_0000_0000_0000,
            -0x10_0000_0000_0000 <= r.1 <= 0x10_0000_0000_0000,
    {
        (self.x.absolute_xpoint(abs_parent), self.y.absolute_ypoint(abs_parent))
    }

    /// The rectangle from this point, resolved against `p` and moved inside
    /// it when it falls outside, to the far corner of `p`.
    pub open spec fn anchored(&self, p: AbsRect) -> AbsRect {
        let x = crop_start(self.x.resolve(p.x as int, p.width as int), p.x as int, p.width as int);
        let y = crop_start(self.y.resolve(p.y as int, p.height as int), p.y as int, p.height as int);
        AbsRect {
            x: x as i32,
            y: y as i32,
            width: (p.x + p.width - x) as i32,
            height: (p.y + p.height - y) as i32,
        }
    }

    pub fn anchored_rect(&self, abs_parent: &AbsRect) -> (r: AbsRect)
        requires
            abs_parent.wf(),
        ensures
            r == self.anchored(*abs_parent),
            r.wf(),
            r.contained_in(*abs_parent),
    {
        let (px, py) = self.absolute(abs_parent);
        let (x, _) = crop_span(px, 0, abs_parent.x, abs_parent.width);
        let (y, _) = crop_span(py, 0, abs_parent.y, abs_parent.height);
        proof {
            lemma_anchored_contained(*self, *abs_parent);
        }
        AbsRect { x, y, width: abs_parent.x + abs_parent.width - x, height: abs_parent.y + abs_parent.height - y }
    }
}

/// The rectangle anchored at any point of a well-formed parent is well
/// formed and lies within the parent.
pub proof fn lemma_anchored_contained(pt: Point, parent: AbsRect)
    requires
        parent.wf(),
    ensures
        pt.anchored(parent).wf(),
        pt.anchored(parent).contained_in(parent),
        pt.anchored(parent).x == crop_start(
            pt.x.resolve(parent.x as int, parent.width as int),
            parent.x as int,
            parent.width as int,
        ),
        pt.anchored(parent).y == crop_start(
            pt.y.resolve(parent.y as int, parent.height as int),
            parent.y as int,
            parent.height as int,
        ),
{
}

/// How a rectangle is placed horizontally.
#[derive(Debug, Clone, Copy, PartialEq, Eq, Structural)]
pub enum RectX {
    LeftRight(Coord, Coord),
    LeftWidth(Coord, Dim),
    RightWidth(Coord, Dim),
}

/// How a rectangle is placed vertically.
#[derive(Debug, Clone, Copy, PartialEq, Eq, Structural)]
pub enum RectY {
    TopBottom(Coord, Coord),
    TopHeight(Coord, Dim),
    BottomHeight(Coord, Dim),
}

impl RectX {
    /// Start of the span before cropping, on a parent axis at `o` of extent `e`.
    pub open spec fn start(&self, o: int, e: int) -> int {
        match *self {
            RectX::LeftRight(l, _) => l.resolve(o, e),
            RectX::LeftWidth(l, _) => l.resolve(o, e),
            RectX::RightWidth(r, w) => r.resolve(o, e) - w.resolve(e),
        }
    }

    /// Length of the span before cropping.
    pub open spec fn size(&self, o: int, e: int) -> int {
        match *self {
            RectX::LeftRight(l, r) => r.resolve(o, e) - l.resolve(o, e),
            RectX::LeftWidth(_, w) => w.resolve(e),
            RectX::RightWidth(_, w) => w.resolve(e),
        }
    }
}

impl RectY {
    pub open spec fn start(&self, o: int, e: int) -> int {
        match *self {
            RectY::TopBottom(t, _) => t.resolve(o, e),
            RectY::TopHeight(t, _) => t.resolve(o, e),
            RectY::BottomHeight(b, h) => b.resolve(o, e) - h.resolve(e),
        }
    }

    pub open spec fn size(&self, o: int, e: int) -> int {
        match *self {
            RectY::TopBottom(t, b) => b.resolve(o, e) - t.resolve(o, e),
            RectY::TopHeight(_, h) => h.resolve(e),
            RectY::BottomHeight(_, h) => h.resolve(e),
        }
    }
}

/// The start of a span after cropping it to the parent span `[po, po + pe]`.
pub open spec fn crop_start(start: int, po: int, pe: int) -> int {
    if start < po {
        po
    } else if start > po + pe {
        po + pe
    } else {
        start
    }
}

/// The length of the span `[start, start + size]` once cropped to the
/// parent span `[po, po + pe]`: the cropped span keeps its far edge where
/// the parent allows, and an empty or inverted span has no length.
pub open spec fn crop_size(start: int, size: int, po: int, pe: int) -> int {
    let far = if start + size < po + pe {
        start + size
    } else {
        po + pe
    };
    let near = crop_start(start, po, pe);
    if far < near {
        0
    } else {
        far - near
    }
}

/// A rectangle placed relative to some parent.
#[derive(Debug, Clone, Copy, PartialEq, Eq, Structural)]
pub struct Rect {
    pub rectx: RectX,
    pub recty: RectY,
}

impl Rect {
    pub fn new(rectx: RectX, recty: RectY) -> (r: Rect)
        ensures
            r.rectx == rectx,
            r.recty == recty,
    {
        Rect { rectx, recty }
    }

    /// The empty rectangle at the parent's origin.
    pub fn empty() -> (r: Rect)
        ensures
            r == (Rect {
                rectx: RectX::LeftWidth(
                    Coord { anchor: Anchor::TopOrLeft, dim: Dim { fraction: 0, pixel_offset: 0 } },
                    Dim { fraction: 0, pixel_offset: 0 },
                ),
                recty: RectY::TopHeight(
                    Coord { anchor: Anchor::TopOrLeft, dim: Dim { fraction: 0, pixel_offset: 0 } },
                    Dim { fraction: 0, pixel_offset: 0 },
                ),
            }),
    {
        Rect {
            rectx: RectX::LeftWidth(Coord::near(0, 0), Dim::new(0, 0)),
            recty: RectY::TopHeight(Coord::near(0, 0), Dim::new(0, 0)),
        }
    }

    pub open spec fn abs_x(&self, p: AbsRect) -> int {
        crop_start(self.rectx.start(p.x as int, p.width as int), p.x as int, p.width as int)
    }

    pub open spec fn abs_y(&self, p: AbsRect) -> int {
        crop_start(self.recty.start(p.y as int, p.height as int), p.y as int, p.height as int)
    }

    pub open spec fn abs_width(&self, p: AbsRect) -> int {
        crop_size(
            self.rectx.start(p.x as int, p.width as int),
            self.rectx.size(p.x as int, p.width as int),
            p.x as int,
            p.width as int,
        )
    }

    pub open spec fn abs_height(&self, p: AbsRect) -> int {
        crop_size(
            self.recty.start(p.y as int, p.height as int),
            self.recty.size(p.y as int, p.height as int),
            p.y as int,
            p.height as int,
        )
    }

    /// This rectangle resolved against `p` and cropped to it.
    pub open spec fn resolved(&self, p: AbsRect) -> AbsRect {
        AbsRect {
            x: self.abs_x(p) as i32,
            y: self.abs_y(p) as i32,
            width: self.abs_width(p) as i32,
            height: self.abs_height(p) as i32,
        }
    }

    pub fn absolute(&self, abs_parent: &AbsRect) -> (r: AbsRect)
        requires
            abs_parent.wf(),
        ensures
            r == self.resolved(*abs_parent),
            r.wf(),
            r.contained_in(*abs_parent),
    {
        let p = abs_parent;
        let x: i64 = match self.rectx {
            RectX::LeftRight(left, _) => left.absolute_xpoint(p),
            RectX::LeftWidth(left, _) => left.absolute_xpoint(p),
            RectX::RightWidth(right, width) => right.absolute_xpoint(p) - width.absolute_xdim(p),
        };
        let y: i64 = match self.recty {
            RectY::TopBottom(top, _) => top.absolute_ypoint(p),
            RectY::TopHeight(top, _) => top.absolute_ypoint(p),
            RectY::BottomHeight(bottom, height) => bottom.absolute_ypoint(p) - height.absolute_ydim(p),
        };
        let width: i64 = match self.rectx {
            RectX::LeftRight(left, right) => right.absolute_xpoint(p) - left.absolute_xpoint(p),
            RectX::LeftWidth(_, width) => width.absolute_xdim(p),
            RectX::RightWidth(_, width) => width.absolute_xdim(p),
        };
        let height: i64 = match self.recty {
            RectY::TopBottom(top, bottom) => bottom.absolute_ypoint(p) - top.absolute_ypoint(p),
            RectY::TopHeight(_, height) => height.absolute_ydim(p),
            RectY::BottomHeight(_, height) => height.absolute_ydim(p),
        };
        let (x, width) = crop_span(x, width, p.x, p.width);
        let (y, height) = crop_span(y, height, p.y, p.height);
        proof {
            lemma_resolved_contained(*self, *p);
        }
        AbsRect { x, y, width, height }
    }
}

fn crop_span(start: i64, size: i64, po: i32, pe: i32) -> (r: (i32, i32))
    requires
        -0x20_0000_0000_0000 <= start <= 0x20_0000_0000_0000,
        -0x20_0000_0000_0000 <= size <= 0x20_0000_0000_0000,
        0 <= po,
        0 <= pe,
        po + pe <= i32::MAX,
    ensures
        r.0 == crop_start(start as int, po as int, pe as int),
        r.1 == crop_size(start as int, size as int, po as int, pe as int),
{
    let end: i64 = po as i64 + pe as i64;
    let s: i64 = if start < po as i64 {
        po as i64
    } else if start > end {
        end
    } else {
        start
    };
    let far: i64 = if start + size < end {
        start + size
    } else {
        end
    };
    let n: i64 = if far < s {
        0
    } else {
        far - s
    };
    (s as i32, n as i32)
}

/// Resolving any rectangle against a well-formed parent gives a well-formed
/// rectangle that lies entirely within the parent.
pub proof fn lemma_resolved_contained(r: Rect, parent: AbsRect)
    requires
        parent.wf(),
    ensures
        r.resolved(parent).wf(),
        r.resolved(parent).contained_in(parent),
        r.resolved(parent).x == r.abs_x(parent),
        r.resolved(parent).y == r.abs_y(parent),
        r.resolved(parent).width == r.abs_width(parent),
        r.resolved(parent).height == r.abs_height(parent),
{
}

} // verus!
