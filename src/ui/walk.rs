//! The tree walk: every node, resolved to an absolute rectangle, a depth and
//! an accumulated alpha, children before their parent.
//!
//! A window is placed by its own rectangle, a text line by its anchor point,
//! and an image fills its parent. A window's `child_alpha` fades its
//! descendants, not the window itself.
use vstd::prelude::*;
use crate::ui::arena::{forest_ok, table_get, unique_links, Handle, Ui, UiNode};
use crate::ui::element::UiElement;
use crate::ui::geom::AbsRect;

verus! {

/// What the walk records of one node.
#[derive(Debug, Clone, Copy, PartialEq, Eq, Structural)]
pub struct NodeInfo {
    pub handle: Handle,
    /// Where the node is: a window's rectangle, the rectangle from a text
    /// line's anchor point to its parent's far corner, an image's parent.
    pub rect: AbsRect,
    /// The viewport the node is drawn in: its parent's rectangle for a text
    /// line, `rect` otherwise.
    pub clip: AbsRect,
    pub depth: u64,
    pub alpha: u8,
}

/// The product of two alphas on the 0..=255 scale, rounded down.
pub open spec fn scale_alpha(a: u8, b: u8) -> u8 {
    (a as int * b as int / 255) as u8
}

/// Where a node is, within `outer`: a window's rectangle resolved against
/// it, the rectangle from a text line's anchor point, or `outer` itself.
pub open spec fn own_rect(e: UiElement, outer: AbsRect) -> AbsRect {
    match e {
        UiElement::Window(w) => w.rect.resolved(outer),
        UiElement::Text(t) => t.ui_coordinates.anchored(outer),
        UiElement::Image(_) => outer,
    }
}

/// The viewport a node is drawn in, within `outer`.
pub open spec fn clip_rect(e: UiElement, outer: AbsRect) -> AbsRect {
    match e {
        UiElement::Text(_) => outer,
        _ => own_rect(e, outer),
    }
}

/// The alpha the node recorded as `parent` hands down to its children: its
/// own times its `child_alpha` when it is a window.
pub open spec fn inherited_alpha(m: Map<usize, UiNode>, parent: NodeInfo) -> u8 {
    scale_alpha(parent.alpha, m[parent.handle.0].element.child_alpha_spec())
}

/// What the walk records of child `c` of the node recorded as `parent`.
pub open spec fn child_info(m: Map<usize, UiNode>, c: Handle, parent: NodeInfo) -> NodeInfo {
    NodeInfo {
        handle: c,
        rect: own_rect(m[c.0].element, parent.rect),
        clip: clip_rect(m[c.0].element, parent.rect),
        depth: (parent.depth + 1) as u64,
        alpha: scale_alpha(inherited_alpha(m, parent), m[c.0].element.alpha_spec()),
    }
}

/// What the walk records of root `r`, given the depth its band starts at.
pub open spec fn root_info(m: Map<usize, UiNode>, r: Handle, base: u64, screen: AbsRect) -> NodeInfo {
    NodeInfo {
        handle: r,
        rect: own_rect(m[r.0].element, screen),
        clip: clip_rect(m[r.0].element, screen),
        depth: base,
        alpha: m[r.0].element.alpha_spec(),
    }
}

/// Places a node within `outer`: its rectangle and its viewport.
fn place(e: &UiElement, outer: &AbsRect) -> (r: (AbsRect, AbsRect))
    requires
        outer.wf(),
    ensures
        r.0 == own_rect(*e, *outer),
        r.1 == clip_rect(*e, *outer),
        r.0.wf(),
        r.0.contained_in(*outer),
        r.1.wf(),
{
    match e {
        UiElement::Window(w) => {
            let x = w.rect.absolute(outer);
            (x, x)
        },
        UiElement::Text(t) => (t.ui_coordinates.anchored_rect(outer), *outer),
        UiElement::Image(_) => (*outer, *outer),
    }
}

/// The records of the subtree of node `h`, recorded itself as `info`:
/// the subtrees of its children in order, then the node itself.
pub open spec fn subtree(m: Map<usize, UiNode>, h: usize, info: NodeInfo, fuel: nat) -> Seq<
    NodeInfo,
>
    decreases fuel, m[h].children@.len() + 1,
{
    children_upto(m, m[h].children@, m[h].children@.len(), info, fuel).push(info)
}

/// The records of the subtrees of the first `i` children `ch` of the node
/// recorded as `parent`.
pub open spec fn children_upto(
    m: Map<usize, UiNode>,
    ch: Seq<Handle>,
    i: nat,
    parent: NodeInfo,
    fuel: nat,
) -> Seq<NodeInfo>
    decreases fuel, i,
{
    if i == 0 || fuel == 0 || i > ch.len() {
        Seq::empty()
    } else {
        children_upto(m, ch, (i - 1) as nat, parent, fuel) + subtree(
            m,
            ch[i - 1].0,
            child_info(m, ch[i - 1], parent),
            (fuel - 1) as nat,
        )
    }
}

/// The largest depth in `s`, or `init` when that is larger.
pub open spec fn max_depth(s: Seq<NodeInfo>, init: int) -> int
    decreases s.len(),
{
    if s.len() == 0 {
        init
    } else {
        let d = max_depth(s.drop_last(), init);
        if s.last().depth > d {
            s.last().depth as int
        } else {
            d
        }
    }
}

/// The records of the first `n` roots' subtrees, and the depth the next
/// root's band starts at: one past the deepest depth so far.
pub open spec fn forest(
    m: Map<usize, UiNode>,
    roots: Seq<Handle>,
    n: nat,
    screen: AbsRect,
    fuel: nat,
) -> (Seq<NodeInfo>, int)
    decreases n,
{
    if n == 0 || n > roots.len() {
        (Seq::empty(), 0)
    } else {
        let (prev, base) = forest(m, roots, (n - 1) as nat, screen, fuel);
        let sub = subtree(m, roots[n - 1].0, root_info(m, roots[n - 1], base as u64, screen), fuel);
        (prev + sub, max_depth(sub, base) + 1)
    }
}

/// The full screen of the given size.
pub open spec fn screen_rect(width: i32, height: i32) -> AbsRect {
    AbsRect { x: 0, y: 0, width, height }
}

/// The output of a walk of an arena with nodes `m`, roots `roots` and next
/// handle `next` over a screen of the given size.
pub open spec fn walk_result(
    m: Map<usize, UiNode>,
    roots: Seq<Handle>,
    next: nat,
    width: i32,
    height: i32,
) -> Seq<NodeInfo> {
    forest(m, roots, roots.len(), screen_rect(width, height), next).0
}

/// Depths within a subtree run from its node's depth down to at most one
/// level per handle between the node and `next`.
pub proof fn lemma_subtree_depths(m: Map<usize, UiNode>, next: nat, h: usize, info: NodeInfo, fuel: nat)
    requires
        forest_ok(m, next),
        m.contains_key(h),
        info.depth + next - h <= u64::MAX,
    ensures
        forall|j: int|
            0 <= j < subtree(m, h, info, fuel).len() ==> info.depth <= (#[trigger] subtree(
                m,
                h,
                info,
                fuel,
            )[j]).depth <= info.depth + next - 1 - h,
        subtree(m, h, info, fuel).last() == info,
    decreases fuel, m[h].children@.len() + 1,
{
    lemma_children_depths(m, next, h, m[h].children@.len(), info, fuel);
    let cu = children_upto(m, m[h].children@, m[h].children@.len(), info, fuel);
    assert(h < next);
    assert forall|j: int| 0 <= j < cu.push(info).len() implies info.depth <= (
    #[trigger] cu.push(info)[j]).depth <= info.depth + next - 1 - h by {
        if j < cu.len() {
            assert(cu.push(info)[j] == cu[j]);
        }
    }
}

proof fn lemma_children_depths(
    m: Map<usize, UiNode>,
    next: nat,
    h: usize,
    i: nat,
    parent: NodeInfo,
    fuel: nat,
)
    requires
        forest_ok(m, next),
        m.contains_key(h),
        parent.depth + next - h <= u64::MAX,
        i <= m[h].children@.len(),
    ensures
        forall|j: int|
            0 <= j < children_upto(m, m[h].children@, i, parent, fuel).len() ==> parent.depth + 1
                <= (#[trigger] children_upto(m, m[h].children@, i, parent, fuel)[j]).depth
                <= parent.depth + next - 1 - h,
    decreases fuel, i,
{
    let ch = m[h].children@;
    if i == 0 || fuel == 0 || i > ch.len() {
    } else {
        lemma_children_depths(m, next, h, (i - 1) as nat, parent, fuel);
        let c = ch[i - 1];
        assert(h < c.0 && m.contains_key(c.0));
        assert(c.0 < next);
        let ci = child_info(m, c, parent);
        assert(ci.depth == parent.depth + 1);
        lemma_subtree_depths(m, next, c.0, ci, (fuel - 1) as nat);
        let prev = children_upto(m, ch, (i - 1) as nat, parent, fuel);
        let sub = subtree(m, c.0, ci, (fuel - 1) as nat);
        assert(children_upto(m, ch, i, parent, fuel) == prev + sub);
        assert forall|j: int| 0 <= j < (prev + sub).len() implies parent.depth + 1 <= (
        #[trigger] (prev + sub)[j]).depth <= parent.depth + next - 1 - h by {
            if j < prev.len() {
                assert((prev + sub)[j] == prev[j]);
            } else {
                assert((prev + sub)[j] == sub[j - prev.len()]);
            }
        }
    }
}

/// The product of two alphas on the 0..=255 scale.
pub fn mul_alpha(a: u8, b: u8) -> (r: u8)
    ensures
        r == scale_alpha(a, b),
{
    assert(a as int * b as int <= 255 * 255) by (nonlinear_arith)
        requires
            a <= 255,
            b <= 255,
    ;
    assert(a as int * b as int / 255 <= 255) by (nonlinear_arith)
        requires
            0 <= a as int * b as int <= 255 * 255,
    ;
    ((a as u32 * b as u32) / 255) as u8
}

/// Every rectangle a walk records lies on the screen.
pub proof fn lemma_walk_rects(ui: &Ui, width: i32, height: i32)
    requires
        ui.wf(),
        0 <= width,
        0 <= height,
    ensures
        forall|j: int|
            0 <= j < walk_result(ui.nodes(), ui.roots(), ui.next_id(), width, height).len() ==> (
            #[trigger] walk_result(ui.nodes(), ui.roots(), ui.next_id(), width, height)[j]).rect.wf(),
{
    ui.lemma_wf();
    lemma_forest_parents(ui.nodes(), ui.roots(), ui.roots().len(), screen_rect(width, height), ui.next_id());
}

/// The records of the subtree of the `k`-th root, as the walk makes them.
pub open spec fn band(m: Map<usize, UiNode>, roots: Seq<Handle>, k: nat, screen: AbsRect, fuel: nat) -> Seq<
    NodeInfo,
> {
    subtree(
        m,
        roots[k as int].0,
        root_info(m, roots[k as int], forest(m, roots, k, screen, fuel).1 as u64, screen),
        fuel,
    )
}

/// `max_depth` is at least `init` and every depth of `s`, and it is at most
/// any bound that `init` and every depth of `s` are under.
pub proof fn lemma_max_depth(s: Seq<NodeInfo>, init: int, bound: int)
    ensures
        init <= max_depth(s, init),
        forall|j: int| 0 <= j < s.len() ==> (#[trigger] s[j]).depth <= max_depth(s, init),
        init <= bound && (forall|j: int| 0 <= j < s.len() ==> (#[trigger] s[j]).depth <= bound)
            ==> max_depth(s, init) <= bound,
    decreases s.len(),
{
    if s.len() > 0 {
        lemma_max_depth(s.drop_last(), init, bound);
        assert forall|j: int| 0 <= j < s.len() implies (#[trigger] s[j]).depth <= max_depth(s, init) by {
            if j < s.len() - 1 {
                assert(s[j] == s.drop_last()[j]);
            }
        }
        if init <= bound && (forall|j: int| 0 <= j < s.len() ==> (#[trigger] s[j]).depth <= bound) {
            assert forall|j: int| 0 <= j < s.drop_last().len() implies (
            #[trigger] s.drop_last()[j]).depth <= bound by {
                assert(s.drop_last()[j] == s[j]);
            }
            assert(s[s.len() - 1].depth <= bound);
        }
    }
}

/// The bands of the first `n` roots: each band's depths start at its base
/// and stay below the next band's base, and the bases only grow.
pub proof fn lemma_bands(m: Map<usize, UiNode>, roots: Seq<Handle>, n: nat, screen: AbsRect, next: nat)
    requires
        forest_ok(m, next),
        next <= 0x8000_0000,
        roots.len() < next,
        forall|i: int| 0 <= i < roots.len() ==> m.contains_key((#[trigger] roots[i]).0),
        n <= roots.len(),
    ensures
        0 <= forest(m, roots, n, screen, next).1 <= n * next,
        forall|k1: nat, k2: nat|
            k1 < k2 <= n ==> #[trigger] forest(m, roots, k1, screen, next).1 < #[trigger] forest(
                m,
                roots,
                k2,
                screen,
                next,
            ).1,
        forall|k: nat, a: int|
            k < n && 0 <= a < band(m, roots, k, screen, next).len() ==> forest(
                m,
                roots,
                k,
                screen,
                next,
            ).1 <= (#[trigger] band(m, roots, k, screen, next)[a]).depth < forest(
                m,
                roots,
                k + 1,
                screen,
                next,
            ).1,
    decreases n,
{
    if n > 0 {
        let k = (n - 1) as nat;
        lemma_bands(m, roots, k, screen, next);
        let base = forest(m, roots, k, screen, next).1;
        let r = roots[k as int];
        assert(m.contains_key(r.0));
        assert(r.0 < next);
        assert(k * next <= next * next) by (nonlinear_arith)
            requires
                k < next,
        ;
        assert(next * next <= 0x8000_0000 * 0x8000_0000) by (nonlinear_arith)
            requires
                next <= 0x8000_0000,
        ;
        let info = root_info(m, r, base as u64, screen);
        assert(info.depth == base);
        lemma_subtree_depths(m, next, r.0, info, next);
        let sub = band(m, roots, k, screen, next);
        assert(sub == subtree(m, r.0, info, next));
        lemma_max_depth(sub, base, base + next - 1 - r.0);
        assert(forest(m, roots, n, screen, next).1 == max_depth(sub, base) + 1);
        assert((k + 1) * next == k * next + next) by (nonlinear_arith);
        assert forall|k1: nat, k2: nat| k1 < k2 <= n implies #[trigger] forest(
            m,
            roots,
            k1,
            screen,
            next,
        ).1 < #[trigger] forest(m, roots, k2, screen, next).1 by {
            if k2 < n {
            } else if k1 < k {
                assert(forest(m, roots, k1, screen, next).1 < forest(m, roots, k, screen, next).1);
            }
        }
    }
}

/// Two root subtrees occupy disjoint depth ranges: every depth in the band
/// of an earlier root is below every depth in the band of a later root.
pub proof fn lemma_root_bands_disjoint(ui: &Ui, width: i32, height: i32, i: nat, j: nat, a: int, b: int)
    requires
        ui.wf(),
        i < j < ui.roots().len(),
        0 <= a < band(ui.nodes(), ui.roots(), i, screen_rect(width, height), ui.next_id()).len(),
        0 <= b < band(ui.nodes(), ui.roots(), j, screen_rect(width, height), ui.next_id()).len(),
    ensures
        band(ui.nodes(), ui.roots(), i, screen_rect(width, height), ui.next_id())[a].depth < band(
            ui.nodes(),
            ui.roots(),
            j,
            screen_rect(width, height),
            ui.next_id(),
        )[b].depth,
{
    ui.lemma_wf();
    let m = ui.nodes();
    let roots = ui.roots();
    let screen = screen_rect(width, height);
    let next = ui.next_id();
    lemma_bands(m, roots, roots.len(), screen, next);
    if i + 1 < j {
        assert(forest(m, roots, i + 1, screen, next).1 < forest(m, roots, j, screen, next).1);
    }
}

/// The walk's output is the bands of the roots, one after another.
pub proof fn lemma_walk_is_bands(m: Map<usize, UiNode>, roots: Seq<Handle>, n: nat, screen: AbsRect, fuel: nat)
    requires
        0 < n <= roots.len(),
    ensures
        forest(m, roots, n, screen, fuel).0 == forest(m, roots, (n - 1) as nat, screen, fuel).0 + band(
            m,
            roots,
            (n - 1) as nat,
            screen,
            fuel,
        ),
{
}

/// `s[p]`, recorded after `s[j]`, is the record of a node that has
/// `s[j]`'s node as a child; `s[j]`'s rectangle lies within `s[p]`'s and its
/// alpha is what `s[p]` hands down times its own node's alpha.
pub open spec fn parent_record(m: Map<usize, UiNode>, s: Seq<NodeInfo>, j: int, p: int) -> bool {
    &&& 0 <= j < p < s.len()
    &&& m.contains_key(s[p].handle.0)
    &&& m[s[p].handle.0].children@.contains(s[j].handle)
    &&& s[j].rect.contained_in(s[p].rect)
    &&& s[j].alpha == scale_alpha(inherited_alpha(m, s[p]), m[s[j].handle.0].element.alpha_spec())
}

/// Some record after `s[j]` is its parent's record.
pub open spec fn has_parent(m: Map<usize, UiNode>, s: Seq<NodeInfo>, j: int) -> bool {
    exists|p: int| #[trigger] parent_record(m, s, j, p)
}

/// `r` is the record of a child of node `h`, recorded as `parent`: inside
/// the parent's rectangle, with what the parent hands down times its own alpha.
pub open spec fn direct_child(m: Map<usize, UiNode>, h: usize, parent: NodeInfo, r: NodeInfo) -> bool {
    &&& m[h].children@.contains(r.handle)
    &&& r.rect.contained_in(parent.rect)
    &&& r.alpha == scale_alpha(inherited_alpha(m, parent), m[r.handle.0].element.alpha_spec())
}

proof fn lemma_own_rect(e: UiElement, outer: AbsRect)
    requires
        outer.wf(),
    ensures
        own_rect(e, outer).wf(),
        own_rect(e, outer).contained_in(outer),
{
    match e {
        UiElement::Window(w) => crate::ui::geom::lemma_resolved_contained(w.rect, outer),
        UiElement::Text(t) => crate::ui::geom::lemma_anchored_contained(t.ui_coordinates, outer),
        UiElement::Image(_) => {},
    }
}

proof fn lemma_subtree_parents(m: Map<usize, UiNode>, next: nat, h: usize, info: NodeInfo, fuel: nat)
    requires
        forest_ok(m, next),
        m.contains_key(h),
        info.handle.0 == h,
        info.rect.wf(),
    ensures
        forall|j: int| 0 <= j < subtree(m, h, info, fuel).len() ==> (#[trigger] subtree(m, h, info, fuel)[j]).rect.wf(),
        forall|j: int|
            0 <= j < subtree(m, h, info, fuel).len() - 1 ==> #[trigger] has_parent(
                m,
                subtree(m, h, info, fuel),
                j,
            ),
    decreases fuel, m[h].children@.len() + 1,
{
    let ch = m[h].children@;
    let cu = children_upto(m, ch, ch.len(), info, fuel);
    lemma_children_parents(m, next, h, ch.len(), info, fuel);
    let s = cu.push(info);
    assert(s == subtree(m, h, info, fuel));
    assert forall|j: int| 0 <= j < s.len() implies (#[trigger] s[j]).rect.wf() by {
        if j < cu.len() {
            assert(s[j] == cu[j]);
        }
    }
    assert forall|j: int| 0 <= j < s.len() - 1 implies #[trigger] has_parent(m, s, j) by {
        assert(s[j] == cu[j]);
        if has_parent(m, cu, j) {
            let p = choose|p: int| #[trigger] parent_record(m, cu, j, p);
            assert(s[p] == cu[p]);
            assert(parent_record(m, s, j, p));
        } else {
            assert(direct_child(m, h, info, cu[j]));
            assert(s[cu.len() as int] == info);
            assert(parent_record(m, s, j, cu.len() as int));
        }
    }
}

proof fn lemma_children_parents(m: Map<usize, UiNode>, next: nat, h: usize, i: nat, info: NodeInfo, fuel: nat)
    requires
        forest_ok(m, next),
        m.contains_key(h),
        info.handle.0 == h,
        info.rect.wf(),
        i <= m[h].children@.len(),
    ensures
        forall|j: int|
            0 <= j < children_upto(m, m[h].children@, i, info, fuel).len() ==> (#[trigger] children_upto(
                m,
                m[h].children@,
                i,
                info,
                fuel,
            )[j]).rect.wf(),
        forall|j: int|
            0 <= j < children_upto(m, m[h].children@, i, info, fuel).len() ==> #[trigger] has_parent(
                m,
                children_upto(m, m[h].children@, i, info, fuel),
                j,
            ) || direct_child(m, h, info, children_upto(m, m[h].children@, i, info, fuel)[j]),
    decreases fuel, i,
{
    let ch = m[h].children@;
    if i == 0 || fuel == 0 || i > ch.len() {
    } else {
        lemma_children_parents(m, next, h, (i - 1) as nat, info, fuel);
        let c = ch[i - 1];
        assert(m.contains_key(c.0));
        let ci = child_info(m, c, info);
        lemma_own_rect(m[c.0].element, info.rect);
        lemma_subtree_parents(m, next, c.0, ci, (fuel - 1) as nat);
        lemma_subtree_last(m, c.0, ci, (fuel - 1) as nat);
        let prev = children_upto(m, ch, (i - 1) as nat, info, fuel);
        let sub = subtree(m, c.0, ci, (fuel - 1) as nat);
        let s = prev + sub;
        assert(children_upto(m, ch, i, info, fuel) == s);
        assert forall|j: int| 0 <= j < s.len() implies (#[trigger] s[j]).rect.wf() by {
            if j < prev.len() {
                assert(s[j] == prev[j]);
            } else {
                assert(s[j] == sub[j - prev.len()]);
            }
        }
        assert forall|j: int| 0 <= j < s.len() implies #[trigger] has_parent(m, s, j) || direct_child(
            m,
            h,
            info,
            s[j],
        ) by {
            if j < prev.len() {
                assert(s[j] == prev[j]);
                if has_parent(m, prev, j) {
                    let p = choose|p: int| #[trigger] parent_record(m, prev, j, p);
                    assert(s[p] == prev[p]);
                    assert(parent_record(m, s, j, p));
                }
            } else {
                let k = j - prev.len();
                assert(s[j] == sub[k]);
                if k < sub.len() - 1 {
                    assert(has_parent(m, sub, k));
                    let p = choose|p: int| #[trigger] parent_record(m, sub, k, p);
                    assert(s[p + prev.len()] == sub[p]);
                    assert(parent_record(m, s, j, p + prev.len()));
                } else {
                    assert(sub[k] == ci);
                    assert(ch[i - 1] == c);
                    assert(ch.contains(c));
                    assert(direct_child(m, h, info, s[j]));
                }
            }
        }
    }
}

proof fn lemma_subtree_last(m: Map<usize, UiNode>, h: usize, info: NodeInfo, fuel: nat)
    ensures
        subtree(m, h, info, fuel).last() == info,
        subtree(m, h, info, fuel).len() >= 1,
{
}

/// Every record of a walk either belongs to a root or has, later in the
/// walk, the record of its parent: its rectangle lies within the parent's
/// and its alpha is what the parent hands down times its own.
pub proof fn lemma_walk_parents(ui: &Ui, width: i32, height: i32, j: int)
    requires
        ui.wf(),
        0 <= width,
        0 <= height,
        0 <= j < walk_result(ui.nodes(), ui.roots(), ui.next_id(), width, height).len(),
    ensures
        ({
            let w = walk_result(ui.nodes(), ui.roots(), ui.next_id(), width, height);
            ui.roots().contains(w[j].handle) || has_parent(ui.nodes(), w, j)
        }),
{
    ui.lemma_wf();
    lemma_forest_parents(ui.nodes(), ui.roots(), ui.roots().len(), screen_rect(width, height), ui.next_id());
}

proof fn lemma_forest_parents(m: Map<usize, UiNode>, roots: Seq<Handle>, n: nat, screen: AbsRect, next: nat)
    requires
        forest_ok(m, next),
        forall|i: int| 0 <= i < roots.len() ==> m.contains_key((#[trigger] roots[i]).0),
        n <= roots.len(),
        screen.wf(),
    ensures
        forall|j: int|
            0 <= j < forest(m, roots, n, screen, next).0.len() ==> roots.contains(
                forest(m, roots, n, screen, next).0[j].handle,
            ) || #[trigger] has_parent(m, forest(m, roots, n, screen, next).0, j),
        forall|j: int|
            0 <= j < forest(m, roots, n, screen, next).0.len() ==> (#[trigger] forest(
                m,
                roots,
                n,
                screen,
                next,
            ).0[j]).rect.wf(),
    decreases n,
{
    if n > 0 {
        let k = (n - 1) as nat;
        lemma_forest_parents(m, roots, k, screen, next);
        let prev = forest(m, roots, k, screen, next).0;
        let base = forest(m, roots, k, screen, next).1;
        let r = roots[k as int];
        assert(m.contains_key(r.0));
        let info = root_info(m, r, base as u64, screen);
        lemma_own_rect(m[r.0].element, screen);
        lemma_subtree_parents(m, next, r.0, info, next);
        lemma_subtree_last(m, r.0, info, next);
        let sub = subtree(m, r.0, info, next);
        let s = prev + sub;
        assert(forest(m, roots, n, screen, next).0 == s);
        assert forall|j: int| 0 <= j < s.len() implies (#[trigger] s[j]).rect.wf() by {
            if j < prev.len() {
                assert(s[j] == prev[j]);
            } else {
                assert(s[j] == sub[j - prev.len()]);
            }
        }
        assert forall|j: int| 0 <= j < s.len() implies roots.contains(s[j].handle) || #[trigger] has_parent(
            m,
            s,
            j,
        ) by {
            if j < prev.len() {
                assert(s[j] == prev[j]);
                if has_parent(m, prev, j) {
                    let p = choose|p: int| #[trigger] parent_record(m, prev, j, p);
                    assert(s[p] == prev[p]);
                    assert(parent_record(m, s, j, p));
                }
            } else {
                let q = j - prev.len();
                assert(s[j] == sub[q]);
                if q < sub.len() - 1 {
                    assert(has_parent(m, sub, q));
                    let p = choose|p: int| #[trigger] parent_record(m, sub, q, p);
                    assert(s[p + prev.len()] == sub[p]);
                    assert(parent_record(m, s, j, p + prev.len()));
                } else {
                    assert(sub[q] == info);
                    assert(roots[k as int] == r);
                    assert(roots.contains(r));
                }
            }
        }
    }
}

/// Every child of `s[j]`'s node has a record before `s[j]`.
pub open spec fn children_before(m: Map<usize, UiNode>, s: Seq<NodeInfo>, j: int) -> bool {
    forall|i: int|
        0 <= i < m[s[j].handle.0].children@.len() ==> #[trigger] recorded_before(
            s,
            j,
            m[s[j].handle.0].children@[i],
        )
}

/// Some record of `s` before index `j` is of node `c`.
pub open spec fn recorded_before(s: Seq<NodeInfo>, j: int, c: Handle) -> bool {
    exists|k: int| 0 <= k < j && #[trigger] s[k].handle == c
}

/// Some record of `s` is of node `c`.
pub open spec fn recorded(s: Seq<NodeInfo>, c: Handle) -> bool {
    exists|k: int| 0 <= k < s.len() && #[trigger] s[k].handle == c
}

proof fn lemma_subtree_order(m: Map<usize, UiNode>, next: nat, h: usize, info: NodeInfo, fuel: nat)
    requires
        forest_ok(m, next),
        m.contains_key(h),
        info.handle.0 == h,
        fuel >= next - h,
    ensures
        forall|j: int| 0 <= j < subtree(m, h, info, fuel).len() ==> m.contains_key(
            (#[trigger] subtree(m, h, info, fuel)[j]).handle.0,
        ),
        forall|j: int|
            0 <= j < subtree(m, h, info, fuel).len() ==> #[trigger] children_before(
                m,
                subtree(m, h, info, fuel),
                j,
            ),
    decreases fuel, m[h].children@.len() + 1,
{
    let ch = m[h].children@;
    let cu = children_upto(m, ch, ch.len(), info, fuel);
    lemma_children_order(m, next, h, ch.len(), info, fuel);
    let s = cu.push(info);
    assert(s == subtree(m, h, info, fuel));
    assert forall|j: int| 0 <= j < s.len() implies m.contains_key((#[trigger] s[j]).handle.0) by {
        if j < cu.len() {
            assert(s[j] == cu[j]);
        }
    }
    assert forall|j: int| 0 <= j < s.len() implies #[trigger] children_before(m, s, j) by {
        if j < cu.len() {
            assert(s[j] == cu[j]);
            assert(children_before(m, cu, j));
            assert forall|i: int| 0 <= i < m[s[j].handle.0].children@.len() implies #[trigger] recorded_before(
                s,
                j,
                m[s[j].handle.0].children@[i],
            ) by {
                assert(recorded_before(cu, j, m[cu[j].handle.0].children@[i]));
                let k = choose|k: int| 0 <= k < j && #[trigger] cu[k].handle == m[cu[j].handle.0].children@[i];
                assert(s[k] == cu[k]);
            }
        } else {
            assert(s[j] == info);
            assert forall|i: int| 0 <= i < ch.len() implies #[trigger] recorded_before(s, j, ch[i]) by {
                assert(recorded(cu, ch[i]));
                let k = choose|k: int| 0 <= k < cu.len() && #[trigger] cu[k].handle == ch[i];
                assert(s[k] == cu[k]);
            }
        }
    }
}

proof fn lemma_children_order(m: Map<usize, UiNode>, next: nat, h: usize, i: nat, info: NodeInfo, fuel: nat)
    requires
        forest_ok(m, next),
        m.contains_key(h),
        info.handle.0 == h,
        fuel >= next - h,
        i <= m[h].children@.len(),
    ensures
        forall|j: int|
            0 <= j < children_upto(m, m[h].children@, i, info, fuel).len() ==> m.contains_key(
                (#[trigger] children_upto(m, m[h].children@, i, info, fuel)[j]).handle.0,
            ),
        forall|j: int|
            0 <= j < children_upto(m, m[h].children@, i, info, fuel).len() ==> #[trigger] children_before(
                m,
                children_upto(m, m[h].children@, i, info, fuel),
                j,
            ),
        forall|q: int| 0 <= q < i ==> #[trigger] recorded(children_upto(m, m[h].children@, i, info, fuel), m[h].children@[q]),
    decreases fuel, i,
{
    let ch = m[h].children@;
    assert(h < next);
    if i == 0 || i > ch.len() {
    } else {
        lemma_children_order(m, next, h, (i - 1) as nat, info, fuel);
        let c = ch[i - 1];
        assert(m.contains_key(c.0) && h < c.0);
        let ci = child_info(m, c, info);
        lemma_subtree_order(m, next, c.0, ci, (fuel - 1) as nat);
        lemma_subtree_last(m, c.0, ci, (fuel - 1) as nat);
        let prev = children_upto(m, ch, (i - 1) as nat, info, fuel);
        let sub = subtree(m, c.0, ci, (fuel - 1) as nat);
        let s = prev + sub;
        assert(children_upto(m, ch, i, info, fuel) == s);
        assert forall|j: int| 0 <= j < s.len() implies m.contains_key((#[trigger] s[j]).handle.0) by {
            if j < prev.len() {
                assert(s[j] == prev[j]);
            } else {
                assert(s[j] == sub[j - prev.len()]);
            }
        }
        assert forall|j: int| 0 <= j < s.len() implies #[trigger] children_before(m, s, j) by {
            if j < prev.len() {
                assert(s[j] == prev[j]);
                assert(children_before(m, prev, j));
                assert forall|x: int| 0 <= x < m[s[j].handle.0].children@.len() implies #[trigger] recorded_before(
                    s,
                    j,
                    m[s[j].handle.0].children@[x],
                ) by {
                    assert(recorded_before(prev, j, m[prev[j].handle.0].children@[x]));
                    let k = choose|k: int| 0 <= k < j && #[trigger] prev[k].handle == m[prev[j].handle.0].children@[x];
                    assert(s[k] == prev[k]);
                }
            } else {
                let jj = j - prev.len();
                assert(s[j] == sub[jj]);
                assert(children_before(m, sub, jj));
                assert forall|x: int| 0 <= x < m[s[j].handle.0].children@.len() implies #[trigger] recorded_before(
                    s,
                    j,
                    m[s[j].handle.0].children@[x],
                ) by {
                    assert(recorded_before(sub, jj, m[sub[jj].handle.0].children@[x]));
                    let k = choose|k: int| 0 <= k < jj && #[trigger] sub[k].handle == m[sub[jj].handle.0].children@[x];
                    assert(s[k + prev.len()] == sub[k]);
                }
            }
        }
        assert forall|q: int| 0 <= q < i implies #[trigger] recorded(s, ch[q]) by {
            if q < i - 1 {
                assert(recorded(prev, ch[q]));
                let k = choose|k: int| 0 <= k < prev.len() && #[trigger] prev[k].handle == ch[q];
                assert(s[k] == prev[k]);
            } else {
                let k = prev.len() + sub.len() - 1;
                assert(s[k] == sub[sub.len() - 1]);
                assert(s[k].handle == c);
            }
        }
    }
}

proof fn lemma_forest_order(m: Map<usize, UiNode>, roots: Seq<Handle>, n: nat, screen: AbsRect, next: nat)
    requires
        forest_ok(m, next),
        forall|i: int| 0 <= i < roots.len() ==> m.contains_key((#[trigger] roots[i]).0),
        n <= roots.len(),
    ensures
        forall|j: int| 0 <= j < forest(m, roots, n, screen, next).0.len() ==> m.contains_key(
            (#[trigger] forest(m, roots, n, screen, next).0[j]).handle.0,
        ),
        forall|j: int|
            0 <= j < forest(m, roots, n, screen, next).0.len() ==> #[trigger] children_before(
                m,
                forest(m, roots, n, screen, next).0,
                j,
            ),
    decreases n,
{
    if n > 0 {
        let k = (n - 1) as nat;
        lemma_forest_order(m, roots, k, screen, next);
        let prev = forest(m, roots, k, screen, next).0;
        let base = forest(m, roots, k, screen, next).1;
        let r = roots[k as int];
        assert(m.contains_key(r.0));
        let info = root_info(m, r, base as u64, screen);
        lemma_subtree_order(m, next, r.0, info, next);
        let sub = subtree(m, r.0, info, next);
        let s = prev + sub;
        assert(forest(m, roots, n, screen, next).0 == s);
        assert forall|j: int| 0 <= j < s.len() implies m.contains_key((#[trigger] s[j]).handle.0) by {
            if j < prev.len() {
                assert(s[j] == prev[j]);
            } else {
                assert(s[j] == sub[j - prev.len()]);
            }
        }
        assert forall|j: int| 0 <= j < s.len() implies #[trigger] children_before(m, s, j) by {
            if j < prev.len() {
                assert(s[j] == prev[j]);
                assert(children_before(m, prev, j));
                assert forall|x: int| 0 <= x < m[s[j].handle.0].children@.len() implies #[trigger] recorded_before(
                    s,
                    j,
                    m[s[j].handle.0].children@[x],
                ) by {
                    assert(recorded_before(prev, j, m[prev[j].handle.0].children@[x]));
                    let q = choose|q: int| 0 <= q < j && #[trigger] prev[q].handle == m[prev[j].handle.0].children@[x];
                    assert(s[q] == prev[q]);
                }
            } else {
                let jj = j - prev.len();
                assert(s[j] == sub[jj]);
                assert(children_before(m, sub, jj));
                assert forall|x: int| 0 <= x < m[s[j].handle.0].children@.len() implies #[trigger] recorded_before(
                    s,
                    j,
                    m[s[j].handle.0].children@[x],
                ) by {
                    assert(recorded_before(sub, jj, m[sub[jj].handle.0].children@[x]));
                    let q = choose|q: int| 0 <= q < jj && #[trigger] sub[q].handle == m[sub[jj].handle.0].children@[x];
                    assert(s[q + prev.len()] == sub[q]);
                }
            }
        }
    }
}

/// Node `x` lies in the tree under node `c`, at most `fuel` levels down.
pub open spec fn in_tree(m: Map<usize, UiNode>, c: usize, x: usize, fuel: nat) -> bool
    decreases fuel, m[c].children@.len() + 1,
{
    x == c || (fuel > 0 && in_children(m, m[c].children@, m[c].children@.len(), x, (fuel - 1) as nat))
}

/// Node `x` lies in the tree under one of the first `i` children `ch`.
pub open spec fn in_children(m: Map<usize, UiNode>, ch: Seq<Handle>, i: nat, x: usize, fuel: nat) -> bool
    decreases fuel + 1, i,
{
    0 < i <= ch.len() && (in_children(m, ch, (i - 1) as nat, x, fuel) || in_tree(m, ch[i - 1].0, x, fuel))
}

proof fn lemma_pick_child(m: Map<usize, UiNode>, ch: Seq<Handle>, i: nat, x: usize, fuel: nat) -> (q: int)
    requires
        in_children(m, ch, i, x, fuel),
    ensures
        0 <= q < i <= ch.len(),
        in_tree(m, ch[q].0, x, fuel),
    decreases i,
{
    if in_tree(m, ch[i - 1].0, x, fuel) {
        i - 1
    } else {
        lemma_pick_child(m, ch, (i - 1) as nat, x, fuel)
    }
}

proof fn lemma_child_in_children(m: Map<usize, UiNode>, ch: Seq<Handle>, i: nat, q: int, x: usize, fuel: nat)
    requires
        0 <= q < i <= ch.len(),
        in_tree(m, ch[q].0, x, fuel),
    ensures
        in_children(m, ch, i, x, fuel),
    decreases i,
{
    if q < i - 1 {
        lemma_child_in_children(m, ch, (i - 1) as nat, q, x, fuel);
    }
}

/// A node of a tree is a node, and not above the tree's top.
proof fn lemma_in_tree_bounds(m: Map<usize, UiNode>, next: nat, c: usize, x: usize, fuel: nat)
    requires
        forest_ok(m, next),
        m.contains_key(c),
        in_tree(m, c, x, fuel),
    ensures
        c <= x,
        m.contains_key(x),
    decreases fuel,
{
    if x != c {
        let i = lemma_pick_child(m, m[c].children@, m[c].children@.len(), x, (fuel - 1) as nat);
        let ci = m[c].children@[i].0;
        assert(c < ci && m.contains_key(ci));
        lemma_in_tree_bounds(m, next, ci, x, (fuel - 1) as nat);
    }
}

/// A node of a tree other than its top has, within the tree, a node that
/// lists it as a child.
proof fn lemma_in_tree_parent(m: Map<usize, UiNode>, next: nat, c: usize, x: usize, fuel: nat) -> (k: usize)
    requires
        forest_ok(m, next),
        m.contains_key(c),
        in_tree(m, c, x, fuel),
        x != c,
    ensures
        m.contains_key(k),
        in_tree(m, c, k, fuel),
        m[k].children@.contains(Handle(x)),
        k < x,
    decreases fuel,
{
    let i = lemma_pick_child(m, m[c].children@, m[c].children@.len(), x, (fuel - 1) as nat);
    let ci = m[c].children@[i].0;
    assert(c < ci && m.contains_key(ci));
    if x == ci {
        assert(m[c].children@[i] == Handle(x));
        c
    } else {
        let k = lemma_in_tree_parent(m, next, ci, x, (fuel - 1) as nat);
        lemma_child_in_children(m, m[c].children@, m[c].children@.len(), i, k, (fuel - 1) as nat);
        k
    }
}

/// Two nodes that list the same child are the same node.
proof fn lemma_one_parent(m: Map<usize, UiNode>, roots: Seq<Handle>, k1: usize, k2: usize, x: Handle)
    requires
        unique_links(m, roots),
        m.contains_key(k1),
        m.contains_key(k2),
        m[k1].children@.contains(x),
        m[k2].children@.contains(x),
    ensures
        k1 == k2,
{
    let i1 = choose|i: int| 0 <= i < m[k1].children@.len() && m[k1].children@[i] == x;
    let i2 = choose|i: int| 0 <= i < m[k2].children@.len() && m[k2].children@[i] == x;
    assert(m[k1].children@[i1] == m[k2].children@[i2]);
}

/// The trees under two different children of one node share no node.
proof fn lemma_sibling_trees_disjoint(
    m: Map<usize, UiNode>,
    roots: Seq<Handle>,
    next: nat,
    h: usize,
    i1: int,
    i2: int,
    x: usize,
    f1: nat,
    f2: nat,
)
    requires
        forest_ok(m, next),
        unique_links(m, roots),
        m.contains_key(h),
        0 <= i1 < m[h].children@.len(),
        0 <= i2 < m[h].children@.len(),
        i1 != i2,
    ensures
        !(in_tree(m, m[h].children@[i1].0, x, f1) && in_tree(m, m[h].children@[i2].0, x, f2)),
    decreases x,
{
    let c1 = m[h].children@[i1].0;
    let c2 = m[h].children@[i2].0;
    assert(m.contains_key(c1) && m.contains_key(c2) && h < c1 && h < c2);
    if in_tree(m, c1, x, f1) && in_tree(m, c2, x, f2) {
        if c1 == c2 {
            assert(m[h].children@[i1] == m[h].children@[i2]);
        }
        if x == c1 || x == c2 {
            let (top, other, f) = if x == c1 { (c2, c1, f2) } else { (c1, c2, f1) };
            let k = lemma_in_tree_parent(m, next, top, x, f);
            assert(m[h].children@.contains(Handle(x))) by {
                if x == c1 {
                    assert(m[h].children@[i1] == Handle(x));
                } else {
                    assert(m[h].children@[i2] == Handle(x));
                }
            }
            lemma_one_parent(m, roots, k, h, Handle(x));
            lemma_in_tree_bounds(m, next, top, k, f);
        } else {
            let k1 = lemma_in_tree_parent(m, next, c1, x, f1);
            let k2 = lemma_in_tree_parent(m, next, c2, x, f2);
            lemma_one_parent(m, roots, k1, k2, Handle(x));
            lemma_sibling_trees_disjoint(m, roots, next, h, i1, i2, k1, f1, f2);
        }
    }
}

/// The trees under two different roots share no node.
proof fn lemma_root_trees_disjoint(
    m: Map<usize, UiNode>,
    roots: Seq<Handle>,
    next: nat,
    a: int,
    b: int,
    x: usize,
    f1: nat,
    f2: nat,
)
    requires
        forest_ok(m, next),
        unique_links(m, roots),
        forall|i: int| 0 <= i < roots.len() ==> m.contains_key((#[trigger] roots[i]).0),
        0 <= a < roots.len(),
        0 <= b < roots.len(),
        a != b,
    ensures
        !(in_tree(m, roots[a].0, x, f1) && in_tree(m, roots[b].0, x, f2)),
    decreases x,
{
    let r1 = roots[a].0;
    let r2 = roots[b].0;
    assert(m.contains_key(r1) && m.contains_key(r2));
    if in_tree(m, r1, x, f1) && in_tree(m, r2, x, f2) {
        if r1 == r2 {
            assert(roots[a] == roots[b]);
        }
        if x == r1 || x == r2 {
            let (top, f, ri) = if x == r1 { (r2, f2, a) } else { (r1, f1, b) };
            let k = lemma_in_tree_parent(m, next, top, x, f);
            let i = choose|i: int| 0 <= i < m[k].children@.len() && m[k].children@[i] == Handle(x);
            assert(roots[ri] == Handle(x));
            assert(m[k].children@[i] != roots[ri]);
        } else {
            let k1 = lemma_in_tree_parent(m, next, r1, x, f1);
            let k2 = lemma_in_tree_parent(m, next, r2, x, f2);
            lemma_one_parent(m, roots, k1, k2, Handle(x));
            lemma_root_trees_disjoint(m, roots, next, a, b, k1, f1, f2);
        }
    }
}

/// No two records of `s` are of the same node.
pub open spec fn distinct_handles(s: Seq<NodeInfo>) -> bool {
    forall|a: int, b: int| 0 <= a < b < s.len() ==> #[trigger] s[a].handle != #[trigger] s[b].handle
}

proof fn lemma_subtree_distinct(
    m: Map<usize, UiNode>,
    roots: Seq<Handle>,
    next: nat,
    h: usize,
    info: NodeInfo,
    fuel: nat,
)
    requires
        forest_ok(m, next),
        unique_links(m, roots),
        m.contains_key(h),
        info.handle.0 == h,
    ensures
        forall|j: int|
            0 <= j < subtree(m, h, info, fuel).len() ==> in_tree(
                m,
                h,
                (#[trigger] subtree(m, h, info, fuel)[j]).handle.0,
                fuel,
            ),
        distinct_handles(subtree(m, h, info, fuel)),
    decreases fuel, m[h].children@.len() + 1,
{
    let ch = m[h].children@;
    let cu = children_upto(m, ch, ch.len(), info, fuel);
    lemma_children_distinct(m, roots, next, h, ch.len(), info, fuel);
    let s = cu.push(info);
    assert(s == subtree(m, h, info, fuel));
    assert forall|j: int| 0 <= j < s.len() implies in_tree(m, h, (#[trigger] s[j]).handle.0, fuel) by {
        if j < cu.len() {
            assert(s[j] == cu[j]);
            assert(fuel > 0);
        }
    }
    assert forall|a: int, b: int| 0 <= a < b < s.len() implies #[trigger] s[a].handle != #[trigger] s[b].handle by {
        assert(s[a] == cu[a]);
        if b < cu.len() {
            assert(s[b] == cu[b]);
        } else {
            assert(fuel > 0);
            let q = lemma_pick_child(m, ch, ch.len(), cu[a].handle.0, (fuel - 1) as nat);
            assert(m.contains_key(ch[q].0) && h < ch[q].0);
            lemma_in_tree_bounds(m, next, ch[q].0, cu[a].handle.0, (fuel - 1) as nat);
        }
    }
}

proof fn lemma_children_distinct(
    m: Map<usize, UiNode>,
    roots: Seq<Handle>,
    next: nat,
    h: usize,
    i: nat,
    info: NodeInfo,
    fuel: nat,
)
    requires
        forest_ok(m, next),
        unique_links(m, roots),
        m.contains_key(h),
        info.handle.0 == h,
        i <= m[h].children@.len(),
    ensures
        forall|j: int|
            0 <= j < children_upto(m, m[h].children@, i, info, fuel).len() ==> fuel > 0 && in_children(
                m,
                m[h].children@,
                i,
                (#[trigger] children_upto(m, m[h].children@, i, info, fuel)[j]).handle.0,
                (fuel - 1) as nat,
            ),
        distinct_handles(children_upto(m, m[h].children@, i, info, fuel)),
    decreases fuel, i,
{
    let ch = m[h].children@;
    if i == 0 || fuel == 0 || i > ch.len() {
    } else {
        lemma_children_distinct(m, roots, next, h, (i - 1) as nat, info, fuel);
        let c = ch[i - 1];
        assert(m.contains_key(c.0));
        let ci = child_info(m, c, info);
        let f = (fuel - 1) as nat;
        lemma_subtree_distinct(m, roots, next, c.0, ci, f);
        let prev = children_upto(m, ch, (i - 1) as nat, info, fuel);
        let sub = subtree(m, c.0, ci, f);
        let s = prev + sub;
        assert(children_upto(m, ch, i, info, fuel) == s);
        assert forall|j: int| 0 <= j < s.len() implies fuel > 0 && in_children(
            m,
            ch,
            i,
            (#[trigger] s[j]).handle.0,
            f,
        ) by {
            if j < prev.len() {
                assert(s[j] == prev[j]);
                let q = lemma_pick_child(m, ch, (i - 1) as nat, prev[j].handle.0, f);
                lemma_child_in_children(m, ch, i, q, s[j].handle.0, f);
            } else {
                assert(s[j] == sub[j - prev.len()]);
                lemma_child_in_children(m, ch, i, i - 1, s[j].handle.0, f);
            }
        }
        assert forall|a: int, b: int| 0 <= a < b < s.len() implies #[trigger] s[a].handle
            != #[trigger] s[b].handle by {
            if b < prev.len() {
                assert(s[a] == prev[a] && s[b] == prev[b]);
            } else if a >= prev.len() {
                assert(s[a] == sub[a - prev.len()] && s[b] == sub[b - prev.len()]);
            } else {
                assert(s[a] == prev[a] && s[b] == sub[b - prev.len()]);
                let x = prev[a].handle.0;
                let q = lemma_pick_child(m, ch, (i - 1) as nat, x, f);
                if s[a].handle == s[b].handle {
                    lemma_sibling_trees_disjoint(m, roots, next, h, q, i - 1, x, f, f);
                }
            }
        }
    }
}

proof fn lemma_forest_distinct(m: Map<usize, UiNode>, roots: Seq<Handle>, n: nat, screen: AbsRect, next: nat)
    requires
        forest_ok(m, next),
        unique_links(m, roots),
        forall|i: int| 0 <= i < roots.len() ==> m.contains_key((#[trigger] roots[i]).0),
        n <= roots.len(),
    ensures
        forall|j: int|
            0 <= j < forest(m, roots, n, screen, next).0.len() ==> in_children(
                m,
                roots,
                n,
                (#[trigger] forest(m, roots, n, screen, next).0[j]).handle.0,
                next,
            ),
        distinct_handles(forest(m, roots, n, screen, next).0),
        forall|r: int| 0 <= r < n ==> #[trigger] recorded(forest(m, roots, n, screen, next).0, roots[r]),
    decreases n,
{
    if n > 0 {
        let k = (n - 1) as nat;
        lemma_forest_distinct(m, roots, k, screen, next);
        let prev = forest(m, roots, k, screen, next).0;
        let base = forest(m, roots, k, screen, next).1;
        let r = roots[k as int];
        assert(m.contains_key(r.0));
        let info = root_info(m, r, base as u64, screen);
        lemma_subtree_distinct(m, roots, next, r.0, info, next);
        lemma_subtree_last(m, r.0, info, next);
        let sub = subtree(m, r.0, info, next);
        let s = prev + sub;
        assert(forest(m, roots, n, screen, next).0 == s);
        assert forall|j: int| 0 <= j < s.len() implies in_children(m, roots, n, (#[trigger] s[j]).handle.0, next) by {
            if j < prev.len() {
                assert(s[j] == prev[j]);
                let q = lemma_pick_child(m, roots, k, prev[j].handle.0, next);
                lemma_child_in_children(m, roots, n, q, s[j].handle.0, next);
            } else {
                assert(s[j] == sub[j - prev.len()]);
                lemma_child_in_children(m, roots, n, k as int, s[j].handle.0, next);
            }
        }
        assert forall|a: int, b: int| 0 <= a < b < s.len() implies #[trigger] s[a].handle
            != #[trigger] s[b].handle by {
            if b < prev.len() {
                assert(s[a] == prev[a] && s[b] == prev[b]);
            } else if a >= prev.len() {
                assert(s[a] == sub[a - prev.len()] && s[b] == sub[b - prev.len()]);
            } else {
                assert(s[a] == prev[a] && s[b] == sub[b - prev.len()]);
                let x = prev[a].handle.0;
                let q = lemma_pick_child(m, roots, k, x, next);
                if s[a].handle == s[b].handle {
                    lemma_root_trees_disjoint(m, roots, next, q, k as int, x, next, next);
                }
            }
        }
        assert forall|q: int| 0 <= q < n implies #[trigger] recorded(s, roots[q]) by {
            if q < k {
                assert(recorded(prev, roots[q]));
                let z = choose|z: int| 0 <= z < prev.len() && #[trigger] prev[z].handle == roots[q];
                assert(s[z] == prev[z]);
            } else {
                let z = prev.len() + sub.len() - 1;
                assert(s[z] == sub[sub.len() - 1]);
            }
        }
    }
}

/// The walk records every node of the forest exactly once: no two records
/// are of the same node, every root is recorded, and every child of a
/// recorded node is recorded, before it.
pub proof fn lemma_walk_exactly_once(ui: &Ui, width: i32, height: i32)
    requires
        ui.wf(),
    ensures
        ({
            let w = walk_result(ui.nodes(), ui.roots(), ui.next_id(), width, height);
            &&& distinct_handles(w)
            &&& forall|r: int| 0 <= r < ui.roots().len() ==> #[trigger] recorded(w, ui.roots()[r])
            &&& forall|j: int| 0 <= j < w.len() ==> #[trigger] children_before(ui.nodes(), w, j)
        }),
{
    ui.lemma_wf();
    let m = ui.nodes();
    let roots = ui.roots();
    let screen = screen_rect(width, height);
    lemma_forest_distinct(m, roots, roots.len(), screen, ui.next_id());
    lemma_forest_order(m, roots, roots.len(), screen, ui.next_id());
}

proof fn lemma_descendants_before(m: Map<usize, UiNode>, next: nat, w: Seq<NodeInfo>, i: int, x: usize, fuel: nat)
    requires
        forest_ok(m, next),
        0 <= i < w.len(),
        forall|j: int| 0 <= j < w.len() ==> m.contains_key((#[trigger] w[j]).handle.0),
        forall|j: int| 0 <= j < w.len() ==> #[trigger] children_before(m, w, j),
        in_tree(m, w[i].handle.0, x, fuel),
        x != w[i].handle.0,
    ensures
        recorded_before(w, i, Handle(x)),
    decreases fuel,
{
    let h = w[i].handle.0;
    assert(m.contains_key(h));
    let ch = m[h].children@;
    let q = lemma_pick_child(m, ch, ch.len(), x, (fuel - 1) as nat);
    let c = ch[q];
    assert(children_before(m, w, i));
    assert(recorded_before(w, i, c));
    let k = choose|k: int| 0 <= k < i && #[trigger] w[k].handle == c;
    if c.0 != x {
        lemma_descendants_before(m, next, w, k, x, (fuel - 1) as nat);
        let k2 = choose|k2: int| 0 <= k2 < k && #[trigger] w[k2].handle == Handle(x);
        assert(w[k2].handle == Handle(x));
    } else {
        assert(w[k].handle == Handle(x));
    }
}

/// Every node in the tree under a recorded node, other than that node
/// itself, has a record earlier in the walk.
pub proof fn lemma_walk_descendants_first(ui: &Ui, width: i32, height: i32, i: int, x: usize, fuel: nat)
    requires
        ui.wf(),
        0 <= i < walk_result(ui.nodes(), ui.roots(), ui.next_id(), width, height).len(),
        in_tree(ui.nodes(), walk_result(ui.nodes(), ui.roots(), ui.next_id(), width, height)[i].handle.0, x, fuel),
        x != walk_result(ui.nodes(), ui.roots(), ui.next_id(), width, height)[i].handle.0,
    ensures
        recorded_before(walk_result(ui.nodes(), ui.roots(), ui.next_id(), width, height), i, Handle(x)),
{
    ui.lemma_wf();
    let m = ui.nodes();
    let roots = ui.roots();
    lemma_forest_order(m, roots, roots.len(), screen_rect(width, height), ui.next_id());
    lemma_descendants_before(
        m,
        ui.next_id(),
        walk_result(m, roots, ui.next_id(), width, height),
        i,
        x,
        fuel,
    );
}

/// The walk records a node exactly when it lies in the tree under one of
/// the roots.
pub proof fn lemma_walk_covers_forest(ui: &Ui, width: i32, height: i32, x: usize)
    ensures
        ui.wf() ==> (recorded(walk_result(ui.nodes(), ui.roots(), ui.next_id(), width, height), Handle(x))
            <==> in_children(ui.nodes(), ui.roots(), ui.roots().len(), x, ui.next_id())),
{
    if ui.wf() {
        ui.lemma_wf();
        let m = ui.nodes();
        let roots = ui.roots();
        let next = ui.next_id();
        let screen = screen_rect(width, height);
        let w = walk_result(m, roots, next, width, height);
        lemma_forest_distinct(m, roots, roots.len(), screen, next);
        lemma_forest_order(m, roots, roots.len(), screen, next);
        if recorded(w, Handle(x)) {
            let k = choose|k: int| 0 <= k < w.len() && #[trigger] w[k].handle == Handle(x);
            assert(in_children(m, roots, roots.len(), w[k].handle.0, next));
        }
        if in_children(m, roots, roots.len(), x, next) {
            let q = lemma_pick_child(m, roots, roots.len(), x, next);
            assert(recorded(w, roots[q]));
            let i = choose|i: int| 0 <= i < w.len() && #[trigger] w[i].handle == roots[q];
            if x != roots[q].0 {
                lemma_descendants_before(m, next, w, i, x, next);
                let k = choose|k: int| 0 <= k < i && #[trigger] w[k].handle == Handle(x);
                assert(w[k].handle == Handle(x));
            } else {
                assert(w[i].handle == Handle(x));
            }
        }
    }
}

/// A walk's records handed out one at a time, each with the content its
/// node holds when it is handed out.
pub struct Walker {
    pub nodes: Vec<NodeInfo>,
    pub cur: usize,
}

impl Walker {
    pub fn new(nodes: Vec<NodeInfo>) -> (r: Walker)
        ensures
            r.nodes@ == nodes@,
            r.cur == 0,
    {
        Walker { nodes, cur: 0 }
    }

    /// The next record and the current content of its node, or nothing
    /// once every record has been handed out. A record whose node is gone
    /// is handed out without content.
    pub fn next(&mut self, ui: &Ui) -> (r: Option<(NodeInfo, Option<UiElement>)>)
        ensures
            final(self).nodes@ == old(self).nodes@,
            old(self).cur < old(self).nodes@.len() ==> {
                let info = old(self).nodes@[old(self).cur as int];
                &&& final(self).cur == old(self).cur + 1
                &&& r == Some(
                    (
                        info,
                        if ui.nodes().contains_key(info.handle.0) {
                            Some(ui.nodes()[info.handle.0].element)
                        } else {
                            None
                        },
                    ),
                )
            },
            old(self).cur >= old(self).nodes@.len() ==> r is None && final(self).cur == old(self).cur,
    {
        if self.cur >= self.nodes.len() {
            return None;
        }
        let info = self.nodes[self.cur];
        self.cur = self.cur + 1;
        Some((info, ui.get_element(info.handle)))
    }
}

fn walktree(ui: &Ui, node: &UiNode, info: NodeInfo, out: &mut Vec<NodeInfo>, Ghost(fuel): Ghost<nat>)
    requires
        ui.wf(),
        ui.nodes().contains_key(info.handle.0),
        *node == ui.nodes()[info.handle.0],
        fuel >= ui.next_id() - info.handle.0,
        info.rect.wf(),
        info.depth + ui.next_id() - info.handle.0 <= u64::MAX,
    ensures
        final(out)@ == old(out)@ + subtree(ui.nodes(), info.handle.0, info, fuel),
    decreases fuel,
{
    let ghost m = ui.nodes();
    let ghost h = info.handle.0;
    let ghost start = out@;
    proof {
        ui.lemma_wf();
    }
    let down = mul_alpha(info.alpha, node.element.get_child_alpha());
    let mut i: usize = 0;
    while i < node.children.len()
        invariant
            down == inherited_alpha(m, info),
            ui.wf(),
            forest_ok(m, ui.next_id()),
            m == ui.nodes(),
            m.contains_key(h),
            h == info.handle.0,
            *node == m[h],
            fuel >= ui.next_id() - h,
            info.rect.wf(),
            info.depth + ui.next_id() - h <= u64::MAX,
            0 <= i <= node.children@.len(),
            out@ == start + children_upto(m, node.children@, i as nat, info, fuel),
        decreases node.children.len() - i,
    {
        let c = node.children[i];
        assert(m[h].children@[i as int] == c);
        assert(h < c.0 && m.contains_key(c.0));
        let cnode = match table_get(&ui.map, c.0) {
            Some(n) => n,
            None => {
                proof {
                    ui.lemma_wf();
                }
                assert(false);
                return;
            },
        };
        let (rect, clip) = place(&cnode.element, &info.rect);
        proof {
            ui.lemma_wf();
        }
        let alpha = mul_alpha(down, cnode.element.get_alpha());
        let cinfo = NodeInfo { handle: c, rect, clip, depth: info.depth + 1, alpha };
        assert(cinfo == child_info(m, c, info));
        let ghost before = out@;
        walktree(ui, &cnode, cinfo, out, Ghost((fuel - 1) as nat));
        proof {
            assert(children_upto(m, node.children@, (i + 1) as nat, info, fuel) == children_upto(
                m,
                node.children@,
                i as nat,
                info,
                fuel,
            ) + subtree(m, c.0, cinfo, (fuel - 1) as nat));
            assert(out@ =~= start + children_upto(m, node.children@, (i + 1) as nat, info, fuel));
        }
        i = i + 1;
    }
    out.push(info);
    proof {
        assert(out@ =~= start + subtree(m, h, info, fuel));
    }
}

impl Ui {
    /// Walks every tree, roots in the order they were added, over a screen
    /// of the given size. Each node's rectangle is resolved against its
    /// parent's, its depth is one more than its parent's and its alpha is
    /// what its parent hands down times its own; a node comes after all of its
    /// descendants, and each root starts a band of depths past every depth
    /// of the roots before it.
    pub fn walk(&self, width: i32, height: i32) -> (r: Vec<NodeInfo>)
        requires
            self.wf(),
            0 <= width,
            0 <= height,
        ensures
            r@ == walk_result(self.nodes(), self.roots(), self.next_id(), width, height),
    {
        let screen = AbsRect { x: 0, y: 0, width, height };
        let ghost m = self.nodes();
        let ghost next = self.next_id();
        let ghost roots = self.roots();
        proof {
            self.lemma_wf();
        }
        let mut out: Vec<NodeInfo> = Vec::new();
        let mut maxdepth: u64 = 0;
        let mut ri: usize = 0;
        while ri < self.roots.len()
            invariant
                self.wf(),
                forest_ok(m, next),
                m == self.nodes(),
                m == crate::ui::arena::table_contents(self.map),
                next == self.next_id(),
                1 <= next <= crate::ui::arena::MAX_HANDLE + 1,
                roots == self.roots@,
                roots.len() < next,
                forall|i: int| 0 <= i < roots.len() ==> m.contains_key((#[trigger] roots[i]).0),
                screen == screen_rect(width, height),
                screen.wf(),
                0 <= ri <= roots.len(),
                forest(m, roots, ri as nat, screen, next) == (out@, maxdepth as int),
                maxdepth <= ri * next,
            decreases self.roots.len() - ri,
        {
            let r = self.roots[ri];
            assert(m.contains_key(r.0));
            let rnode = match table_get(&self.map, r.0) {
                Some(n) => n,
                None => {
                    assert(false);
                    return out;
                },
            };
            let (rect, clip) = place(&rnode.element, &screen);
            let rinfo = NodeInfo { handle: r, rect, clip, depth: maxdepth, alpha: rnode.element.get_alpha() };
            assert(rinfo == root_info(m, r, maxdepth, screen));
            assert(ri * next <= next * next) by (nonlinear_arith)
                requires
                    ri < next,
            ;
            assert(next * next <= 0x8000_0000 * 0x8000_0000) by (nonlinear_arith)
                requires
                    next <= 0x8000_0000,
            ;
            let ghost prev = out@;
            let start = out.len();
            walktree(self, &rnode, rinfo, &mut out, Ghost(next));
            let ghost sub = subtree(m, r.0, rinfo, next);
            proof {
                lemma_subtree_depths(m, next, r.0, rinfo, next);
                assert(out@ == prev + sub);
            }
            let mut k: usize = start;
            let mut md: u64 = maxdepth;
            while k < out.len()
                invariant
                    start == prev.len(),
                    rinfo.depth == maxdepth,
                    out@ == prev + sub,
                    start <= k <= out@.len(),
                    md == max_depth(out@.subrange(start as int, k as int), maxdepth as int),
                    maxdepth <= md <= maxdepth + next - 1 - r.0,
                    forall|j: int|
                        0 <= j < sub.len() ==> rinfo.depth <= (#[trigger] sub[j]).depth <= rinfo.depth
                            + next - 1 - r.0,
                decreases out.len() - k,
            {
                assert(out@[k as int] == sub[k - start]);
                assert(sub[k - start].depth <= rinfo.depth + next - 1 - r.0);
                assert(out@.subrange(start as int, k + 1).drop_last() =~= out@.subrange(
                    start as int,
                    k as int,
                ));
                if out[k].depth > md {
                    md = out[k].depth;
                }
                k = k + 1;
            }
            proof {
                assert(out@.subrange(start as int, k as int) =~= sub);
                assert((ri + 1) * next == ri * next + next) by (nonlinear_arith);
            }
            maxdepth = md + 1;
            ri = ri + 1;
        }
        out
    }
}

} // verus!
