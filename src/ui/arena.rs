//! The node arena: a handle-addressed store of nodes, the ordered list of
//! top-level nodes, and one dirty flag per kind of content.
use vstd::prelude::*;
use chashmap::CHashMap;
use crate::ui::element::{TextLine, UiElement};

verus! {

/// The largest handle the arena hands out.
pub const MAX_HANDLE: usize = 0x7fff_ffff;

#[verifier::external_type_specification]
#[verifier::external_body]
#[verifier::reject_recursive_types(K)]
#[verifier::reject_recursive_types(V)]
pub struct ExCHashMap<K, V>(CHashMap<K, V>);

/// What a node table holds, by handle number.
pub uninterp spec fn table_contents(m: CHashMap<usize, UiNode>) -> Map<usize, UiNode>;

/// Relies on `CHashMap::new`: a new map holds no entry.
#[verifier::external_body]
fn table_new() -> (r: CHashMap<usize, UiNode>)
    ensures
        table_contents(r).dom() =~= Set::empty(),
{
    CHashMap::new()
}

/// Relies on `CHashMap::get`: the value stored under `k`, if there is one,
/// copied out of the read guard.
#[verifier::external_body]
pub(crate) fn table_get(m: &CHashMap<usize, UiNode>, k: usize) -> (r: Option<UiNode>)
    ensures
        r == (if table_contents(*m).contains_key(k) {
            Some(table_contents(*m)[k])
        } else {
            None
        }),
{
    m.get(&k).map(|g| (*g).clone())
}

/// Relies on `CHashMap::insert`: afterwards `k` maps to `v` and every other
/// entry is as it was.
#[verifier::external_body]
fn table_insert(m: &mut CHashMap<usize, UiNode>, k: usize, v: UiNode)
    ensures
        table_contents(*final(m)) == table_contents(*old(m)).insert(k, v),
{
    let _ = m.insert(k, v);
}

/// Identifies a node for the lifetime of the arena.
#[derive(Debug, Clone, Copy, PartialEq, Eq, Hash, Structural)]
pub struct Handle(pub usize);

/// A node: its content and the handles of its children, in order.
#[derive(Debug, Clone)]
pub struct UiNode {
    pub element: UiElement,
    pub children: Vec<Handle>,
}

/// Which dirty flag a change to this content sets.
pub enum Category {
    Text,
    Window,
    Image,
}

pub open spec fn category(e: UiElement) -> Category {
    match e {
        UiElement::Text(_) => Category::Text,
        UiElement::Window(_) => Category::Window,
        UiElement::Image(_) => Category::Image,
    }
}

/// No node is linked twice: every child appears in one children list at one
/// place, the roots are distinct, and no root is anyone's child.
pub open spec fn unique_links(m: Map<usize, UiNode>, roots: Seq<Handle>) -> bool {
    &&& forall|k1: usize, i1: int, k2: usize, i2: int|
        m.contains_key(k1) && m.contains_key(k2) && 0 <= i1 < m[k1].children@.len() && 0 <= i2
            < m[k2].children@.len() && #[trigger] m[k1].children@[i1] == #[trigger] m[k2].children@[i2]
            ==> k1 == k2 && i1 == i2
    &&& forall|a: int, b: int|
        0 <= a < roots.len() && 0 <= b < roots.len() && #[trigger] roots[a] == #[trigger] roots[b] ==> a == b
    &&& forall|k: usize, i: int, a: int|
        m.contains_key(k) && 0 <= i < m[k].children@.len() && 0 <= a < roots.len() ==> #[trigger] m[k].children@[i]
            != #[trigger] roots[a]
}

/// The node arena. Nodes are kept in a concurrent hash map keyed by handle
/// number; every change goes through `&mut self`, so an arena shared between
/// threads sits behind one lock of its owner's choosing.
pub struct Ui {
    pub(crate) text_is_dirty: bool,
    pub(crate) win_is_dirty: bool,
    pub(crate) image_is_dirty: bool,
    pub(crate) map: CHashMap<usize, UiNode>,
    pub(crate) roots: Vec<Handle>,
    pub(crate) next_unused_id: usize,
}

/// Every node lies below `next`, and every child of a node is a node with a
/// larger handle than its parent's.
pub open spec fn forest_ok(m: Map<usize, UiNode>, next: nat) -> bool {
    &&& forall|k: usize| #[trigger] m.contains_key(k) ==> k < next
    &&& forall|k: usize, i: int|
        m.contains_key(k) && 0 <= i < m[k].children@.len() ==> k < (#[trigger] m[k].children@[i]).0
            && m.contains_key(m[k].children@[i].0)
}

impl Ui {
    /// The nodes, by handle number.
    pub closed spec fn nodes(&self) -> Map<usize, UiNode> {
        table_contents(self.map)
    }

    /// The top-level nodes, in the order they were added.
    pub closed spec fn roots(&self) -> Seq<Handle> {
        self.roots@
    }

    /// The handle number the next insertion will receive.
    pub closed spec fn next_id(&self) -> nat {
        self.next_unused_id as nat
    }

    pub closed spec fn text_dirty(&self) -> bool {
        self.text_is_dirty
    }

    pub closed spec fn win_dirty(&self) -> bool {
        self.win_is_dirty
    }

    pub closed spec fn image_dirty(&self) -> bool {
        self.image_is_dirty
    }

    /// The arena is a forest: every node is below the next handle, every
    /// child has a larger handle than its parent and is itself a node, and
    /// every root is a node.
    pub closed spec fn wf(&self) -> bool {
        &&& 1 <= self.next_unused_id <= MAX_HANDLE + 1
        &&& forest_ok(self.nodes(), self.next_id())
        &&& forall|i: int| 0 <= i < self.roots@.len() ==> self.nodes().contains_key((#[trigger] self.roots@[i]).0)
        &&& self.roots@.len() < self.next_unused_id
        &&& unique_links(self.nodes(), self.roots@)
    }

    /// What well-formedness gives to code outside this module.
    pub(crate) proof fn lemma_wf(&self)
        requires
            self.wf(),
        ensures
            forest_ok(self.nodes(), self.next_id()),
            1 <= self.next_id() <= MAX_HANDLE + 1,
            self.roots().len() < self.next_id(),
            unique_links(self.nodes(), self.roots()),
            forall|i: int| 0 <= i < self.roots().len() ==> self.nodes().contains_key(
                (#[trigger] self.roots()[i]).0,
            ),
            self.roots() == self.roots@,
            self.nodes() == table_contents(self.map),
    {
    }

    /// Only the flag of `c` differs between the two arenas, and it is set.
    pub open spec fn flags_after(&self, old: Ui, c: Category) -> bool {
        &&& self.text_dirty() == (old.text_dirty() || c is Text)
        &&& self.win_dirty() == (old.win_dirty() || c is Window)
        &&& self.image_dirty() == (old.image_dirty() || c is Image)
    }

    /// An empty arena; every dirty flag starts set so that the first frame
    /// is drawn.
    pub fn new() -> (r: Ui)
        ensures
            r.wf(),
            r.nodes() == Map::<usize, UiNode>::empty(),
            r.roots() == Seq::<Handle>::empty(),
            r.next_id() == 1,
            r.text_dirty() && r.win_dirty() && r.image_dirty(),
    {
        Ui {
            text_is_dirty: true,
            win_is_dirty: true,
            image_is_dirty: true,
            map: table_new(),
            roots: Vec::new(),
            next_unused_id: 1,
        }
    }

    /// Adds `element` as the last child of `parent`, or as the last root when
    /// there is no parent. Fails, changing nothing, when the parent is not a
    /// node or when every handle has been given out.
    pub fn add_element(&mut self, element: UiElement, parent: Option<Handle>) -> (r: Option<Handle>)
        requires
            old(self).wf(),
        ensures
            final(self).wf(),
            r is None <==> (old(self).next_id() > MAX_HANDLE || (parent is Some
                && !old(self).nodes().contains_key((parent->0).0))),
            r is None ==> *final(self) == *old(self),
            r matches Some(h) ==> {
                let n = final(self).nodes();
                let o = old(self).nodes();
                &&& h.0 == old(self).next_id()
                &&& final(self).next_id() == old(self).next_id() + 1
                &&& n[h.0].element == element
                &&& n[h.0].children@ == Seq::<Handle>::empty()
                &&& final(self).flags_after(*old(self), category(element))
                &&& match parent {
                    None => {
                        &&& final(self).roots() == old(self).roots().push(h)
                        &&& n == o.insert(h.0, n[h.0])
                    },
                    Some(p) => {
                        &&& final(self).roots() == old(self).roots()
                        &&& n == o.insert(p.0, n[p.0]).insert(h.0, n[h.0])
                        &&& n[p.0].element == o[p.0].element
                        &&& n[p.0].children@ == o[p.0].children@.push(h)
                    },
                }
            },
    {
        if self.next_unused_id > MAX_HANDLE {
            return None;
        }
        let new_id = Handle(self.next_unused_id);
        match parent {
            Some(p) => {
                let mut pnode = match table_get(&self.map, p.0) {
                    Some(n) => n,
                    None => {
                        return None;
                    },
                };
                pnode.children.push(new_id);
                table_insert(&mut self.map, p.0, pnode);
            },
            None => {
                self.roots.push(new_id);
            },
        }
        match element {
            UiElement::Text(_) => self.text_is_dirty = true,
            UiElement::Window(_) => self.win_is_dirty = true,
            UiElement::Image(_) => self.image_is_dirty = true,
        }
        table_insert(&mut self.map, new_id.0, UiNode { element, children: Vec::new() });
        self.next_unused_id = self.next_unused_id + 1;
        proof {
            let m = self.nodes();
            assert forall|k: usize, i: int|
                m.contains_key(k) && 0 <= i < m[k].children@.len() implies k < (
                #[trigger] m[k].children@[i]).0 && m.contains_key(m[k].children@[i].0) by {
                if k != new_id.0 && (parent is None || k != (parent->0).0) {
                    assert(old(self).nodes().contains_key(k));
                }
            }
            assert forall|i: int| 0 <= i < self.roots@.len() implies m.contains_key(
                (#[trigger] self.roots@[i]).0) by {
                if i < old(self).roots@.len() {
                    assert(old(self).roots@[i] == self.roots@[i]);
                }
            }
        }
        Some(new_id)
    }

    /// Applies `update` to the content of node `id`, or, when there is no such
    /// node, stores the content made by `insert` under `id`, with no children
    /// and outside the tree. Handles up to `id` are then never given out
    /// again. Always sets the text flag.
    pub fn upsert<I, U>(&mut self, id: Handle, insert: I, update: U)
        where
            I: FnOnce() -> UiElement,
            U: FnOnce(UiElement) -> UiElement,
        requires
            old(self).wf(),
            id.0 <= MAX_HANDLE,
            old(self).nodes().contains_key(id.0) ==> update.requires(
                (old(self).nodes()[id.0].element,),
            ),
            !old(self).nodes().contains_key(id.0) ==> insert.requires(()),
        ensures
            final(self).wf(),
            final(self).roots() == old(self).roots(),
            final(self).flags_after(*old(self), Category::Text),
            old(self).nodes().contains_key(id.0) ==> {
                &&& final(self).nodes() == old(self).nodes().insert(id.0, final(self).nodes()[id.0])
                &&& update.ensures(
                    (old(self).nodes()[id.0].element,),
                    final(self).nodes()[id.0].element,
                )
                &&& final(self).nodes()[id.0].children@ == old(self).nodes()[id.0].children@
                &&& final(self).next_id() == old(self).next_id()
            },
            !old(self).nodes().contains_key(id.0) ==> {
                &&& final(self).nodes() == old(self).nodes().insert(id.0, final(self).nodes()[id.0])
                &&& insert.ensures((), final(self).nodes()[id.0].element)
                &&& final(self).nodes()[id.0].children@ == Seq::<Handle>::empty()
                &&& final(self).next_id() == if id.0 < old(self).next_id() {
                    old(self).next_id() as int
                } else {
                    id.0 + 1
                }
            },
    {
        match table_get(&self.map, id.0) {
            Some(node) => {
                let UiNode { element, children } = node;
                let element = update(element);
                table_insert(&mut self.map, id.0, UiNode { element, children });
            },
            None => {
                let element = insert();
                table_insert(&mut self.map, id.0, UiNode { element, children: Vec::new() });
                if id.0 >= self.next_unused_id {
                    self.next_unused_id = id.0 + 1;
                }
            },
        }
        self.text_is_dirty = true;
        proof {
            let m = self.nodes();
            assert forall|k: usize, i: int|
                m.contains_key(k) && 0 <= i < m[k].children@.len() implies k < (
                #[trigger] m[k].children@[i]).0 && m.contains_key(m[k].children@[i].0) by {
                if k != id.0 {
                    assert(old(self).nodes().contains_key(k));
                }
            }
        }
    }

    /// Replaces the string of text node `id`. Returns false, changing
    /// nothing, when `id` is not a node or not a text node.
    pub fn set_text(&mut self, id: Handle, text: String) -> (r: bool)
        requires
            old(self).wf(),
        ensures
            final(self).wf(),
            r == (old(self).nodes().contains_key(id.0) && old(self).nodes()[id.0].element is Text),
            !r ==> *final(self) == *old(self),
            r ==> {
                let n = final(self).nodes();
                let o = old(self).nodes();
                &&& n == o.insert(id.0, n[id.0])
                &&& n[id.0].children@ == o[id.0].children@
                &&& n[id.0].element == UiElement::Text(
                    TextLine { text: text, ..o[id.0].element->Text_0 },
                )
                &&& final(self).roots() == old(self).roots()
                &&& final(self).next_id() == old(self).next_id()
                &&& final(self).flags_after(*old(self), Category::Text)
            },
    {
        let node = match table_get(&self.map, id.0) {
            Some(n) => n,
            None => {
                return false;
            },
        };
        let UiNode { element, children } = node;
        match element {
            UiElement::Text(line) => {
                let line = TextLine { text, ..line };
                table_insert(&mut self.map, id.0, UiNode { element: UiElement::Text(line), children });
                self.text_is_dirty = true;
                proof {
                    let m = self.nodes();
                    assert forall|k: usize, i: int|
                        m.contains_key(k) && 0 <= i < m[k].children@.len() implies k < (
                        #[trigger] m[k].children@[i]).0 && m.contains_key(m[k].children@[i].0) by {
                        if k != id.0 {
                            assert(old(self).nodes().contains_key(k));
                        }
                    }
                }
                true
            },
            _ => false,
        }
    }

    /// A copy of the current content of node `id`.
    pub fn get_element(&self, id: Handle) -> (r: Option<UiElement>)
        ensures
            r == (if self.nodes().contains_key(id.0) {
                Some(self.nodes()[id.0].element)
            } else {
                None
            }),
    {
        match table_get(&self.map, id.0) {
            Some(n) => Some(n.element),
            None => None,
        }
    }

    /// The children of node `id`, in order.
    pub fn get_children(&self, id: Handle) -> (r: Option<Vec<Handle>>)
        ensures
            match r {
                Some(c) => self.nodes().contains_key(id.0) && c@ == self.nodes()[id.0].children@,
                None => !self.nodes().contains_key(id.0),
            },
    {
        match table_get(&self.map, id.0) {
            Some(n) => Some(n.children),
            None => None,
        }
    }

    /// The handle number the next insertion will receive.
    pub fn next_handle(&self) -> (r: usize)
        ensures
            r == self.next_id(),
    {
        self.next_unused_id
    }

    pub fn is_text_dirty(&self) -> (r: bool)
        ensures
            r == self.text_dirty(),
    {
        self.text_is_dirty
    }

    pub fn is_win_dirty(&self) -> (r: bool)
        ensures
            r == self.win_dirty(),
    {
        self.win_is_dirty
    }

    pub fn is_image_dirty(&self) -> (r: bool)
        ensures
            r == self.image_dirty(),
    {
        self.image_is_dirty
    }

    pub fn clear_text_dirty(&mut self)
        ensures
            final(self).nodes() == old(self).nodes(),
            final(self).roots() == old(self).roots(),
            final(self).next_id() == old(self).next_id(),
            !final(self).text_dirty(),
            final(self).win_dirty() == old(self).win_dirty(),
            final(self).image_dirty() == old(self).image_dirty(),
            old(self).wf() ==> final(self).wf(),
    {
        self.text_is_dirty = false;
    }

    pub fn clear_win_dirty(&mut self)
        ensures
            final(self).nodes() == old(self).nodes(),
            final(self).roots() == old(self).roots(),
            final(self).next_id() == old(self).next_id(),
            !final(self).win_dirty(),
            final(self).text_dirty() == old(self).text_dirty(),
            final(self).image_dirty() == old(self).image_dirty(),
            old(self).wf() ==> final(self).wf(),
    {
        self.win_is_dirty = false;
    }

    pub fn clear_image_dirty(&mut self)
        ensures
            final(self).nodes() == old(self).nodes(),
            final(self).roots() == old(self).roots(),
            final(self).next_id() == old(self).next_id(),
            !final(self).image_dirty(),
            final(self).text_dirty() == old(self).text_dirty(),
            final(self).win_dirty() == old(self).win_dirty(),
            old(self).wf() ==> final(self).wf(),
    {
        self.image_is_dirty = false;
    }
}

} // verus!
