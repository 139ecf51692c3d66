use vstd::prelude::*;

use crate::shape::Shape;

verus! {

/// One node of the scene tree, stored in the arena of a [`State`].
///
/// `T` and `C` are the caller's transform and colour payloads; the library
/// carries them and only asks whether they are present.
pub struct Node<T, C> {
    /// The node's own transform; `None` means no change at all.
    pub transform: Option<T>,
    /// The node's own colour; `None` means "inherit from the ancestor".
    pub color: Option<C>,
    /// Handles of the child nodes, in insertion order.
    pub children: Vec<usize>,
    /// Indices into the shape table, in insertion order.
    pub shapes: Vec<usize>,
    /// Handle of the parent node; `None` only for the root.
    pub parent: Option<usize>,
}

/// The shape table and the scene tree of one frame.
///
/// Nodes live in an arena addressed by handles; the root has handle 0 and
/// every other node is stored after its parent.
#[verifier::reject_recursive_types(T)]
#[verifier::reject_recursive_types(C)]
#[verifier::reject_recursive_types(P)]
pub struct State<T, C, P> {
    pub(crate) shapes: Vec<Shape<P>>,
    pub(crate) nodes: Vec<Node<T, C>>,
}

impl<T, C, P> State<T, C, P> {
    /// The arena of nodes, indexed by handle.
    pub open(crate) spec fn spec_nodes(&self) -> Seq<Node<T, C>> {
        self.nodes@
    }

    /// The shape table, indexed by shape index.
    pub open(crate) spec fn spec_shapes(&self) -> Seq<Shape<P>> {
        self.shapes@
    }

    /// Handle of the parent of node `h` (the root's is reported as 0).
    pub open spec fn parent_of(&self, h: int) -> int {
        match self.spec_nodes()[h].parent {
            Some(p) => p as int,
            None => 0,
        }
    }

    /// The tree shape: the root has no parent, every other node has a parent
    /// stored before it, and each node's child list holds exactly the nodes
    /// that name it as parent, in increasing handle order. Nodes are stored
    /// in depth-first pre-order: the parent of each node lies on the root
    /// path of the node stored just before it.
    pub open spec fn wf(&self) -> bool {
        let nodes = self.spec_nodes();
        &&& nodes.len() >= 1
        &&& nodes[0].parent is None
        &&& forall|h: int| 0 < h < nodes.len() ==> ((#[trigger] nodes[h].parent) matches Some(p) && p < h)
        &&& forall|p: int, i: int|
            0 <= p < nodes.len() && 0 <= i < nodes[p].children@.len() ==> {
                let c = #[trigger] nodes[p].children@[i];
                0 < c < nodes.len() && nodes[c as int].parent == Some(p as usize)
            }
        &&& forall|p: int, i: int, j: int|
            0 <= p < nodes.len() && 0 <= i < j < nodes[p].children@.len()
                ==> #[trigger] nodes[p].children@[i] < #[trigger] nodes[p].children@[j]
        &&& forall|h: int|
            0 < h < nodes.len() ==> nodes[self.parent_of(h)].children@.contains(h as usize)
        &&& forall|h: int| 0 < h < nodes.len() ==> self.is_ancestor(#[trigger] self.parent_of(h), h - 1)
    }

    /// Whether `a` lies on the path from the root to `h` (`h` included).
    pub open spec fn is_ancestor(&self, a: int, h: int) -> bool
        decreases h,
    {
        if a == h {
            true
        } else if 0 < h < self.spec_nodes().len() && self.parent_of(h) < h {
            self.is_ancestor(a, self.parent_of(h))
        } else {
            false
        }
    }

    /// The node whose explicit colour node `h` shows: `h` itself if it has
    /// one, else what its parent shows; `None` means the global default.
    pub open spec fn color_source(&self, h: int) -> Option<usize>
        decreases h,
    {
        if self.spec_nodes()[h].color is Some {
            Some(h as usize)
        } else if 0 < h < self.spec_nodes().len() && self.parent_of(h) < h {
            self.color_source(self.parent_of(h))
        } else {
            None
        }
    }

    /// A tree holding only the root, and no shapes.
    pub fn new() -> (r: Self)
        ensures
            r.wf(),
            r.spec_shapes().len() == 0,
            r.spec_nodes().len() == 1,
            r.spec_nodes()[0].transform is None,
            r.spec_nodes()[0].color is None,
            r.spec_nodes()[0].children@.len() == 0,
            r.spec_nodes()[0].shapes@.len() == 0,
    {
        let root = Node {
            transform: None,
            color: None,
            children: Vec::new(),
            shapes: Vec::new(),
            parent: None,
        };
        State { shapes: Vec::new(), nodes: vec![root] }
    }

    /// Number of nodes, the root included.
    pub fn node_count(&self) -> (r: usize)
        ensures
            r == self.spec_nodes().len(),
    {
        self.nodes.len()
    }

    /// Number of entries of the shape table.
    pub fn shape_count(&self) -> (r: usize)
        ensures
            r == self.spec_shapes().len(),
    {
        self.shapes.len()
    }

    /// The node with handle `h`.
    pub fn node(&self, h: usize) -> (r: &Node<T, C>)
        requires
            h < self.spec_nodes().len(),
        ensures
            *r == self.spec_nodes()[h as int],
    {
        &self.nodes[h]
    }

    /// The shape with index `i`.
    pub fn shape(&self, i: usize) -> (r: &Shape<P>)
        requires
            i < self.spec_shapes().len(),
        ensures
            *r == self.spec_shapes()[i as int],
    {
        &self.shapes[i]
    }
}

impl<T, C, P> State<T, C, P> {
    /// Appends a new node as the last child of `parent` and returns its
    /// handle.
    pub(crate) fn add_child(&mut self, parent: usize, transform: Option<T>, color: Option<C>) -> (h: usize)
        requires
            old(self).wf(),
            parent < old(self).spec_nodes().len(),
            old(self).is_ancestor(parent as int, old(self).spec_nodes().len() - 1),
        ensures
            final(self).wf(),
            h == old(self).spec_nodes().len(),
            forall|a: int, x: int| 0 <= x < h ==> #[trigger] final(self).is_ancestor(a, x) == old(self).is_ancestor(a, x),
            final(self).spec_shapes() == old(self).spec_shapes(),
            final(self).spec_nodes().len() == h + 1,
            forall|i: int| 0 <= i < h && i != parent ==> final(self).spec_nodes()[i] == old(self).spec_nodes()[i],
            final(self).spec_nodes()[parent as int].children@ == old(self).spec_nodes()[parent as int].children@.push(h),
            final(self).spec_nodes()[parent as int].shapes == old(self).spec_nodes()[parent as int].shapes,
            final(self).spec_nodes()[parent as int].transform == old(self).spec_nodes()[parent as int].transform,
            final(self).spec_nodes()[parent as int].color == old(self).spec_nodes()[parent as int].color,
            final(self).spec_nodes()[parent as int].parent == old(self).spec_nodes()[parent as int].parent,
            final(self).spec_nodes()[h as int].transform == transform,
            final(self).spec_nodes()[h as int].color == color,
            final(self).spec_nodes()[h as int].children@.len() == 0,
            final(self).spec_nodes()[h as int].shapes@.len() == 0,
            final(self).spec_nodes()[h as int].parent == Some(parent),
    {
        let h = self.nodes.len();
        let node = Node { transform, color, children: Vec::new(), shapes: Vec::new(), parent: Some(parent) };
        self.nodes.push(node);
        self.nodes[parent].children.push(h);
        proof {
            let nodes = self.nodes@;
            let old_nodes = old(self).nodes@;
            assert forall|q: int, i: int|
                0 <= q < nodes.len() && 0 <= i < nodes[q].children@.len() implies {
                    let c = #[trigger] nodes[q].children@[i];
                    0 < c < nodes.len() && nodes[c as int].parent == Some(q as usize)
                } by {
                if q != parent || i < old_nodes[q].children@.len() {
                    assert(nodes[q].children@[i] == old_nodes[q].children@[i]);
                }
            }
            assert forall|q: int, i: int, j: int|
                0 <= q < nodes.len() && 0 <= i < j < nodes[q].children@.len()
                    implies #[trigger] nodes[q].children@[i] < #[trigger] nodes[q].children@[j] by {
                if q == parent && j == old_nodes[q].children@.len() {
                    assert(old_nodes[q].children@[i] < h);
                }
            }
            assert forall|c: int| 0 < c < nodes.len()
                implies nodes[self.parent_of(c)].children@.contains(c as usize) by {
                if c < h {
                    assert(nodes[c].parent == old_nodes[c].parent);
                    let q = self.parent_of(c);
                    assert(q == old(self).parent_of(c));
                    assert(old_nodes[q].children@.contains(c as usize));
                    if q == parent {
                        let k = choose|k: int| 0 <= k < old_nodes[q].children@.len() && old_nodes[q].children@[k] == c as usize;
                        assert(nodes[q].children@[k] == c as usize);
                    }
                } else {
                    assert(nodes[parent as int].children@[nodes[parent as int].children@.len() - 1] == h);
                }
            }
            assert forall|a: int, x: int| 0 <= x < h implies #[trigger] self.is_ancestor(a, x) == old(self).is_ancestor(a, x) by {
                lemma_ancestor_frame(*self, *old(self), a, x);
            }
            assert forall|c: int| 0 < c < nodes.len() implies self.is_ancestor(#[trigger] self.parent_of(c), c - 1) by {
                if c < h {
                    assert(nodes[c].parent == old_nodes[c].parent);
                    assert(self.parent_of(c) == old(self).parent_of(c));
                    lemma_ancestor_frame(*self, *old(self), self.parent_of(c), c - 1);
                } else {
                    lemma_ancestor_frame(*self, *old(self), parent as int, c - 1);
                }
            }
        }
        h
    }

    /// Appends `shape` to the shape table and returns its index.
    pub(crate) fn add_shape(&mut self, shape: Shape<P>) -> (i: usize)
        ensures
            i == old(self).spec_shapes().len(),
            final(self).spec_shapes() == old(self).spec_shapes().push(shape),
            final(self).spec_nodes() == old(self).spec_nodes(),
            old(self).wf() ==> final(self).wf(),
            forall|a: int, x: int| #[trigger] final(self).is_ancestor(a, x) == old(self).is_ancestor(a, x),
    {
        self.shapes.push(shape);
        proof {
            assert forall|c: int| 0 < c < self.nodes@.len()
                implies #[trigger] self.parent_of(c) == old(self).parent_of(c) by {}
            assert forall|a: int, x: int| #[trigger] self.is_ancestor(a, x) == old(self).is_ancestor(a, x) by {
                if 0 <= x < self.nodes@.len() {
                    lemma_ancestor_frame(*self, *old(self), a, x);
                }
            }
        }
        self.shapes.len() - 1
    }

    /// Records a reference from node `h` to shape index `i`.
    pub(crate) fn attach(&mut self, h: usize, i: usize)
        requires
            old(self).wf(),
            h < old(self).spec_nodes().len(),
        ensures
            final(self).wf(),
            final(self).spec_shapes() == old(self).spec_shapes(),
            final(self).spec_nodes().len() == old(self).spec_nodes().len(),
            forall|j: int| 0 <= j < old(self).spec_nodes().len() && j != h ==> final(self).spec_nodes()[j] == old(self).spec_nodes()[j],
            final(self).spec_nodes()[h as int].shapes@ == old(self).spec_nodes()[h as int].shapes@.push(i),
            final(self).spec_nodes()[h as int].children == old(self).spec_nodes()[h as int].children,
            final(self).spec_nodes()[h as int].transform == old(self).spec_nodes()[h as int].transform,
            final(self).spec_nodes()[h as int].color == old(self).spec_nodes()[h as int].color,
            final(self).spec_nodes()[h as int].parent == old(self).spec_nodes()[h as int].parent,
            forall|a: int, x: int| #[trigger] final(self).is_ancestor(a, x) == old(self).is_ancestor(a, x),
    {
        self.nodes[h].shapes.push(i);
        proof {
            let nodes = self.nodes@;
            let old_nodes = old(self).nodes@;
            assert forall|q: int| 0 <= q < nodes.len() implies #[trigger] nodes[q].children == old_nodes[q].children by {}
            assert forall|q: int| 0 <= q < nodes.len() implies #[trigger] nodes[q].parent == old_nodes[q].parent by {}
            assert forall|c: int| 0 < c < nodes.len()
                implies nodes[self.parent_of(c)].children@.contains(c as usize) by {
                assert(nodes[c].parent == old_nodes[c].parent);
                assert(self.parent_of(c) == old(self).parent_of(c));
                assert(nodes[self.parent_of(c)].children == old_nodes[self.parent_of(c)].children);
            }
            assert forall|a: int, x: int| #[trigger] self.is_ancestor(a, x) == old(self).is_ancestor(a, x) by {
                if 0 <= x < nodes.len() {
                    lemma_ancestor_frame(*self, *old(self), a, x);
                }
            }
            assert forall|c: int| 0 < c < nodes.len() implies self.is_ancestor(#[trigger] self.parent_of(c), c - 1) by {
                assert(nodes[c].parent == old_nodes[c].parent);
                assert(self.parent_of(c) == old(self).parent_of(c));
            }
        }
    }
}

impl<T, C, P> State<T, C, P> {
    /// The handles on the path from the root down to `h`, root first.
    pub open spec fn path_to(&self, h: int) -> Seq<int>
        decreases h,
    {
        if 0 < h < self.spec_nodes().len() && self.parent_of(h) < h {
            self.path_to(self.parent_of(h)).push(h)
        } else {
            seq![h]
        }
    }

    /// An ancestor is stored no later than its descendants.
    pub(crate) proof fn lemma_ancestor_le(&self, a: int, h: int)
        requires
            self.is_ancestor(a, h),
        ensures
            a <= h,
        decreases h,
    {
        if a != h {
            self.lemma_ancestor_le(a, self.parent_of(h));
        }
    }
}

/// `is_ancestor` reads only the parent links up to its second argument.
proof fn lemma_ancestor_frame<T, C, P>(s1: State<T, C, P>, s2: State<T, C, P>, a: int, x: int)
    requires
        0 <= x < s1.nodes@.len(),
        x < s2.nodes@.len(),
        forall|i: int| 0 <= i <= x ==> #[trigger] s1.nodes@[i].parent == s2.nodes@[i].parent,
    ensures
        s1.is_ancestor(a, x) == s2.is_ancestor(a, x),
    decreases x,
{
    if a != x && 0 < x && s1.parent_of(x) < x {
        lemma_ancestor_frame(s1, s2, a, s1.parent_of(x));
    }
}

impl<T, C, P> State<T, C, P> {
    /// Being an ancestor is transitive.
    pub proof fn lemma_ancestor_trans(&self, a: int, b: int, c: int)
        requires
            self.is_ancestor(a, b),
            self.is_ancestor(b, c),
        ensures
            self.is_ancestor(a, c),
        decreases c,
    {
        if b != c {
            self.lemma_ancestor_trans(a, b, self.parent_of(c));
        }
    }

    /// Handle order is a depth-first pre-order: the subtree of each node
    /// occupies a contiguous range of handles that starts at the node, so
    /// every node stored between a node and one of its descendants lies in
    /// its subtree too.
    pub proof fn lemma_subtrees_contiguous(&self, a: int, c: int, b: int)
        requires
            self.wf(),
            0 <= a < c < b < self.spec_nodes().len(),
            self.is_ancestor(a, b),
        ensures
            self.is_ancestor(a, c),
        decreases b,
    {
        let p = self.parent_of(b);
        assert(self.is_ancestor(p, b - 1));
        assert(self.is_ancestor(a, p));
        self.lemma_ancestor_trans(a, p, b - 1);
        if c < b - 1 {
            self.lemma_subtrees_contiguous(a, c, b - 1);
        }
    }
}

} // verus!
