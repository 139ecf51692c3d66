use vstd::prelude::*;

use crate::shape::{Shape, Topology};
use crate::state::State;

verus! {

/// Size of the drawing surface, in pixels.
#[derive(Debug, Clone, Copy, PartialEq, Eq, Structural)]
pub struct Size {
    pub width: u32,
    pub height: u32,
}

/// What a drawing callback learns of the frame it draws.
#[derive(Debug, Clone, Copy)]
pub struct Frame {
    pub count: u32,
    pub size: (u32, u32),
}

/// The vertices of a mesh, gathered one by one.
#[verifier::reject_recursive_types(P)]
pub struct Mesh<P> {
    vertex: Vec<P>,
}

impl<P> Mesh<P> {
    /// The vertices gathered so far.
    pub closed spec fn spec_vertices(&self) -> Seq<P> {
        self.vertex@
    }

    /// A mesh without vertices.
    pub fn new() -> (r: Self)
        ensures
            r.spec_vertices().len() == 0,
    {
        Mesh { vertex: Vec::new() }
    }

    /// Appends one vertex.
    pub fn vertex(&mut self, v: P)
        ensures
            final(self).spec_vertices() == old(self).spec_vertices().push(v),
    {
        self.vertex.push(v);
    }

    /// The gathered vertices.
    pub fn into_vertices(self) -> (r: Vec<P>)
        ensures
            r@ == self.spec_vertices(),
    {
        self.vertex
    }
}

/// Number of sides of the polygon that stands for a circle.
pub const CIRCLE_SIDES: u32 = 80;

/// The builder of one frame's scene: a [`State`] and the path from the root
/// to the node that drawing calls currently add to.
#[verifier::reject_recursive_types(T)]
#[verifier::reject_recursive_types(C)]
#[verifier::reject_recursive_types(P)]
pub struct App<T, C, P> {
    state: State<T, C, P>,
    path: Vec<usize>,
    frame: u32,
    size: Size,
}

impl<T, C, P> App<T, C, P> {
    /// The scene built so far.
    pub closed spec fn spec_state(&self) -> State<T, C, P> {
        self.state
    }

    /// Handles of the open nodes, from the root to the current node.
    pub closed spec fn spec_path(&self) -> Seq<usize> {
        self.path@
    }

    /// Number of the frame being drawn.
    pub closed spec fn spec_frame(&self) -> u32 {
        self.frame
    }

    /// Size of the surface being drawn on.
    pub closed spec fn spec_size(&self) -> Size {
        self.size
    }

    /// The node that drawing calls add to.
    pub open spec fn current(&self) -> usize {
        self.spec_path().last()
    }

    /// The scene is a tree, the path runs from the root down through
    /// parent-child links, and the current node lies on the root path of the
    /// node created last, so that a new child keeps the nodes in pre-order.
    pub open spec fn wf(&self) -> bool {
        let nodes = self.spec_state().spec_nodes();
        let path = self.spec_path();
        &&& self.spec_state().wf()
        &&& path.len() >= 1
        &&& path[0] == 0
        &&& forall|i: int| 0 <= i < path.len() ==> #[trigger] path[i] < nodes.len()
        &&& forall|i: int| 0 < i < path.len() ==> nodes[#[trigger] path[i] as int].parent == Some(path[i - 1])
        &&& self.spec_state().is_ancestor(self.current() as int, nodes.len() - 1)
    }

    /// `self` is `before` with `shape` appended to the shape table and
    /// referenced from the current node; nothing else changed.
    pub open spec fn shape_added(&self, before: Self, shape: Shape<P>) -> bool {
        let i = before.spec_state().spec_shapes().len();
        let cur = before.current() as int;
        let old_nodes = before.spec_state().spec_nodes();
        let nodes = self.spec_state().spec_nodes();
        &&& self.spec_state().spec_shapes() == before.spec_state().spec_shapes().push(shape)
        &&& self.spec_path() == before.spec_path()
        &&& nodes.len() == old_nodes.len()
        &&& forall|j: int| 0 <= j < old_nodes.len() && j != cur ==> nodes[j] == old_nodes[j]
        &&& nodes[cur].shapes@ == old_nodes[cur].shapes@.push(i as usize)
        &&& nodes[cur].children == old_nodes[cur].children
        &&& nodes[cur].transform == old_nodes[cur].transform
        &&& nodes[cur].color == old_nodes[cur].color
        &&& nodes[cur].parent == old_nodes[cur].parent
        &&& self.spec_frame() == before.spec_frame()
        &&& self.spec_size() == before.spec_size()
    }

    /// A builder holding only the root, which is current.
    pub fn new(width: u32, height: u32) -> (r: Self)
        ensures
            r.wf(),
            r.current() == 0,
            r.spec_state().spec_nodes().len() == 1,
            r.spec_state().spec_shapes().len() == 0,
            r.spec_state().spec_nodes()[0].transform is None,
            r.spec_state().spec_nodes()[0].color is None,
            r.spec_state().spec_nodes()[0].shapes@.len() == 0,
            r.spec_state().spec_nodes()[0].children@.len() == 0,
            r.spec_frame() == 0,
            r.spec_size() == (Size { width, height }),
    {
        App { state: State::new(), path: vec![0], frame: 0, size: Size { width, height } }
    }

    /// Number of the frame being drawn.
    pub fn frame(&self) -> (r: u32)
        ensures
            r == self.spec_frame(),
    {
        self.frame
    }

    /// Sets the number of the frame being drawn.
    pub fn set_frame(&mut self, frame: u32)
        ensures
            final(self).spec_frame() == frame,
            final(self).spec_size() == old(self).spec_size(),
            final(self).spec_state() == old(self).spec_state(),
            final(self).spec_path() == old(self).spec_path(),
    {
        self.frame = frame;
    }

    /// Size of the surface being drawn on.
    pub fn size(&self) -> (r: Size)
        ensures
            r == self.spec_size(),
    {
        self.size
    }

    /// The scene built so far.
    pub fn state(&self) -> (r: &State<T, C, P>)
        requires
            self.wf(),
        ensures
            *r == self.spec_state(),
            r.wf(),
    {
        &self.state
    }

    /// The handle of the node that drawing calls add to.
    pub fn current_node(&self) -> (r: usize)
        requires
            self.wf(),
        ensures
            r == self.current(),
    {
        self.path[self.path.len() - 1]
    }

    /// Creates a child of the current node, with the given transform and
    /// colour, and makes it current. Returns its handle.
    pub fn push(&mut self, transform: Option<T>, color: Option<C>) -> (h: usize)
        requires
            old(self).wf(),
        ensures
            final(self).wf(),
            h == old(self).spec_state().spec_nodes().len(),
            final(self).current() == h,
            final(self).spec_path() == old(self).spec_path().push(h),
            final(self).spec_state().spec_shapes() == old(self).spec_state().spec_shapes(),
            final(self).spec_state().spec_nodes().len() == h + 1,
            final(self).spec_state().spec_nodes()[h as int].parent == Some(old(self).current()),
            final(self).spec_state().spec_nodes()[h as int].transform == transform,
            final(self).spec_state().spec_nodes()[h as int].color == color,
            final(self).spec_state().spec_nodes()[h as int].shapes@.len() == 0,
            final(self).spec_state().spec_nodes()[h as int].children@.len() == 0,
            final(self).spec_state().spec_nodes()[old(self).current() as int].children@
                == old(self).spec_state().spec_nodes()[old(self).current() as int].children@.push(h),
            final(self).spec_state().spec_nodes()[old(self).current() as int].shapes
                == old(self).spec_state().spec_nodes()[old(self).current() as int].shapes,
            final(self).spec_state().spec_nodes()[old(self).current() as int].transform
                == old(self).spec_state().spec_nodes()[old(self).current() as int].transform,
            final(self).spec_state().spec_nodes()[old(self).current() as int].color
                == old(self).spec_state().spec_nodes()[old(self).current() as int].color,
            final(self).spec_state().spec_nodes()[old(self).current() as int].parent
                == old(self).spec_state().spec_nodes()[old(self).current() as int].parent,
            forall|i: int| 0 <= i < h && i != old(self).current()
                ==> final(self).spec_state().spec_nodes()[i] == old(self).spec_state().spec_nodes()[i],
            final(self).spec_frame() == old(self).spec_frame(),
            final(self).spec_size() == old(self).spec_size(),
    {
        let parent = self.path[self.path.len() - 1];
        let h = self.state.add_child(parent, transform, color);
        self.path.push(h);
        proof {
            let nodes = self.state.spec_nodes();
            let path = self.path@;
            assert forall|i: int| 0 < i < path.len() implies nodes[#[trigger] path[i] as int].parent == Some(path[i - 1]) by {
                if i < path.len() - 1 {
                    assert(path[i] < h);
                    assert(path[i] != parent ==> nodes[path[i] as int] == old(self).state.spec_nodes()[path[i] as int]);
                }
            }
        }
        h
    }

    /// Makes the parent of the current node current; at the root, does
    /// nothing.
    pub fn pop(&mut self)
        requires
            old(self).wf(),
        ensures
            final(self).wf(),
            final(self).spec_state() == old(self).spec_state(),
            old(self).spec_path().len() > 1 ==> final(self).spec_path() == old(self).spec_path().drop_last(),
            old(self).spec_path().len() > 1 ==> final(self).spec_state().spec_nodes()[old(self).current() as int].parent
                == Some(final(self).current()),
            old(self).spec_path().len() == 1 ==> final(self).spec_path() == old(self).spec_path(),
            final(self).spec_frame() == old(self).spec_frame(),
            final(self).spec_size() == old(self).spec_size(),
    {
        if self.path.len() > 1 {
            let ghost cur = self.current() as int;
            self.path.pop();
            proof {
                let st = self.state;
                let path = old(self).path@;
                assert(path[path.len() - 1] as int == cur);
                assert(st.spec_nodes()[cur].parent == Some(path[path.len() - 2]));
                assert(cur != 0);
                assert(st.spec_nodes()[cur].parent matches Some(q) && q < cur);
                assert(st.is_ancestor(st.parent_of(cur), st.parent_of(cur)));
                assert(st.is_ancestor(st.parent_of(cur), cur));
                st.lemma_ancestor_trans(st.parent_of(cur), cur, st.spec_nodes().len() - 1);
            }
        }
    }

    /// Appends `shape` to the shape table and references it from the current
    /// node. Returns its index in the table.
    pub fn add_shape(&mut self, shape: Shape<P>) -> (i: usize)
        requires
            old(self).wf(),
        ensures
            final(self).wf(),
            i == old(self).spec_state().spec_shapes().len(),
            final(self).shape_added(*old(self), shape),
    {
        let h = self.path[self.path.len() - 1];
        let i = self.state.add_shape(shape);
        self.state.attach(h, i);
        i
    }

    /// References shape index `i` from the current node once more, sharing
    /// its geometry. The index is not checked here: flattening reports one
    /// outside the table.
    pub fn attach(&mut self, i: usize)
        requires
            old(self).wf(),
        ensures
            final(self).wf(),
            final(self).spec_state().spec_shapes() == old(self).spec_state().spec_shapes(),
            final(self).spec_path() == old(self).spec_path(),
            final(self).spec_state().spec_nodes().len() == old(self).spec_state().spec_nodes().len(),
            forall|j: int| 0 <= j < old(self).spec_state().spec_nodes().len() && j != old(self).current()
                ==> final(self).spec_state().spec_nodes()[j] == old(self).spec_state().spec_nodes()[j],
            final(self).spec_state().spec_nodes()[old(self).current() as int].shapes@
                == old(self).spec_state().spec_nodes()[old(self).current() as int].shapes@.push(i),
            final(self).spec_state().spec_nodes()[old(self).current() as int].children
                == old(self).spec_state().spec_nodes()[old(self).current() as int].children,
            final(self).spec_frame() == old(self).spec_frame(),
            final(self).spec_size() == old(self).spec_size(),
    {
        let h = self.path[self.path.len() - 1];
        self.state.attach(h, i);
    }

    /// Adds a triangle with corners `a`, `b`, `c` to the current node.
    pub fn triangle(&mut self, a: P, b: P, c: P)
        requires
            old(self).wf(),
        ensures
            final(self).wf(),
            final(self).shape_added(*old(self), Shape::Triangle(a, b, c)),
    {
        self.add_shape(Shape::Triangle(a, b, c));
    }

    /// Adds the unit square to the current node.
    pub fn square(&mut self)
        requires
            old(self).wf(),
        ensures
            final(self).wf(),
            final(self).shape_added(*old(self), Shape::Square),
    {
        self.add_shape(Shape::Square);
    }

    /// Adds a regular polygon with `n` sides to the current node.
    pub fn polygon(&mut self, n: u32)
        requires
            old(self).wf(),
        ensures
            final(self).wf(),
            final(self).shape_added(*old(self), Shape::Polygon(n)),
    {
        self.add_shape(Shape::Polygon(n));
    }

    /// Adds a circle, drawn as a polygon of [`CIRCLE_SIDES`] sides, to the
    /// current node.
    pub fn circle(&mut self)
        requires
            old(self).wf(),
        ensures
            final(self).wf(),
            final(self).shape_added(*old(self), Shape::Polygon(CIRCLE_SIDES)),
    {
        self.add_shape(Shape::Polygon(CIRCLE_SIDES));
    }

    /// Adds the vertices gathered in `mesh`, cut into triangles by
    /// `topology`, to the current node.
    pub fn mesh(&mut self, topology: Topology, mesh: Mesh<P>)
        requires
            old(self).wf(),
        ensures
            final(self).wf(),
            final(self).spec_state().spec_shapes().len() == old(self).spec_state().spec_shapes().len() + 1,
            final(self).spec_state().spec_shapes().last() matches Shape::Mesh(v, t)
                && v@ == mesh.spec_vertices() && t == topology,
            final(self).shape_added(*old(self), final(self).spec_state().spec_shapes().last()),
    {
        let vertices = mesh.into_vertices();
        self.add_shape(Shape::Mesh(vertices, topology));
    }
}

} // verus!
