use vstd::prelude::*;

use crate::error::SceneError;

verus! {

/// How an ordered vertex sequence is cut into triangles.
#[derive(Debug, Clone, Copy, PartialEq, Eq, Structural)]
pub enum Topology {
    /// Every three consecutive vertices form a triangle.
    TriangleList,
    /// Every vertex after the first two forms a triangle with its two
    /// predecessors.
    TriangleStrip,
}

/// A primitive shape. `P` is the caller's point type; the library never
/// reads a point, it only counts them.
#[verifier::reject_recursive_types(P)]
pub enum Shape<P> {
    Triangle(P, P, P),
    Square,
    Polygon(u32),
    Mesh(Vec<P>, Topology),
}

/// The `k`-th entry of a fan triangulation around vertex 0:
/// triangle `i` is `{0, i + 1, i + 2}`.
pub open spec fn fan_entry(k: int) -> u32 {
    if k % 3 == 0 {
        0
    } else {
        (k / 3 + k % 3) as u32
    }
}

/// The `k`-th entry of a strip triangulation: triangle `i` is
/// `{i, i + 1, i + 2}`.
pub open spec fn strip_entry(k: int) -> u32 {
    (k / 3 + k % 3) as u32
}

impl<P> Shape<P> {
    /// Number of vertices the shape tessellates into.
    pub open spec fn spec_vertex_count(&self) -> nat {
        match self {
            Shape::Triangle(..) => 3,
            Shape::Square => 4,
            Shape::Polygon(n) => *n as nat,
            Shape::Mesh(v, _) => v.len() as nat,
        }
    }

    /// Whether the shape can be tessellated at all.
    pub open spec fn is_valid(&self) -> bool {
        match self {
            Shape::Polygon(n) => *n >= 3,
            Shape::Mesh(v, Topology::TriangleList) => v.len() % 3 == 0,
            Shape::Mesh(v, Topology::TriangleStrip) => v.len() >= 3,
            _ => true,
        }
    }

    /// Whether every local index fits the GPU's signed 32-bit vertex offset.
    pub open spec fn is_addressable(&self) -> bool {
        self.spec_vertex_count() <= i32::MAX
    }

    /// The local index list of a valid shape.
    pub open spec fn spec_indices(&self) -> Seq<u32> {
        match self {
            Shape::Triangle(..) => seq![0, 1, 2],
            Shape::Square => seq![0, 1, 2, 1, 2, 3],
            Shape::Polygon(n) => Seq::new((3 * (*n - 2)) as nat, |k: int| fan_entry(k)),
            Shape::Mesh(v, Topology::TriangleList) => Seq::new(v.len() as nat, |k: int| k as u32),
            Shape::Mesh(v, Topology::TriangleStrip) => Seq::new(
                (3 * (v.len() - 2)) as nat,
                |k: int| strip_entry(k),
            ),
        }
    }

    /// Number of vertices the shape tessellates into.
    pub fn vertex_count(&self) -> (r: usize)
        ensures
            r == self.spec_vertex_count(),
    {
        match self {
            Shape::Triangle(..) => 3,
            Shape::Square => 4,
            Shape::Polygon(n) => *n as usize,
            Shape::Mesh(v, _) => v.len(),
        }
    }

    /// Whether the shape can be tessellated at all.
    pub fn is_valid_exec(&self) -> (r: bool)
        ensures
            r == self.is_valid(),
    {
        match self {
            Shape::Polygon(n) => *n >= 3,
            Shape::Mesh(v, Topology::TriangleList) => v.len() % 3 == 0,
            Shape::Mesh(v, Topology::TriangleStrip) => v.len() >= 3,
            _ => true,
        }
    }

    /// The local index list of the shape: offsets into its own vertex list,
    /// not yet placed in any flattened buffer.
    pub fn tessellate(&self) -> (r: Result<Vec<u32>, SceneError>)
        ensures
            r is Ok <==> self.is_valid() && self.is_addressable(),
            r matches Err(e) ==> (e == SceneError::InvalidShape <==> !self.is_valid()),
            r matches Err(e) ==> (e == SceneError::TooLarge <==> self.is_valid()),
            r matches Ok(ix) ==> ix@ == self.spec_indices(),
    {
        match self {
            Shape::Triangle(..) => Ok(vec![0, 1, 2]),
            Shape::Square => Ok(vec![0, 1, 2, 1, 2, 3]),
            Shape::Polygon(n) => {
                if *n < 3 {
                    return Err(SceneError::InvalidShape);
                }
                if *n > i32::MAX as u32 {
                    return Err(SceneError::TooLarge);
                }
                let ix = fan(*n);
                Ok(ix)
            },
            Shape::Mesh(v, Topology::TriangleList) => {
                if v.len() % 3 != 0 {
                    return Err(SceneError::InvalidShape);
                }
                if v.len() > i32::MAX as usize {
                    return Err(SceneError::TooLarge);
                }
                Ok(sequence(v.len() as u32))
            },
            Shape::Mesh(v, Topology::TriangleStrip) => {
                if v.len() < 3 {
                    return Err(SceneError::InvalidShape);
                }
                if v.len() > i32::MAX as usize {
                    return Err(SceneError::TooLarge);
                }
                Ok(strip(v.len() as u32))
            },
        }
    }
}

/// A polygon with `n` sides has `n` vertices and `3 * (n - 2)` indices, and
/// a three-sided polygon is cut into the one triangle `[0, 1, 2]`, as a
/// triangle is.
pub proof fn lemma_polygon_counts<P>(n: u32, a: P, b: P, c: P)
    requires
        n >= 3,
    ensures
        Shape::<P>::Polygon(n).spec_vertex_count() == n,
        Shape::<P>::Polygon(n).spec_indices().len() == 3 * (n - 2),
        Shape::<P>::Polygon(3).spec_indices() == Shape::Triangle(a, b, c).spec_indices(),
{
    let tri = Shape::<P>::Polygon(3).spec_indices();
    assert(tri[0] == 0 && tri[1] == 1 && tri[2] == 2);
    assert(tri =~= Shape::Triangle(a, b, c).spec_indices());
}

/// Every local index of a valid shape names one of its own vertices, and
/// the index list is whole triangles.
pub proof fn lemma_indices_in_range<P>(s: Shape<P>)
    requires
        s.is_valid(),
    ensures
        s.spec_indices().len() % 3 == 0,
        forall|k: int| 0 <= k < s.spec_indices().len() ==> #[trigger] s.spec_indices()[k] < s.spec_vertex_count(),
{
    match s {
        Shape::Polygon(n) => {
            assert forall|k: int| 0 <= k < s.spec_indices().len() implies #[trigger] s.spec_indices()[k] < s.spec_vertex_count() by {
                assert(k / 3 < n - 2);
            }
        },
        Shape::Mesh(v, Topology::TriangleStrip) => {
            assert forall|k: int| 0 <= k < s.spec_indices().len() implies #[trigger] s.spec_indices()[k] < s.spec_vertex_count() by {
                assert(k / 3 < v.len() - 2);
            }
        },
        _ => {},
    }
}

/// Fan triangulation of `n` vertices around vertex 0.
fn fan(n: u32) -> (r: Vec<u32>)
    requires
        3 <= n <= i32::MAX,
    ensures
        r@ == Seq::new((3 * (n - 2)) as nat, |k: int| fan_entry(k)),
{
    let mut ix: Vec<u32> = Vec::new();
    let mut i: u32 = 0;
    while i < n - 2
        invariant
            3 <= n <= i32::MAX,
            i <= n - 2,
            ix@.len() == 3 * i,
            forall|k: int| 0 <= k < ix@.len() ==> ix@[k] == fan_entry(k),
        decreases n - 2 - i,
    {
        ix.push(0);
        ix.push(i + 1);
        ix.push(i + 2);
        i = i + 1;
    }
    assert(ix@ =~= Seq::new((3 * (n - 2)) as nat, |k: int| fan_entry(k)));
    ix
}

/// Strip triangulation of `n` vertices.
fn strip(n: u32) -> (r: Vec<u32>)
    requires
        3 <= n <= i32::MAX,
    ensures
        r@ == Seq::new((3 * (n - 2)) as nat, |k: int| strip_entry(k)),
{
    let mut ix: Vec<u32> = Vec::new();
    let mut i: u32 = 0;
    while i < n - 2
        invariant
            3 <= n <= i32::MAX,
            i <= n - 2,
            ix@.len() == 3 * i,
            forall|k: int| 0 <= k < ix@.len() ==> ix@[k] == strip_entry(k),
        decreases n - 2 - i,
    {
        ix.push(i);
        ix.push(i + 1);
        ix.push(i + 2);
        i = i + 1;
    }
    assert(ix@ =~= Seq::new((3 * (n - 2)) as nat, |k: int| strip_entry(k)));
    ix
}

/// The indices `0..n` in order.
fn sequence(n: u32) -> (r: Vec<u32>)
    ensures
        r@ == Seq::new(n as nat, |k: int| k as u32),
{
    let mut ix: Vec<u32> = Vec::new();
    let mut i: u32 = 0;
    while i < n
        invariant
            i <= n,
            ix@.len() == i,
            forall|k: int| 0 <= k < ix@.len() ==> ix@[k] == k as u32,
        decreases n - i,
    {
        ix.push(i);
        i = i + 1;
    }
    assert(ix@ =~= Seq::new(n as nat, |k: int| k as u32));
    ix
}

} // verus!
