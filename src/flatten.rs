use vstd::prelude::*;

use crate::error::SceneError;
use crate::render::{DrawDescriptor, Instance, RenderState, VertexRef};
use crate::shape::Shape;
use crate::state::State;

verus! {

impl<T, C, P> State<T, C, P> {
    /// The shape references of nodes `0..h`: pairs (node handle, shape
    /// index), in handle order and, within a node, in recorded order.
    pub open spec fn occurrences(&self, h: int) -> Seq<(usize, usize)>
        decreases h,
    {
        if h <= 0 {
            seq![]
        } else {
            self.occurrences(h - 1) + self.spec_nodes()[h - 1].shapes@.map_values(
                |s: usize| ((h - 1) as usize, s),
            )
        }
    }

    /// Every shape occurrence of the tree, in traversal order.
    pub open spec fn all_occurrences(&self) -> Seq<(usize, usize)> {
        self.occurrences(self.spec_nodes().len() as int)
    }

    /// The shape drawn by occurrence `d`.
    pub open spec fn occurrence_shape(&self, d: int) -> Shape<P> {
        self.spec_shapes()[self.all_occurrences()[d].1 as int]
    }

    /// The flattened index array after the first `d` occurrences: their
    /// local index lists, one after the other.
    pub open spec fn flat_indexes(&self, d: int) -> Seq<u32>
        decreases d,
    {
        if d <= 0 {
            seq![]
        } else {
            self.flat_indexes(d - 1) + self.occurrence_shape(d - 1).spec_indices()
        }
    }

    /// The flattened vertex array after the first `d` occurrences: the
    /// corners of their shapes, one shape after the other.
    pub open spec fn flat_vertexes(&self, d: int) -> Seq<VertexRef>
        decreases d,
    {
        if d <= 0 {
            seq![]
        } else {
            self.flat_vertexes(d - 1) + Seq::new(
                self.occurrence_shape(d - 1).spec_vertex_count(),
                |k: int| VertexRef { shape: self.all_occurrences()[d - 1].1, corner: k as u32 },
            )
        }
    }

    /// The draw of occurrence `d`: its slices of the flattened arrays and
    /// the instance of the node that holds it.
    pub open spec fn spec_draw(&self, d: int) -> DrawDescriptor {
        DrawDescriptor {
            vertex_offset: self.flat_vertexes(d).len() as i32,
            base_index: self.flat_indexes(d).len() as u32,
            base_instance: self.all_occurrences()[d].0 as u32,
            vertex_count: self.occurrence_shape(d).spec_indices().len() as u32,
            instance_count: 1,
        }
    }

    /// The resolved record of node `h`.
    pub open spec fn spec_instance(&self, h: int) -> Instance {
        Instance { parent: self.spec_nodes()[h].parent, color_source: self.color_source(h) }
    }

    /// Every shape reference of every node lies inside the shape table.
    pub open spec fn refs_valid(&self) -> bool {
        forall|h: int, j: int|
            0 <= h < self.spec_nodes().len() && 0 <= j < self.spec_nodes()[h].shapes@.len()
                ==> #[trigger] self.spec_nodes()[h].shapes@[j] < self.spec_shapes().len()
    }

    /// Every entry of the shape table can be tessellated.
    pub open spec fn shapes_valid(&self) -> bool {
        forall|i: int| 0 <= i < self.spec_shapes().len() ==> #[trigger] self.spec_shapes()[i].is_valid()
    }

    /// The flattened arrays fit the GPU's 32-bit offsets: instance indices in
    /// `u32`, vertex offsets in `i32`, index offsets in `u32`.
    pub open spec fn fits(&self) -> bool {
        let d = self.all_occurrences().len() as int;
        &&& self.spec_nodes().len() <= u32::MAX + 1
        &&& self.flat_vertexes(d).len() <= i32::MAX
        &&& self.flat_indexes(d).len() <= u32::MAX
    }

    /// `out` is the flattening of this state: one instance per node, in
    /// handle order, and one draw per shape occurrence, in traversal order,
    /// over the concatenated geometry of those occurrences.
    pub open spec fn is_flattening(&self, out: RenderState) -> bool {
        let d = self.all_occurrences().len() as int;
        &&& self.fits()
        &&& out.instances@.len() == self.spec_nodes().len()
        &&& forall|h: int| 0 <= h < out.instances@.len() ==> #[trigger] out.instances@[h] == self.spec_instance(h)
        &&& out.draws@ == Seq::new(d as nat, |e: int| self.spec_draw(e))
        &&& out.indexes@ == self.flat_indexes(d)
        &&& out.vertexes@ == self.flat_vertexes(d)
    }

    proof fn lemma_occurrences_prefix(&self, a: int, b: int)
        requires
            0 <= a <= b,
        ensures
            self.occurrences(a).len() <= self.occurrences(b).len(),
            forall|e: int| 0 <= e < self.occurrences(a).len() ==> #[trigger] self.occurrences(b)[e] == self.occurrences(a)[e],
        decreases b - a,
    {
        if a < b {
            self.lemma_occurrences_prefix(a, b - 1);
        }
    }

    proof fn lemma_flat_monotone(&self, a: int, b: int)
        requires
            0 <= a <= b,
        ensures
            self.flat_vertexes(a).len() <= self.flat_vertexes(b).len(),
            self.flat_indexes(a).len() <= self.flat_indexes(b).len(),
        decreases b - a,
    {
        if a < b {
            self.lemma_flat_monotone(a, b - 1);
        }
    }

    /// Finds a shape reference outside the shape table.
    fn check_refs(&self) -> (r: bool)
        ensures
            r == self.refs_valid(),
    {
        let mut h: usize = 0;
        while h < self.nodes.len()
            invariant
                h <= self.nodes@.len(),
                forall|g: int, j: int|
                    0 <= g < h && 0 <= j < self.spec_nodes()[g].shapes@.len()
                        ==> #[trigger] self.spec_nodes()[g].shapes@[j] < self.spec_shapes().len(),
            decreases self.nodes@.len() - h,
        {
            let node = &self.nodes[h];
            let mut j: usize = 0;
            while j < node.shapes.len()
                invariant
                    h < self.nodes@.len(),
                    *node == self.spec_nodes()[h as int],
                    j <= node.shapes@.len(),
                    forall|g: int, i: int|
                        0 <= g < h && 0 <= i < self.spec_nodes()[g].shapes@.len()
                            ==> #[trigger] self.spec_nodes()[g].shapes@[i] < self.spec_shapes().len(),
                    forall|i: int| 0 <= i < j ==> #[trigger] node.shapes@[i] < self.spec_shapes().len(),
                decreases node.shapes@.len() - j,
            {
                if node.shapes[j] >= self.shapes.len() {
                    return false;
                }
                j = j + 1;
            }
            h = h + 1;
        }
        true
    }

    /// Finds an entry of the shape table that cannot be tessellated.
    fn check_shapes(&self) -> (r: bool)
        ensures
            r == self.shapes_valid(),
    {
        let mut i: usize = 0;
        while i < self.shapes.len()
            invariant
                i <= self.shapes@.len(),
                forall|k: int| 0 <= k < i ==> #[trigger] self.spec_shapes()[k].is_valid(),
            decreases self.shapes@.len() - i,
        {
            if !self.shapes[i].is_valid_exec() {
                assert(!self.spec_shapes()[i as int].is_valid());
                return false;
            }
            i = i + 1;
        }
        true
    }
}

impl<T, C, P> State<T, C, P> {
    /// Flattens the tree into the buffers of one batched draw.
    ///
    /// Every node gets one instance, in handle order, which is depth-first
    /// pre-order (the root's is entry 0 and stands for the default record);
    /// every shape reference gets one draw, whose indices stay local to the
    /// shape and whose `vertex_offset` places them in the vertex array. The
    /// frame fails as a whole on a dangling shape reference, then on a shape
    /// that cannot be tessellated, then on buffers too large to address.
    pub fn serialize(&self) -> (r: Result<RenderState, SceneError>)
        requires
            self.wf(),
        ensures
            r is Ok <==> self.refs_valid() && self.shapes_valid() && self.fits(),
            r matches Ok(out) ==> self.is_flattening(out),
            r matches Err(e) ==> (e == SceneError::DanglingShapeReference <==> !self.refs_valid()),
            r matches Err(e) ==> (e == SceneError::InvalidShape <==> self.refs_valid() && !self.shapes_valid()),
            r matches Err(e) ==> (e == SceneError::TooLarge <==> self.refs_valid() && self.shapes_valid()),
    {
        if !self.check_refs() {
            return Err(SceneError::DanglingShapeReference);
        }
        if !self.check_shapes() {
            return Err(SceneError::InvalidShape);
        }
        let n = self.nodes.len();
        if n - 1 > u32::MAX as usize {
            return Err(SceneError::TooLarge);
        }
        let ghost total = self.all_occurrences().len() as int;
        let mut vertexes: Vec<VertexRef> = Vec::new();
        let mut indexes: Vec<u32> = Vec::new();
        let mut instances: Vec<Instance> = Vec::new();
        let mut draws: Vec<DrawDescriptor> = Vec::new();
        let mut h: usize = 0;
        while h < n
            invariant
                self.wf(),
                self.refs_valid(),
                self.shapes_valid(),
                n == self.spec_nodes().len(),
                n <= u32::MAX + 1,
                total == self.all_occurrences().len(),
                h <= n,
                draws@.len() == self.occurrences(h as int).len(),
                instances@.len() == h,
                forall|g: int| 0 <= g < h ==> #[trigger] instances@[g] == self.spec_instance(g),
                draws@ == Seq::new(draws@.len(), |e: int| self.spec_draw(e)),
                indexes@ == self.flat_indexes(draws@.len() as int),
                vertexes@ == self.flat_vertexes(draws@.len() as int),
                vertexes@.len() <= i32::MAX,
                indexes@.len() <= u32::MAX,
            decreases n - h,
        {
            let node = &self.nodes[h];
            let color_source = if node.color.is_some() {
                Some(h)
            } else {
                match node.parent {
                    Some(p) => instances[p].color_source,
                    None => None,
                }
            };
            instances.push(Instance { parent: node.parent, color_source });
            proof {
                self.lemma_occurrences_prefix(h as int + 1, n as int);
            }
            let mut j: usize = 0;
            while j < node.shapes.len()
                invariant
                    self.wf(),
                    self.refs_valid(),
                    self.shapes_valid(),
                    n == self.spec_nodes().len(),
                    n <= u32::MAX + 1,
                    total == self.all_occurrences().len(),
                    h < n,
                    *node == self.spec_nodes()[h as int],
                    j <= node.shapes@.len(),
                    self.occurrences(h as int + 1).len() <= total,
                    forall|e: int| 0 <= e < self.occurrences(h as int + 1).len()
                        ==> #[trigger] self.all_occurrences()[e] == self.occurrences(h as int + 1)[e],
                    draws@.len() == self.occurrences(h as int).len() + j,
                    draws@ == Seq::new(draws@.len(), |e: int| self.spec_draw(e)),
                    indexes@ == self.flat_indexes(draws@.len() as int),
                    vertexes@ == self.flat_vertexes(draws@.len() as int),
                    vertexes@.len() <= i32::MAX,
                    indexes@.len() <= u32::MAX,
                decreases node.shapes@.len() - j,
            {
                let ghost d = draws@.len() as int;
                let s = node.shapes[j];
                proof {
                    assert(self.occurrences(h as int + 1)[d] == (h, s));
                    assert(self.all_occurrences()[d] == (h, s));
                    assert(self.spec_nodes()[h as int].shapes@[j as int] < self.spec_shapes().len());
                }
                let shape = &self.shapes[s];
                let count = shape.vertex_count();
                if count > i32::MAX as usize - vertexes.len() {
                    proof {
                        self.lemma_flat_monotone(d + 1, total);
                        assert(self.flat_vertexes(d + 1).len() == vertexes@.len() + count);
                    }
                    return Err(SceneError::TooLarge);
                }
                let mut ix = match shape.tessellate() {
                    Ok(ix) => ix,
                    Err(_) => {
                        proof {
                            assert(self.spec_shapes()[s as int].is_valid());
                        }
                        return Err(SceneError::TooLarge);
                    },
                };
                if ix.len() > u32::MAX as usize - indexes.len() {
                    proof {
                        self.lemma_flat_monotone(d + 1, total);
                        assert(self.flat_indexes(d + 1) == indexes@ + ix@);
                    }
                    return Err(SceneError::TooLarge);
                }
                draws.push(
                    DrawDescriptor {
                        vertex_offset: vertexes.len() as i32,
                        base_index: indexes.len() as u32,
                        base_instance: h as u32,
                        vertex_count: ix.len() as u32,
                        instance_count: 1,
                    },
                );
                let ghost before = vertexes@;
                let mut k: usize = 0;
                while k < count
                    invariant
                        count <= i32::MAX,
                        k <= count,
                        vertexes@ == before + Seq::new(k as nat, |c: int| VertexRef { shape: s, corner: c as u32 }),
                    decreases count - k,
                {
                    vertexes.push(VertexRef { shape: s, corner: k as u32 });
                    proof {
                        assert(vertexes@ =~= before + Seq::new((k + 1) as nat, |c: int| VertexRef { shape: s, corner: c as u32 }));
                    }
                    k = k + 1;
                }
                indexes.append(&mut ix);
                proof {
                    assert(vertexes@ =~= self.flat_vertexes(d + 1));
                    assert(indexes@ =~= self.flat_indexes(d + 1));
                    assert(draws@ =~= Seq::new((d + 1) as nat, |e: int| self.spec_draw(e)));
                }
                j = j + 1;
            }
            proof {
                assert(self.occurrences(h as int + 1).len() == self.occurrences(h as int).len() + node.shapes@.len());
                let g = h as int;
                if node.color is None && g > 0 {
                    assert(self.parent_of(g) < g);
                }
            }
            h = h + 1;
        }
        Ok(RenderState { vertexes, indexes, instances, draws })
    }
}

/// Sum of the `vertex_count` fields of the first `d` draws.
pub open spec fn sum_index_counts(draws: Seq<DrawDescriptor>, d: int) -> int
    decreases d,
{
    if d <= 0 {
        0
    } else {
        sum_index_counts(draws, d - 1) + draws[d - 1].vertex_count
    }
}

/// The instances met from instance `i` by following `parent` links, listed
/// from the first one without a parent down to `i` itself.
pub open spec fn instance_chain(instances: Seq<Instance>, i: int) -> Seq<int>
    decreases i,
{
    match instances[i].parent {
        Some(p) => if 0 <= p < i {
            instance_chain(instances, p as int).push(i)
        } else {
            seq![i]
        },
        None => seq![i],
    }
}

impl<T, C, P> State<T, C, P> {
    proof fn lemma_flat_prefix(&self, d: int, e: int)
        requires
            0 <= d <= e,
        ensures
            self.flat_indexes(e).subrange(0, self.flat_indexes(d).len() as int) == self.flat_indexes(d),
            self.flat_vertexes(e).subrange(0, self.flat_vertexes(d).len() as int) == self.flat_vertexes(d),
        decreases e - d,
    {
        if d < e {
            self.lemma_flat_prefix(d, e - 1);
            self.lemma_flat_monotone(d, e - 1);
            assert(self.flat_indexes(e).subrange(0, self.flat_indexes(e - 1).len() as int) =~= self.flat_indexes(e - 1));
            assert(self.flat_vertexes(e).subrange(0, self.flat_vertexes(e - 1).len() as int) =~= self.flat_vertexes(e - 1));
            assert(self.flat_indexes(e).subrange(0, self.flat_indexes(d).len() as int) =~= self.flat_indexes(e - 1).subrange(0, self.flat_indexes(d).len() as int));
            assert(self.flat_vertexes(e).subrange(0, self.flat_vertexes(d).len() as int) =~= self.flat_vertexes(e - 1).subrange(0, self.flat_vertexes(d).len() as int));
        }
    }

    proof fn lemma_sum_counts(&self, out: RenderState, d: int)
        requires
            self.is_flattening(out),
            0 <= d <= out.draws@.len(),
        ensures
            sum_index_counts(out.draws@, d) == self.flat_indexes(d).len(),
        decreases d,
    {
        if d > 0 {
            self.lemma_sum_counts(out, d - 1);
            self.lemma_flat_monotone(d, out.draws@.len() as int);
            assert(out.draws@[d - 1] == self.spec_draw(d - 1));
        }
    }

    /// Every node has exactly one instance, the root's being the first:
    /// there are as many instances as nodes, and instance `h` is the record
    /// of node `h`.
    pub proof fn lemma_one_instance_per_node(&self, out: RenderState)
        requires
            self.wf(),
            self.is_flattening(out),
        ensures
            out.instances@.len() == self.spec_nodes().len(),
            forall|h: int| 0 <= h < out.instances@.len() ==> (#[trigger] out.instances@[h]).parent == self.spec_nodes()[h].parent,
            out.instances@[0].parent is None,
    {
        assert(out.instances@[0] == self.spec_instance(0));
    }

    /// A node without an explicit colour shows what its parent's instance
    /// shows; transitively, every instance shows the colour of the nearest
    /// node on its root path that has one, or the global default when none
    /// has.
    pub proof fn lemma_color_inheritance(&self, out: RenderState, h: int)
        requires
            self.wf(),
            self.is_flattening(out),
            0 <= h < self.spec_nodes().len(),
        ensures
            self.spec_nodes()[h].color is None && h > 0
                ==> out.instances@[h].color_source == out.instances@[self.parent_of(h)].color_source,
            out.instances@[h].color_source matches Some(a) ==> {
                &&& self.is_ancestor(a as int, h)
                &&& self.spec_nodes()[a as int].color is Some
                &&& forall|c: int| self.is_ancestor(a as int, c) && self.is_ancestor(c, h) && c != a
                    ==> self.spec_nodes()[c].color is None
            },
            out.instances@[h].color_source is None ==> forall|a: int| self.is_ancestor(a, h)
                ==> self.spec_nodes()[a].color is None,
        decreases h,
    {
        assert(out.instances@[h] == self.spec_instance(h));
        if h > 0 {
            assert(out.instances@[self.parent_of(h)] == self.spec_instance(self.parent_of(h)));
        }
        if self.spec_nodes()[h].color is Some {
            assert forall|c: int| self.is_ancestor(h, c) && self.is_ancestor(c, h) && c != h
                implies self.spec_nodes()[c].color is None by {
                self.lemma_ancestor_le(h, c);
                self.lemma_ancestor_le(c, h);
            }
        } else if h > 0 {
            let p = self.parent_of(h);
            self.lemma_color_inheritance(out, p);
            match self.color_source(p) {
                Some(a) => {
                    self.lemma_ancestor_le(a as int, p);
                    assert forall|c: int| self.is_ancestor(a as int, c) && self.is_ancestor(c, h) && c != a
                        implies self.spec_nodes()[c].color is None by {
                        if c != h {
                            assert(self.is_ancestor(c, p));
                        }
                    }
                },
                None => {
                    assert forall|a: int| self.is_ancestor(a, h) implies self.spec_nodes()[a].color is None by {
                        if a != h {
                            assert(self.is_ancestor(a, p));
                        }
                    }
                },
            }
        }
    }

    /// The instances that the transform of instance `h` composes, followed
    /// through `parent` links, are exactly the nodes from the root down to
    /// `h`, in that order: each on the path is an ancestor of `h`, each
    /// ancestor is on it, and the first has no parent.
    pub proof fn lemma_transform_chain(&self, out: RenderState, h: int)
        requires
            self.wf(),
            self.is_flattening(out),
            0 <= h < self.spec_nodes().len(),
        ensures
            instance_chain(out.instances@, h) == self.path_to(h),
            self.path_to(h)[0] == 0,
            self.path_to(h).last() == h,
            forall|i: int| 0 < i < self.path_to(h).len()
                ==> self.parent_of(#[trigger] self.path_to(h)[i]) == self.path_to(h)[i - 1],
            forall|a: int| self.is_ancestor(a, h) <==> self.path_to(h).contains(a),
        decreases h,
    {
        assert(out.instances@[h] == self.spec_instance(h));
        if h > 0 {
            let p = self.parent_of(h);
            self.lemma_transform_chain(out, p);
            let path = self.path_to(h);
            assert(path == self.path_to(p).push(h));
            assert forall|i: int| 0 < i < path.len() implies self.parent_of(#[trigger] path[i]) == path[i - 1] by {
                if i < path.len() - 1 {
                    assert(path[i] == self.path_to(p)[i]);
                }
            }
            assert forall|a: int| self.is_ancestor(a, h) <==> path.contains(a) by {
                if a == h {
                    assert(path[path.len() - 1] == h);
                } else {
                    assert(self.is_ancestor(a, h) == self.is_ancestor(a, p));
                    if path.contains(a) {
                        let k = choose|k: int| 0 <= k < path.len() && path[k] == a;
                        assert(self.path_to(p)[k] == a);
                    }
                    if self.path_to(p).contains(a) {
                        let k = choose|k: int| 0 <= k < self.path_to(p).len() && self.path_to(p)[k] == a;
                        assert(path[k] == a);
                    }
                }
            }
        } else {
            assert(self.path_to(0) == seq![0int]);
            assert forall|a: int| self.is_ancestor(a, h) <==> self.path_to(h).contains(a) by {
                if a == 0 {
                    assert(self.path_to(h)[0] == a);
                } else {
                    assert(!self.is_ancestor(a, h));
                    if self.path_to(h).contains(a) {
                        let k = choose|k: int| 0 <= k < self.path_to(h).len() && self.path_to(h)[k] == a;
                        assert(k == 0);
                    }
                }
            }
        }
    }

    /// The draws cut the flattened index and vertex arrays into consecutive
    /// slices with no gap and no overlap: the index counts of all draws add
    /// up to the length of the index array, each draw starts where the one
    /// before it ends, the last ends at the end of the arrays, and each
    /// slice of the index array is the local index list of the draw's shape.
    pub proof fn lemma_draws_partition(&self, out: RenderState)
        requires
            self.wf(),
            self.is_flattening(out),
        ensures
            sum_index_counts(out.draws@, out.draws@.len() as int) == out.indexes@.len(),
            out.draws@.len() > 0 ==> out.draws@[0].base_index == 0 && out.draws@[0].vertex_offset == 0,
            out.draws@.len() == 0 ==> out.indexes@.len() == 0 && out.vertexes@.len() == 0,
            forall|d: int| 0 <= d < out.draws@.len() - 1 ==> {
                &&& (#[trigger] out.draws@[d]).base_index + out.draws@[d].vertex_count == out.draws@[d + 1].base_index
                &&& out.draws@[d].vertex_offset + self.occurrence_shape(d).spec_vertex_count() == out.draws@[d + 1].vertex_offset
            },
            out.draws@.len() > 0 ==> {
                let l = out.draws@.len() - 1;
                &&& out.draws@[l].base_index + out.draws@[l].vertex_count == out.indexes@.len()
                &&& out.draws@[l].vertex_offset + self.occurrence_shape(l).spec_vertex_count() == out.vertexes@.len()
            },
            forall|d: int, e: int| 0 <= d < e < out.draws@.len()
                ==> #[trigger] out.draws@[d].base_index + out.draws@[d].vertex_count <= #[trigger] out.draws@[e].base_index,
            forall|d: int| 0 <= d < out.draws@.len() ==> out.indexes@.subrange(
                (#[trigger] out.draws@[d]).base_index as int,
                out.draws@[d].base_index + out.draws@[d].vertex_count,
            ) == self.occurrence_shape(d).spec_indices(),
    {
        let total = out.draws@.len() as int;
        self.lemma_sum_counts(out, total);
        assert forall|d: int| 0 <= d <= total implies
            #[trigger] self.flat_indexes(d).len() <= u32::MAX && self.flat_vertexes(d).len() <= i32::MAX by {
            self.lemma_flat_monotone(d, total);
        }
        assert forall|d: int| 0 <= d < total implies {
            &&& (#[trigger] out.draws@[d]).base_index == self.flat_indexes(d).len()
            &&& out.draws@[d].vertex_offset == self.flat_vertexes(d).len()
            &&& out.draws@[d].base_index + out.draws@[d].vertex_count == self.flat_indexes(d + 1).len()
            &&& out.draws@[d].vertex_offset + self.occurrence_shape(d).spec_vertex_count() == self.flat_vertexes(d + 1).len()
        } by {
            assert(out.draws@[d] == self.spec_draw(d));
            assert(self.flat_indexes(d).len() <= u32::MAX && self.flat_vertexes(d).len() <= i32::MAX);
            assert(self.flat_indexes(d + 1).len() <= u32::MAX);
        }
        if total > 0 {
            assert(self.flat_indexes(0).len() == 0 && self.flat_vertexes(0).len() == 0);
        }
        assert forall|d: int, e: int| 0 <= d < e < total
            implies #[trigger] out.draws@[d].base_index + out.draws@[d].vertex_count <= #[trigger] out.draws@[e].base_index by {
            self.lemma_flat_monotone(d + 1, e);
        }
        assert forall|d: int| 0 <= d < total implies out.indexes@.subrange(
            (#[trigger] out.draws@[d]).base_index as int,
            out.draws@[d].base_index + out.draws@[d].vertex_count,
        ) == self.occurrence_shape(d).spec_indices() by {
            self.lemma_flat_prefix(d + 1, total);
            self.lemma_flat_monotone(d + 1, total);
            let lo = self.flat_indexes(d).len() as int;
            let hi = self.flat_indexes(d + 1).len() as int;
            assert(out.indexes@.subrange(0, hi) == self.flat_indexes(d + 1));
            assert(out.indexes@.subrange(lo, hi) =~= self.flat_indexes(d + 1).subrange(lo, hi));
            assert(self.flat_indexes(d + 1).subrange(lo, hi) =~= self.occurrence_shape(d).spec_indices());
        }
    }
}

} // verus!
