use vstd::prelude::*;

verus! {

/// The resolved record of one node: where its transform and colour come from.
///
/// The instance of node `h` is entry `h` of [`RenderState::instances`]. Its
/// world transform is the world transform of instance `parent` (if any) times
/// the node's own local transform; its colour is the explicit colour of node
/// `color_source`, or the global default when that is `None`.
#[derive(Debug, Clone, Copy, PartialEq, Eq, Structural)]
pub struct Instance {
    /// Index of the ancestor instance this one composes with.
    pub parent: Option<usize>,
    /// Handle of the node whose explicit colour this instance shows.
    pub color_source: Option<usize>,
}

/// One entry of the flattened vertex array: corner `corner` of the shape with
/// index `shape` in the shape table.
#[derive(Debug, Clone, Copy, PartialEq, Eq, Structural)]
pub struct VertexRef {
    pub shape: usize,
    pub corner: u32,
}

/// Arguments of one indexed indirect draw: one shape occurrence.
#[derive(Debug, Clone, Copy, PartialEq, Eq, Structural)]
pub struct DrawDescriptor {
    /// Added to every index of the draw: where the shape's vertices start in
    /// the flattened vertex array.
    pub vertex_offset: i32,
    /// Where the shape's indices start in the flattened index array.
    pub base_index: u32,
    /// The instance the draw uses.
    pub base_instance: u32,
    /// Number of indices the draw reads.
    pub vertex_count: u32,
    /// Always 1: every shape occurrence is its own draw.
    pub instance_count: u32,
}

/// Everything one batched multi-draw needs, but for the floating-point values
/// behind the references.
#[derive(Debug)]
pub struct RenderState {
    pub vertexes: Vec<VertexRef>,
    pub indexes: Vec<u32>,
    pub instances: Vec<Instance>,
    pub draws: Vec<DrawDescriptor>,
}

} // verus!
