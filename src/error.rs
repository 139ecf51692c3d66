use vstd::prelude::*;

verus! {

/// Why a frame cannot be flattened.
#[derive(Debug, Clone, Copy, PartialEq, Eq, Structural)]
pub enum SceneError {
    /// A polygon with fewer than three sides, or a mesh whose vertex count
    /// does not suit its topology.
    InvalidShape,
    /// Degenerate camera parameters.
    InvalidProjection,
    /// A node refers to a shape index outside the shape table.
    DanglingShapeReference,
    /// The flattened buffers would not be addressable by the GPU's
    /// 32-bit offsets.
    TooLarge,
}

} // verus!
