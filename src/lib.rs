//! A retained-mode scene description and the compiler that turns it, once per
//! frame, into flat buffers for one batched indirect draw.
//!
//! Floating-point data (positions, matrices, colours) never enters this crate:
//! it travels as opaque payloads of the generic parameters, and the library
//! computes everything about the layout that does not depend on their values.
pub mod builder;
pub mod error;
pub mod flatten;
pub mod render;
pub mod shape;
pub mod state;
