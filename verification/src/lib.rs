//! Core logic for a pixelation post-effect.
//!
//! A chosen set of entities ("targets") are rendered off-screen into a
//! low-resolution texture and shown back in the main scene as a textured
//! quad. The host runtime owns rendering, asset loading and the entity
//! store; this crate owns the decisions: which registered targets have
//! become ready this tick, how the render pipeline for a ready target is
//! wired together, and in what order the secondary cameras render.

pub mod builder;
pub mod order;
pub mod registry;
pub mod resolver;
