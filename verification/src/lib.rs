//! Evaluation context of an animation graph: node states kept across frames, node caches
//! of the current frame, and the arena of nested graph contexts, with their contracts
//! proved by Verus.

pub mod animation_node;
pub mod context;
pub mod errors;
pub mod ids;
pub mod keyed_map;
pub mod platform;
