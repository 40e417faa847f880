//! The evaluation context of animation graphs: per-node state kept across frames, per-node
//! caches of the current frame, and the arena of nested graph contexts.

pub mod graph_context_arena;
pub mod graph_state;
pub mod node_caches;
pub mod node_states;
pub mod query_output_time;
