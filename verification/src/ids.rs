use crate::keyed_map::MapKey;
use vstd::prelude::*;

verus! {

/// Identifier of a node in an animation graph: the 128-bit value of the node's UUID.
#[derive(Clone, Copy, Debug, PartialEq, Eq, Hash, Structural)]
pub struct NodeId(pub u128);

/// Name of an input or output pin of a node.
pub type PinId = String;

/// Which evaluation of a node a piece of state belongs to: the default one, or a
/// temporary one identified by the 128-bit value of a UUID.
#[derive(Clone, Copy, Debug, PartialEq, Eq, Hash, Structural)]
pub enum StateKey {
    Default,
    Temporary(u128),
}

impl Default for StateKey {
    fn default() -> (k: StateKey)
        ensures
            k == StateKey::Default,
    {
        StateKey::Default
    }
}

impl Default for NodeId {
    fn default() -> (n: NodeId)
        ensures
            n == NodeId(0),
    {
        NodeId(0)
    }
}

/// The animation graph asset that a graph context evaluates, as the asset system
/// identifies it: by slot index and generation, or by UUID.
#[derive(Clone, Copy, Debug, PartialEq, Eq, Hash, Structural)]
pub enum GraphId {
    Index { index: u32, generation: u32 },
    Uuid(u128),
}

/// Index of a graph context in a [`crate::context::graph_context_arena::GraphContextArena`].
#[derive(Clone, Copy, Debug, PartialEq, Eq, Hash, Structural)]
pub struct GraphContextId(pub usize);

impl Default for GraphContextId {
    fn default() -> (id: GraphContextId)
        ensures
            id == GraphContextId(0),
    {
        GraphContextId(0)
    }
}

/// Identifier of a high-level state of a state machine.
#[derive(Clone, Copy, Debug, PartialEq, Eq, Hash, Structural)]
pub struct StateId(pub u128);

impl Default for StateId {
    fn default() -> (s: StateId)
        ensures
            s == StateId(0),
    {
        StateId(0)
    }
}

/// Identifier of a transition of a state machine.
#[derive(Clone, Copy, Debug, PartialEq, Eq, Hash, Structural)]
pub struct TransitionId(pub u128);

/// A state of the low-level state machine that a high-level one is compiled into.
#[derive(Clone, Copy, Debug, PartialEq, Eq, Hash, Structural)]
pub enum LowLevelStateId {
    HlState(StateId),
    DirectTransition(TransitionId),
    GlobalTransition(TransitionId, StateId),
}

/// Where a sub-graph context hangs: in which context, under which node, and, for a
/// state machine node, under which of its states.
#[derive(Clone, Copy, Debug, PartialEq, Eq, Hash, Structural)]
pub struct SubContextId {
    pub ctx_id: GraphContextId,
    pub node_id: NodeId,
    pub state_id: Option<LowLevelStateId>,
}

impl View for StateKey {
    type V = StateKey;

    open spec fn view(&self) -> StateKey {
        *self
    }
}

impl View for NodeId {
    type V = NodeId;

    open spec fn view(&self) -> NodeId {
        *self
    }
}

impl MapKey for StateKey {
    fn same_key(&self, other: &Self) -> (b: bool) {
        *self == *other
    }

    fn copy_key(&self) -> (r: Self) {
        *self
    }
}

impl MapKey for NodeId {
    fn same_key(&self, other: &Self) -> (b: bool) {
        self.0 == other.0
    }

    fn copy_key(&self) -> (r: Self) {
        *self
    }
}

impl MapKey for (StateKey, PinId) {
    fn same_key(&self, other: &Self) -> (b: bool) {
        self.0 == other.0 && self.1 == other.1
    }

    fn copy_key(&self) -> (r: Self) {
        (self.0, self.1.clone())
    }
}

} // verus!
