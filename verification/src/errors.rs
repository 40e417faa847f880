use crate::ids::{NodeId, PinId};
use vstd::prelude::*;

verus! {

/// A pin that produces something: here, the time output of a node.
#[derive(Clone, Debug, PartialEq, Eq)]
pub enum SourcePin {
    NodeTime(NodeId),
}

/// A pin that receives something: here, a time input of a node, by the pin's name.
#[derive(Clone, Debug, PartialEq, Eq)]
pub enum TargetPin {
    NodeTime(NodeId, PinId),
}

/// Why a read from a graph context failed.
#[derive(Clone, Debug, PartialEq, Eq)]
pub enum GraphError {
    /// No state is stored for the node, neither for this key nor from an earlier frame.
    MissingStateValue,
    /// The node's duration was not computed for this key.
    DurationMissing(SourcePin),
    /// The node's forward time update was not computed for this key.
    TimeUpdateMissingFwd(SourcePin),
    /// No time update was sent back to this input pin for this key.
    TimeUpdateMissingBack(TargetPin),
}

} // verus!
