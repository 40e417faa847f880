use crate::ids::{GraphId, NodeId, StateKey};
use crate::context::node_caches::{caches_cloned, NodeCacheView, NodeCaches};
use crate::context::node_states::{states_cloned, NodeStateView, NodeStates};
use crate::context::query_output_time::{
    lemma_clone_answers_alike, QueryOutputTime, QueryOutputTimeView,
};
use vstd::prelude::*;

verus! {

/// What the evaluation context of one graph holds: the states and the caches of its nodes,
/// the time its output is queried at, and which graph it evaluates.
pub struct GraphStateView<S, D, U, R> {
    pub node_states: Map<NodeId, NodeStateView<S>>,
    pub node_caches: Map<NodeId, NodeCacheView<D, U, R>>,
    pub query_output_time: QueryOutputTimeView<U>,
    pub graph_id: GraphId,
}

impl<S, D, U, R> GraphStateView<S, D, U, R> {
    /// A context for `graph_id` with nothing stored.
    pub open spec fn fresh(graph_id: GraphId) -> Self {
        GraphStateView {
            node_states: Map::empty(),
            node_caches: Map::empty(),
            query_output_time: QueryOutputTimeView::Unset,
            graph_id,
        }
    }

    /// The frame is over: every node state commits its frame, every cache is dropped; the
    /// query time is left to whoever sets it.
    pub open spec fn after_next_frame(self) -> Self {
        GraphStateView {
            node_states: self.node_states.map_values(|v: NodeStateView<S>| v.after_next_frame()),
            node_caches: Map::empty(),
            query_output_time: self.query_output_time,
            graph_id: self.graph_id,
        }
    }
}

impl<S: Clone, D: Clone, U: Clone, R: Clone> GraphStateView<S, D, U, R> {
    /// `self` holds clones of what `other` holds, for the same graph.
    pub open spec fn is_clone_of(self, other: Self) -> bool {
        &&& states_cloned(other.node_states, self.node_states)
        &&& caches_cloned(other.node_caches, self.node_caches)
        &&& self.query_output_time.is_clone_of(other.query_output_time)
        &&& self.graph_id == other.graph_id
    }
}

/// The evaluation context of one graph.
#[derive(Debug)]
pub struct GraphState<S, D, U, R> {
    pub node_states: NodeStates<S>,
    pub node_caches: NodeCaches<D, U, R>,
    pub query_output_time: QueryOutputTime<U>,
    graph_id: GraphId,
}

impl<S, D, U, R> View for GraphState<S, D, U, R> {
    type V = GraphStateView<S, D, U, R>;

    closed spec fn view(&self) -> GraphStateView<S, D, U, R> {
        GraphStateView {
            node_states: self.node_states@,
            node_caches: self.node_caches@,
            query_output_time: self.query_output_time@,
            graph_id: self.graph_id,
        }
    }
}

impl<S, D, U, R> GraphState<S, D, U, R> {
    pub closed spec fn wf(&self) -> bool {
        self.node_states.wf() && self.node_caches.wf() && self.query_output_time.wf()
    }

    /// A context for `graph_id` with nothing stored.
    pub fn new(graph_id: GraphId) -> (g: Self)
        ensures
            g.wf(),
            g@ == GraphStateView::<S, D, U, R>::fresh(graph_id),
    {
        GraphState {
            node_states: NodeStates::new(),
            node_caches: NodeCaches::new(),
            query_output_time: QueryOutputTime::default(),
            graph_id,
        }
    }

    /// Ends the frame for every node state and cache of this context.
    pub fn next_frame(&mut self)
        requires
            old(self).wf(),
        ensures
            final(self).wf(),
            final(self)@ == old(self)@.after_next_frame(),
            final(self)@.query_output_time == old(self)@.query_output_time,
            final(self)@.graph_id == old(self)@.graph_id,
            final(self)@.node_caches.dom() == Set::<NodeId>::empty(),
    {
        self.node_states.next_frame();
        self.node_caches.next_frame();
    }

    /// The states of this context's nodes.
    pub fn node_states(&self) -> (r: &NodeStates<S>)
        requires
            self.wf(),
        ensures
            r.wf(),
            r@ == self@.node_states,
    {
        &self.node_states
    }

    /// The states of this context's nodes, to change them.
    pub fn node_states_mut(&mut self) -> (r: &mut NodeStates<S>)
        requires
            old(self).wf(),
        ensures
            r.wf(),
            r@ == old(self)@.node_states,
            final(r).wf() ==> final(self).wf(),
            final(self)@ == (GraphStateView { node_states: final(r)@, ..old(self)@ }),
    {
        &mut self.node_states
    }

    /// The caches of this context's nodes.
    pub fn node_caches(&self) -> (r: &NodeCaches<D, U, R>)
        requires
            self.wf(),
        ensures
            r.wf(),
            r@ == self@.node_caches,
    {
        &self.node_caches
    }

    /// The caches of this context's nodes, to change them.
    pub fn node_caches_mut(&mut self) -> (r: &mut NodeCaches<D, U, R>)
        requires
            old(self).wf(),
        ensures
            r.wf(),
            r@ == old(self)@.node_caches,
            final(r).wf() ==> final(self).wf(),
            final(self)@ == (GraphStateView { node_caches: final(r)@, ..old(self)@ }),
    {
        &mut self.node_caches
    }

    /// The time this context's output is queried at.
    pub fn query_output_time(&self) -> (r: &QueryOutputTime<U>)
        requires
            self.wf(),
        ensures
            r.wf(),
            r@ == self@.query_output_time,
    {
        &self.query_output_time
    }

    /// Sets the time this context's output is queried at.
    pub fn set_query_output_time(&mut self, q: QueryOutputTime<U>)
        requires
            old(self).wf(),
            q.wf(),
        ensures
            final(self).wf(),
            final(self)@ == (GraphStateView { query_output_time: q@, ..old(self)@ }),
    {
        self.query_output_time = q;
    }

    /// The graph this context evaluates.
    pub fn get_graph_id(&self) -> (g: GraphId)
        ensures
            g == self@.graph_id,
    {
        self.graph_id
    }
}

impl<S: Clone, D: Clone, U: Clone, R: Clone> Clone for GraphState<S, D, U, R> {
    /// Clones of every node state and cache, for the same graph.
    fn clone(&self) -> (r: Self)
        ensures
            self.wf() ==> r.wf() && r@.is_clone_of(self@),
    {
        GraphState {
            node_states: self.node_states.clone(),
            node_caches: self.node_caches.clone(),
            query_output_time: self.query_output_time.clone(),
            graph_id: self.graph_id,
        }
    }
}

/// Ending a frame keeps the graph and the query time as they were, keeps the set of nodes
/// with state, commits each node's state, and drops every cache.
pub proof fn lemma_next_frame_keeps_query_time<S, D, U, R>(v: GraphStateView<S, D, U, R>, n: NodeId)
    ensures
        v.after_next_frame().query_output_time == v.query_output_time,
        v.after_next_frame().graph_id == v.graph_id,
        v.after_next_frame().node_caches.dom() == Set::<NodeId>::empty(),
        v.after_next_frame().node_states.dom() == v.node_states.dom(),
        v.node_states.contains_key(n) ==> v.after_next_frame().node_states[n]
            == v.node_states[n].after_next_frame(),
{
}

/// A fresh context for a graph holds no node state, no cache, and no query time, and
/// evaluates that graph.
pub proof fn lemma_fresh_context_holds_nothing<S, D, U, R>(g: GraphId, key: StateKey)
    ensures
        GraphStateView::<S, D, U, R>::fresh(g).node_states.dom() == Set::<NodeId>::empty(),
        GraphStateView::<S, D, U, R>::fresh(g).node_caches.dom() == Set::<NodeId>::empty(),
        GraphStateView::<S, D, U, R>::fresh(g).query_output_time is Unset,
        GraphStateView::<S, D, U, R>::fresh(g).query_output_time.get(key) is None,
        GraphStateView::<S, D, U, R>::fresh(g).graph_id == g,
{
}

/// A clone of a context evaluates the same graph, holds state and caches for the same
/// nodes, and answers the query time for every key as the original does.
pub proof fn lemma_context_clone_answers_alike<S: Clone, D: Clone, U: Clone, R: Clone>(
    a: GraphStateView<S, D, U, R>,
    b: GraphStateView<S, D, U, R>,
    key: StateKey,
)
    requires
        b.is_clone_of(a),
    ensures
        b.graph_id == a.graph_id,
        b.node_states.dom() == a.node_states.dom(),
        b.node_caches.dom() == a.node_caches.dom(),
        (b.query_output_time.get(key) is Some) == (a.query_output_time.get(key) is Some),
        a.query_output_time.get(key) is Some ==> cloned(
            a.query_output_time.get(key)->0,
            b.query_output_time.get(key)->0,
        ),
{
    lemma_clone_answers_alike(a.query_output_time, b.query_output_time, key);
}

} // verus!
