use crate::errors::{GraphError, SourcePin, TargetPin};
use crate::ids::{NodeId, PinId, StateKey};
use crate::keyed_map::{map_cloned, KeyedMap};
use crate::platform::{
    key_set_clone, key_set_contains, key_set_entries, key_set_insert, key_set_new, KeySet,
};
use vstd::prelude::*;

verus! {

/// What one node's cache holds for the current frame, by evaluation key: output data by
/// pin, the forward time update, time updates sent back to input pins, the duration, and
/// whether the node's update has started and has completed.
pub struct NodeCacheView<D, U, R> {
    pub output_data: Map<(StateKey, Seq<char>), D>,
    pub output_time_update: Map<StateKey, U>,
    pub input_time_updates: Map<(StateKey, Seq<char>), U>,
    pub duration: Map<StateKey, R>,
    pub update_started: Set<StateKey>,
    pub updated: Set<StateKey>,
}

impl<D, U, R> NodeCacheView<D, U, R> {
    /// Nothing cached.
    pub open spec fn empty() -> Self {
        NodeCacheView {
            output_data: Map::empty(),
            output_time_update: Map::empty(),
            input_time_updates: Map::empty(),
            duration: Map::empty(),
            update_started: Set::empty(),
            updated: Set::empty(),
        }
    }
}

impl<D: Clone, U: Clone, R: Clone> NodeCacheView<D, U, R> {
    /// `self` holds clones of what `other` holds.
    pub open spec fn is_clone_of(self, other: Self) -> bool {
        &&& map_cloned(other.output_data, self.output_data)
        &&& map_cloned(other.output_time_update, self.output_time_update)
        &&& map_cloned(other.input_time_updates, self.input_time_updates)
        &&& map_cloned(other.duration, self.duration)
        &&& self.update_started == other.update_started
        &&& self.updated == other.updated
    }
}

/// Every node of `b` holds clones of what the same node of `a` holds, and no other node is
/// in `b`.
pub open spec fn caches_cloned<D: Clone, U: Clone, R: Clone>(
    a: Map<NodeId, NodeCacheView<D, U, R>>,
    b: Map<NodeId, NodeCacheView<D, U, R>>,
) -> bool {
    &&& a.dom() == b.dom()
    &&& forall|n: NodeId| #[trigger] a.contains_key(n) ==> b[n].is_clone_of(a[n])
}

/// The values that one node computed during the current frame. `D` is the type of data
/// on pins, `U` that of time updates, `R` that of durations.
#[derive(Debug)]
pub struct NodeCache<D, U, R> {
    pub output_data: KeyedMap<(StateKey, PinId), D>,
    /// Time update coming from the "output time" pin.
    pub output_time_update: KeyedMap<StateKey, U>,
    /// Time updates sent back to nodes via "input time" pins.
    pub input_time_updates: KeyedMap<(StateKey, PinId), U>,
    pub duration: KeyedMap<StateKey, R>,
    /// Whether the node update is started.
    pub update_started: KeySet,
    /// Whether the node update is completed.
    pub updated: KeySet,
}

impl<D, U, R> View for NodeCache<D, U, R> {
    type V = NodeCacheView<D, U, R>;

    closed spec fn view(&self) -> NodeCacheView<D, U, R> {
        NodeCacheView {
            output_data: self.output_data@,
            output_time_update: self.output_time_update@,
            input_time_updates: self.input_time_updates@,
            duration: self.duration@,
            update_started: key_set_entries(self.update_started),
            updated: key_set_entries(self.updated),
        }
    }
}

impl<D, U, R> NodeCache<D, U, R> {
    pub closed spec fn wf(&self) -> bool {
        &&& self.output_data.wf()
        &&& self.output_time_update.wf()
        &&& self.input_time_updates.wf()
        &&& self.duration.wf()
    }

    /// A cache with nothing in it.
    pub fn new() -> (c: Self)
        ensures
            c.wf(),
            c@ == NodeCacheView::<D, U, R>::empty(),
    {
        NodeCache {
            output_data: KeyedMap::new(),
            output_time_update: KeyedMap::new(),
            input_time_updates: KeyedMap::new(),
            duration: KeyedMap::new(),
            update_started: key_set_new(),
            updated: key_set_new(),
        }
    }
}

/// The caches of all nodes of one graph context, for the current frame.
#[derive(Debug)]
pub struct NodeCaches<D, U, R> {
    caches: KeyedMap<NodeId, NodeCache<D, U, R>>,
}

spec fn cache_views<D, U, R>(m: Map<NodeId, NodeCache<D, U, R>>) -> Map<
    NodeId,
    NodeCacheView<D, U, R>,
> {
    m.map_values(|c: NodeCache<D, U, R>| c@)
}

impl<D, U, R> View for NodeCaches<D, U, R> {
    type V = Map<NodeId, NodeCacheView<D, U, R>>;

    closed spec fn view(&self) -> Map<NodeId, NodeCacheView<D, U, R>> {
        cache_views(self.caches@)
    }
}

impl<D, U, R> NodeCaches<D, U, R> {
    pub closed spec fn wf(&self) -> bool {
        &&& self.caches.wf()
        &&& forall|n: NodeId| #[trigger] self.caches@.contains_key(n) ==> self.caches@[n].wf()
    }

    /// The cache of `node_id` as the setters start from: its current one, or an empty one.
    pub open spec fn base(m: Map<NodeId, NodeCacheView<D, U, R>>, node_id: NodeId) -> NodeCacheView<
        D,
        U,
        R,
    > {
        if m.contains_key(node_id) {
            m[node_id]
        } else {
            NodeCacheView::empty()
        }
    }

    /// No node has a cache.
    pub fn new() -> (c: Self)
        ensures
            c.wf(),
            c@ == Map::<NodeId, NodeCacheView<D, U, R>>::empty(),
    {
        let c = NodeCaches { caches: KeyedMap::new() };
        assert(c@ =~= Map::<NodeId, NodeCacheView<D, U, R>>::empty());
        c
    }

    /// Ends the frame: every cached value is dropped.
    pub fn next_frame(&mut self)
        ensures
            final(self).wf(),
            final(self)@ == Map::<NodeId, NodeCacheView<D, U, R>>::empty(),
    {
        self.caches.clear();
        assert(self@ =~= Map::<NodeId, NodeCacheView<D, U, R>>::empty());
    }

    /// The cache of `node_id`, made empty first if the node has none.
    fn cache_mut(&mut self, node_id: NodeId) -> (r: &mut NodeCache<D, U, R>)
        requires
            old(self).wf(),
        ensures
            r.wf(),
            r@ == Self::base(old(self)@, node_id),
            final(r).wf() ==> final(self).wf(),
            final(self)@ == old(self)@.insert(node_id, final(r)@),
    {
        let ghost before = self.caches@;
        if !self.caches.contains_key(&node_id) {
            self.caches.insert(node_id, NodeCache::new());
        }
        proof {
            let mid = self.caches@;
            assert forall|x: NodeCache<D, U, R>| #[trigger] cache_views(mid.insert(node_id, x))
                == cache_views(before).insert(node_id, x@) by {
                assert(cache_views(mid.insert(node_id, x)) =~= cache_views(before).insert(
                    node_id,
                    x@,
                ));
            }
        }
        self.caches.get_mut(&node_id)
    }

    /// Sets the duration of `node_id` under `key`.
    pub fn set_duration(&mut self, node_id: NodeId, key: StateKey, duration: R)
        requires
            old(self).wf(),
        ensures
            final(self).wf(),
            ({
                let b = Self::base(old(self)@, node_id);
                final(self)@ == old(self)@.insert(
                    node_id,
                    NodeCacheView { duration: b.duration.insert(key, duration), ..b },
                )
            }),
    {
        let c = self.cache_mut(node_id);
        c.duration.insert(key, duration);
    }

    /// Sets the data on output pin `pin` of `node_id` under `key`.
    pub fn set_output_data(&mut self, node_id: NodeId, key: StateKey, pin: PinId, data: D)
        requires
            old(self).wf(),
        ensures
            final(self).wf(),
            ({
                let b = Self::base(old(self)@, node_id);
                final(self)@ == old(self)@.insert(
                    node_id,
                    NodeCacheView { output_data: b.output_data.insert((key, pin@), data), ..b },
                )
            }),
    {
        let c = self.cache_mut(node_id);
        c.output_data.insert((key, pin), data);
    }

    /// Sets the forward time update of `node_id` under `key`.
    pub fn set_output_time_update(&mut self, node_id: NodeId, key: StateKey, update: U)
        requires
            old(self).wf(),
        ensures
            final(self).wf(),
            ({
                let b = Self::base(old(self)@, node_id);
                final(self)@ == old(self)@.insert(
                    node_id,
                    NodeCacheView { output_time_update: b.output_time_update.insert(key, update), ..b },
                )
            }),
    {
        let c = self.cache_mut(node_id);
        c.output_time_update.insert(key, update);
    }

    /// Sets the time update sent back to input pin `pin` of `node_id` under `key`.
    pub fn set_input_time_update(&mut self, node_id: NodeId, key: StateKey, pin: PinId, update: U)
        requires
            old(self).wf(),
        ensures
            final(self).wf(),
            ({
                let b = Self::base(old(self)@, node_id);
                final(self)@ == old(self)@.insert(
                    node_id,
                    NodeCacheView {
                        input_time_updates: b.input_time_updates.insert((key, pin@), update),
                        ..b
                    },
                )
            }),
    {
        let c = self.cache_mut(node_id);
        c.input_time_updates.insert((key, pin), update);
    }

    /// Whether the update of `node_id` under `key` has completed.
    pub fn is_updated(&self, node_id: NodeId, key: StateKey) -> (b: bool)
        requires
            self.wf(),
        ensures
            b == (self@.contains_key(node_id) && self@[node_id].updated.contains(key)),
    {
        match self.caches.get(&node_id) {
            Some(c) => key_set_contains(&c.updated, &key),
            None => false,
        }
    }

    /// Records that the update of `node_id` under `key` has completed.
    pub fn mark_updated(&mut self, node_id: NodeId, key: StateKey)
        requires
            old(self).wf(),
        ensures
            final(self).wf(),
            ({
                let b = Self::base(old(self)@, node_id);
                final(self)@ == old(self)@.insert(
                    node_id,
                    NodeCacheView { updated: b.updated.insert(key), ..b },
                )
            }),
    {
        let c = self.cache_mut(node_id);
        key_set_insert(&mut c.updated, key);
    }

    /// Whether the update of `node_id` under `key` has started.
    pub fn is_update_started(&self, node_id: NodeId, key: StateKey) -> (b: bool)
        requires
            self.wf(),
        ensures
            b == (self@.contains_key(node_id) && self@[node_id].update_started.contains(key)),
    {
        match self.caches.get(&node_id) {
            Some(c) => key_set_contains(&c.update_started, &key),
            None => false,
        }
    }

    /// Records that the update of `node_id` under `key` has started.
    pub fn mark_update_started(&mut self, node_id: NodeId, key: StateKey)
        requires
            old(self).wf(),
        ensures
            final(self).wf(),
            ({
                let b = Self::base(old(self)@, node_id);
                final(self)@ == old(self)@.insert(
                    node_id,
                    NodeCacheView { update_started: b.update_started.insert(key), ..b },
                )
            }),
    {
        let c = self.cache_mut(node_id);
        key_set_insert(&mut c.update_started, key);
    }
}

impl<D, U, R> Default for NodeCache<D, U, R> {
    fn default() -> (c: Self)
        ensures
            c.wf(),
            c@ == NodeCacheView::<D, U, R>::empty(),
    {
        NodeCache::new()
    }
}

impl<D, U, R> Default for NodeCaches<D, U, R> {
    fn default() -> (c: Self)
        ensures
            c.wf(),
            c@ == Map::<NodeId, NodeCacheView<D, U, R>>::empty(),
    {
        NodeCaches::new()
    }
}

impl<D: Clone, U: Clone, R: Clone> NodeCaches<D, U, R> {
    /// A clone of the duration of `node_id` under `key`; `DurationMissing` naming the
    /// node's time output if there is none.
    pub fn get_duration(&self, node_id: NodeId, key: StateKey) -> (r: Result<R, GraphError>)
        requires
            self.wf(),
        ensures
            if self@.contains_key(node_id) && self@[node_id].duration.contains_key(key) {
                r matches Ok(d) && cloned(self@[node_id].duration[key], d)
            } else {
                r == Err::<R, GraphError>(GraphError::DurationMissing(SourcePin::NodeTime(node_id)))
            },
    {
        match self.caches.get(&node_id) {
            Some(c) => match c.duration.get(&key) {
                Some(d) => Ok(d.clone()),
                None => Err(GraphError::DurationMissing(SourcePin::NodeTime(node_id))),
            },
            None => Err(GraphError::DurationMissing(SourcePin::NodeTime(node_id))),
        }
    }

    /// A clone of the data on output pin `pin` of `node_id` under `key`, if any.
    pub fn get_output_data(&self, node_id: NodeId, key: StateKey, pin: PinId) -> (r: Option<D>)
        requires
            self.wf(),
        ensures
            if self@.contains_key(node_id) && self@[node_id].output_data.contains_key((key, pin@)) {
                r matches Some(d) && cloned(self@[node_id].output_data[(key, pin@)], d)
            } else {
                r is None
            },
    {
        match self.caches.get(&node_id) {
            Some(c) => match c.output_data.get(&(key, pin)) {
                Some(d) => Some(d.clone()),
                None => None,
            },
            None => None,
        }
    }

    /// A clone of the forward time update of `node_id` under `key`;
    /// `TimeUpdateMissingFwd` naming the node's time output if there is none.
    pub fn get_output_time_update(&self, node_id: NodeId, key: StateKey) -> (r: Result<
        U,
        GraphError,
    >)
        requires
            self.wf(),
        ensures
            if self@.contains_key(node_id) && self@[node_id].output_time_update.contains_key(key) {
                r matches Ok(u) && cloned(self@[node_id].output_time_update[key], u)
            } else {
                r == Err::<U, GraphError>(
                    GraphError::TimeUpdateMissingFwd(SourcePin::NodeTime(node_id)),
                )
            },
    {
        match self.caches.get(&node_id) {
            Some(c) => match c.output_time_update.get(&key) {
                Some(u) => Ok(u.clone()),
                None => Err(GraphError::TimeUpdateMissingFwd(SourcePin::NodeTime(node_id))),
            },
            None => Err(GraphError::TimeUpdateMissingFwd(SourcePin::NodeTime(node_id))),
        }
    }

    /// A clone of the time update sent back to input pin `pin` of `node_id` under `key`;
    /// `TimeUpdateMissingBack` naming that pin if there is none.
    pub fn get_input_time_update(&self, node_id: NodeId, key: StateKey, pin: PinId) -> (r: Result<
        U,
        GraphError,
    >)
        requires
            self.wf(),
        ensures
            if self@.contains_key(node_id) && self@[node_id].input_time_updates.contains_key(
                (key, pin@),
            ) {
                r matches Ok(u) && cloned(self@[node_id].input_time_updates[(key, pin@)], u)
            } else {
                r == Err::<U, GraphError>(
                    GraphError::TimeUpdateMissingBack(TargetPin::NodeTime(node_id, pin)),
                )
            },
    {
        let lookup = (key, pin.clone());
        match self.caches.get(&node_id) {
            Some(c) => match c.input_time_updates.get(&lookup) {
                Some(u) => Ok(u.clone()),
                None => Err(GraphError::TimeUpdateMissingBack(TargetPin::NodeTime(node_id, pin))),
            },
            None => Err(GraphError::TimeUpdateMissingBack(TargetPin::NodeTime(node_id, pin))),
        }
    }
}

impl<D: Clone, U: Clone, R: Clone> Clone for NodeCache<D, U, R> {
    /// Clones of every cached value.
    fn clone(&self) -> (r: Self)
        ensures
            self.wf() ==> r.wf() && r@.is_clone_of(self@),
    {
        NodeCache {
            output_data: self.output_data.clone(),
            output_time_update: self.output_time_update.clone(),
            input_time_updates: self.input_time_updates.clone(),
            duration: self.duration.clone(),
            update_started: key_set_clone(&self.update_started),
            updated: key_set_clone(&self.updated),
        }
    }
}

/// A node cache that is a clone of a well-formed one is well formed and holds clones.
proof fn lemma_node_cache_cloned<D: Clone, U: Clone, R: Clone>(a: NodeCache<D, U, R>, b: NodeCache<D, U, R>)
    requires
        cloned(a, b),
        a.wf(),
    ensures
        b.wf(),
        b@.is_clone_of(a@),
{
}

impl<D: Clone, U: Clone, R: Clone> Clone for NodeCaches<D, U, R> {
    /// Every node's cache cloned.
    fn clone(&self) -> (r: Self)
        ensures
            self.wf() ==> r.wf() && caches_cloned(self@, r@),
    {
        let r = NodeCaches { caches: self.caches.clone() };
        proof {
            if self.wf() {
                assert forall|n: NodeId| #[trigger] r.caches@.contains_key(n) implies r.caches@[n].wf() by {
                    lemma_node_cache_cloned(self.caches@[n], r.caches@[n]);
                }
                assert forall|n: NodeId| #[trigger] self@.contains_key(n) implies r@[n].is_clone_of(self@[n]) by {
                    lemma_node_cache_cloned(self.caches@[n], r.caches@[n]);
                }
                assert(self@.dom() =~= r@.dom());
            }
        }
        r
    }
}

/// Marking an update as completed makes it read as completed, and changes what no other
/// node or key reads.
pub proof fn lemma_mark_updated_reads_back<D, U, R>(
    m: Map<NodeId, NodeCacheView<D, U, R>>,
    node: NodeId,
    key: StateKey,
    node2: NodeId,
    key2: StateKey,
)
    ensures
        ({
            let b = NodeCaches::<D, U, R>::base(m, node);
            let m2 = m.insert(node, NodeCacheView { updated: b.updated.insert(key), ..b });
            &&& m2.contains_key(node) && m2[node].updated.contains(key)
            &&& (node2 != node || key2 != key) ==> (m2.contains_key(node2) && m2[node2].updated.contains(
                key2,
            )) == (m.contains_key(node2) && m[node2].updated.contains(key2))
        }),
{
}

/// Data set on an output pin is what that pin reads afterwards, and no other node, key or
/// pin reads differently.
pub proof fn lemma_output_data_reads_back<D, U, R>(
    m: Map<NodeId, NodeCacheView<D, U, R>>,
    node: NodeId,
    key: StateKey,
    pin: Seq<char>,
    data: D,
    node2: NodeId,
    key2: StateKey,
    pin2: Seq<char>,
)
    ensures
        ({
            let b = NodeCaches::<D, U, R>::base(m, node);
            let m2 = m.insert(
                node,
                NodeCacheView { output_data: b.output_data.insert((key, pin), data), ..b },
            );
            &&& m2.contains_key(node) && m2[node].output_data.contains_key((key, pin))
            &&& m2[node].output_data[(key, pin)] == data
            &&& (node2 != node || key2 != key || pin2 != pin) ==> {
                &&& (m2.contains_key(node2) && m2[node2].output_data.contains_key((key2, pin2))) == (
                m.contains_key(node2) && m[node2].output_data.contains_key((key2, pin2)))
                &&& m.contains_key(node2) && m[node2].output_data.contains_key((key2, pin2))
                    ==> m2[node2].output_data[(key2, pin2)] == m[node2].output_data[(key2, pin2)]
            }
        }),
{
}

/// A duration set for a node under a key is what that node and key read afterwards, and no
/// other node or key reads differently.
pub proof fn lemma_duration_reads_back<D, U, R>(
    m: Map<NodeId, NodeCacheView<D, U, R>>,
    node: NodeId,
    key: StateKey,
    duration: R,
    node2: NodeId,
    key2: StateKey,
)
    ensures
        ({
            let b = NodeCaches::<D, U, R>::base(m, node);
            let m2 = m.insert(node, NodeCacheView { duration: b.duration.insert(key, duration), ..b });
            &&& m2.contains_key(node) && m2[node].duration.contains_key(key)
            &&& m2[node].duration[key] == duration
            &&& (node2 != node || key2 != key) ==> {
                &&& (m2.contains_key(node2) && m2[node2].duration.contains_key(key2)) == (
                m.contains_key(node2) && m[node2].duration.contains_key(key2))
                &&& m.contains_key(node2) && m[node2].duration.contains_key(key2)
                    ==> m2[node2].duration[key2] == m[node2].duration[key2]
            }
        }),
{
}

/// A forward time update set for a node under a key is what that node and key read
/// afterwards, and no other node or key reads differently.
pub proof fn lemma_output_time_update_reads_back<D, U, R>(
    m: Map<NodeId, NodeCacheView<D, U, R>>,
    node: NodeId,
    key: StateKey,
    update: U,
    node2: NodeId,
    key2: StateKey,
)
    ensures
        ({
            let b = NodeCaches::<D, U, R>::base(m, node);
            let m2 = m.insert(
                node,
                NodeCacheView { output_time_update: b.output_time_update.insert(key, update), ..b },
            );
            &&& m2.contains_key(node) && m2[node].output_time_update.contains_key(key)
            &&& m2[node].output_time_update[key] == update
            &&& (node2 != node || key2 != key) ==> {
                &&& (m2.contains_key(node2) && m2[node2].output_time_update.contains_key(key2)) == (
                m.contains_key(node2) && m[node2].output_time_update.contains_key(key2))
                &&& m.contains_key(node2) && m[node2].output_time_update.contains_key(key2)
                    ==> m2[node2].output_time_update[key2] == m[node2].output_time_update[key2]
            }
        }),
{
}

/// A time update sent back to an input pin of a node under a key is what that pin reads
/// afterwards, and no other node, key or pin reads differently.
pub proof fn lemma_input_time_update_reads_back<D, U, R>(
    m: Map<NodeId, NodeCacheView<D, U, R>>,
    node: NodeId,
    key: StateKey,
    pin: Seq<char>,
    update: U,
    node2: NodeId,
    key2: StateKey,
    pin2: Seq<char>,
)
    ensures
        ({
            let b = NodeCaches::<D, U, R>::base(m, node);
            let m2 = m.insert(
                node,
                NodeCacheView { input_time_updates: b.input_time_updates.insert((key, pin), update), ..b },
            );
            &&& m2.contains_key(node) && m2[node].input_time_updates.contains_key((key, pin))
            &&& m2[node].input_time_updates[(key, pin)] == update
            &&& (node2 != node || key2 != key || pin2 != pin) ==> {
                &&& (m2.contains_key(node2) && m2[node2].input_time_updates.contains_key((key2, pin2)))
                    == (m.contains_key(node2) && m[node2].input_time_updates.contains_key(
                    (key2, pin2),
                ))
                &&& m.contains_key(node2) && m[node2].input_time_updates.contains_key((key2, pin2))
                    ==> m2[node2].input_time_updates[(key2, pin2)]
                    == m[node2].input_time_updates[(key2, pin2)]
            }
        }),
{
}


/// A cache made empty holds nothing: no data, no time update, no duration, and no update
/// marked started or completed.
pub proof fn lemma_empty_cache_holds_nothing<D, U, R>()
    ensures
        NodeCacheView::<D, U, R>::empty().output_data.dom() == Set::<(StateKey, Seq<char>)>::empty(),
        NodeCacheView::<D, U, R>::empty().output_time_update.dom() == Set::<StateKey>::empty(),
        NodeCacheView::<D, U, R>::empty().input_time_updates.dom() == Set::<(StateKey, Seq<char>)>::empty(),
        NodeCacheView::<D, U, R>::empty().duration.dom() == Set::<StateKey>::empty(),
        NodeCacheView::<D, U, R>::empty().update_started == Set::<StateKey>::empty(),
        NodeCacheView::<D, U, R>::empty().updated == Set::<StateKey>::empty(),
{
}

/// A setter starts from the node's current cache unchanged, or, for a node without one,
/// from a cache holding nothing; so a setter changes only the field it sets, and a cache
/// made by a setter marks no update started or completed other than the one it records.
pub proof fn lemma_setters_start_from_current_cache<D, U, R>(
    m: Map<NodeId, NodeCacheView<D, U, R>>,
    node: NodeId,
)
    ensures
        m.contains_key(node) ==> NodeCaches::<D, U, R>::base(m, node) == m[node],
        !m.contains_key(node) ==> {
            let b = NodeCaches::<D, U, R>::base(m, node);
            &&& b.output_data.dom() == Set::<(StateKey, Seq<char>)>::empty()
            &&& b.output_time_update.dom() == Set::<StateKey>::empty()
            &&& b.input_time_updates.dom() == Set::<(StateKey, Seq<char>)>::empty()
            &&& b.duration.dom() == Set::<StateKey>::empty()
            &&& b.update_started == Set::<StateKey>::empty()
            &&& b.updated == Set::<StateKey>::empty()
        },
{
}

/// Recording output data keeps which updates of that node are marked started and
/// completed; so does recording a duration or a time update.
pub proof fn lemma_data_setters_keep_update_marks<D, U, R>(
    m: Map<NodeId, NodeCacheView<D, U, R>>,
    node: NodeId,
    key: StateKey,
    pin: Seq<char>,
    data: D,
    update: U,
    duration: R,
    k2: StateKey,
)
    ensures
        ({
            let b = NodeCaches::<D, U, R>::base(m, node);
            let started = m.contains_key(node) && m[node].update_started.contains(k2);
            let done = m.contains_key(node) && m[node].updated.contains(k2);
            let m1 = m.insert(node, NodeCacheView { output_data: b.output_data.insert((key, pin), data), ..b });
            let m2 = m.insert(node, NodeCacheView { duration: b.duration.insert(key, duration), ..b });
            let m3 = m.insert(node, NodeCacheView { output_time_update: b.output_time_update.insert(key, update), ..b });
            let m4 = m.insert(node, NodeCacheView { input_time_updates: b.input_time_updates.insert((key, pin), update), ..b });
            &&& m1[node].update_started.contains(k2) == started && m1[node].updated.contains(k2) == done
            &&& m2[node].update_started.contains(k2) == started && m2[node].updated.contains(k2) == done
            &&& m3[node].update_started.contains(k2) == started && m3[node].updated.contains(k2) == done
            &&& m4[node].update_started.contains(k2) == started && m4[node].updated.contains(k2) == done
        }),
{
}

/// Marking an update completed keeps which updates are marked started, and marking one
/// started keeps which are marked completed.
pub proof fn lemma_marks_are_independent<D, U, R>(
    m: Map<NodeId, NodeCacheView<D, U, R>>,
    node: NodeId,
    key: StateKey,
    k2: StateKey,
)
    ensures
        ({
            let b = NodeCaches::<D, U, R>::base(m, node);
            let started = m.contains_key(node) && m[node].update_started.contains(k2);
            let done = m.contains_key(node) && m[node].updated.contains(k2);
            &&& m.insert(node, NodeCacheView { updated: b.updated.insert(key), ..b })[node].update_started.contains(
                k2,
            ) == started
            &&& m.insert(node, NodeCacheView { update_started: b.update_started.insert(key), ..b })[node].updated.contains(
                k2,
            ) == done
            &&& m.insert(node, NodeCacheView { update_started: b.update_started.insert(key), ..b })[node].update_started.contains(
                k2,
            ) == (k2 == key || started)
        }),
{
}

/// A clone of a node's cache answers every read as the original does, with clones of its
/// values.
pub proof fn lemma_cache_clone_answers_alike<D: Clone, U: Clone, R: Clone>(
    a: NodeCacheView<D, U, R>,
    b: NodeCacheView<D, U, R>,
    key: StateKey,
    pin: Seq<char>,
)
    requires
        b.is_clone_of(a),
    ensures
        b.output_data.contains_key((key, pin)) == a.output_data.contains_key((key, pin)),
        a.output_data.contains_key((key, pin)) ==> cloned(a.output_data[(key, pin)], b.output_data[(key, pin)]),
        b.output_time_update.contains_key(key) == a.output_time_update.contains_key(key),
        a.output_time_update.contains_key(key) ==> cloned(a.output_time_update[key], b.output_time_update[key]),
        b.input_time_updates.contains_key((key, pin)) == a.input_time_updates.contains_key((key, pin)),
        a.input_time_updates.contains_key((key, pin)) ==> cloned(
            a.input_time_updates[(key, pin)],
            b.input_time_updates[(key, pin)],
        ),
        b.duration.contains_key(key) == a.duration.contains_key(key),
        a.duration.contains_key(key) ==> cloned(a.duration[key], b.duration[key]),
        b.update_started.contains(key) == a.update_started.contains(key),
        b.updated.contains(key) == a.updated.contains(key),
{
}

/// Cloned caches hold caches for the same nodes, and each node answers every read as the
/// original does.
pub proof fn lemma_caches_clone_answers_alike<D: Clone, U: Clone, R: Clone>(
    a: Map<NodeId, NodeCacheView<D, U, R>>,
    b: Map<NodeId, NodeCacheView<D, U, R>>,
    n: NodeId,
    key: StateKey,
)
    requires
        caches_cloned(a, b),
    ensures
        b.contains_key(n) == a.contains_key(n),
        a.contains_key(n) ==> b[n].is_clone_of(a[n]),
        a.contains_key(n) ==> b[n].updated.contains(key) == a[n].updated.contains(key),
        a.contains_key(n) ==> b[n].update_started.contains(key) == a[n].update_started.contains(key),
        a.contains_key(n) ==> b[n].duration.contains_key(key) == a[n].duration.contains_key(key),
{
}

} // verus!
