use crate::errors::GraphError;
use crate::ids::{NodeId, StateKey};
use crate::keyed_map::{map_cloned, KeyedMap};
use crate::platform::{
    time_entries, time_map_clear, time_map_clone, time_map_get, time_map_insert, time_map_new,
    TimeMap,
};
use vstd::prelude::*;

verus! {

/// A value that a node keeps between frames. Any type that can be cloned is one; a boxed
/// copy is what a new evaluation key starts from.
pub trait GraphStateType: Clone {
    fn clone_box(&self) -> (r: Box<Self>)
        ensures
            cloned(*self, *r),
    ;
}

impl<T: Clone> GraphStateType for T {
    fn clone_box(&self) -> (r: Box<T>) {
        Box::new(self.clone())
    }
}

/// What a node's state holds: the state committed at the end of the last frame, the
/// states being built in this frame by evaluation key, and the same two for the node's
/// time. Times are IEEE-754 `f32` bit patterns, stored and returned unchanged.
pub struct NodeStateView<S> {
    pub last_state: Option<S>,
    pub upcoming_state: Map<StateKey, S>,
    pub last_time: u32,
    pub upcoming_time: Map<StateKey, u32>,
}

impl<S> NodeStateView<S> {
    /// Nothing stored yet; the last time is 0.0.
    pub open spec fn empty() -> Self {
        NodeStateView {
            last_state: None,
            upcoming_state: Map::empty(),
            last_time: 0,
            upcoming_time: Map::empty(),
        }
    }

    /// The state read under `key`: the one being built for it, else the last committed one.
    pub open spec fn state(self, key: StateKey) -> Option<S> {
        if self.upcoming_state.contains_key(key) {
            Some(self.upcoming_state[key])
        } else {
            self.last_state
        }
    }

    /// The time read under `key`: the one set for it this frame, else the last committed one.
    pub open spec fn time(self, key: StateKey) -> u32 {
        if self.upcoming_time.contains_key(key) {
            self.upcoming_time[key]
        } else {
            self.last_time
        }
    }

    /// The frame is over: what was built under the default key is committed, the rest
    /// is dropped.
    pub open spec fn after_next_frame(self) -> Self {
        NodeStateView {
            last_state: if self.upcoming_state.contains_key(StateKey::Default) {
                Some(self.upcoming_state[StateKey::Default])
            } else {
                self.last_state
            },
            upcoming_state: Map::empty(),
            last_time: if self.upcoming_time.contains_key(StateKey::Default) {
                self.upcoming_time[StateKey::Default]
            } else {
                self.last_time
            },
            upcoming_time: Map::empty(),
        }
    }
}

impl<S: Clone> NodeStateView<S> {
    /// `self` holds clones of what `other` holds.
    pub open spec fn is_clone_of(self, other: Self) -> bool {
        &&& match (other.last_state, self.last_state) {
            (None, None) => true,
            (Some(a), Some(b)) => cloned(a, b),
            _ => false,
        }
        &&& map_cloned(other.upcoming_state, self.upcoming_state)
        &&& self.last_time == other.last_time
        &&& self.upcoming_time == other.upcoming_time
    }
}

/// Every node of `b` holds clones of what the same node of `a` holds, and no other node is
/// in `b`.
pub open spec fn states_cloned<S: Clone>(a: Map<NodeId, NodeStateView<S>>, b: Map<NodeId, NodeStateView<S>>) -> bool {
    &&& a.dom() == b.dom()
    &&& forall|n: NodeId| #[trigger] a.contains_key(n) ==> b[n].is_clone_of(a[n])
}

/// The state that one node keeps across frames, per evaluation key.
#[derive(Debug)]
pub struct NodeState<S> {
    last_state: Option<S>,
    upcoming_state: KeyedMap<StateKey, S>,
    last_time: u32,
    upcoming_time: TimeMap,
}

impl<S> View for NodeState<S> {
    type V = NodeStateView<S>;

    closed spec fn view(&self) -> NodeStateView<S> {
        NodeStateView {
            last_state: self.last_state,
            upcoming_state: self.upcoming_state@,
            last_time: self.last_time,
            upcoming_time: time_entries(self.upcoming_time),
        }
    }
}

impl<S> NodeState<S> {
    pub closed spec fn wf(&self) -> bool {
        self.upcoming_state.wf()
    }

    /// The keys under which states are being built, in the order in which
    /// `get_all_upcoming_states` lists them.
    pub closed spec fn upcoming_keys(&self) -> Seq<StateKey> {
        self.upcoming_state.key_seq()
    }

    /// A node state with nothing stored.
    pub fn new() -> (n: Self)
        ensures
            n.wf(),
            n@ == NodeStateView::<S>::empty(),
    {
        let n = NodeState {
            last_state: None,
            upcoming_state: KeyedMap::new(),
            last_time: 0,
            upcoming_time: time_map_new(),
        };
        assert(time_entries(n.upcoming_time) =~= Map::<StateKey, u32>::empty());
        n
    }

    /// Ends the frame: the state and the time set under the default key become the last
    /// ones (the state is moved, not cloned), and everything set this frame is dropped.
    pub fn next_frame(&mut self)
        requires
            old(self).wf(),
        ensures
            final(self).wf(),
            final(self)@ == old(self)@.after_next_frame(),
    {
        if let Some(next_state) = self.upcoming_state.remove(&StateKey::Default) {
            self.last_state = Some(next_state);
        }
        if let Some(next_time) = time_map_get(&self.upcoming_time, &StateKey::Default) {
            self.last_time = next_time;
        }
        self.upcoming_state.clear();
        time_map_clear(&mut self.upcoming_time);
        assert(time_entries(self.upcoming_time) =~= Map::<StateKey, u32>::empty());
    }

    /// Every state being built this frame, one per key, in the order of `upcoming_keys`.
    pub fn get_all_upcoming_states(&self) -> (r: Result<Vec<&S>, GraphError>)
        requires
            self.wf(),
        ensures
            self.upcoming_keys().no_duplicates(),
            self.upcoming_keys().to_set() == self@.upcoming_state.dom(),
            r matches Ok(v) && v@.len() == self.upcoming_keys().len() && forall|i: int|
                0 <= i < v@.len() ==> *#[trigger] v@[i] == self@.upcoming_state[self.upcoming_keys()[i]],
    {
        proof {
            self.upcoming_state.lemma_key_seq();
        }
        Ok(self.upcoming_state.values())
    }

    /// The state under `key`: the one being built for it this frame, else the last
    /// committed one, else `MissingStateValue`.
    pub fn get_state(&self, key: StateKey) -> (r: Result<&S, GraphError>)
        requires
            self.wf(),
        ensures
            match self@.state(key) {
                Some(v) => r matches Ok(x) && *x == v,
                None => r == Err::<&S, GraphError>(GraphError::MissingStateValue),
            },
    {
        match self.upcoming_state.get(&key) {
            Some(s) => Ok(s),
            None => match &self.last_state {
                Some(s) => Ok(s),
                None => Err(GraphError::MissingStateValue),
            },
        }
    }

    /// The time under `key`: the one set for it this frame, else the last committed one.
    pub fn get_time(&self, key: StateKey) -> (t: u32)
        ensures
            t == self@.time(key),
    {
        match time_map_get(&self.upcoming_time, &key) {
            Some(t) => t,
            None => self.last_time,
        }
    }

    /// Sets the time under `key` for this frame.
    pub fn set_time(&mut self, key: StateKey, time: u32)
        requires
            old(self).wf(),
        ensures
            final(self).wf(),
            final(self)@ == (NodeStateView {
                upcoming_time: old(self)@.upcoming_time.insert(key, time),
                ..old(self)@
            }),
    {
        time_map_insert(&mut self.upcoming_time, key, time);
    }

    /// The time committed at the end of the last frame.
    pub fn get_last_time(&self) -> (t: u32)
        ensures
            t == self@.last_time,
    {
        self.last_time
    }
}

impl<S> Default for NodeState<S> {
    fn default() -> (n: Self)
        ensures
            n.wf(),
            n@ == NodeStateView::<S>::empty(),
    {
        NodeState::new()
    }
}

impl<S: GraphStateType> NodeState<S> {
    /// The state being built under `key`, made first if there is none: as a clone of the
    /// last committed state, or, if there is none either, by calling `default`.
    pub fn get_mut_or_insert_with<F: FnOnce() -> S>(&mut self, key: StateKey, default: F) -> (r:
        Result<&mut S, GraphError>)
        requires
            old(self).wf(),
            !old(self)@.upcoming_state.contains_key(key) && old(self)@.last_state is None ==> default.requires(()),
        ensures
            final(self).wf(),
            match r {
                Ok(m) => {
                    &&& (if old(self)@.upcoming_state.contains_key(key) {
                        *m == old(self)@.upcoming_state[key]
                    } else if old(self)@.last_state is Some {
                        cloned(old(self)@.last_state->0, *m)
                    } else {
                        default.ensures((), *m)
                    })
                    &&& final(self)@ == (NodeStateView {
                        upcoming_state: old(self)@.upcoming_state.insert(key, *final(m)),
                        ..old(self)@
                    })
                },
                Err(_) => false,
            },
    {
        let ghost before = self@.upcoming_state;
        if !self.upcoming_state.contains_key(&key) {
            let value = match &self.last_state {
                Some(s) => *s.clone_box(),
                None => default(),
            };
            self.upcoming_state.insert(key, value);
        }
        proof {
            let mid = self@.upcoming_state;
            assert forall|x: S| #[trigger] mid.insert(key, x) == before.insert(key, x) by {
                assert(mid.insert(key, x) =~= before.insert(key, x));
            }
        }
        Ok(self.upcoming_state.get_mut(&key))
    }
}

/// The states of all nodes of one graph context.
#[derive(Debug)]
pub struct NodeStates<S> {
    states: KeyedMap<NodeId, NodeState<S>>,
}

impl<S> View for NodeStates<S> {
    type V = Map<NodeId, NodeStateView<S>>;

    closed spec fn view(&self) -> Map<NodeId, NodeStateView<S>> {
        views_of(self.states@)
    }
}

spec fn views_of<S>(m: Map<NodeId, NodeState<S>>) -> Map<NodeId, NodeStateView<S>> {
    m.map_values(|n: NodeState<S>| n@)
}

impl<S> NodeStates<S> {
    pub closed spec fn wf(&self) -> bool {
        &&& self.states.wf()
        &&& forall|n: NodeId| #[trigger] self.states@.contains_key(n) ==> self.states@[n].wf()
    }

    /// The keys under which states are being built for `node`, in the order in which
    /// `get_all_upcoming_states` lists them.
    pub closed spec fn upcoming_keys(&self, node: NodeId) -> Seq<StateKey> {
        self.states@[node].upcoming_keys()
    }

    /// No node has any state.
    pub fn new() -> (n: Self)
        ensures
            n.wf(),
            n@ == Map::<NodeId, NodeStateView<S>>::empty(),
    {
        let n = NodeStates { states: KeyedMap::new() };
        assert(n@ =~= Map::<NodeId, NodeStateView<S>>::empty());
        n
    }

    /// Ends the frame for every node (see [`NodeState::next_frame`]).
    pub fn next_frame(&mut self)
        requires
            old(self).wf(),
        ensures
            final(self).wf(),
            final(self)@ == old(self)@.map_values(|v: NodeStateView<S>| v.after_next_frame()),
    {
        let keys = self.states.keys();
        proof {
            self.states.lemma_key_seq();
        }
        let ghost ks = self.states.key_seq();
        let ghost orig = self.states@;
        let mut i: usize = 0;
        while i < keys.len()
            invariant
                self.wf(),
                keys@.map_values(|k: NodeId| k@) == ks,
                ks.no_duplicates(),
                forall|n: NodeId| #[trigger] orig.contains_key(n) <==> ks.contains(n),
                i <= keys@.len(),
                self.states@.dom() == orig.dom(),
                forall|n: NodeId|
                    #[trigger] self.states@.contains_key(n) ==> self.states@[n]@ == (if ks.take(
                        i as int,
                    ).contains(n) {
                        orig[n]@.after_next_frame()
                    } else {
                        orig[n]@
                    }),
            decreases keys@.len() - i,
        {
            let k = keys[i];
            assert(ks[i as int] == k);
            assert(self.states@.contains_key(k)) by {
                assert(ks.contains(k));
            }
            let ns = self.states.get_mut(&k);
            ns.next_frame();
            proof {
                assert forall|n: NodeId| #[trigger] self.states@.contains_key(n) implies self.states@[n]@ == (if ks.take(
                    (i + 1) as int,
                ).contains(n) {
                    orig[n]@.after_next_frame()
                } else {
                    orig[n]@
                }) by {
                    if n == k {
                        assert(ks.take((i + 1) as int)[i as int] == k);
                        assert(!ks.take(i as int).contains(k)) by {
                            if ks.take(i as int).contains(k) {
                                let j = choose|j: int| 0 <= j < i && ks.take(i as int)[j] == k;
                                assert(ks[j] == ks[i as int]);
                            }
                        }
                    } else {
                        let t1 = ks.take(i as int);
                        let t2 = ks.take((i + 1) as int);
                        assert(t2.contains(n) == t1.contains(n)) by {
                            if t2.contains(n) {
                                let j = choose|j: int| 0 <= j < t2.len() && t2[j] == n;
                                assert(t1[j] == n);
                            }
                            if t1.contains(n) {
                                let j = choose|j: int| 0 <= j < t1.len() && t1[j] == n;
                                assert(t2[j] == n);
                            }
                        }
                    }
                }
            }
            i += 1;
        }
        proof {
            assert(ks.take(i as int) =~= ks);
            assert(self@ =~= views_of(orig).map_values(|v: NodeStateView<S>| v.after_next_frame()));
        }
    }
    /// Every state being built this frame for `node_id`, one per key, in the order of
    /// `upcoming_keys`; `MissingStateValue` if the node has no state at all.
    pub fn get_all_upcoming_states(&self, node_id: NodeId) -> (r: Result<Vec<&S>, GraphError>)
        requires
            self.wf(),
        ensures
            !self@.contains_key(node_id) ==> r == Err::<Vec<&S>, GraphError>(
                GraphError::MissingStateValue,
            ),
            self@.contains_key(node_id) ==> {
                &&& self.upcoming_keys(node_id).no_duplicates()
                &&& self.upcoming_keys(node_id).to_set() == self@[node_id].upcoming_state.dom()
                &&& r matches Ok(v) && v@.len() == self.upcoming_keys(node_id).len() && forall|i: int|
                    0 <= i < v@.len() ==> *#[trigger] v@[i]
                        == self@[node_id].upcoming_state[self.upcoming_keys(node_id)[i]]
            },
    {
        match self.states.get(&node_id) {
            Some(n) => n.get_all_upcoming_states(),
            None => Err(GraphError::MissingStateValue),
        }
    }

    /// The state of `node_id` under `key` (see [`NodeState::get_state`]);
    /// `MissingStateValue` if the node has no state at all.
    pub fn get(&self, node_id: NodeId, key: StateKey) -> (r: Result<&S, GraphError>)
        requires
            self.wf(),
        ensures
            match (if self@.contains_key(node_id) {
                self@[node_id].state(key)
            } else {
                None
            }) {
                Some(v) => r matches Ok(x) && *x == v,
                None => r == Err::<&S, GraphError>(GraphError::MissingStateValue),
            },
    {
        match self.states.get(&node_id) {
            Some(n) => n.get_state(key),
            None => Err(GraphError::MissingStateValue),
        }
    }

    /// The time of `node_id` under `key` (see [`NodeState::get_time`]); 0.0 if the node
    /// has no state.
    pub fn get_time(&self, node_id: NodeId, key: StateKey) -> (t: u32)
        requires
            self.wf(),
        ensures
            t == (if self@.contains_key(node_id) {
                self@[node_id].time(key)
            } else {
                0
            }),
    {
        match self.states.get(&node_id) {
            Some(n) => n.get_time(key),
            None => 0,
        }
    }

    /// The time of `node_id` committed at the end of the last frame; 0.0 if the node has
    /// no state.
    pub fn get_last_time(&self, node_id: NodeId) -> (t: u32)
        requires
            self.wf(),
        ensures
            t == (if self@.contains_key(node_id) {
                self@[node_id].last_time
            } else {
                0
            }),
    {
        match self.states.get(&node_id) {
            Some(n) => n.get_last_time(),
            None => 0,
        }
    }

    /// Forgets every node's state.
    pub fn clear(&mut self)
        ensures
            final(self).wf(),
            final(self)@ == Map::<NodeId, NodeStateView<S>>::empty(),
    {
        self.states.clear();
        assert(self@ =~= Map::<NodeId, NodeStateView<S>>::empty());
    }

    /// The state of `node_id`, made empty first if the node has none.
    fn node_mut(&mut self, node_id: NodeId) -> (r: &mut NodeState<S>)
        requires
            old(self).wf(),
        ensures
            r.wf(),
            r@ == (if old(self)@.contains_key(node_id) {
                old(self)@[node_id]
            } else {
                NodeStateView::<S>::empty()
            }),
            final(r).wf() ==> final(self).wf(),
            final(self)@ == old(self)@.insert(node_id, final(r)@),
    {
        let ghost before = self.states@;
        if !self.states.contains_key(&node_id) {
            self.states.insert(node_id, NodeState::new());
        }
        proof {
            let mid = self.states@;
            assert forall|x: NodeState<S>| #[trigger] views_of(mid.insert(node_id, x))
                == views_of(before).insert(node_id, x@) by {
                assert(views_of(mid.insert(node_id, x)) =~= views_of(before).insert(node_id, x@));
            }
            assert forall|x: NodeState<S>| x.wf() implies forall|n: NodeId| #[trigger] mid.insert(node_id, x).contains_key(n) ==> mid.insert(node_id, x)[n].wf() by {}
        }
        self.states.get_mut(&node_id)
    }

    /// Sets the time of `node_id` under `key` for this frame; a node with no state starts
    /// empty.
    pub fn set_time(&mut self, node_id: NodeId, key: StateKey, time: u32)
        requires
            old(self).wf(),
        ensures
            final(self).wf(),
            ({
                let base = if old(self)@.contains_key(node_id) {
                    old(self)@[node_id]
                } else {
                    NodeStateView::<S>::empty()
                };
                final(self)@ == old(self)@.insert(
                    node_id,
                    NodeStateView { upcoming_time: base.upcoming_time.insert(key, time), ..base },
                )
            }),
    {
        let n = self.node_mut(node_id);
        n.set_time(key, time);
    }
}

impl<S> Default for NodeStates<S> {
    fn default() -> (n: Self)
        ensures
            n.wf(),
            n@ == Map::<NodeId, NodeStateView<S>>::empty(),
    {
        NodeStates::new()
    }
}

impl<S: GraphStateType> NodeStates<S> {
    /// The state being built for `node_id` under `key`, made first if there is none
    /// (see [`NodeState::get_mut_or_insert_with`]); a node with no state starts empty.
    pub fn get_mut_or_insert_with<F: FnOnce() -> S>(
        &mut self,
        node_id: NodeId,
        key: StateKey,
        default: F,
    ) -> (r: Result<&mut S, GraphError>)
        requires
            old(self).wf(),
            ({
                let base = if old(self)@.contains_key(node_id) {
                    old(self)@[node_id]
                } else {
                    NodeStateView::<S>::empty()
                };
                !base.upcoming_state.contains_key(key) && base.last_state is None ==> default.requires(())
            }),
        ensures
            final(self).wf(),
            match r {
                Ok(m) => {
                    let base = if old(self)@.contains_key(node_id) {
                        old(self)@[node_id]
                    } else {
                        NodeStateView::<S>::empty()
                    };
                    &&& (if base.upcoming_state.contains_key(key) {
                        *m == base.upcoming_state[key]
                    } else if base.last_state is Some {
                        cloned(base.last_state->0, *m)
                    } else {
                        default.ensures((), *m)
                    })
                    &&& final(self)@ == old(self)@.insert(
                        node_id,
                        NodeStateView { upcoming_state: base.upcoming_state.insert(key, *final(m)), ..base },
                    )
                },
                Err(_) => false,
            },
    {
        let n = self.node_mut(node_id);
        n.get_mut_or_insert_with(key, default)
    }
}

impl<S: Clone> Clone for NodeState<S> {
    /// Clones of the stored states, and the same times.
    fn clone(&self) -> (r: Self)
        ensures
            self.wf() ==> r.wf() && r@.is_clone_of(self@),
    {
        NodeState {
            last_state: self.last_state.clone(),
            upcoming_state: self.upcoming_state.clone(),
            last_time: self.last_time,
            upcoming_time: time_map_clone(&self.upcoming_time),
        }
    }
}

/// A node state that is a clone of a well-formed one is well formed and holds clones.
proof fn lemma_node_state_cloned<S: Clone>(a: NodeState<S>, b: NodeState<S>)
    requires
        cloned(a, b),
        a.wf(),
    ensures
        b.wf(),
        b@.is_clone_of(a@),
{
    if a == b {
        assert forall|k: StateKey| #[trigger] a@.upcoming_state.contains_key(k) implies cloned(
            a@.upcoming_state[k],
            b@.upcoming_state[k],
        ) by {}
    }
}

impl<S: Clone> Clone for NodeStates<S> {
    /// Every node's state cloned.
    fn clone(&self) -> (r: Self)
        ensures
            self.wf() ==> r.wf() && states_cloned(self@, r@),
    {
        let r = NodeStates { states: self.states.clone() };
        proof {
            if self.wf() {
                assert forall|n: NodeId| #[trigger] r.states@.contains_key(n) implies r.states@[n].wf() by {
                    lemma_node_state_cloned(self.states@[n], r.states@[n]);
                }
                assert forall|n: NodeId| #[trigger] self@.contains_key(n) implies r@[n].is_clone_of(self@[n]) by {
                    lemma_node_state_cloned(self.states@[n], r.states@[n]);
                }
                assert(self@.dom() =~= r@.dom());
            }
        }
        r
    }
}

/// After a frame ends, every key reads what the default key read before: the state and
/// the time committed from the default key (or kept from the frame before).
pub proof fn lemma_next_frame_commits_default<S>(v: NodeStateView<S>, key: StateKey)
    ensures
        v.after_next_frame().state(key) == v.state(StateKey::Default),
        v.after_next_frame().time(key) == v.time(StateKey::Default),
        v.after_next_frame().upcoming_state.dom() == Set::<StateKey>::empty(),
{
}

/// A time set under a key is what that key reads afterwards, and no other key reads
/// differently.
pub proof fn lemma_time_read_after_write<S>(v: NodeStateView<S>, key: StateKey, t: u32, other: StateKey)
    ensures
        (NodeStateView { upcoming_time: v.upcoming_time.insert(key, t), ..v }).time(key) == t,
        other != key ==> (NodeStateView { upcoming_time: v.upcoming_time.insert(key, t), ..v }).time(
            other,
        ) == v.time(other),
{
}

/// A state stored under a key is what that key reads afterwards, and no other key reads
/// differently.
pub proof fn lemma_state_read_after_write<S>(v: NodeStateView<S>, key: StateKey, s: S, other: StateKey)
    ensures
        (NodeStateView { upcoming_state: v.upcoming_state.insert(key, s), ..v }).state(key) == Some(s),
        other != key ==> (NodeStateView { upcoming_state: v.upcoming_state.insert(key, s), ..v }).state(
            other,
        ) == v.state(other),
{
}

/// Changing the state of one node leaves what every other node reads as it was.
pub proof fn lemma_other_nodes_unchanged<S>(
    m: Map<NodeId, NodeStateView<S>>,
    node: NodeId,
    v: NodeStateView<S>,
    other: NodeId,
)
    requires
        other != node,
    ensures
        m.insert(node, v).contains_key(other) == m.contains_key(other),
        m.contains_key(other) ==> m.insert(node, v)[other] == m[other],
{
}

/// A node state with nothing stored reads no state and time 0.0 under every key.
pub proof fn lemma_empty_state_reads_nothing<S>(key: StateKey)
    ensures
        NodeStateView::<S>::empty().state(key) is None,
        NodeStateView::<S>::empty().time(key) == 0,
        NodeStateView::<S>::empty().last_time == 0,
        NodeStateView::<S>::empty().upcoming_state.dom() == Set::<StateKey>::empty(),
        NodeStateView::<S>::empty().upcoming_time.dom() == Set::<StateKey>::empty(),
{
}

/// A key reads the state and the time set for it this frame, and otherwise the last
/// committed ones.
pub proof fn lemma_reads_prefer_this_frame<S>(v: NodeStateView<S>, key: StateKey)
    ensures
        v.upcoming_state.contains_key(key) ==> v.state(key) == Some(v.upcoming_state[key]),
        !v.upcoming_state.contains_key(key) ==> v.state(key) == v.last_state,
        v.upcoming_time.contains_key(key) ==> v.time(key) == v.upcoming_time[key],
        !v.upcoming_time.contains_key(key) ==> v.time(key) == v.last_time,
{
}

/// Ending a frame commits the default key's state and time, when set, keeps the last ones
/// otherwise, and drops everything set this frame.
pub proof fn lemma_next_frame_commit<S>(v: NodeStateView<S>)
    ensures
        v.upcoming_state.contains_key(StateKey::Default) ==> v.after_next_frame().last_state == Some(
            v.upcoming_state[StateKey::Default],
        ),
        !v.upcoming_state.contains_key(StateKey::Default) ==> v.after_next_frame().last_state
            == v.last_state,
        v.upcoming_time.contains_key(StateKey::Default) ==> v.after_next_frame().last_time
            == v.upcoming_time[StateKey::Default],
        !v.upcoming_time.contains_key(StateKey::Default) ==> v.after_next_frame().last_time
            == v.last_time,
        v.after_next_frame().upcoming_state.dom() == Set::<StateKey>::empty(),
        v.after_next_frame().upcoming_time.dom() == Set::<StateKey>::empty(),
{
}

/// A clone of a node's state answers every read as the original does: a clone of the same
/// state, and the same time.
pub proof fn lemma_state_clone_answers_alike<S: Clone>(a: NodeStateView<S>, b: NodeStateView<S>, key: StateKey)
    requires
        b.is_clone_of(a),
    ensures
        (b.state(key) is Some) == (a.state(key) is Some),
        a.state(key) is Some ==> cloned(a.state(key)->0, b.state(key)->0),
        b.time(key) == a.time(key),
        b.last_time == a.last_time,
        b.upcoming_state.dom() == a.upcoming_state.dom(),
{
}

/// Cloned node states hold state for the same nodes, and each node answers every read as
/// the original does.
pub proof fn lemma_states_clone_answers_alike<S: Clone>(
    a: Map<NodeId, NodeStateView<S>>,
    b: Map<NodeId, NodeStateView<S>>,
    n: NodeId,
    key: StateKey,
)
    requires
        states_cloned(a, b),
    ensures
        b.contains_key(n) == a.contains_key(n),
        a.contains_key(n) ==> (b[n].state(key) is Some) == (a[n].state(key) is Some),
        a.contains_key(n) && a[n].state(key) is Some ==> cloned(a[n].state(key)->0, b[n].state(key)->0),
        a.contains_key(n) ==> b[n].time(key) == a[n].time(key),
        a.contains_key(n) ==> b[n].last_time == a[n].last_time,
{
    if a.contains_key(n) {
        lemma_state_clone_answers_alike(a[n], b[n], key);
    }
}

} // verus!
