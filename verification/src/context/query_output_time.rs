use crate::ids::StateKey;
use crate::keyed_map::{map_cloned, KeyedMap};
use vstd::prelude::*;

verus! {

/// What a query-time request holds: nothing, one time update for every key, or time
/// updates by key.
pub enum QueryOutputTimeView<U> {
    Unset,
    Forced(U),
    ByKey(Map<StateKey, U>),
}

impl<U> QueryOutputTimeView<U> {
    /// The time update asked for under `key`, if any.
    pub open spec fn get(self, key: StateKey) -> Option<U> {
        match self {
            QueryOutputTimeView::Unset => None,
            QueryOutputTimeView::Forced(u) => Some(u),
            QueryOutputTimeView::ByKey(m) => if m.contains_key(key) {
                Some(m[key])
            } else {
                None
            },
        }
    }
}

impl<U: Clone> QueryOutputTimeView<U> {
    /// `self` holds clones of what `other` holds.
    pub open spec fn is_clone_of(self, other: Self) -> bool {
        match (other, self) {
            (QueryOutputTimeView::Unset, QueryOutputTimeView::Unset) => true,
            (QueryOutputTimeView::Forced(a), QueryOutputTimeView::Forced(b)) => cloned(a, b),
            (QueryOutputTimeView::ByKey(a), QueryOutputTimeView::ByKey(b)) => map_cloned(a, b),
            _ => false,
        }
    }
}

/// The time at which a graph's output is queried this frame: not asked, forced to one
/// time update, or given per evaluation key. `U` is the type of time updates.
#[derive(Debug)]
pub enum QueryOutputTime<U> {
    Unset,
    Forced(U),
    ByKey(KeyedMap<StateKey, U>),
}

impl<U> View for QueryOutputTime<U> {
    type V = QueryOutputTimeView<U>;

    open spec fn view(&self) -> QueryOutputTimeView<U> {
        match self {
            QueryOutputTime::Unset => QueryOutputTimeView::Unset,
            QueryOutputTime::Forced(u) => QueryOutputTimeView::Forced(*u),
            QueryOutputTime::ByKey(m) => QueryOutputTimeView::ByKey(m@),
        }
    }
}

impl<U> QueryOutputTime<U> {
    /// Only the per-key form has an invariant: that of its map.
    pub open spec fn wf(&self) -> bool {
        match self {
            QueryOutputTime::ByKey(m) => m.wf(),
            _ => true,
        }
    }

    /// No query time.
    pub fn unset() -> (q: Self)
        ensures
            q.wf(),
            q@ == QueryOutputTimeView::<U>::Unset,
    {
        QueryOutputTime::Unset
    }

    /// The same time update for every key.
    pub fn forced(time_update: U) -> (q: Self)
        ensures
            q.wf(),
            q@ == QueryOutputTimeView::Forced(time_update),
    {
        QueryOutputTime::Forced(time_update)
    }

    /// A request for `time_update` under `key` only.
    pub fn from_key(key: StateKey, time_update: U) -> (q: Self)
        ensures
            q.wf(),
            q@ == QueryOutputTimeView::ByKey(Map::<StateKey, U>::empty().insert(key, time_update)),
    {
        let mut map = KeyedMap::new();
        map.insert(key, time_update);
        QueryOutputTime::ByKey(map)
    }
}

impl<U: Clone> QueryOutputTime<U> {
    /// A clone of the time update asked for under `key`, if any.
    pub fn get(&self, key: StateKey) -> (r: Option<U>)
        requires
            self.wf(),
        ensures
            match self@.get(key) {
                Some(u) => r matches Some(x) && cloned(u, x),
                None => r is None,
            },
    {
        match self {
            QueryOutputTime::Unset => None,
            QueryOutputTime::Forced(u) => Some(u.clone()),
            QueryOutputTime::ByKey(m) => match m.get(&key) {
                Some(u) => Some(u.clone()),
                None => None,
            },
        }
    }
}

impl<U> Default for QueryOutputTime<U> {
    fn default() -> (q: Self)
        ensures
            q.wf(),
            q@ == QueryOutputTimeView::<U>::Unset,
    {
        QueryOutputTime::Unset
    }
}

impl<U: Clone> Clone for QueryOutputTime<U> {
    /// A clone of every time update held.
    fn clone(&self) -> (r: Self)
        ensures
            self.wf() ==> r.wf() && r@.is_clone_of(self@),
    {
        match self {
            QueryOutputTime::Unset => QueryOutputTime::Unset,
            QueryOutputTime::Forced(u) => QueryOutputTime::Forced(u.clone()),
            QueryOutputTime::ByKey(m) => QueryOutputTime::ByKey(m.clone()),
        }
    }
}

/// What a query time answers for a key: nothing when unset, the forced update for every
/// key, and, per key, exactly the entries of the map it was given.
pub proof fn lemma_query_time_answers<U>(q: QueryOutputTimeView<U>, key: StateKey)
    ensures
        q is Unset ==> q.get(key) is None,
        q matches QueryOutputTimeView::Forced(u) ==> q.get(key) == Some(u),
        q matches QueryOutputTimeView::ByKey(m) ==> (q.get(key) is Some <==> m.contains_key(key)),
        q matches QueryOutputTimeView::ByKey(m) ==> (m.contains_key(key) ==> q.get(key) == Some(m[key])),
{
}

/// A query time made for one key answers that key with the update given, and no other key.
pub proof fn lemma_from_key_answers_only_its_key<U>(key: StateKey, update: U, other: StateKey)
    ensures
        QueryOutputTimeView::ByKey(Map::<StateKey, U>::empty().insert(key, update)).get(key)
            == Some(update),
        other != key ==> QueryOutputTimeView::ByKey(Map::<StateKey, U>::empty().insert(key, update)).get(
            other,
        ) is None,
{
}

/// A clone of a query time is of the same kind and answers every key as the original
/// does, with a clone of its update.
pub proof fn lemma_clone_answers_alike<U: Clone>(
    q: QueryOutputTimeView<U>,
    r: QueryOutputTimeView<U>,
    key: StateKey,
)
    requires
        r.is_clone_of(q),
    ensures
        (q is Unset) == (r is Unset),
        (q is Forced) == (r is Forced),
        (q is ByKey) == (r is ByKey),
        (r.get(key) is Some) == (q.get(key) is Some),
        q.get(key) is Some ==> cloned(q.get(key)->0, r.get(key)->0),
{
}

} // verus!
