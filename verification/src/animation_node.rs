use crate::ids::{NodeId, PinId};
use crate::platform::{pin_key_entries, pin_key_get, pin_key_map_clone, pin_key_map_new, PinKeyMap};
use vstd::prelude::*;

verus! {

/// A node of an animation graph: its identifier, its name, what it computes, and whether
/// it is being debugged.
#[derive(Debug)]
pub struct AnimationNode<N> {
    pub id: NodeId,
    pub name: String,
    pub inner: N,
    pub should_debug: bool,
}

impl<N> AnimationNode<N> {
    /// A node named `name` computing `inner`, with identifier `id`, not debugged.
    pub fn new(name: String, inner: N, id: NodeId) -> (r: Self)
        ensures
            r.name@ == name@,
            r.inner == inner,
            r.id == id,
            !r.should_debug,
    {
        AnimationNode { id, name, inner, should_debug: false }
    }

    /// What the node computes.
    pub fn inner_ref(&self) -> (r: &N)
        ensures
            *r == self.inner,
    {
        &self.inner
    }
}

/// Sort keys of a node's pins, by pin name; a pin with no key sorts as 0.
#[derive(Debug)]
pub struct PinOrdering {
    keys: PinKeyMap,
}

impl View for PinOrdering {
    type V = Map<Seq<char>, i32>;

    closed spec fn view(&self) -> Map<Seq<char>, i32> {
        pin_key_entries(self.keys)
    }
}

impl PinOrdering {
    /// The ordering given by `keys`.
    pub fn new(keys: PinKeyMap) -> (o: Self)
        ensures
            o@ == pin_key_entries(keys),
    {
        PinOrdering { keys }
    }

    /// The sort key of the pin named `pin_id`: the one given for it, else 0.
    pub fn pin_key(&self, pin_id: &PinId) -> (k: i32)
        ensures
            k == (if self@.contains_key(pin_id@) {
                self@[pin_id@]
            } else {
                0
            }),
    {
        match pin_key_get(&self.keys, pin_id) {
            Some(k) => k,
            None => 0,
        }
    }
}

impl Clone for PinOrdering {
    fn clone(&self) -> (o: Self)
        ensures
            o@ == self@,
    {
        PinOrdering { keys: pin_key_map_clone(&self.keys) }
    }
}

impl Default for PinOrdering {
    fn default() -> (o: Self)
        ensures
            o@.dom() == Set::<Seq<char>>::empty(),
    {
        PinOrdering { keys: pin_key_map_new() }
    }
}

} // verus!
