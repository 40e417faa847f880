use bevy_animation_graph_core::context::node_states::{NodeState, NodeStates};
use bevy_animation_graph_core::errors::GraphError;
use bevy_animation_graph_core::ids::{NodeId, StateKey};
use std::sync::{
    atomic::{AtomicUsize, Ordering},
    Arc,
};

#[derive(Debug)]
struct TrackedState {
    value: u64,
    clones: Arc<AtomicUsize>,
}

impl Clone for TrackedState {
    fn clone(&self) -> Self {
        self.clones.fetch_add(1, Ordering::Relaxed);
        Self {
            value: self.value,
            clones: self.clones.clone(),
        }
    }
}

fn secs(t: f32) -> u32 {
    t.to_bits()
}

#[test]
fn frame_commit_moves_completed_state_without_cloning() {
    let mut node: NodeState<TrackedState> = NodeState::default();
    let clones = Arc::<AtomicUsize>::default();
    node.get_mut_or_insert_with(StateKey::Default, || TrackedState {
        value: 7,
        clones: clones.clone(),
    })
    .unwrap();
    node.set_time(StateKey::Default, secs(0.25));
    node.next_frame();
    assert_eq!(clones.load(Ordering::Relaxed), 0);
    assert_eq!(node.get_state(StateKey::Default).unwrap().value, 7);
    assert_eq!(f32::from_bits(node.get_last_time()), 0.25);
    let temporary = StateKey::Temporary(uuid::Uuid::new_v4().as_u128());
    node.get_mut_or_insert_with(temporary, || unreachable!())
        .unwrap()
        .value = 9;
    assert_eq!(clones.load(Ordering::Relaxed), 1);
    node.next_frame();
    assert_eq!(node.get_state(StateKey::Default).unwrap().value, 7);
    node.get_mut_or_insert_with(StateKey::Default, || unreachable!())
        .unwrap()
        .value = 11;
    node.set_time(StateKey::Default, secs(0.5));
    assert_eq!(clones.load(Ordering::Relaxed), 2);
    node.next_frame();
    assert_eq!(clones.load(Ordering::Relaxed), 2);
    assert_eq!(node.get_state(StateKey::Default).unwrap().value, 11);
    assert_eq!(f32::from_bits(node.get_last_time()), 0.5);
}

#[test]
fn empty_node_state_reads_missing_value_and_zero_time() {
    let node: NodeState<u64> = NodeState::default();
    assert_eq!(node.get_state(StateKey::Default), Err(GraphError::MissingStateValue));
    assert_eq!(node.get_time(StateKey::Temporary(3)), 0);
    assert_eq!(node.get_last_time(), 0);
    assert!(node.get_all_upcoming_states().unwrap().is_empty());
}

#[test]
fn upcoming_state_is_read_before_last_state() {
    let mut node: NodeState<u64> = NodeState::new();
    *node.get_mut_or_insert_with(StateKey::Default, || 1).unwrap() = 5;
    node.next_frame();
    let key = StateKey::Temporary(42);
    // A new key starts from a clone of the committed state.
    assert_eq!(*node.get_mut_or_insert_with(key, || 100).unwrap(), 5);
    *node.get_mut_or_insert_with(key, || 100).unwrap() = 6;
    assert_eq!(*node.get_state(key).unwrap(), 6);
    assert_eq!(*node.get_state(StateKey::Default).unwrap(), 5);
    assert_eq!(*node.get_state(StateKey::Temporary(7)).unwrap(), 5);
    let mut all: Vec<u64> = node.get_all_upcoming_states().unwrap().into_iter().copied().collect();
    all.sort();
    assert_eq!(all, vec![6]);
    // Temporary keys are never committed.
    node.next_frame();
    assert_eq!(*node.get_state(key).unwrap(), 5);
}

#[test]
fn time_read_after_write_and_commit_from_default_key() {
    let mut node: NodeState<u64> = NodeState::new();
    let key = StateKey::Temporary(9);
    node.set_time(key, secs(1.5));
    assert_eq!(f32::from_bits(node.get_time(key)), 1.5);
    assert_eq!(node.get_time(StateKey::Default), 0);
    node.next_frame();
    // Only the default key's time is committed.
    assert_eq!(node.get_last_time(), 0);
    assert_eq!(node.get_time(key), 0);
    node.set_time(StateKey::Default, secs(2.0));
    node.set_time(key, secs(3.0));
    node.next_frame();
    assert_eq!(f32::from_bits(node.get_last_time()), 2.0);
    assert_eq!(f32::from_bits(node.get_time(key)), 2.0);
}

#[test]
fn node_states_missing_node_reads_missing_value_and_zero_time() {
    let states: NodeStates<u64> = NodeStates::default();
    let node = NodeId(12);
    assert_eq!(states.get(node, StateKey::Default), Err(GraphError::MissingStateValue));
    assert!(matches!(
        states.get_all_upcoming_states(node),
        Err(GraphError::MissingStateValue)
    ));
    assert_eq!(states.get_time(node, StateKey::Default), 0);
    assert_eq!(states.get_last_time(node), 0);
}

#[test]
fn node_states_per_node_and_clear() {
    let mut states: NodeStates<String> = NodeStates::new();
    let a = NodeId(1);
    let b = NodeId(2);
    states
        .get_mut_or_insert_with(a, StateKey::Default, || "a".to_string())
        .unwrap()
        .push('!');
    states.set_time(b, StateKey::Default, secs(0.75));
    assert_eq!(states.get(a, StateKey::Default).unwrap(), "a!");
    assert_eq!(states.get(b, StateKey::Default), Err(GraphError::MissingStateValue));
    assert_eq!(f32::from_bits(states.get_time(b, StateKey::Default)), 0.75);
    assert_eq!(states.get_all_upcoming_states(a).unwrap().len(), 1);
    states.next_frame();
    assert_eq!(states.get(a, StateKey::Temporary(5)).unwrap(), "a!");
    assert_eq!(f32::from_bits(states.get_last_time(b)), 0.75);
    assert!(states.get_all_upcoming_states(a).unwrap().is_empty());
    states.clear();
    assert_eq!(states.get(a, StateKey::Default), Err(GraphError::MissingStateValue));
    assert_eq!(states.get_last_time(b), 0);
}

#[test]
fn cloned_node_states_are_independent() {
    let mut states: NodeStates<Vec<u64>> = NodeStates::new();
    let a = NodeId(1);
    states
        .get_mut_or_insert_with(a, StateKey::Default, || vec![1])
        .unwrap();
    let snapshot = states.clone();
    states
        .get_mut_or_insert_with(a, StateKey::Default, || vec![])
        .unwrap()
        .push(2);
    assert_eq!(states.get(a, StateKey::Default).unwrap(), &vec![1, 2]);
    assert_eq!(snapshot.get(a, StateKey::Default).unwrap(), &vec![1]);
}
