use bevy_animation_graph_core::context::graph_context_arena::GraphContextArena;
use bevy_animation_graph_core::context::graph_state::GraphState;
use bevy_animation_graph_core::context::query_output_time::QueryOutputTime;
use bevy_animation_graph_core::ids::{
    GraphContextId, GraphId, LowLevelStateId, NodeId, StateId, StateKey, SubContextId,
};

#[derive(Clone, Debug)]
struct PrivateState {
    value: u64,
    private_values: Vec<u64>,
}

#[derive(Clone, Debug, PartialEq, Default)]
struct Pose {
    timestamp: f32,
    bones: Vec<Option<[f32; 3]>>,
}

#[derive(Clone, Debug, PartialEq)]
enum DataValue {
    F32(f32),
    Pose(Pose),
}

impl DataValue {
    fn into_pose(self) -> Option<Pose> {
        match self {
            DataValue::Pose(p) => Some(p),
            _ => None,
        }
    }

    fn as_f32(&self) -> Option<f32> {
        match self {
            DataValue::F32(v) => Some(*v),
            _ => None,
        }
    }
}

#[derive(Clone, Debug, PartialEq)]
enum TimeUpdate {
    Delta(f32),
    Absolute(f32),
}

type Arena = GraphContextArena<PrivateState, DataValue, TimeUpdate, Option<f32>>;
type State = GraphState<PrivateState, DataValue, TimeUpdate, Option<f32>>;

fn graph(index: u32) -> GraphId {
    GraphId::Index {
        index,
        generation: 0,
    }
}

fn secs(t: f32) -> u32 {
    t.to_bits()
}

#[test]
fn replacing_a_child_graph_resets_only_its_subtree() {
    let graphs = [0, 1, 2, 3].map(graph);
    let mut arena = Arena::new(graphs[0]);
    let root = arena.get_toplevel_id();
    let node = NodeId::default();
    let key = SubContextId {
        ctx_id: root,
        node_id: node,
        state_id: None,
    };
    let child = arena.get_sub_context_or_insert_default(key.clone(), graphs[1]);
    let grandchild = arena.get_sub_context_or_insert_default(
        SubContextId {
            ctx_id: child,
            node_id: node,
            state_id: None,
        },
        graphs[1],
    );
    let sibling = arena.get_sub_context_or_insert_default(
        SubContextId {
            ctx_id: root,
            node_id: node,
            state_id: Some(LowLevelStateId::HlState(StateId::default())),
        },
        graphs[2],
    );
    for context in [root, child, grandchild, sibling] {
        let state = arena.get_context_mut(context).unwrap();
        state
            .node_states
            .get_mut_or_insert_with(node, StateKey::Default, || PrivateState {
                value: 7,
                private_values: vec![11],
            })
            .unwrap();
        state.node_states.set_time(node, StateKey::Default, secs(0.5));
        state
            .node_caches
            .set_output_data(node, StateKey::Default, "value".into(), DataValue::F32(0.5_f32));
        state.node_caches.mark_update_started(node, StateKey::Default);
        state.node_caches.mark_updated(node, StateKey::Default);
        state.query_output_time = QueryOutputTime::Forced(TimeUpdate::Delta(0.25));
    }
    assert_eq!(arena.get_sub_context_or_insert_default(key.clone(), graphs[1]), child);
    assert_eq!(
        arena
            .get_context(child)
            .unwrap()
            .node_states
            .get(node, StateKey::Default)
            .unwrap()
            .value,
        7
    );
    assert_eq!(arena.get_sub_context_or_insert_default(key.clone(), graphs[3]), child);
    assert_eq!(arena.get_context(child).unwrap().get_graph_id(), graphs[3]);
    for context in [child, grandchild] {
        let state = arena.get_context(context).unwrap();
        assert!(state.node_states.get(node, StateKey::Default).is_err());
        assert!(!state.node_caches.is_updated(node, StateKey::Default));
        assert!(state
            .node_caches
            .get_output_data(node, StateKey::Default, "value".into())
            .is_none());
        assert!(matches!(state.query_output_time, QueryOutputTime::Unset));
    }
    // The grandchild keeps the graph it evaluated.
    assert_eq!(arena.get_context(grandchild).unwrap().get_graph_id(), graphs[1]);
    for context in [root, sibling] {
        let state = arena.get_context(context).unwrap();
        assert_eq!(
            state
                .node_states
                .get(node, StateKey::Default)
                .unwrap()
                .value,
            7
        );
        assert!(state.node_caches.is_updated(node, StateKey::Default));
    }
    for index in 0..16 {
        assert_eq!(
            arena.get_sub_context_or_insert_default(
                key.clone(),
                graphs[if index % 2 == 0 { 1 } else { 3 }]
            ),
            child
        );
    }
    assert_eq!(arena.iter_context_ids().len(), 4);
}

#[test]
fn snapshot_clone_preserves_hierarchy_caches_and_isolates_state() {
    let graph = graph(0);
    let mut arena = Arena::new(graph);
    let node = NodeId::default();
    let child_key = SubContextId {
        ctx_id: arena.get_toplevel_id(),
        node_id: node,
        state_id: None,
    };
    let child = arena.get_sub_context_or_insert_default(child_key.clone(), graph);
    let temporary = StateKey::Temporary(uuid::Uuid::new_v4().as_u128());
    let state = arena.get_context_mut(child).unwrap();
    state
        .node_states
        .get_mut_or_insert_with(node, StateKey::Default, || PrivateState {
            value: 7,
            private_values: vec![11],
        })
        .unwrap();
    state.node_states.set_time(node, StateKey::Default, secs(0.25));
    arena.next_frame();
    let state = arena.get_context_mut(child).unwrap();
    state
        .node_states
        .get_mut_or_insert_with(node, temporary, || unreachable!())
        .unwrap()
        .value = 9;
    state.node_states.set_time(node, temporary, secs(0.5));
    let pose = Pose {
        timestamp: 0.5,
        bones: vec![Some([1.0, 2.0, 3.0])],
    };
    state
        .node_caches
        .set_output_data(node, temporary, "pose".into(), DataValue::Pose(pose));
    state
        .node_caches
        .set_output_data(node, StateKey::Default, "weight".into(), DataValue::F32(0.5_f32));
    state.node_caches.mark_update_started(node, temporary);
    state.node_caches.mark_updated(node, temporary);
    state.node_caches.set_duration(node, temporary, Some(1.0));
    state
        .node_caches
        .set_output_time_update(node, temporary, TimeUpdate::Delta(0.1));
    state.node_caches.set_input_time_update(
        node,
        temporary,
        "time".into(),
        TimeUpdate::Absolute(0.5),
    );
    state.query_output_time = QueryOutputTime::from_key(temporary, TimeUpdate::Absolute(0.5));
    let mut snapshot: Arena = arena.clone();
    for copy in [&snapshot] {
        assert_eq!(copy.frame_index(), 1);
        assert_eq!(copy.get_sub_context(&child_key), Some(child));
        assert_eq!(copy.iter_context_ids().len(), 2);
        let state = copy.get_context(child).unwrap();
        assert_eq!(state.get_graph_id(), graph);
        assert_eq!(
            state
                .node_states
                .get(node, StateKey::Default)
                .unwrap()
                .value,
            7
        );
        assert_eq!(state.node_states.get(node, temporary).unwrap().value, 9);
        assert_eq!(
            state.node_states.get(node, temporary).unwrap().private_values,
            [11]
        );
        assert_eq!(f32::from_bits(state.node_states.get_last_time(node)), 0.25);
        assert_eq!(f32::from_bits(state.node_states.get_time(node, temporary)), 0.5);
        assert!(state.node_caches.is_update_started(node, temporary));
        assert!(state.node_caches.is_updated(node, temporary));
        assert_eq!(
            state.node_caches.get_duration(node, temporary).unwrap(),
            Some(1.0)
        );
        assert!(
            matches!(state.node_caches.get_output_time_update(node, temporary), Ok(TimeUpdate::Delta(v)) if v == 0.1)
        );
        assert!(
            matches!(state.node_caches.get_input_time_update(node, temporary, "time".into()), Ok(TimeUpdate::Absolute(v)) if v == 0.5)
        );
        assert!(
            matches!(state.query_output_time.get(temporary), Some(TimeUpdate::Absolute(v)) if v == 0.5)
        );
        let pose = state
            .node_caches
            .get_output_data(node, temporary, "pose".into())
            .unwrap()
            .into_pose()
            .unwrap();
        assert_eq!(pose.timestamp, 0.5);
        assert_eq!(pose.bones[0], Some([1.0, 2.0, 3.0]));
        assert_eq!(
            state
                .node_caches
                .get_output_data(node, StateKey::Default, "weight".into())
                .unwrap()
                .as_f32()
                .unwrap(),
            0.5
        );
    }
    snapshot.get_context_mut(child).unwrap().node_states.clear();
    snapshot.next_frame();
    let original = arena.get_context(child).unwrap();
    assert_eq!(original.node_states.get(node, temporary).unwrap().value, 9);
    assert!(original.node_caches.is_updated(node, temporary));
    assert_eq!(arena.frame_index(), 1);
    assert_eq!(snapshot.frame_index(), 2);
    assert!(!snapshot
        .get_context(child)
        .unwrap()
        .node_caches
        .is_updated(node, temporary));
}

#[test]
fn new_arena_has_only_the_top_level_context() {
    let mut arena = Arena::new(graph(5));
    assert_eq!(arena.get_toplevel_id(), GraphContextId(0));
    assert_eq!(arena.iter_context_ids(), vec![GraphContextId(0)]);
    assert_eq!(arena.frame_index(), 0);
    assert!(arena.context_exists(GraphContextId(0)));
    assert!(!arena.context_exists(GraphContextId(1)));
    assert!(arena.get_context(GraphContextId(1)).is_none());
    assert!(arena.get_context_mut(GraphContextId(1)).is_none());
    assert_eq!(arena.get_toplevel().get_graph_id(), graph(5));
    arena
        .get_toplevel_mut()
        .node_caches
        .mark_updated(NodeId(1), StateKey::Default);
    assert!(arena
        .get_toplevel()
        .node_caches
        .is_updated(NodeId(1), StateKey::Default));
}

#[test]
fn sub_contexts_get_new_identifiers_in_order() {
    let mut arena = Arena::new(graph(0));
    let root = arena.get_toplevel_id();
    let at = |n: u128| SubContextId {
        ctx_id: root,
        node_id: NodeId(n),
        state_id: None,
    };
    assert_eq!(arena.get_sub_context(&at(1)), None);
    let a = arena.get_sub_context_or_insert_default(at(1), graph(1));
    let b = arena.get_sub_context_or_insert_default(at(2), graph(2));
    assert_eq!(a, GraphContextId(1));
    assert_eq!(b, GraphContextId(2));
    assert_eq!(arena.get_sub_context(&at(1)), Some(a));
    assert_eq!(arena.get_context(b).unwrap().get_graph_id(), graph(2));
    assert_eq!(
        arena.iter_context_ids(),
        vec![GraphContextId(0), GraphContextId(1), GraphContextId(2)]
    );
}

#[test]
fn reset_keeps_the_top_level_context_and_graphs_below() {
    let mut arena = Arena::new(graph(0));
    let root = arena.get_toplevel_id();
    let node = NodeId(3);
    let at = |ctx: GraphContextId| SubContextId {
        ctx_id: ctx,
        node_id: node,
        state_id: Some(LowLevelStateId::DirectTransition(
            bevy_animation_graph_core::ids::TransitionId(4),
        )),
    };
    let a = arena.get_sub_context_or_insert_default(at(root), graph(1));
    let b = arena.get_sub_context_or_insert_default(at(a), graph(2));
    let c = arena.get_sub_context_or_insert_default(at(b), graph(3));
    for ctx in [root, a, b, c] {
        arena
            .get_context_mut(ctx)
            .unwrap()
            .node_states
            .set_time(node, StateKey::Default, secs(1.0));
    }
    assert_eq!(arena.get_sub_context_or_insert_default(at(a), graph(7)), b);
    assert_eq!(arena.get_context(b).unwrap().get_graph_id(), graph(7));
    assert_eq!(arena.get_context(c).unwrap().get_graph_id(), graph(3));
    assert_eq!(arena.get_context(b).unwrap().node_states.get_time(node, StateKey::Default), 0);
    assert_eq!(arena.get_context(c).unwrap().node_states.get_time(node, StateKey::Default), 0);
    for ctx in [root, a] {
        assert_eq!(
            f32::from_bits(arena.get_context(ctx).unwrap().node_states.get_time(node, StateKey::Default)),
            1.0
        );
    }
    // The links are kept: the reset context still has its child.
    assert_eq!(arena.get_sub_context(&at(b)), Some(c));
}

#[test]
fn next_frame_advances_every_context_and_the_counter() {
    let mut arena = Arena::new(graph(0));
    let root = arena.get_toplevel_id();
    let node = NodeId(1);
    let child = arena.get_sub_context_or_insert_default(
        SubContextId {
            ctx_id: root,
            node_id: node,
            state_id: None,
        },
        graph(1),
    );
    for ctx in [root, child] {
        let state = arena.get_context_mut(ctx).unwrap();
        state.node_states.set_time(node, StateKey::Default, secs(0.75));
        state.node_caches.mark_updated(node, StateKey::Default);
    }
    arena.next_frame();
    arena.next_frame();
    assert_eq!(arena.frame_index(), 2);
    for ctx in [root, child] {
        let state = arena.get_context(ctx).unwrap();
        assert_eq!(f32::from_bits(state.node_states.get_last_time(node)), 0.75);
        assert!(!state.node_caches.is_updated(node, StateKey::Default));
    }
}

#[test]
fn graph_state_new_and_next_frame() {
    let mut state = State::new(graph(9));
    let node = NodeId(2);
    assert_eq!(state.get_graph_id(), graph(9));
    state
        .node_states
        .get_mut_or_insert_with(node, StateKey::Default, || PrivateState {
            value: 1,
            private_values: vec![],
        })
        .unwrap();
    state.node_caches.set_duration(node, StateKey::Default, Some(2.0));
    state.next_frame();
    assert_eq!(state.node_states.get(node, StateKey::Temporary(1)).unwrap().value, 1);
    assert!(state.node_caches.get_duration(node, StateKey::Default).is_err());
    assert_eq!(state.get_graph_id(), graph(9));
}

#[test]
fn graph_state_accessors_and_query_time() {
    let mut state = State::new(graph(1));
    let node = NodeId(6);
    let key = StateKey::Temporary(2);
    assert!(matches!(state.query_output_time(), QueryOutputTime::Unset));
    assert!(state.query_output_time().get(key).is_none());
    state.node_states_mut().set_time(node, key, secs(0.5));
    state.node_caches_mut().mark_updated(node, key);
    assert_eq!(f32::from_bits(state.node_states().get_time(node, key)), 0.5);
    assert!(state.node_caches().is_updated(node, key));
    state.set_query_output_time(QueryOutputTime::forced(TimeUpdate::Delta(0.1)));
    assert_eq!(state.query_output_time().get(key), Some(TimeUpdate::Delta(0.1)));
    assert_eq!(
        state.query_output_time().get(StateKey::Default),
        Some(TimeUpdate::Delta(0.1))
    );
    state.set_query_output_time(QueryOutputTime::from_key(key, TimeUpdate::Absolute(2.0)));
    assert_eq!(state.query_output_time().get(key), Some(TimeUpdate::Absolute(2.0)));
    assert!(state.query_output_time().get(StateKey::Default).is_none());
    state.set_query_output_time(QueryOutputTime::unset());
    assert!(state.query_output_time().get(key).is_none());
    state.set_query_output_time(QueryOutputTime::from_key(key, TimeUpdate::Absolute(2.0)));
    // The query time is kept across a frame; caches are not.
    state.next_frame();
    assert_eq!(state.query_output_time().get(key), Some(TimeUpdate::Absolute(2.0)));
    assert!(!state.node_caches().is_updated(node, key));
}
