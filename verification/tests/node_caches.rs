use bevy_animation_graph_core::context::node_caches::NodeCaches;
use bevy_animation_graph_core::errors::{GraphError, SourcePin, TargetPin};
use bevy_animation_graph_core::ids::{NodeId, StateKey};

#[derive(Clone, Debug, PartialEq)]
struct BonePose {
    translation: Option<[f32; 3]>,
    rotation: Option<[f32; 4]>,
    scale: Option<[f32; 3]>,
}

#[derive(Clone, Debug, PartialEq, Default)]
struct Pose {
    timestamp: f32,
    bones: Vec<BonePose>,
    paths: std::collections::HashMap<u64, usize>,
}

impl Pose {
    fn add_bone(&mut self, bone: BonePose, path: u64) {
        self.paths.insert(path, self.bones.len());
        self.bones.push(bone);
    }
}

#[derive(Clone, Debug, PartialEq)]
enum DataValue {
    F32(f32),
    Pose(Pose),
}

impl DataValue {
    fn into_pose(self) -> Option<Pose> {
        match self {
            DataValue::Pose(p) => Some(p),
            _ => None,
        }
    }

    fn as_f32(&self) -> Option<f32> {
        match self {
            DataValue::F32(v) => Some(*v),
            _ => None,
        }
    }
}

#[derive(Clone, Debug, PartialEq)]
enum TimeUpdate {
    Delta(f32),
    Absolute(f32),
}

type Caches = NodeCaches<DataValue, TimeUpdate, Option<f32>>;

#[test]
fn reflection_snapshot_clones_cached_pose_independently() {
    let mut cache = Caches::default();
    let node = NodeId::default();
    let key = StateKey::Temporary(uuid::Uuid::new_v4().as_u128());
    let bone = BonePose {
        translation: Some([1.0, 2.0, 3.0]),
        rotation: Some([0.0, 0.247404, 0.0, 0.968912]),
        scale: Some([2.0, 2.0, 2.0]),
    };
    let mut pose = Pose {
        timestamp: 0.25,
        ..Default::default()
    };
    pose.add_bone(bone.clone(), Default::default());
    cache.set_output_data(node, key, "pose".into(), DataValue::Pose(pose));
    cache.set_output_data(node, StateKey::Default, "weight".into(), DataValue::F32(0.5_f32));
    let snapshot = cache.clone();
    cache.next_frame();
    assert!(cache.get_output_data(node, key, "pose".into()).is_none());
    let copied = snapshot
        .get_output_data(node, key, "pose".into())
        .unwrap()
        .into_pose()
        .unwrap();
    assert_eq!(copied.timestamp, 0.25);
    assert_eq!(copied.paths[&0], 0);
    assert_eq!(copied.bones[0].translation, bone.translation);
    assert_eq!(copied.bones[0].rotation, bone.rotation);
    assert_eq!(copied.bones[0].scale, bone.scale);
    assert_eq!(
        snapshot
            .get_output_data(node, StateKey::Default, "weight".into())
            .unwrap()
            .as_f32()
            .unwrap(),
        0.5
    );
}

#[test]
fn missing_cache_entries_name_the_missing_pin() {
    let mut cache = Caches::new();
    let node = NodeId(4);
    let key = StateKey::Default;
    assert_eq!(
        cache.get_duration(node, key),
        Err(GraphError::DurationMissing(SourcePin::NodeTime(node)))
    );
    assert_eq!(
        cache.get_output_time_update(node, key),
        Err(GraphError::TimeUpdateMissingFwd(SourcePin::NodeTime(node)))
    );
    assert_eq!(
        cache.get_input_time_update(node, key, "time".into()),
        Err(GraphError::TimeUpdateMissingBack(TargetPin::NodeTime(
            node,
            "time".to_string()
        )))
    );
    // The node now has a cache, but not these entries.
    cache.mark_updated(node, key);
    assert_eq!(
        cache.get_duration(node, key),
        Err(GraphError::DurationMissing(SourcePin::NodeTime(node)))
    );
    assert_eq!(
        cache.get_input_time_update(node, key, "other".into()),
        Err(GraphError::TimeUpdateMissingBack(TargetPin::NodeTime(
            node,
            "other".to_string()
        )))
    );
}

#[test]
fn cache_reads_back_what_was_set_until_next_frame() {
    let mut cache = Caches::new();
    let node = NodeId(4);
    let other = NodeId(5);
    let key = StateKey::Temporary(8);
    cache.set_duration(node, key, Some(1.0));
    cache.set_output_time_update(node, key, TimeUpdate::Delta(0.1));
    cache.set_input_time_update(node, key, "time".into(), TimeUpdate::Absolute(0.5));
    cache.set_output_data(node, key, "weight".into(), DataValue::F32(0.25));
    assert_eq!(cache.get_duration(node, key), Ok(Some(1.0)));
    assert_eq!(cache.get_output_time_update(node, key), Ok(TimeUpdate::Delta(0.1)));
    assert_eq!(
        cache.get_input_time_update(node, key, "time".into()),
        Ok(TimeUpdate::Absolute(0.5))
    );
    assert_eq!(
        cache.get_output_data(node, key, "weight".into()),
        Some(DataValue::F32(0.25))
    );
    assert!(cache.get_output_data(node, StateKey::Default, "weight".into()).is_none());
    assert!(cache.get_output_data(other, key, "weight".into()).is_none());
    assert!(!cache.is_update_started(node, key));
    cache.mark_update_started(node, key);
    assert!(cache.is_update_started(node, key));
    assert!(!cache.is_updated(node, key));
    cache.mark_updated(node, key);
    assert!(cache.is_updated(node, key));
    assert!(!cache.is_updated(node, StateKey::Default));
    assert!(!cache.is_updated(other, key));
    cache.set_duration(node, key, None);
    assert_eq!(cache.get_duration(node, key), Ok(None));
    cache.next_frame();
    assert!(!cache.is_updated(node, key));
    assert!(!cache.is_update_started(node, key));
    assert!(cache.get_duration(node, key).is_err());
    assert!(cache.get_output_data(node, key, "weight".into()).is_none());
}
