use bevy::platform::collections::HashMap;
use bevy_animation_graph_core::animation_node::{AnimationNode, PinOrdering};
use bevy_animation_graph_core::ids::NodeId;

#[test]
fn pin_key_reads_given_keys_and_defaults_to_zero() {
    let mut keys = HashMap::default();
    keys.insert("pose".to_string(), 3);
    keys.insert("time".to_string(), -1);
    let ordering = PinOrdering::new(keys);
    assert_eq!(ordering.pin_key(&"pose".to_string()), 3);
    assert_eq!(ordering.pin_key(&"time".to_string()), -1);
    assert_eq!(ordering.pin_key(&"other".to_string()), 0);
    let copy = ordering.clone();
    assert_eq!(copy.pin_key(&"pose".to_string()), 3);
    assert_eq!(PinOrdering::default().pin_key(&"pose".to_string()), 0);
}

#[test]
fn new_animation_node_is_not_debugged() {
    let node = AnimationNode::new("flip".to_string(), 5u32, NodeId(9));
    assert_eq!(node.name, "flip");
    assert_eq!(node.id, NodeId(9));
    assert_eq!(*node.inner_ref(), 5);
    assert!(!node.should_debug);
}
