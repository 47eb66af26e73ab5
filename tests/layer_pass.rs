use gdphysics::config::{default_anchor, default_interval, LayerConfig, ObjectConfig};
use gdphysics::layer::{
    apply_layer, centroid, collect_shapes, hull_ready, keyframe_duration, next_link_group, plan_layer,
    relative_points, remove_stale_triggers, sample_count, MOVE_TRIGGER, ROTATE_TRIGGER,
};
use gdphysics::object::{AttribKey, AttribValue, Obj};
use gdphysics::speed::SpeedTracker;
use gdphysics::timeline::Pose;

const U: i64 = 1_000_000;

fn on_layer(o: Obj, layer: i32) -> Obj {
    o.with(AttribKey::EditorLayer1, AttribValue::Int(layer))
}

fn member(x: i64, y: i64, groups: Vec<i32>, layer: i32) -> Obj {
    on_layer(Obj::new(1, x * U, y * U), layer).with(AttribKey::GroupIDs, AttribValue::Array(groups))
}

fn int_of(o: &Obj, k: AttribKey) -> Option<i32> {
    match o.get(k) {
        Some(AttribValue::Int(v)) => Some(*v),
        _ => None,
    }
}

fn config(layer: u16) -> LayerConfig {
    LayerConfig {
        layer,
        height: 2100 * U,
        fps: 60,
        keyframe_interval: default_interval(),
        gravity: [0, -294_300_000],
        objects: vec![],
        rotation_duration_modifier: 900_000,
        sim_time: U,
        anchor_id: default_anchor(),
        ground: true,
    }
}

#[test]
fn object_config_defaults() {
    let c = ObjectConfig::new(3);
    assert_eq!(c.group, 3);
    assert_eq!(c.velocity, [0, 0]);
    assert_eq!(c.density, U);
    assert!(c.dynamic);
    assert_eq!(c.linear_damping, 100_000);
    assert_eq!(c.friction, U);
    assert!(!c.position_fixed && !c.rotation_fixed);
}

#[test]
fn link_group_is_one_past_the_greatest() {
    let objs = vec![
        Obj::new(1, 0, 0).with(AttribKey::LinkedGroupID, AttribValue::Int(7)),
        Obj::new(1, 0, 0).with(AttribKey::LinkedGroupID, AttribValue::Int(3)),
        Obj::new(1, 0, 0),
    ];
    assert_eq!(next_link_group(&objs), Some(8));
    assert_eq!(next_link_group(&vec![Obj::new(1, 0, 0)]), Some(1));
    let full = vec![Obj::new(1, 0, 0).with(AttribKey::LinkedGroupID, AttribValue::Int(i32::MAX))];
    assert_eq!(next_link_group(&full), None);
}

#[test]
fn stale_triggers_of_the_layer_go() {
    let mut objs = vec![
        on_layer(Obj::new(MOVE_TRIGGER, 0, 0), 5),
        on_layer(Obj::new(1, 0, 0), 5),
        on_layer(Obj::new(ROTATE_TRIGGER, 0, 0), 5),
        on_layer(Obj::new(MOVE_TRIGGER, 0, 0), 4),
        Obj::new(ROTATE_TRIGGER, 0, 0),
    ];
    remove_stale_triggers(&mut objs, 5);
    assert_eq!(objs.len(), 3);
    assert_eq!(int_of(&objs[0], AttribKey::ObjID), Some(1));
    assert_eq!(int_of(&objs[1], AttribKey::EditorLayer1), Some(4));
    remove_stale_triggers(&mut objs, 0);
    assert_eq!(objs.len(), 2);
}

#[test]
fn shapes_group_by_first_id() {
    let objs = vec![
        member(0, 0, vec![1], 5),
        member(10, 0, vec![2], 5),
        member(10, 10, vec![1, 9], 5),
        member(0, 10, vec![1], 4),
        member(5, 5, vec![], 5),
        member(0, 10, vec![1], 5),
    ];
    let shapes = collect_shapes(&objs, 5);
    assert_eq!(shapes.len(), 2);
    assert_eq!(shapes[0].group, 1);
    assert_eq!(shapes[0].points, vec![(0, 0), (10 * U, 10 * U), (0, 10 * U)]);
    assert_eq!(shapes[0].center, Some((9, 2)));
    assert_eq!(shapes[1].group, 2);
    assert_eq!(shapes[1].center, None);
}

#[test]
fn centroid_and_relative_points() {
    let pts = vec![(0, 0), (10, 0), (10, 10), (0, 10)];
    assert_eq!(centroid(&pts), (5, 5));
    assert_eq!(centroid(&vec![(-1, -1), (0, 0)]), (-1, -1));
    assert_eq!(relative_points(&pts, (5, 5)), vec![(-5, -5), (5, -5), (5, 5), (-5, 5)]);
}

#[test]
fn hull_needs_three_distinct_points() {
    assert!(!hull_ready(&vec![(0, 0), (0, 0), (1, 1), (1, 1)]));
    assert!(hull_ready(&vec![(0, 0), (0, 0), (1, 1), (2, 0)]));
    assert!(!hull_ready(&vec![]));
}

#[test]
fn keyframe_timing() {
    let c = config(5);
    assert_eq!(sample_count(&c), 10);
    assert_eq!(keyframe_duration(&c), 100_000);
    let mut long = config(5);
    long.sim_time = 5 * U;
    assert_eq!(sample_count(&long), 50);
}

#[test]
fn falling_square_scenario() {
    let mut objs = vec![
        Obj::new(1, 0, 0).with(AttribKey::LinkedGroupID, AttribValue::Int(12)),
        on_layer(Obj::new(41, 300 * U, 0), 5),
        member(0, 0, vec![1], 5),
        member(30, 0, vec![1], 5),
        member(30, 30, vec![1, 2], 5),
        member(0, 30, vec![1], 5),
        on_layer(Obj::new(MOVE_TRIGGER, 0, 0), 5).with(AttribKey::LinkedGroupID, AttribValue::Int(3)),
    ];
    let c = config(5);
    let plan = plan_layer(&mut objs, &c).unwrap();
    assert_eq!(objs.len(), 6);
    assert_eq!(plan.link_group, 13);
    assert_eq!(plan.anchor_x, 300 * U);
    assert_eq!(plan.shapes.len(), 1);
    let (cx, cy) = centroid(&plan.shapes[0].points);
    assert_eq!((cx, cy), (15 * U, 15 * U));
    assert!(hull_ready(&plan.shapes[0].points));
    let n = sample_count(&c) as i64;
    assert_eq!(n, 10);
    // A body falling under gravity until it rests, turning slowly.
    let mut path = Vec::new();
    for i in 0..n {
        let t = i.min(4);
        path.push(Pose { x: cx, y: cy - t * t * 1_470_000, rotation: i * 3_000_000 });
    }
    let tracker = SpeedTracker::new(&objs);
    let before = objs.len();
    apply_layer(&mut objs, &c, &plan, &tracker, &vec![Some(path)]);
    assert_eq!(objs[4].get_pos(), (15 * U, 15 * U));
    let added = &objs[before..];
    let moves = added.iter().filter(|o| int_of(o, AttribKey::ObjID) == Some(MOVE_TRIGGER)).count();
    let rots = added.iter().filter(|o| int_of(o, AttribKey::ObjID) == Some(ROTATE_TRIGGER)).count();
    assert!(moves >= 1 && moves <= 9);
    assert!(rots >= 1 && rots <= 9);
    assert_eq!(moves + rots, added.len());
    for o in added {
        assert_eq!(int_of(o, AttribKey::LinkedGroupID), Some(13));
        assert_eq!(int_of(o, AttribKey::EditorLayer1), Some(5));
        assert_eq!(int_of(o, AttribKey::TargetGroupID), Some(1));
        if int_of(o, AttribKey::ObjID) == Some(MOVE_TRIGGER) {
            assert_eq!(o.get_pos().1, 2100 * U);
        } else {
            assert_eq!(o.get_pos().1, 2130 * U);
            assert_eq!(int_of(o, AttribKey::SecondaryGroupID), Some(2));
        }
    }
}

#[test]
fn other_layers_pass_through() {
    let other = member(4, 4, vec![7, 8], 3);
    let plain = on_layer(Obj::new(1, 9 * U, 9 * U), 5);
    let text_other = other.as_str();
    let text_plain = plain.as_str();
    let mut objs = vec![other, plain, member(0, 0, vec![1, 2], 5), member(9, 0, vec![1], 5), member(0, 9, vec![1], 5)];
    let c = config(5);
    let plan = plan_layer(&mut objs, &c).unwrap();
    let path = vec![Pose { x: 0, y: 0, rotation: 0 }, Pose { x: 2 * U, y: 0, rotation: 0 }];
    let tracker = SpeedTracker::new(&objs);
    apply_layer(&mut objs, &c, &plan, &tracker, &vec![Some(path)]);
    assert_eq!(objs[0].as_str(), text_other);
    assert_eq!(objs[1].as_str(), text_plain);
    assert_eq!(objs.len(), 6);
}
