use gdphysics::speed::SpeedTracker;
use gdphysics::timeline::{rotation_step, synthesize, Pose, Trigger};

fn pose(x: i64, y: i64, r: i64) -> Pose {
    Pose { x: x * 1000, y: y * 1000, rotation: r * 1000 }
}

#[test]
fn rotation_remap_takes_the_short_way() {
    assert_eq!(rotation_step(200_000_000), Some(-160));
    assert_eq!(rotation_step(-200_000_000), Some(160));
    assert_eq!(rotation_step(0), None);
    assert_eq!(rotation_step(180_000_000), Some(180));
    assert_eq!(rotation_step(370_000_000), Some(10));
    assert_eq!(rotation_step(359_600_000), None);
    assert_eq!(rotation_step(400_000), None);
    assert_eq!(rotation_step(500_000), Some(1));
}

#[test]
fn resting_path_emits_nothing() {
    let t = SpeedTracker::new(&vec![]);
    let path = vec![pose(100, 200, 0), pose(100, 200, 0), pose(100, 200, 0)];
    assert!(synthesize(&path, 0, &t, 100_000).is_empty());
}

#[test]
fn moves_carry_sub_unit_drift() {
    let t = SpeedTracker::new(&vec![]);
    // x drifts by 0.4 units per keyframe: no move, then 0.8 rounds to 1.
    let path = vec![pose(0, 0, 0), pose(400, 0, 0), pose(800, 0, 0), pose(1200, 0, 0)];
    let out = synthesize(&path, 0, &t, 100_000);
    // Cursor advances 10.387 * 30 * 0.1 = 31.161 units per keyframe.
    assert_eq!(out, vec![Trigger::Move { x: 31_161_000, dx: 1, dy: 0 }]);
}

#[test]
fn move_and_rotate_share_the_cursor() {
    let t = SpeedTracker::new(&vec![]);
    let path = vec![pose(0, 0, 0), pose(2000, -3000, 90_000), pose(2000, -3000, -90_000)];
    let out = synthesize(&path, 5_000_000, &t, 100_000);
    assert_eq!(
        out,
        vec![
            Trigger::Move { x: 5_000_000, dx: 2, dy: -3 },
            Trigger::Rotate { x: 5_000_000, degrees: 90 },
            Trigger::Rotate { x: 36_161_000, degrees: -180 },
        ]
    );
}

#[test]
fn displacement_is_conserved() {
    let t = SpeedTracker::new(&vec![]);
    let mut path = Vec::new();
    for i in 0..20i64 {
        path.push(Pose { x: i * 730_000 + 123_456, y: -i * i * 41_000, rotation: 0 });
    }
    let out = synthesize(&path, 0, &t, 100_000);
    let (mut sx, mut sy) = (0i64, 0i64);
    for tr in &out {
        if let Trigger::Move { dx, dy, .. } = tr {
            sx += *dx as i64;
            sy += *dy as i64;
        }
    }
    let last = path[path.len() - 1];
    assert!((sx * 1_000_000 - (last.x - path[0].x)).abs() <= 500_000);
    assert!((sy * 1_000_000 - (last.y - path[0].y)).abs() <= 500_000);
}
