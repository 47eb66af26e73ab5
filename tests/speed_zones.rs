use gdphysics::object::{AttribKey, AttribValue, Obj};
use gdphysics::speed::{Speed, SpeedTracker};

fn portal(id: i32, x: i64) -> Obj {
    Obj::new(id, x, 0).with(AttribKey::SpecialCheck, AttribValue::Bool(true))
}

#[test]
fn speed_from_known_ids() {
    assert_eq!(Speed::from(200), Some(Speed::Half));
    assert_eq!(Speed::from(201), Some(Speed::Normal));
    assert_eq!(Speed::from(202), Some(Speed::Double));
    assert_eq!(Speed::from(203), Some(Speed::Triple));
    assert_eq!(Speed::from(1334), Some(Speed::Quad));
    assert_eq!(Speed::from(1), None);
}

#[test]
fn speed_rates_and_widths() {
    assert_eq!(Speed::Half.bps(), 8383);
    assert_eq!(Speed::Normal.bps(), 10387);
    assert_eq!(Speed::Quad.bps(), 19201);
    assert_eq!(Speed::Triple.width(), 65);
    assert_eq!(Speed::Normal.width(), 32);
}

#[test]
fn tracker_collects_and_orders_portals() {
    // Double portal at x = 1000, half portal at x = 500, given out of order.
    let objects = vec![
        portal(202, 1_000_000_000),
        portal(200, 500_000_000),
        Obj::new(202, 2_000_000_000, 0),
    ];
    let t = SpeedTracker::new(&objects);
    assert_eq!(
        t.speeds,
        vec![
            (Speed::Normal, 0),
            (Speed::Half, 500_000_000 - 17_000_000),
            (Speed::Double, 1_000_000_000 - 25_000_000),
        ]
    );
}

#[test]
fn portal_at_level_start_is_raised_to_zero() {
    let objects = vec![portal(200, 0), portal(202, 10_000_000)];
    let t = SpeedTracker::new(&objects);
    assert_eq!(t.speeds, vec![(Speed::Normal, 0), (Speed::Half, 0), (Speed::Double, 0)]);
    for w in t.speeds.windows(2) {
        assert!(w[0].1 <= w[1].1);
    }
    assert_eq!(t.speed_at(0), Speed::Double);
    assert_eq!(t.speed_at(-1), Speed::Normal);
}

#[test]
fn tracker_collapses_duplicate_zones() {
    let objects = vec![portal(202, 1_000_000_000), portal(202, 1_000_000_000)];
    let t = SpeedTracker::new(&objects);
    assert_eq!(t.speeds.len(), 2);
}

#[test]
fn speed_at_is_a_step_function() {
    let objects = vec![portal(202, 1_025_000_000), portal(1334, 2_034_500_000)];
    let t = SpeedTracker::new(&objects);
    assert_eq!(t.speed_at(-5_000_000), Speed::Normal);
    assert_eq!(t.speed_at(0), Speed::Normal);
    assert_eq!(t.speed_at(999_999_999), Speed::Normal);
    assert_eq!(t.speed_at(1_000_000_000), Speed::Double);
    assert_eq!(t.speed_at(1_999_999_999), Speed::Double);
    assert_eq!(t.speed_at(2_000_000_000), Speed::Quad);
    assert_eq!(t.speed_at(9_000_000_000), Speed::Quad);
}

#[test]
fn duration_of_one_second_at_normal_speed() {
    let t = SpeedTracker::new(&vec![]);
    // 10.387 * 30 = 311.61 units per second.
    assert_eq!(t.duration(0, 311_610_000), 1_000_000);
    assert_eq!(t.duration(-311_610_000, 311_610_000), 2_000_000);
}

#[test]
fn duration_crosses_zones() {
    let objects = vec![portal(202, 311_610_000 + 25_000_000)];
    let t = SpeedTracker::new(&objects);
    // One second at normal speed, then 387.45 units at double speed (one second).
    assert_eq!(t.duration(0, 311_610_000), 1_000_000);
    assert_eq!(t.duration(311_610_000, 311_610_000 + 387_450_000), 1_000_000);
    assert_eq!(t.duration(0, 311_610_000 + 387_450_000), 2_000_000);
}

#[test]
fn duration_is_additive_within_rounding() {
    let objects = vec![portal(200, 700_000_000), portal(203, 1_300_000_000)];
    let t = SpeedTracker::new(&objects);
    let (a, b, c) = (-123_456_789i64, 987_654_321i64, 2_468_013_579i64);
    let whole = t.duration(a, c) as i64;
    let parts = t.duration(a, b) as i64 + t.duration(b, c) as i64;
    assert!(whole - parts >= 0);
    assert!(whole - parts <= t.speeds.len() as i64);
}
