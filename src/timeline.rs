use vstd::prelude::*;
use vstd::arithmetic::div_mod::{lemma_fundamental_div_mod, lemma_div_is_ordered};
use crate::speed::{SpeedTracker, Speed, zone_index, SCALE};

verus! {

/// Fixed-point scale: positions, rotations and durations are held in
/// millionths of a unit, of a degree and of a second.
pub const UNIT: i64 = 1_000_000;

/// Largest magnitude of a sampled coordinate or rotation, in millionths:
/// a billion whole units, so that any offset between two samples fits an `i32`.
pub const POSE_LIMIT: i64 = 1_000_000_000_000_000;

/// Largest keyframe duration accepted, in microseconds (a million seconds).
pub const STEP_LIMIT: i64 = 1_000_000_000_000;

/// One sampled pose of a body: position in micro-units, rotation in
/// micro-degrees (clockwise positive).
#[derive(Clone, Copy, Debug, PartialEq, Eq, Structural)]
pub struct Pose {
    pub x: i64,
    pub y: i64,
    pub rotation: i64,
}

impl Pose {
    pub open spec fn in_range(self) -> bool {
        &&& -POSE_LIMIT <= self.x <= POSE_LIMIT
        &&& -POSE_LIMIT <= self.y <= POSE_LIMIT
        &&& -POSE_LIMIT <= self.rotation <= POSE_LIMIT
    }
}

/// A trigger emitted for one keyframe: a move by whole units, or a rotation
/// by whole degrees, placed at horizontal position `x` (micro-units).
#[derive(Clone, Copy, Debug, PartialEq, Eq, Structural)]
pub enum Trigger {
    Move { x: i64, dx: i32, dy: i32 },
    Rotate { x: i64, degrees: i32 },
}

/// Nearest whole number of units to `v` millionths, halves away from zero.
pub open spec fn round_unit(v: int) -> int {
    if v >= 0 {
        (v + UNIT / 2) / (UNIT as int)
    } else {
        -((-v + UNIT / 2) / (UNIT as int))
    }
}

/// Remainder of `a` by `m` with the sign of `a`.
pub open spec fn trunc_rem(a: int, m: int) -> int {
    if a >= 0 {
        a % m
    } else {
        -((-a) % m)
    }
}

/// Whole degrees to rotate for a change of `delta` micro-degrees: the change
/// is reduced modulo 360, rounded, and taken the short way round so that it
/// lies in `[-180, 180]`; `None` when that is no rotation at all.
pub open spec fn remap_degrees(delta: int) -> Option<int> {
    let dr = trunc_rem(delta, 360 * UNIT);
    let rd = round_unit(dr);
    let deg = if -180 <= rd <= 180 {
        rd
    } else if dr > 0 {
        rd - 360
    } else {
        rd + 360
    };
    if deg == 0 {
        None
    } else {
        Some(deg)
    }
}

/// State of the walk over a path: displacement and rotation applied so far
/// (millionths) and the horizontal cursor where the next triggers go.
pub struct WalkState {
    pub dx: int,
    pub dy: int,
    pub rot: int,
    pub cursor: int,
}

/// Distance the cursor moves in one keyframe of `step` microseconds at the
/// rate of the zone in force at `cursor`, held below the largest position.
/// The rate is the one at the start of the keyframe: a keyframe that crosses
/// into another zone is not split at the zone boundary (`SpeedTracker::duration`
/// integrates across zones exactly).
pub open spec fn advance(zones: Seq<(Speed, i64)>, cursor: int, step: int) -> int {
    let speed = zones[zone_index(zones, cursor, zones.len() as int)].0;
    let next = cursor + speed.spec_bps() * SCALE * step / 1000;
    if next > i64::MAX {
        i64::MAX as int
    } else {
        next
    }
}

/// Triggers emitted for sample `p` from state `w`.
pub open spec fn step_triggers(w: WalkState, p: Pose) -> Seq<Trigger> {
    let mx = round_unit(p.x - w.dx);
    let my = round_unit(p.y - w.dy);
    let moves = if mx != 0 || my != 0 {
        seq![Trigger::Move { x: w.cursor as i64, dx: mx as i32, dy: my as i32 }]
    } else {
        seq![]
    };
    let rots = match remap_degrees(p.rotation - w.rot) {
        Some(d) => seq![Trigger::Rotate { x: w.cursor as i64, degrees: d as i32 }],
        None => seq![],
    };
    moves + rots
}

/// State after sample `p`.
pub open spec fn step_state(
    w: WalkState,
    p: Pose,
    zones: Seq<(Speed, i64)>,
    step: int,
) -> WalkState {
    let mx = round_unit(p.x - w.dx);
    let my = round_unit(p.y - w.dy);
    let moved = mx != 0 || my != 0;
    let rd = match remap_degrees(p.rotation - w.rot) {
        Some(d) => d,
        None => 0,
    };
    WalkState {
        dx: if moved { w.dx + mx * UNIT } else { w.dx },
        dy: if moved { w.dy + my * UNIT } else { w.dy },
        rot: w.rot + rd * UNIT,
        cursor: advance(zones, w.cursor, step),
    }
}

/// State once samples `1..i` of `path` have been walked.
pub open spec fn walk(
    path: Seq<Pose>,
    anchor: int,
    zones: Seq<(Speed, i64)>,
    step: int,
    i: int,
) -> WalkState
    decreases i,
{
    if i <= 1 {
        WalkState { dx: path[0].x as int, dy: path[0].y as int, rot: path[0].rotation as int, cursor: anchor }
    } else {
        step_state(walk(path, anchor, zones, step, i - 1), path[i - 1], zones, step)
    }
}

/// Triggers emitted for samples `1..i` of `path`.
pub open spec fn emitted(
    path: Seq<Pose>,
    anchor: int,
    zones: Seq<(Speed, i64)>,
    step: int,
    i: int,
) -> Seq<Trigger>
    decreases i,
{
    if i <= 1 {
        seq![]
    } else {
        emitted(path, anchor, zones, step, i - 1) + step_triggers(
            walk(path, anchor, zones, step, i - 1),
            path[i - 1],
        )
    }
}

proof fn lemma_round(v: int)
    ensures
        -(UNIT / 2) <= v - round_unit(v) * UNIT <= UNIT / 2,
        round_unit(v) == 0 <==> -(UNIT / 2) < v < UNIT / 2,
        v >= 0 ==> round_unit(v) >= 0,
        v <= 0 ==> round_unit(v) <= 0,
{
    let u = UNIT as int;
    if v >= 0 {
        lemma_fundamental_div_mod(v + u / 2, u);
    } else {
        lemma_fundamental_div_mod(-v + u / 2, u);
    }
}

proof fn lemma_round_bound(v: int)
    requires
        -(2 * POSE_LIMIT + UNIT) <= v <= 2 * POSE_LIMIT + UNIT,
    ensures
        -2_000_000_002 <= round_unit(v) <= 2_000_000_002,
{
    let u = UNIT as int;
    let top = 2 * POSE_LIMIT + UNIT + u / 2;
    lemma_fundamental_div_mod(top, u);
    if v >= 0 {
        lemma_div_is_ordered(v + u / 2, top, u);
    } else {
        lemma_div_is_ordered(-v + u / 2, top, u);
    }
}

fn round_micro(v: i64) -> (r: i64)
    requires
        -(2 * POSE_LIMIT + UNIT) <= v <= 2 * POSE_LIMIT + UNIT,
    ensures
        r == round_unit(v as int),
        -2_000_000_002 <= r <= 2_000_000_002,
{
    proof {
        lemma_round_bound(v as int);
    }
    if v >= 0 {
        (v + UNIT / 2) / UNIT
    } else {
        -((-v + UNIT / 2) / UNIT)
    }
}

/// Whole degrees of the rotate trigger for a change of `delta` micro-degrees
/// between the rotation applied so far and a sampled one; `None` when no
/// rotation is to be emitted.
pub fn rotation_step(delta: i128) -> (r: Option<i32>)
    requires
        delta > i128::MIN,
    ensures
        r matches Some(d) ==> remap_degrees(delta as int) == Some(d as int) && -180 <= d <= 180,
        r is None ==> remap_degrees(delta as int) is None,
{
    let full: i128 = 360 * UNIT as i128;
    let dr: i128 = if delta >= 0 { delta % full } else { -((-delta) % full) };
    assert(-360 * UNIT < dr < 360 * UNIT);
    let rd = round_micro(dr as i64);
    proof {
        lemma_round(dr as int);
        lemma_round_le_360(dr as int);
    }
    let deg: i64 = if -180 <= rd && rd <= 180 {
        rd
    } else if dr > 0 {
        rd - 360
    } else {
        rd + 360
    };
    if deg == 0 {
        None
    } else {
        Some(deg as i32)
    }
}

proof fn lemma_round_le_360(v: int)
    requires
        -360 * UNIT < v < 360 * UNIT,
    ensures
        -360 <= round_unit(v) <= 360,
{
    let u = UNIT as int;
    lemma_fundamental_div_mod(360 * u + u / 2, u);
    if v >= 0 {
        lemma_div_is_ordered(v + u / 2, 360 * u + u / 2, u);
    } else {
        lemma_div_is_ordered(-v + u / 2, 360 * u + u / 2, u);
    }
}

/// One keyframe of the walk: the triggers for sample `p` are appended to
/// `out` and the next state is returned.
fn walk_step(
    tdx: i64,
    tdy: i64,
    trot: i128,
    cursor: i64,
    p: Pose,
    tracker: &SpeedTracker,
    step: i64,
    out: &mut Vec<Trigger>,
) -> (r: (i64, i64, i128, i64))
    requires
        p.in_range(),
        -(POSE_LIMIT + UNIT) <= tdx <= POSE_LIMIT + UNIT,
        -(POSE_LIMIT + UNIT) <= tdy <= POSE_LIMIT + UNIT,
        -0x1_0000_0000_0000_0000_0000_0000 <= trot <= 0x1_0000_0000_0000_0000_0000_0000,
        tracker.wf(),
        0 <= step <= STEP_LIMIT,
    ensures
        ({
            let w = WalkState { dx: tdx as int, dy: tdy as int, rot: trot as int, cursor: cursor as int };
            &&& (WalkState { dx: r.0 as int, dy: r.1 as int, rot: r.2 as int, cursor: r.3 as int })
                == step_state(w, p, tracker.speeds@, step as int)
            &&& final(out)@ == old(out)@ + step_triggers(w, p)
        }),
        -(UNIT / 2) <= r.0 - p.x <= UNIT / 2,
        -(UNIT / 2) <= r.1 - p.y <= UNIT / 2,
        -181 * UNIT <= r.2 - trot <= 181 * UNIT,
{
    let ghost w = WalkState { dx: tdx as int, dy: tdy as int, rot: trot as int, cursor: cursor as int };
    let mx = round_micro(p.x - tdx);
    let my = round_micro(p.y - tdy);
    proof {
        lemma_round((p.x - tdx) as int);
        lemma_round((p.y - tdy) as int);
    }
    let ghost before = out@;
    let mut ndx = tdx;
    let mut ndy = tdy;
    if mx != 0 || my != 0 {
        out.push(Trigger::Move { x: cursor, dx: mx as i32, dy: my as i32 });
        ndx = tdx + mx * UNIT;
        ndy = tdy + my * UNIT;
    }
    let mut nrot = trot;
    let rs = rotation_step(p.rotation as i128 - trot);
    match rs {
        Some(d) => {
            out.push(Trigger::Rotate { x: cursor, degrees: d });
            nrot = trot + d as i128 * UNIT as i128;
        },
        None => {},
    }
    let speed = tracker.speed_at(cursor);
    let bps: i64 = speed.bps();
    assert(0 <= (bps * 30) * step <= 19201 * 30 * STEP_LIMIT) by (nonlinear_arith)
        requires
            8383 <= bps <= 19201,
            0 <= step <= STEP_LIMIT,
    ;
    let rate: i128 = (bps as i128) * (SCALE as i128);
    let adv: i128 = rate * (step as i128) / 1000;
    let next: i128 = cursor as i128 + adv;
    let ncursor = if next > i64::MAX as i128 { i64::MAX } else { next as i64 };
    assert(out@ =~= before + step_triggers(w, p));
    (ndx, ndy, nrot, ncursor)
}

/// Triggers that replay a body's sampled path: sample 0 is the resting pose,
/// every later sample moves the body by the whole units it has drifted from
/// what was applied so far and rotates it the short way round, the triggers
/// for keyframe `i` standing at the cursor, which starts at `anchor_x` and
/// moves at the local scroll rate for `step` microseconds per keyframe.
pub fn synthesize(path: &Vec<Pose>, anchor_x: i64, tracker: &SpeedTracker, step: i64) -> (r: Vec<
    Trigger,
>)
    requires
        path@.len() >= 1,
        forall|i: int| 0 <= i < path@.len() ==> (#[trigger] path@[i]).in_range(),
        tracker.wf(),
        0 <= step <= STEP_LIMIT,
    ensures
        r@ == emitted(path@, anchor_x as int, tracker.speeds@, step as int, path@.len() as int),
{
    let n = path.len();
    let ghost zones = tracker.speeds@;
    let mut out: Vec<Trigger> = Vec::new();
    let mut tdx: i64 = path[0].x;
    let mut tdy: i64 = path[0].y;
    let mut trot: i128 = path[0].rotation as i128;
    let mut cursor: i64 = anchor_x;
    let mut i: usize = 1;
    while i < n
        invariant
            1 <= i <= n,
            n == path@.len(),
            forall|k: int| 0 <= k < path@.len() ==> (#[trigger] path@[k]).in_range(),
            tracker.wf(),
            zones == tracker.speeds@,
            0 <= step <= STEP_LIMIT,
            walk(path@, anchor_x as int, zones, step as int, i as int) == (WalkState {
                dx: tdx as int,
                dy: tdy as int,
                rot: trot as int,
                cursor: cursor as int,
            }),
            out@ == emitted(path@, anchor_x as int, zones, step as int, i as int),
            -(UNIT / 2) <= tdx - path@[i - 1].x <= UNIT / 2,
            -(UNIT / 2) <= tdy - path@[i - 1].y <= UNIT / 2,
            -(POSE_LIMIT + 181_000_000 * i) <= trot <= POSE_LIMIT + 181_000_000 * i,
        decreases n - i,
    {
        let p = path[i];
        assert(p.in_range());
        assert(path@[i - 1].in_range());
        assert(i as int <= usize::MAX);
        let r = walk_step(tdx, tdy, trot, cursor, p, tracker, step, &mut out);
        tdx = r.0;
        tdy = r.1;
        trot = r.2;
        cursor = r.3;
        i += 1;
    }
    out
}

/// Whole units moved along x by the move triggers of `ts`.
pub open spec fn moved_x(ts: Seq<Trigger>) -> int
    decreases ts.len(),
{
    if ts.len() == 0 {
        0
    } else {
        moved_x(ts.drop_last()) + match ts.last() {
            Trigger::Move { dx, .. } => dx as int,
            Trigger::Rotate { .. } => 0,
        }
    }
}

/// Whole units moved along y by the move triggers of `ts`.
pub open spec fn moved_y(ts: Seq<Trigger>) -> int
    decreases ts.len(),
{
    if ts.len() == 0 {
        0
    } else {
        moved_y(ts.drop_last()) + match ts.last() {
            Trigger::Move { dy, .. } => dy as int,
            Trigger::Rotate { .. } => 0,
        }
    }
}

proof fn lemma_moved_concat(a: Seq<Trigger>, b: Seq<Trigger>)
    ensures
        moved_x(a + b) == moved_x(a) + moved_x(b),
        moved_y(a + b) == moved_y(a) + moved_y(b),
    decreases b.len(),
{
    if b.len() > 0 {
        lemma_moved_concat(a, b.drop_last());
        assert((a + b).drop_last() =~= a + b.drop_last());
    }
}

proof fn lemma_walk_tracks(path: Seq<Pose>, anchor: int, zones: Seq<(Speed, i64)>, step: int, i: int)
    requires
        1 <= i <= path.len(),
        forall|k: int| 0 <= k < path.len() ==> (#[trigger] path[k]).in_range(),
    ensures
        ({
            let w = walk(path, anchor, zones, step, i);
            let e = emitted(path, anchor, zones, step, i);
            &&& w.dx == path[0].x + moved_x(e) * UNIT
            &&& w.dy == path[0].y + moved_y(e) * UNIT
            &&& -(UNIT / 2) <= w.dx - path[i - 1].x <= UNIT / 2
            &&& -(UNIT / 2) <= w.dy - path[i - 1].y <= UNIT / 2
        }),
    decreases i,
{
    if i > 1 {
        lemma_walk_tracks(path, anchor, zones, step, i - 1);
        let w = walk(path, anchor, zones, step, i - 1);
        let p = path[i - 1];
        assert(p.in_range());
        assert(path[i - 2].in_range());
        lemma_round(p.x - w.dx);
        lemma_round(p.y - w.dy);
        lemma_round_bound(p.x - w.dx);
        lemma_round_bound(p.y - w.dy);
        let t = step_triggers(w, p);
        lemma_moved_concat(emitted(path, anchor, zones, step, i - 1), t);
        let mx = round_unit(p.x - w.dx);
        let my = round_unit(p.y - w.dy);
        let moves = if mx != 0 || my != 0 {
            seq![Trigger::Move { x: w.cursor as i64, dx: mx as i32, dy: my as i32 }]
        } else {
            seq![]
        };
        let rots = match remap_degrees(p.rotation - w.rot) {
            Some(d) => seq![Trigger::Rotate { x: w.cursor as i64, degrees: d as i32 }],
            None => seq![],
        };
        lemma_moved_concat(moves, rots);
        assert(moved_x(rots) == 0 && moved_y(rots) == 0) by {
            if rots.len() > 0 {
                assert(rots.drop_last() =~= Seq::<Trigger>::empty());
                assert(moved_x(Seq::<Trigger>::empty()) == 0);
                assert(moved_y(Seq::<Trigger>::empty()) == 0);
            }
        }
        if moves.len() > 0 {
            assert(moves.drop_last() =~= Seq::<Trigger>::empty());
            assert(moved_x(Seq::<Trigger>::empty()) == 0);
            assert(moved_y(Seq::<Trigger>::empty()) == 0);
            assert(moved_x(moves) == mx);
            assert(moved_y(moves) == my);
        } else {
            assert(moved_x(moves) == 0);
            assert(moved_y(moves) == 0);
        }
    }
}

/// Displacement is conserved: the whole units moved by the emitted move
/// triggers add up, on each axis, to the body's net displacement over the
/// path to within half a unit.
pub proof fn lemma_displacement_conserved(
    path: Seq<Pose>,
    anchor: int,
    zones: Seq<(Speed, i64)>,
    step: int,
)
    requires
        path.len() >= 1,
        forall|k: int| 0 <= k < path.len() ==> (#[trigger] path[k]).in_range(),
    ensures
        ({
            let n = path.len() as int;
            let e = emitted(path, anchor, zones, step, n);
            &&& -(UNIT / 2) <= moved_x(e) * UNIT - (path[n - 1].x - path[0].x) <= UNIT / 2
            &&& -(UNIT / 2) <= moved_y(e) * UNIT - (path[n - 1].y - path[0].y) <= UNIT / 2
        }),
{
    lemma_walk_tracks(path, anchor, zones, step, path.len() as int);
}

} // verus!
