use vstd::prelude::*;
use crate::object::{AttribKey, AttribValue, Obj};
use crate::config::LayerConfig;
use crate::speed::SpeedTracker;
use crate::timeline::{Pose, Trigger, UNIT, POSE_LIMIT, emitted, synthesize};
use vstd::arithmetic::div_mod::{lemma_div_is_ordered, lemma_div_multiples_vanish};

verus! {

/// Object type id of a move trigger.
pub const MOVE_TRIGGER: i32 = 901;

/// Object type id of a rotate trigger.
pub const ROTATE_TRIGGER: i32 = 1346;

/// Integer attribute `k` of `o`, if it holds one.
pub open spec fn int_attr(o: Map<AttribKey, AttribValue>, k: AttribKey) -> Option<i32> {
    if o.contains_key(k) && o[k] is Int {
        Some(o[k]->Int_0)
    } else {
        None
    }
}

/// Editor layer of `o`; 0 when it has none.
pub open spec fn layer_of(o: Map<AttribKey, AttribValue>) -> int {
    match int_attr(o, AttribKey::EditorLayer1) {
        Some(l) => l as int,
        None => 0,
    }
}

/// A move or rotate trigger on editor layer `layer`.
pub open spec fn is_stale(o: Map<AttribKey, AttribValue>, layer: int) -> bool {
    &&& layer_of(o) == layer
    &&& (int_attr(o, AttribKey::ObjID) == Some(MOVE_TRIGGER) || int_attr(o, AttribKey::ObjID)
        == Some(ROTATE_TRIGGER))
}

/// Objects of `s[0..k]` that are not move or rotate triggers on `layer`, in order.
pub open spec fn kept(s: Seq<Obj>, layer: int, k: int) -> Seq<Obj>
    decreases k,
{
    if k <= 0 {
        seq![]
    } else if is_stale(s[k - 1]@, layer) {
        kept(s, layer, k - 1)
    } else {
        kept(s, layer, k - 1).push(s[k - 1])
    }
}

/// Greatest link-group id among the objects `s[0..k]`.
pub open spec fn max_link(s: Seq<Obj>, k: int) -> Option<i32>
    decreases k,
{
    if k <= 0 {
        None
    } else {
        match (max_link(s, k - 1), int_attr(s[k - 1]@, AttribKey::LinkedGroupID)) {
            (Some(a), Some(b)) => Some(if a >= b { a } else { b }),
            (Some(a), None) => Some(a),
            (None, b) => b,
        }
    }
}

/// X position of the anchor among `s[0..k]`: the last object on `layer` of
/// type `anchor_id` with a decimal x position; 0 when there is none.
pub open spec fn anchor_of(s: Seq<Obj>, layer: int, anchor_id: i32, k: int) -> i64
    decreases k,
{
    if k <= 0 {
        0
    } else {
        let o = s[k - 1]@;
        if layer_of(o) == layer && int_attr(o, AttribKey::ObjID) == Some(anchor_id) && o.contains_key(
            AttribKey::XPos,
        ) && o[AttribKey::XPos] is Float {
            o[AttribKey::XPos]->Float_0
        } else {
            anchor_of(s, layer, anchor_id, k - 1)
        }
    }
}

pub fn int_attr_of(o: &Obj, k: AttribKey) -> (r: Option<i32>)
    ensures
        r == int_attr(o@, k),
{
    match o.get(k) {
        Some(AttribValue::Int(v)) => Some(*v),
        _ => None,
    }
}

fn layer_of_obj(o: &Obj) -> (r: i32)
    ensures
        r as int == layer_of(o@),
{
    match int_attr_of(o, AttribKey::EditorLayer1) {
        Some(l) => l,
        None => 0,
    }
}

/// The link-group id for a new batch of triggers: one more than the
/// greatest in use, 1 when none is; `None` when the greatest is `i32::MAX`.
pub fn next_link_group(objects: &Vec<Obj>) -> (r: Option<i32>)
    ensures
        ({
            let m = max_link(objects@, objects@.len() as int);
            match m {
                Some(g) => if g < i32::MAX { r == Some((g + 1) as i32) } else { r is None },
                None => r == Some(1i32),
            }
        }),
{
    let mut best: Option<i32> = None;
    let mut i: usize = 0;
    while i < objects.len()
        invariant
            i <= objects@.len(),
            best == max_link(objects@, i as int),
        decreases objects@.len() - i,
    {
        let g = int_attr_of(&objects[i], AttribKey::LinkedGroupID);
        best = match (best, g) {
            (Some(a), Some(b)) => Some(if a >= b { a } else { b }),
            (Some(a), None) => Some(a),
            (None, b) => b,
        };
        i += 1;
    }
    match best {
        Some(g) => if g < i32::MAX { Some(g + 1) } else { None },
        None => Some(1),
    }
}

/// Removes the move and rotate triggers on editor layer `layer`, keeping
/// the other objects in order.
pub fn remove_stale_triggers(objects: &mut Vec<Obj>, layer: i32)
    ensures
        final(objects)@ == kept(old(objects)@, layer as int, old(objects)@.len() as int),
{
    let ghost s = objects@;
    let n = objects.len();
    let mut i: usize = 0;
    let mut j: usize = 0;
    while j < n
        invariant
            j <= n,
            n == s.len(),
            i <= j,
            objects@ == kept(s, layer as int, j as int) + s.subrange(j as int, n as int),
            i == kept(s, layer as int, j as int).len(),
        decreases n - j,
    {
        proof {
            assert(objects@[i as int] == s[j as int]);
        }
        let l = layer_of_obj(&objects[i]);
        let id = int_attr_of(&objects[i], AttribKey::ObjID);
        let stale = l == layer && (id == Some(MOVE_TRIGGER) || id == Some(ROTATE_TRIGGER));
        let ghost before = objects@;
        if stale {
            objects.remove(i);
            proof {
                assert(objects@ =~= kept(s, layer as int, j + 1) + s.subrange(j + 1, n as int));
            }
        } else {
            proof {
                assert(before =~= kept(s, layer as int, j + 1) + s.subrange(j + 1, n as int));
            }
            i += 1;
        }
        j += 1;
    }
    proof {
        assert(objects@ =~= kept(s, layer as int, n as int));
    }
}

/// X position of the anchor object (see `anchor_of`), in micro-units.
pub fn anchor_x(objects: &Vec<Obj>, layer: i32, anchor_id: i32) -> (r: i64)
    ensures
        r == anchor_of(objects@, layer as int, anchor_id, objects@.len() as int),
{
    let mut x: i64 = 0;
    let mut i: usize = 0;
    while i < objects.len()
        invariant
            i <= objects@.len(),
            x == anchor_of(objects@, layer as int, anchor_id, i as int),
        decreases objects@.len() - i,
    {
        let o = &objects[i];
        if layer_of_obj(o) == layer && int_attr_of(o, AttribKey::ObjID) == Some(anchor_id) {
            if let Some(AttribValue::Float(v)) = o.get(AttribKey::XPos) {
                x = *v;
            }
        }
        i += 1;
    }
    x
}

/// What object `o` contributes to the shapes of `layer`: its first group id,
/// its second group id if it has one, and its position. An object counts
/// when it is on `layer`, has a non-empty group list and a decimal position.
pub open spec fn member_of(o: Map<AttribKey, AttribValue>, layer: int) -> Option<
    (i32, Option<i32>, (i64, i64)),
> {
    if layer_of(o) == layer && o.contains_key(AttribKey::GroupIDs) && o[AttribKey::GroupIDs] is Array
        && o[AttribKey::GroupIDs]->Array_0@.len() > 0 && o.contains_key(AttribKey::XPos)
        && o[AttribKey::XPos] is Float && o.contains_key(AttribKey::YPos)
        && o[AttribKey::YPos] is Float {
        let g = o[AttribKey::GroupIDs]->Array_0@;
        Some(
            (
                g[0],
                if g.len() > 1 {
                    Some(g[1])
                } else {
                    None
                },
                (o[AttribKey::XPos]->Float_0, o[AttribKey::YPos]->Float_0),
            ),
        )
    } else {
        None
    }
}

/// Shape-group ids of `s[0..k]` on `layer`, in order of first appearance.
pub open spec fn group_ids(s: Seq<Obj>, layer: int, k: int) -> Seq<i32>
    decreases k,
{
    if k <= 0 {
        seq![]
    } else {
        let prev = group_ids(s, layer, k - 1);
        match member_of(s[k - 1]@, layer) {
            Some(m) => if prev.contains(m.0) {
                prev
            } else {
                prev.push(m.0)
            },
            None => prev,
        }
    }
}

/// Positions of the members of shape group `g` among `s[0..k]`, in order.
pub open spec fn points_of(s: Seq<Obj>, layer: int, g: i32, k: int) -> Seq<(i64, i64)>
    decreases k,
{
    if k <= 0 {
        seq![]
    } else {
        let prev = points_of(s, layer, g, k - 1);
        match member_of(s[k - 1]@, layer) {
            Some(m) => if m.0 == g {
                prev.push(m.2)
            } else {
                prev
            },
            None => prev,
        }
    }
}

/// Rotation-center of shape group `g` among `s[0..k]`: the second group id
/// and index of its last member that has one.
pub open spec fn center_of(s: Seq<Obj>, layer: int, g: i32, k: int) -> Option<(i32, usize)>
    decreases k,
{
    if k <= 0 {
        None
    } else {
        match member_of(s[k - 1]@, layer) {
            Some(m) => if m.0 == g && m.1 is Some {
                Some((m.1->0, (k - 1) as usize))
            } else {
                center_of(s, layer, g, k - 1)
            },
            None => center_of(s, layer, g, k - 1),
        }
    }
}

/// The members of one shape group on a layer.
pub struct ShapeGroup {
    /// First group id shared by the members.
    pub group: i32,
    /// Member positions, in micro-units.
    pub points: Vec<(i64, i64)>,
    /// Second group id and object index of the rotation-center member.
    pub center: Option<(i32, usize)>,
}

fn member(o: &Obj, layer: i32) -> (r: Option<(i32, Option<i32>, (i64, i64))>)
    ensures
        r == member_of(o@, layer as int),
{
    if layer_of_obj(o) != layer {
        return None;
    }
    let groups = match o.get(AttribKey::GroupIDs) {
        Some(AttribValue::Array(g)) => g,
        _ => return None,
    };
    if groups.len() == 0 {
        return None;
    }
    let x = match o.get(AttribKey::XPos) {
        Some(AttribValue::Float(x)) => *x,
        _ => return None,
    };
    let y = match o.get(AttribKey::YPos) {
        Some(AttribValue::Float(y)) => *y,
        _ => return None,
    };
    let second = if groups.len() > 1 {
        Some(groups[1])
    } else {
        None
    };
    Some((groups[0], second, (x, y)))
}

fn contains_id(v: &Vec<i32>, g: i32) -> (r: bool)
    ensures
        r == v@.contains(g),
{
    let mut i: usize = 0;
    while i < v.len()
        invariant
            i <= v@.len(),
            forall|k: int| 0 <= k < i ==> v@[k] != g,
        decreases v@.len() - i,
    {
        if v[i] == g {
            assert(v@[i as int] == g);
            return true;
        }
        i += 1;
    }
    false
}

/// The shape groups of editor layer `layer`, in order of first appearance,
/// each with its members' positions and its rotation-center member.
pub fn collect_shapes(objects: &Vec<Obj>, layer: i32) -> (r: Vec<ShapeGroup>)
    ensures
        ({
            let n = objects@.len() as int;
            let ids = group_ids(objects@, layer as int, n);
            &&& r@.len() == ids.len()
            &&& forall|i: int|
                0 <= i < r@.len() ==> {
                    &&& (#[trigger] r@[i]).group == ids[i]
                    &&& r@[i].points@ == points_of(objects@, layer as int, ids[i], n)
                    &&& r@[i].center == center_of(objects@, layer as int, ids[i], n)
                }
        }),
{
    let n = objects.len();
    let mut ids: Vec<i32> = Vec::new();
    let mut i: usize = 0;
    while i < n
        invariant
            i <= n,
            n == objects@.len(),
            ids@ == group_ids(objects@, layer as int, i as int),
        decreases n - i,
    {
        if let Some(m) = member(&objects[i], layer) {
            if !contains_id(&ids, m.0) {
                ids.push(m.0);
            }
        }
        i += 1;
    }
    let mut shapes: Vec<ShapeGroup> = Vec::new();
    let mut k: usize = 0;
    while k < ids.len()
        invariant
            k <= ids@.len(),
            n == objects@.len(),
            ids@ == group_ids(objects@, layer as int, n as int),
            shapes@.len() == k,
            forall|a: int|
                0 <= a < k ==> {
                    &&& (#[trigger] shapes@[a]).group == ids@[a]
                    &&& shapes@[a].points@ == points_of(objects@, layer as int, ids@[a], n as int)
                    &&& shapes@[a].center == center_of(objects@, layer as int, ids@[a], n as int)
                },
        decreases ids@.len() - k,
    {
        let g = ids[k];
        let mut points: Vec<(i64, i64)> = Vec::new();
        let mut center: Option<(i32, usize)> = None;
        let mut j: usize = 0;
        while j < n
            invariant
                j <= n,
                n == objects@.len(),
                points@ == points_of(objects@, layer as int, g, j as int),
                center == center_of(objects@, layer as int, g, j as int),
            decreases n - j,
        {
            if let Some(m) = member(&objects[j], layer) {
                if m.0 == g {
                    points.push(m.2);
                    if let Some(c) = m.1 {
                        center = Some((c, j));
                    }
                }
            }
            j += 1;
        }
        shapes.push(ShapeGroup { group: g, points, center });
        k += 1;
    }
    shapes
}

/// Sum of the x coordinates (`axis == 0`) or y coordinates of `s[0..k]`.
pub open spec fn coord_sum(s: Seq<(i64, i64)>, axis: int, k: int) -> int
    decreases k,
{
    if k <= 0 {
        0
    } else {
        coord_sum(s, axis, k - 1) + if axis == 0 {
            s[k - 1].0 as int
        } else {
            s[k - 1].1 as int
        }
    }
}

proof fn lemma_mean_fits(sum: int, n: int)
    requires
        n >= 1,
        -n * 0x8000_0000_0000_0000 <= sum <= n * 0x7fff_ffff_ffff_ffff,
    ensures
        i64::MIN <= sum / n <= i64::MAX,
{
    lemma_div_is_ordered(sum, n * 0x7fff_ffff_ffff_ffff, n);
    lemma_div_is_ordered(-n * 0x8000_0000_0000_0000, sum, n);
    lemma_div_multiples_vanish(0x7fff_ffff_ffff_ffff, n);
    lemma_div_multiples_vanish(-0x8000_0000_0000_0000, n);
    assert(n * 0x7fff_ffff_ffff_ffff == 0x7fff_ffff_ffff_ffff * n) by (nonlinear_arith);
    assert(-n * 0x8000_0000_0000_0000 == -0x8000_0000_0000_0000 * n) by (nonlinear_arith);
}

/// Centroid of a non-empty point set: the mean of each coordinate, rounded
/// down to a micro-unit.
pub fn centroid(points: &Vec<(i64, i64)>) -> (r: (i64, i64))
    requires
        points@.len() >= 1,
    ensures
        r.0 as int == coord_sum(points@, 0, points@.len() as int) / (points@.len() as int),
        r.1 as int == coord_sum(points@, 1, points@.len() as int) / (points@.len() as int),
{
    let n = points.len();
    let mut sx: i128 = 0;
    let mut sy: i128 = 0;
    let mut i: usize = 0;
    while i < n
        invariant
            i <= n,
            n == points@.len(),
            sx == coord_sum(points@, 0, i as int),
            sy == coord_sum(points@, 1, i as int),
            -(i as int) * 0x8000_0000_0000_0000 <= sx <= (i as int) * 0x7fff_ffff_ffff_ffff,
            -(i as int) * 0x8000_0000_0000_0000 <= sy <= (i as int) * 0x7fff_ffff_ffff_ffff,
        decreases n - i,
    {
        assert(i as int <= usize::MAX);
        sx = sx + points[i].0 as i128;
        sy = sy + points[i].1 as i128;
        i += 1;
    }
    proof {
        lemma_mean_fits(sx as int, n as int);
        lemma_mean_fits(sy as int, n as int);
    }
    let d = n as i128;
    let cx: i128 = if sx >= 0 { sx / d } else if (-sx) % d == 0 { -((-sx) / d) } else { -((-sx) / d) - 1 };
    let cy: i128 = if sy >= 0 { sy / d } else if (-sy) % d == 0 { -((-sy) / d) } else { -((-sy) / d) - 1 };
    proof {
        lemma_floor_div(sx as int, d as int);
        lemma_floor_div(sy as int, d as int);
    }
    (cx as i64, cy as i64)
}

proof fn lemma_floor_div(a: int, d: int)
    requires
        d >= 1,
    ensures
        a < 0 ==> a / d == if (-a) % d == 0 {
            -((-a) / d)
        } else {
            -((-a) / d) - 1
        },
{
    if a < 0 {
        vstd::arithmetic::div_mod::lemma_fundamental_div_mod(a, d);
        vstd::arithmetic::div_mod::lemma_fundamental_div_mod(-a, d);
        let q = a / d;
        let r = a % d;
        let q2 = (-a) / d;
        let r2 = (-a) % d;
        assert(q == if r2 == 0 { -q2 } else { -q2 - 1 }) by (nonlinear_arith)
            requires
                a == d * q + r,
                0 <= r < d,
                -a == d * q2 + r2,
                0 <= r2 < d,
                d >= 1,
        {
            assert(d * (q + q2) == -r - r2);
            if q + q2 > 0 {
                assert(d * (q + q2) >= d);
            }
            if q + q2 < -1 {
                assert(d * (q + q2) <= -2 * d);
            }
            if r2 == 0 && q + q2 == -1 {
                assert(d * (q + q2) == -d);
            }
            if r2 != 0 && q + q2 == 0 {
                assert(r + r2 == 0);
            }
        }
    }
}

/// Whether the points hold at least three different ones, the fewest a
/// convex hull needs.
pub open spec fn has_three_distinct(s: Seq<(i64, i64)>) -> bool {
    exists|a: int, b: int, c: int|
        0 <= a < s.len() && 0 <= b < s.len() && 0 <= c < s.len() && s[a] != s[b] && s[a] != s[c]
            && s[b] != s[c]
}

pub fn hull_ready(points: &Vec<(i64, i64)>) -> (r: bool)
    ensures
        r == has_three_distinct(points@),
{
    let n = points.len();
    if n == 0 {
        return false;
    }
    let first = points[0];
    let mut second: Option<usize> = None;
    let mut i: usize = 1;
    while i < n
        invariant
            1 <= i <= n,
            n == points@.len(),
            first == points@[0],
            second matches Some(b) ==> b < i && points@[b as int] != first,
            forall|t: int|
                0 <= t < i ==> points@[t] == first || (second matches Some(b) && points@[t]
                    == points@[b as int]),
        decreases n - i,
    {
        let p = points[i];
        let same_first = p.0 == first.0 && p.1 == first.1;
        if !same_first {
            match second {
                None => {
                    second = Some(i);
                },
                Some(b) => {
                    let q = points[b];
                    if !(p.0 == q.0 && p.1 == q.1) {
                        assert(points@[0] != points@[b as int]);
                        assert(points@[0] != points@[i as int]);
                        assert(points@[b as int] != points@[i as int]);
                        return true;
                    }
                },
            }
        }
        i += 1;
    }
    proof {
        if has_three_distinct(points@) {
            let (a, b, c) = choose|a: int, b: int, c: int|
                0 <= a < points@.len() && 0 <= b < points@.len() && 0 <= c < points@.len()
                    && points@[a] != points@[b] && points@[a] != points@[c] && points@[b]
                    != points@[c];
            assert(points@[a] == first || (second matches Some(x) && points@[a] == points@[x as int]));
            assert(points@[b] == first || (second matches Some(x) && points@[b] == points@[x as int]));
            assert(points@[c] == first || (second matches Some(x) && points@[c] == points@[x as int]));
        }
    }
    false
}

/// Number of pose samples a layer records: the whole keyframes that fit in
/// the simulated time, a keyframe lasting `keyframe_interval` frames.
pub fn sample_count(config: &LayerConfig) -> (r: u128)
    requires
        config.fps >= 1,
        config.keyframe_interval >= 1,
    ensures
        r == if config.sim_time <= 0 {
            0
        } else {
            config.sim_time as int * config.fps as int / (UNIT as int * config.keyframe_interval as int)
        },
{
    if config.sim_time <= 0 {
        return 0;
    }
    assert(0 < config.sim_time as int * config.fps as int <= 0x8000_0000_0000_0000 * 0x1_0000_0000)
        by (nonlinear_arith)
        requires
            0 < config.sim_time <= i64::MAX,
            1 <= config.fps <= u32::MAX,
    ;
    let num: u128 = config.sim_time as u128 * config.fps as u128;
    let den: u128 = UNIT as u128 * config.keyframe_interval as u128;
    num / den
}

/// Real time of one keyframe, in microseconds, rounded down.
pub fn keyframe_duration(config: &LayerConfig) -> (r: i64)
    requires
        config.fps >= 1,
    ensures
        r as int == config.keyframe_interval as int * UNIT as int / config.fps as int,
        0 <= r <= 65_535_000_000,
{
    let num: i64 = config.keyframe_interval as i64 * UNIT;
    proof {
        vstd::arithmetic::div_mod::lemma_div_is_ordered_by_denominator(num as int, 1, config.fps as int);
        assert(num as int / 1 == num as int);
        vstd::arithmetic::div_mod::lemma_div_pos_is_pos(num as int, config.fps as int);
    }
    num / config.fps as i64
}

/// Member positions relative to `c`.
pub fn relative_points(points: &Vec<(i64, i64)>, c: (i64, i64)) -> (r: Vec<(i128, i128)>)
    ensures
        r@.len() == points@.len(),
        forall|i: int|
            0 <= i < r@.len() ==> (#[trigger] r@[i]).0 == points@[i].0 - c.0 && r@[i].1
                == points@[i].1 - c.1,
{
    let mut r: Vec<(i128, i128)> = Vec::new();
    let mut i: usize = 0;
    while i < points.len()
        invariant
            i <= points@.len(),
            r@.len() == i,
            forall|k: int|
                0 <= k < i ==> (#[trigger] r@[k]).0 == points@[k].0 - c.0 && r@[k].1 == points@[k].1
                    - c.1,
        decreases points@.len() - i,
    {
        r.push((points[i].0 as i128 - c.0 as i128, points[i].1 as i128 - c.1 as i128));
        i += 1;
    }
    r
}

/// `v` held within the range of `i64`.
pub open spec fn clamp64(v: int) -> i64 {
    if v > i64::MAX {
        i64::MAX
    } else if v < i64::MIN {
        i64::MIN
    } else {
        v as i64
    }
}

fn clamp_i128(v: i128) -> (r: i64)
    ensures
        r == clamp64(v as int),
{
    if v > i64::MAX as i128 {
        i64::MAX
    } else if v < i64::MIN as i128 {
        i64::MIN
    } else {
        v as i64
    }
}

/// What every trigger of one shape group carries besides its own motion.
#[derive(Clone, Copy, Debug, PartialEq, Eq, Structural)]
pub struct Stamp {
    pub group: i32,
    pub center_group: i32,
    /// Height of the move-trigger lane, in micro-units.
    pub lane: i64,
    pub layer: i32,
    pub link: i32,
    /// Keyframe duration in microseconds.
    pub duration: i64,
    /// Rotate-trigger duration in microseconds.
    pub rot_duration: i64,
}

/// Height of the rotate-trigger lane above the move-trigger lane.
pub const ROTATE_LANE_OFFSET: i64 = 30_000_000;

/// Distance between the lanes of consecutive shape groups.
pub const LANE_GAP: i64 = 60_000_000;

/// Attributes of the trigger object for `t`.
pub open spec fn trigger_map(t: Trigger, st: Stamp) -> Map<AttribKey, AttribValue> {
    match t {
        Trigger::Move { x, dx, dy } => map![
            AttribKey::ObjID => AttribValue::Int(MOVE_TRIGGER),
            AttribKey::XPos => AttribValue::Float(x),
            AttribKey::YPos => AttribValue::Float(st.lane),
        ].insert(AttribKey::MoveOffsetX, AttribValue::Int(dx)).insert(
            AttribKey::MoveOffsetY,
            AttribValue::Int(dy),
        ).insert(AttribKey::TargetGroupID, AttribValue::Int(st.group)).insert(
            AttribKey::Duration,
            AttribValue::Float(st.duration),
        ).insert(AttribKey::EditorLayer1, AttribValue::Int(st.layer)).insert(
            AttribKey::LinkedGroupID,
            AttribValue::Int(st.link),
        ),
        Trigger::Rotate { x, degrees } => map![
            AttribKey::ObjID => AttribValue::Int(ROTATE_TRIGGER),
            AttribKey::XPos => AttribValue::Float(x),
            AttribKey::YPos => AttribValue::Float(clamp64(st.lane + ROTATE_LANE_OFFSET)),
        ].insert(AttribKey::RotateDegrees, AttribValue::Int(degrees)).insert(
            AttribKey::Duration,
            AttribValue::Float(st.rot_duration),
        ).insert(AttribKey::TargetGroupID, AttribValue::Int(st.group)).insert(
            AttribKey::SecondaryGroupID,
            AttribValue::Int(st.center_group),
        ).insert(AttribKey::EditorLayer1, AttribValue::Int(st.layer)).insert(
            AttribKey::LinkedGroupID,
            AttribValue::Int(st.link),
        ),
    }
}

/// The trigger object for `t`.
pub fn trigger_obj(t: Trigger, st: &Stamp) -> (r: Obj)
    ensures
        r@ == trigger_map(t, *st),
{
    match t {
        Trigger::Move { x, dx, dy } => Obj::new(MOVE_TRIGGER, x, st.lane).with(
            AttribKey::MoveOffsetX,
            AttribValue::Int(dx),
        ).with(AttribKey::MoveOffsetY, AttribValue::Int(dy)).with(
            AttribKey::TargetGroupID,
            AttribValue::Int(st.group),
        ).with(AttribKey::Duration, AttribValue::Float(st.duration)).with(
            AttribKey::EditorLayer1,
            AttribValue::Int(st.layer),
        ).with(AttribKey::LinkedGroupID, AttribValue::Int(st.link)),
        Trigger::Rotate { x, degrees } => {
            let y = clamp_i128(st.lane as i128 + ROTATE_LANE_OFFSET as i128);
            Obj::new(ROTATE_TRIGGER, x, y).with(AttribKey::RotateDegrees, AttribValue::Int(degrees)).with(
                AttribKey::Duration,
                AttribValue::Float(st.rot_duration),
            ).with(AttribKey::TargetGroupID, AttribValue::Int(st.group)).with(
                AttribKey::SecondaryGroupID,
                AttribValue::Int(st.center_group),
            ).with(AttribKey::EditorLayer1, AttribValue::Int(st.layer)).with(
                AttribKey::LinkedGroupID,
                AttribValue::Int(st.link),
            )
        },
    }
}

/// Attribute maps of a list of objects.
pub open spec fn views(s: Seq<Obj>) -> Seq<Map<AttribKey, AttribValue>> {
    s.map_values(|o: Obj| o@)
}

/// Attribute maps of the trigger objects for `ts`.
pub open spec fn trigger_maps(ts: Seq<Trigger>, st: Stamp) -> Seq<Map<AttribKey, AttribValue>> {
    ts.map_values(|t: Trigger| trigger_map(t, st))
}

fn push_triggers(objects: &mut Vec<Obj>, ts: &Vec<Trigger>, st: &Stamp)
    ensures
        views(final(objects)@) == views(old(objects)@) + trigger_maps(ts@, *st),
{
    let ghost start = objects@;
    let mut i: usize = 0;
    while i < ts.len()
        invariant
            i <= ts@.len(),
            views(objects@) == views(start) + trigger_maps(ts@.subrange(0, i as int), *st),
        decreases ts@.len() - i,
    {
        let o = trigger_obj(ts[i], st);
        let ghost before = objects@;
        objects.push(o);
        proof {
            assert(ts@.subrange(0, i + 1) =~= ts@.subrange(0, i as int).push(ts@[i as int]));
            assert(views(objects@) =~= views(before).push(o@));
            assert(trigger_maps(ts@.subrange(0, i + 1), *st) =~= trigger_maps(
                ts@.subrange(0, i as int),
                *st,
            ).push(trigger_map(ts@[i as int], *st)));
        }
        i += 1;
    }
    proof {
        assert(ts@.subrange(0, ts@.len() as int) =~= ts@);
    }
}

/// What a layer pass learns before the simulation runs.
pub struct LayerPlan {
    /// X origin of the trigger timeline, in micro-units.
    pub anchor_x: i64,
    /// Link-group id shared by the triggers of this pass.
    pub link_group: i32,
    pub shapes: Vec<ShapeGroup>,
}

/// First half of a layer pass: takes the link-group id for the pass from the
/// whole object set, removes the layer's old move and rotate triggers, then
/// finds the anchor and the shape groups among what is left. `None`, with the
/// objects untouched, when no link-group id is left.
pub fn plan_layer(objects: &mut Vec<Obj>, config: &LayerConfig) -> (r: Option<LayerPlan>)
    ensures
        ({
            let layer = config.layer as int;
            let m = max_link(old(objects)@, old(objects)@.len() as int);
            let s = final(objects)@;
            let n = s.len() as int;
            match r {
                None => m matches Some(g) && g == i32::MAX && s == old(objects)@,
                Some(plan) => {
                    &&& plan.link_group == match m {
                        Some(g) => g + 1,
                        None => 1,
                    }
                    &&& s == kept(old(objects)@, layer, old(objects)@.len() as int)
                    &&& plan.anchor_x == anchor_of(s, layer, config.anchor_id, n)
                    &&& plan.shapes@.len() == group_ids(s, layer, n).len()
                    &&& forall|i: int|
                        0 <= i < plan.shapes@.len() ==> {
                            &&& (#[trigger] plan.shapes@[i]).group == group_ids(s, layer, n)[i]
                            &&& plan.shapes@[i].points@ == points_of(s, layer, plan.shapes@[i].group, n)
                            &&& plan.shapes@[i].center == center_of(s, layer, plan.shapes@[i].group, n)
                        }
                }
            }
        }),
{
    let link_group = match next_link_group(objects) {
        Some(g) => g,
        None => return None,
    };
    let layer = config.layer as i32;
    remove_stale_triggers(objects, layer);
    let anchor_x = anchor_x(objects, layer, config.anchor_id);
    let shapes = collect_shapes(objects, layer);
    Some(LayerPlan { anchor_x, link_group, shapes })
}

/// A sampled path: at least the resting pose, every pose in range.
pub open spec fn path_ok(p: Option<Vec<Pose>>) -> bool {
    match p {
        Some(v) => v@.len() >= 1 && forall|k: int| 0 <= k < v@.len() ==> (#[trigger] v@[k]).in_range(),
        None => true,
    }
}

/// The rotation-center member of `sh`, if any, is among the first `n` objects.
pub open spec fn center_ok(sh: ShapeGroup, n: nat) -> bool {
    match sh.center {
        Some(c) => c.1 < n,
        None => true,
    }
}

/// Whether shape `sh` gets a timeline: it was simulated and has a
/// rotation-center member.
pub open spec fn synthesized(sh: ShapeGroup, path: Option<Vec<Pose>>) -> bool {
    path is Some && sh.center is Some
}

/// Attribute maps after the resting poses of shapes `0..k` are written onto
/// their rotation-center members.
pub open spec fn written_back(
    v: Seq<Map<AttribKey, AttribValue>>,
    shapes: Seq<ShapeGroup>,
    paths: Seq<Option<Vec<Pose>>>,
    k: int,
) -> Seq<Map<AttribKey, AttribValue>>
    decreases k,
{
    if k <= 0 {
        v
    } else {
        let prev = written_back(v, shapes, paths, k - 1);
        if synthesized(shapes[k - 1], paths[k - 1]) {
            let idx = (shapes[k - 1].center->0).1 as int;
            let p = paths[k - 1]->0@[0];
            prev.update(
                idx,
                prev[idx].insert(AttribKey::XPos, AttribValue::Float(p.x)).insert(
                    AttribKey::YPos,
                    AttribValue::Float(p.y),
                ),
            )
        } else {
            prev
        }
    }
}

/// Number of shapes among `0..k` that get a timeline.
pub open spec fn lanes_used(shapes: Seq<ShapeGroup>, paths: Seq<Option<Vec<Pose>>>, k: int) -> int
    decreases k,
{
    if k <= 0 {
        0
    } else {
        lanes_used(shapes, paths, k - 1) + if synthesized(shapes[k - 1], paths[k - 1]) {
            1int
        } else {
            0
        }
    }
}

/// `d` scaled by the factor `m` given in millionths, rounded toward zero.
pub open spec fn scaled(d: int, m: int) -> int {
    if d * m >= 0 {
        d * m / UNIT as int
    } else {
        -((-(d * m)) / UNIT as int)
    }
}

/// Stamp of shape `k`'s triggers.
pub open spec fn stamp_of(
    config: LayerConfig,
    plan: LayerPlan,
    paths: Seq<Option<Vec<Pose>>>,
    k: int,
) -> Stamp {
    let dur = config.keyframe_interval as int * UNIT as int / config.fps as int;
    Stamp {
        group: plan.shapes@[k].group,
        center_group: (plan.shapes@[k].center->0).0,
        lane: clamp64(config.height - LANE_GAP * lanes_used(plan.shapes@, paths, k)),
        layer: config.layer as i32,
        link: plan.link_group,
        duration: dur as i64,
        rot_duration: clamp64(scaled(dur, config.rotation_duration_modifier as int)),
    }
}

/// Trigger objects added for shapes `0..k`.
pub open spec fn added(
    config: LayerConfig,
    plan: LayerPlan,
    paths: Seq<Option<Vec<Pose>>>,
    zones: Seq<(crate::speed::Speed, i64)>,
    k: int,
) -> Seq<Map<AttribKey, AttribValue>>
    decreases k,
{
    if k <= 0 {
        seq![]
    } else {
        let prev = added(config, plan, paths, zones, k - 1);
        if synthesized(plan.shapes@[k - 1], paths[k - 1]) {
            let path = paths[k - 1]->0@;
            let dur = config.keyframe_interval as int * UNIT as int / config.fps as int;
            prev + trigger_maps(
                emitted(path, plan.anchor_x as int, zones, dur, path.len() as int),
                stamp_of(config, plan, paths, k - 1),
            )
        } else {
            prev
        }
    }
}

/// Second half of a layer pass, once each shape of `plan` has been
/// simulated (`paths[i]` is `None` for a shape that could not be): writes
/// each synthesized shape's resting pose onto its rotation-center member,
/// then appends its move and rotate triggers, one lane lower per shape.
pub fn apply_layer(
    objects: &mut Vec<Obj>,
    config: &LayerConfig,
    plan: &LayerPlan,
    tracker: &SpeedTracker,
    paths: &Vec<Option<Vec<Pose>>>,
)
    requires
        tracker.wf(),
        config.fps >= 1,
        paths@.len() == plan.shapes@.len(),
        forall|i: int|
            0 <= i < paths@.len() ==> path_ok(#[trigger] paths@[i]),
        forall|i: int|
            0 <= i < plan.shapes@.len() ==> center_ok(#[trigger] plan.shapes@[i], old(objects)@.len()),
    ensures
        views(final(objects)@) == written_back(
            views(old(objects)@),
            plan.shapes@,
            paths@,
            paths@.len() as int,
        ) + added(*config, *plan, paths@, tracker.speeds@, paths@.len() as int),
{
    let n = paths.len();
    let ghost start = objects@;
    let mut k: usize = 0;
    while k < n
        invariant
            k <= n,
            n == paths@.len(),
            paths@.len() == plan.shapes@.len(),
            objects@.len() == start.len(),
            forall|i: int|
                0 <= i < paths@.len() ==> path_ok(#[trigger] paths@[i]),
            forall|i: int|
                0 <= i < plan.shapes@.len() ==> center_ok(#[trigger] plan.shapes@[i], start.len()),
            views(objects@) == written_back(views(start), plan.shapes@, paths@, k as int),
        decreases n - k,
    {
        let sh = &plan.shapes[k];
        if let Some(path) = &paths[k] {
            if let Some(c) = sh.center {
                assert(path_ok(paths@[k as int]));
                let idx = c.1;
                let p0 = path[0];
                let ghost before = objects@;
                let mut o = objects.remove(idx);
                o.set(AttribKey::XPos, AttribValue::Float(p0.x));
                o.set(AttribKey::YPos, AttribValue::Float(p0.y));
                objects.insert(idx, o);
                proof {
                    assert(views(objects@) =~= views(before).update(
                        idx as int,
                        before[idx as int]@.insert(AttribKey::XPos, AttribValue::Float(p0.x)).insert(
                            AttribKey::YPos,
                            AttribValue::Float(p0.y),
                        ),
                    ));
                }
            }
        }
        k += 1;
    }
    let ghost mid = objects@;
    let dur = keyframe_duration(config);
    assert(-65_535_000_000 * 0x8000_0000_0000_0000 <= dur * config.rotation_duration_modifier
        <= 65_535_000_000 * 0x8000_0000_0000_0000) by (nonlinear_arith)
        requires
            0 <= dur <= 65_535_000_000,
            i64::MIN <= config.rotation_duration_modifier <= i64::MAX,
    ;
    let prod: i128 = dur as i128 * config.rotation_duration_modifier as i128;
    let rdur = clamp_i128(if prod >= 0 { prod / UNIT as i128 } else { -((-prod) / UNIT as i128) });
    let mut done: usize = 0;
    let mut k: usize = 0;
    while k < n
        invariant
            k <= n,
            n == paths@.len(),
            paths@.len() == plan.shapes@.len(),
            tracker.wf(),
            config.fps >= 1,
            dur as int == config.keyframe_interval as int * UNIT as int / config.fps as int,
            0 <= dur <= 65_535_000_000,
            rdur == clamp64(scaled(dur as int, config.rotation_duration_modifier as int)),
            done as int == lanes_used(plan.shapes@, paths@, k as int),
            done <= k,
            forall|i: int|
                0 <= i < paths@.len() ==> path_ok(#[trigger] paths@[i]),
            views(objects@) == views(mid) + added(*config, *plan, paths@, tracker.speeds@, k as int),
        decreases n - k,
    {
        let sh = &plan.shapes[k];
        if let Some(path) = &paths[k] {
            if let Some(c) = sh.center {
                assert(path_ok(paths@[k as int]));
                let ts = synthesize(path, plan.anchor_x, tracker, dur);
                let lane = clamp_i128(config.height as i128 - LANE_GAP as i128 * done as i128);
                let st = Stamp {
                    group: sh.group,
                    center_group: c.0,
                    lane,
                    layer: config.layer as i32,
                    link: plan.link_group,
                    duration: dur,
                    rot_duration: rdur,
                };
                assert(st == stamp_of(*config, *plan, paths@, k as int));
                push_triggers(objects, &ts, &st);
                done += 1;
            }
        }
        k += 1;
    }
}

proof fn lemma_kept_keeps(s: Seq<Obj>, layer: int, i: int, k: int)
    requires
        0 <= i < k <= s.len(),
        !is_stale(s[i]@, layer),
    ensures
        exists|j: int| 0 <= j < kept(s, layer, k).len() && #[trigger] kept(s, layer, k)[j] == s[i],
    decreases k,
{
    if i < k - 1 {
        lemma_kept_keeps(s, layer, i, k - 1);
        let j = choose|j: int| 0 <= j < kept(s, layer, k - 1).len() && #[trigger] kept(s, layer, k - 1)[j] == s[i];
        assert(kept(s, layer, k)[j] == s[i]);
    } else {
        assert(kept(s, layer, k)[kept(s, layer, k).len() - 1] == s[i]);
    }
}

/// A layer pass leaves the objects of other layers in place: each is still
/// in the list afterwards, with the same attributes.
pub proof fn lemma_other_layers_kept(s: Seq<Obj>, layer: int, i: int)
    requires
        0 <= i < s.len(),
        layer_of(s[i]@) != layer,
    ensures
        exists|j: int|
            0 <= j < kept(s, layer, s.len() as int).len() && #[trigger] kept(s, layer, s.len() as int)[j]
                == s[i],
{
    lemma_kept_keeps(s, layer, i, s.len() as int);
}

proof fn lemma_center_is_member(s: Seq<Obj>, layer: int, g: i32, k: int)
    requires
        0 <= k <= s.len(),
        s.len() <= usize::MAX,
    ensures
        center_of(s, layer, g, k) is Some ==> (center_of(s, layer, g, k)->0).1 < k && member_of(
            s[(center_of(s, layer, g, k)->0).1 as int]@,
            layer,
        ) is Some,
    decreases k,
{
    if k > 0 {
        lemma_center_is_member(s, layer, g, k - 1);
    }
}

proof fn lemma_written_back_other(
    v: Seq<Map<AttribKey, AttribValue>>,
    shapes: Seq<ShapeGroup>,
    paths: Seq<Option<Vec<Pose>>>,
    k: int,
    j: int,
)
    requires
        0 <= j < v.len(),
        0 <= k <= shapes.len(),
        k <= paths.len(),
        forall|i: int|
            0 <= i < k ==> (#[trigger] shapes[i]).center is None || ((shapes[i].center->0).1 != j
                && (shapes[i].center->0).1 < v.len()),
    ensures
        written_back(v, shapes, paths, k).len() == v.len(),
        written_back(v, shapes, paths, k)[j] == v[j],
    decreases k,
{
    if k > 0 {
        lemma_written_back_other(v, shapes, paths, k - 1, j);
    }
}

/// Writing resting poses back touches shape members only: an object that
/// is no member of a shape on the layer (another layer, no group id, no
/// position) keeps its attributes.
pub proof fn lemma_non_members_untouched(
    s: Seq<Obj>,
    layer: int,
    shapes: Seq<ShapeGroup>,
    paths: Seq<Option<Vec<Pose>>>,
    j: int,
)
    requires
        paths.len() == shapes.len(),
        forall|i: int|
            0 <= i < shapes.len() ==> (#[trigger] shapes[i]).center == center_of(
                s,
                layer,
                shapes[i].group,
                s.len() as int,
            ),
        0 <= j < s.len() <= usize::MAX,
        member_of(s[j]@, layer) is None,
    ensures
        written_back(views(s), shapes, paths, shapes.len() as int)[j] == s[j]@,
{
    assert forall|i: int| 0 <= i < shapes.len() implies (#[trigger] shapes[i]).center is None || ((
    shapes[i].center->0).1 != j && (shapes[i].center->0).1 < views(s).len()) by {
        lemma_center_is_member(s, layer, shapes[i].group, s.len() as int);
    }
    lemma_written_back_other(views(s), shapes, paths, shapes.len() as int, j);
}

} // verus!
