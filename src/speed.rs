use vstd::prelude::*;
use vstd::arithmetic::div_mod::lemma_fundamental_div_mod;
use crate::object::{AttribKey, AttribValue, Obj};

verus! {

/// Horizontal world units travelled per second for one unit of speed rate
/// (`bps` is given in thousandths).
pub const SCALE: i64 = 30;

/// Scroll speed of a zone.
#[derive(Clone, Copy, Debug, PartialEq, Eq, Structural)]
pub enum Speed {
    Half,
    Normal,
    Double,
    Triple,
    Quad,
}

impl Speed {
    /// Object type id of the portal that switches to each speed.
    pub open spec fn spec_from(id: i32) -> Option<Speed> {
        if id == 200 {
            Some(Speed::Half)
        } else if id == 201 {
            Some(Speed::Normal)
        } else if id == 202 {
            Some(Speed::Double)
        } else if id == 203 {
            Some(Speed::Triple)
        } else if id == 1334 {
            Some(Speed::Quad)
        } else {
            None
        }
    }

    pub fn from(id: i32) -> (r: Option<Speed>)
        ensures
            r == Speed::spec_from(id),
    {
        match id {
            200 => Some(Speed::Half),
            201 => Some(Speed::Normal),
            202 => Some(Speed::Double),
            203 => Some(Speed::Triple),
            1334 => Some(Speed::Quad),
            _ => None,
        }
    }

    /// Rate of the speed, in thousandths of a block per second.
    pub open spec fn spec_bps(self) -> i64 {
        match self {
            Speed::Half => 8383,
            Speed::Normal => 10387,
            Speed::Double => 12915,
            Speed::Triple => 15601,
            Speed::Quad => 19201,
        }
    }

    #[verifier::when_used_as_spec(spec_bps)]
    pub fn bps(self) -> (r: i64)
        ensures
            r == self.spec_bps(),
            8383 <= r <= 19201,
    {
        match self {
            Speed::Half => 8383,
            Speed::Normal => 10387,
            Speed::Double => 12915,
            Speed::Triple => 15601,
            Speed::Quad => 19201,
        }
    }

    /// Width of the portal object, in whole units.
    pub open spec fn spec_width(self) -> i64 {
        match self {
            Speed::Half => 34,
            Speed::Normal => 32,
            Speed::Double => 50,
            Speed::Triple => 65,
            Speed::Quad => 69,
        }
    }

    #[verifier::when_used_as_spec(spec_width)]
    pub fn width(self) -> (r: i64)
        ensures
            r == self.spec_width(),
            32 <= r <= 69,
    {
        match self {
            Speed::Half => 34,
            Speed::Normal => 32,
            Speed::Double => 50,
            Speed::Triple => 65,
            Speed::Quad => 69,
        }
    }
}

/// Index of the zone in force at `x`, scanning `s[0..k]` from the highest
/// index down; index 0 (the default zone) when no later zone starts at or
/// before `x`.
pub open spec fn zone_index(s: Seq<(Speed, i64)>, x: int, k: int) -> int
    decreases k,
{
    if k <= 1 {
        0
    } else if x >= s[k - 1].1 {
        k - 1
    } else {
        zone_index(s, x, k - 1)
    }
}

/// Length of the part of `[a, b]` that zone `i` covers: zone `i > 0` spans
/// from its own activation position to the next zone's, zone 0 everything
/// before zone 1, and the last zone everything after its start.
pub open spec fn overlap(s: Seq<(Speed, i64)>, i: int, a: int, b: int) -> int {
    let lo = if i == 0 || a >= s[i].1 { a } else { s[i].1 as int };
    let hi = if i + 1 < s.len() && (s[i + 1].1 as int) < b { s[i + 1].1 as int } else { b };
    if hi > lo { hi - lo } else { 0 }
}

/// Microseconds spent crossing the part of `[a, b]` in zone `i`, rounded down.
pub open spec fn zone_time(s: Seq<(Speed, i64)>, i: int, a: int, b: int) -> int {
    overlap(s, i, a, b) * 1000 / (s[i].0.spec_bps() * SCALE) as int
}

/// Sum of `zone_time` over zones `0..k`.
pub open spec fn time_upto(s: Seq<(Speed, i64)>, a: int, b: int, k: int) -> int
    decreases k,
{
    if k <= 0 {
        0
    } else {
        time_upto(s, a, b, k - 1) + zone_time(s, k - 1, a, b)
    }
}

/// Microseconds of play between horizontal positions `a` and `b`.
pub open spec fn spec_duration(s: Seq<(Speed, i64)>, a: int, b: int) -> int {
    time_upto(s, a, b, s.len() as int)
}

/// Zone list: the default zone first at position 0, and every zone ordered
/// by activation position.
pub open spec fn zones_wf(s: Seq<(Speed, i64)>) -> bool {
    &&& s.len() >= 1
    &&& s[0] == (Speed::Normal, 0i64)
    &&& forall|i: int, j: int| 0 <= i <= j < s.len() ==> s[i].1 <= s[j].1
}

/// Speed zones of a level, in world micro-units.
pub struct SpeedTracker {
    pub speeds: Vec<(Speed, i64)>,
}

impl SpeedTracker {
    pub open spec fn wf(&self) -> bool {
        zones_wf(self.speeds@)
    }

    /// The zones of a level: the default zone, then one for each object
    /// that activates a speed change, ordered by activation position.
    pub fn new(objects: &Vec<Obj>) -> (r: SpeedTracker)
        ensures
            r.wf(),
            r.speeds@ == zones_of(objects@, objects@.len() as int),
    {
        let mut t = SpeedTracker::empty();
        let mut i: usize = 0;
        while i < objects.len()
            invariant
                i <= objects@.len(),
                t.wf(),
                t.speeds@ == zones_of(objects@, i as int),
            decreases objects@.len() - i,
        {
            let o = &objects[i];
            if let Some(AttribValue::Int(id)) = o.get(AttribKey::ObjID) {
                if let Some(speed) = Speed::from(*id) {
                    if let Some(AttribValue::Bool(true)) = o.get(AttribKey::SpecialCheck) {
                        if let Some(AttribValue::Float(x)) = o.get(AttribKey::XPos) {
                            let half = speed.width() * 500_000;
                            let at = if *x >= half { *x - half } else { 0 };
                            t.add_zone(speed, at);
                        }
                    }
                }
            }
            i += 1;
        }
        t
    }

    /// A tracker with only the default zone.
    pub fn empty() -> (r: SpeedTracker)
        ensures
            r.wf(),
            r.speeds@ == seq![(Speed::Normal, 0i64)],
    {
        let mut speeds: Vec<(Speed, i64)> = Vec::new();
        speeds.push((Speed::Normal, 0i64));
        SpeedTracker { speeds }
    }

    /// Adds a zone after every zone that starts at or before it, unless the
    /// zone just before that place is the same zone.
    pub fn add_zone(&mut self, speed: Speed, pos: i64)
        requires
            old(self).wf(),
            pos >= 0,
        ensures
            final(self).wf(),
            final(self).speeds@ == with_zone(old(self).speeds@, speed, pos),
            ({
                let s = old(self).speeds@;
                let j = insert_point(s, pos as int, s.len() as int);
                &&& 1 <= j <= s.len()
                &&& forall|k: int| 1 <= k < j ==> s[k].1 <= pos
                &&& forall|k: int| j <= k < s.len() ==> s[k].1 > pos
            }),
    {
        let n = self.speeds.len();
        let mut j: usize = n;
        while j > 1 && self.speeds[j - 1].1 > pos
            invariant
                1 <= j <= n,
                n == self.speeds@.len(),
                self.wf(),
                forall|k: int| j <= k < n ==> self.speeds@[k].1 > pos,
                insert_point(self.speeds@, pos as int, n as int) == insert_point(
                    self.speeds@,
                    pos as int,
                    j as int,
                ),
            decreases j,
        {
            j -= 1;
        }
        assert(forall|k: int| 1 <= k < j ==> self.speeds@[k].1 <= pos) by {
            if j > 1 {
                assert(self.speeds@[j - 1].1 <= pos);
            }
        }
        let prev = self.speeds[j - 1];
        if prev.0 == speed && prev.1 == pos {
            assert(self.speeds@[j - 1] == (speed, pos));
            assert(forall|k: int| j <= k < n ==> self.speeds@[k].1 > pos);
            return;
        }
        self.speeds.insert(j, (speed, pos));
        assert(zones_wf(self.speeds@)) by {
            assert forall|a: int, b: int| 1 <= a <= b < self.speeds@.len() implies
                self.speeds@[a].1 <= self.speeds@[b].1 by {
                if a > 1 && a <= j as int && j > 1 {
                    assert(old(self).speeds@[a - 1].1 <= pos || a > j);
                }
            }
        }
    }

    /// Zone in force at `x`: the one with the greatest activation position at
    /// or before `x`, the default zone when there is none.
    pub fn speed_at(&self, x: i64) -> (r: Speed)
        requires
            self.wf(),
        ensures
            r == self.speeds@[zone_index(self.speeds@, x as int, self.speeds@.len() as int)].0,
    {
        let n = self.speeds.len();
        let mut i: usize = n;
        while i > 1
            invariant
                1 <= i <= n,
                n == self.speeds@.len(),
                zone_index(self.speeds@, x as int, n as int) == zone_index(
                    self.speeds@,
                    x as int,
                    i as int,
                ),
            decreases i,
        {
            if x >= self.speeds[i - 1].1 {
                return self.speeds[i - 1].0;
            }
            i -= 1;
        }
        self.speeds[0].0
    }

    /// Time in microseconds to scroll from `start` to `end`.
    pub fn duration(&self, start: i64, end: i64) -> (r: u64)
        requires
            self.wf(),
            start < end,
        ensures
            r == spec_duration(self.speeds@, start as int, end as int),
    {
        let n = self.speeds.len();
        let mut time: u64 = 0;
        let mut i: usize = 0;
        while i < n
            invariant
                i <= n,
                n == self.speeds@.len(),
                self.wf(),
                start < end,
                time == time_upto(self.speeds@, start as int, end as int, i as int),
                time <= covered(self.speeds@, start as int, end as int, i as int),
            decreases n - i,
        {
            let (speed, zone_start) = self.speeds[i];
            let lo: i128 = if i == 0 || start >= zone_start { start as i128 } else { zone_start as i128 };
            let hi: i128 = if i + 1 < n && self.speeds[i + 1].1 < end {
                self.speeds[i + 1].1 as i128
            } else {
                end as i128
            };
            let len: i128 = if hi > lo { hi - lo } else { 0 };
            let bps: i64 = speed.bps();
            let rate: i128 = (bps * SCALE) as i128;
            let t: i128 = len * 1000 / rate;
            proof {
                lemma_covered_step(self.speeds@, start as int, end as int, i as int);
                lemma_zone_time_le(self.speeds@, i as int, start as int, end as int);
            }
            time = time + t as u64;
            i += 1;
        }
        proof {
            lemma_covered_all(self.speeds@, start as int, end as int);
        }
        time
    }
}

/// `s` with zone `(speed, pos)` added after every zone that starts at or
/// before `pos`, unless the zone just before that place is the same zone.
pub open spec fn with_zone(s: Seq<(Speed, i64)>, speed: Speed, pos: i64) -> Seq<(Speed, i64)> {
    let j = insert_point(s, pos as int, s.len() as int);
    if s[j - 1] == (speed, pos) {
        s
    } else {
        s.insert(j, (speed, pos))
    }
}

/// The speed change that object `o` activates: an object whose type is a
/// speed portal and whose special check is set. Its activation position
/// is its x less half the portal's width, raised to 0 when that is below the
/// level start, so that no zone comes before the default zone.
pub open spec fn portal_of(o: Map<AttribKey, AttribValue>) -> Option<(Speed, i64)> {
    if o.contains_key(AttribKey::ObjID) && o[AttribKey::ObjID] is Int && Speed::spec_from(
        o[AttribKey::ObjID]->Int_0,
    ) is Some && o.contains_key(AttribKey::SpecialCheck) && o[AttribKey::SpecialCheck]
        == AttribValue::Bool(true) && o.contains_key(AttribKey::XPos)
        && o[AttribKey::XPos] is Float {
        let speed = Speed::spec_from(o[AttribKey::ObjID]->Int_0)->0;
        let at = o[AttribKey::XPos]->Float_0 - speed.spec_width() * 500_000;
        Some((speed, if at < 0 { 0i64 } else { at as i64 }))
    } else {
        None
    }
}

/// Zones built from the objects `s[0..k]`.
pub open spec fn zones_of(s: Seq<Obj>, k: int) -> Seq<(Speed, i64)>
    decreases k,
{
    if k <= 0 {
        seq![(Speed::Normal, 0i64)]
    } else {
        match portal_of(s[k - 1]@) {
            Some(z) => with_zone(zones_of(s, k - 1), z.0, z.1),
            None => zones_of(s, k - 1),
        }
    }
}

/// Place among `s[1..k]` after every zone that starts at or before `pos`.
pub open spec fn insert_point(s: Seq<(Speed, i64)>, pos: int, k: int) -> int
    decreases k,
{
    if k <= 1 {
        1
    } else if s[k - 1].1 > pos {
        insert_point(s, pos, k - 1)
    } else {
        k
    }
}

/// Length of `[a, b]` covered by zones `0..k`.
pub open spec fn covered(s: Seq<(Speed, i64)>, a: int, b: int, k: int) -> int {
    if k <= 0 {
        0
    } else if k >= s.len() {
        b - a
    } else if (s[k].1 as int) < b {
        if s[k].1 > a { s[k].1 - a } else { 0 }
    } else {
        b - a
    }
}

proof fn lemma_covered_step(s: Seq<(Speed, i64)>, a: int, b: int, k: int)
    requires
        zones_wf(s),
        a < b,
        0 <= k < s.len(),
    ensures
        covered(s, a, b, k + 1) == covered(s, a, b, k) + overlap(s, k, a, b),
{
}

proof fn lemma_covered_all(s: Seq<(Speed, i64)>, a: int, b: int)
    requires
        zones_wf(s),
        a < b,
    ensures
        covered(s, a, b, s.len() as int) == b - a,
{
}

proof fn lemma_zone_time_le(s: Seq<(Speed, i64)>, i: int, a: int, b: int)
    requires
        zones_wf(s),
        0 <= i < s.len(),
    ensures
        0 <= zone_time(s, i, a, b) <= overlap(s, i, a, b),
{
    let ov = overlap(s, i, a, b);
    let d = (s[i].0.spec_bps() * SCALE) as int;
    assert(d >= 1000);
    assert(ov * 1000 / d <= ov) by (nonlinear_arith)
        requires
            ov >= 0,
            d >= 1000,
    {
        assert(ov * 1000 <= ov * d);
    }
    assert(ov * 1000 / d >= 0) by (nonlinear_arith)
        requires
            ov >= 0,
            d >= 1000,
    ;
}

proof fn lemma_zone_index_k(s: Seq<(Speed, i64)>, x: int, y: int, k: int)
    requires
        zones_wf(s),
        x <= y,
        1 <= k <= s.len(),
    ensures
        0 <= zone_index(s, x, k) <= zone_index(s, y, k) < k,
        zone_index(s, x, k) >= 1 ==> s[zone_index(s, x, k)].1 <= x,
        forall|i: int| zone_index(s, x, k) < i < k && i >= 1 ==> x < s[i].1,
    decreases k,
{
    if k > 1 {
        lemma_zone_index_k(s, x, y, k - 1);
    }
}

/// The zone in force is a step function of the position: as `x` grows the
/// zone index never goes back, a zone holds from its own activation position
/// up to the next zone's, and below the first non-default zone the default
/// zone holds.
pub proof fn lemma_speed_at_step(t: &SpeedTracker, x: int, y: int)
    requires
        t.wf(),
        x <= y,
    ensures
        ({
            let s = t.speeds@;
            let n = s.len() as int;
            let i = zone_index(s, x, n);
            &&& 0 <= i <= zone_index(s, y, n) < n
            &&& i >= 1 ==> s[i].1 <= x
            &&& i + 1 < n ==> x < s[i + 1].1
            &&& n > 1 && x < s[1].1 ==> i == 0
        }),
{
    lemma_zone_index_k(t.speeds@, x, y, t.speeds@.len() as int);
}

proof fn lemma_floor_split(x: int, y: int, d: int)
    requires
        x >= 0,
        y >= 0,
        d > 0,
    ensures
        x / d + y / d <= (x + y) / d <= x / d + y / d + 1,
{
    lemma_fundamental_div_mod(x, d);
    lemma_fundamental_div_mod(y, d);
    lemma_fundamental_div_mod(x + y, d);
    let (q1, q2, q3) = (x / d, y / d, (x + y) / d);
    let (r1, r2, r3) = (x % d, y % d, (x + y) % d);
    assert(0 <= r1 < d && 0 <= r2 < d && 0 <= r3 < d);
    assert(q1 + q2 <= q3 <= q1 + q2 + 1) by (nonlinear_arith)
        requires
            x == d * q1 + r1,
            y == d * q2 + r2,
            x + y == d * q3 + r3,
            0 <= r1 < d,
            0 <= r2 < d,
            0 <= r3 < d,
    {
        assert(d * (q3 - q1 - q2) == r1 + r2 - r3);
        if q3 - q1 - q2 < 0 {
            assert(d * (q3 - q1 - q2) <= -d);
        }
        if q3 - q1 - q2 > 1 {
            assert(d * (q3 - q1 - q2) >= 2 * d);
        }
    }
}

proof fn lemma_time_upto_split(s: Seq<(Speed, i64)>, a: int, b: int, c: int, k: int)
    requires
        zones_wf(s),
        a <= b <= c,
        0 <= k <= s.len(),
    ensures
        0 <= time_upto(s, a, c, k) - time_upto(s, a, b, k) - time_upto(s, b, c, k) <= k,
    decreases k,
{
    if k > 0 {
        let i = k - 1;
        lemma_time_upto_split(s, a, b, c, i);
        assert(overlap(s, i, a, c) == overlap(s, i, a, b) + overlap(s, i, b, c));
        lemma_floor_split(
            overlap(s, i, a, b) * 1000,
            overlap(s, i, b, c) * 1000,
            (s[i].0.spec_bps() * SCALE) as int,
        );
    }
}

/// Time is additive over positions: splitting `[a, c]` at `b` changes the
/// total by no more than one microsecond of rounding per zone.
pub proof fn lemma_duration_additive(t: &SpeedTracker, a: int, b: int, c: int)
    requires
        t.wf(),
        a <= b <= c,
    ensures
        0 <= spec_duration(t.speeds@, a, c) - spec_duration(t.speeds@, a, b) - spec_duration(
            t.speeds@,
            b,
            c,
        ) <= t.speeds@.len(),
{
    lemma_time_upto_split(t.speeds@, a, b, c, t.speeds@.len() as int);
}

} // verus!
