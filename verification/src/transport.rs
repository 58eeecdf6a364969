//! The transport and activity cost collaborators: travel durations and
//! distances (lengthened by reserved times the traversal crosses) and
//! departure / arrival estimation for one activity under reserved-time
//! interruptions.

use vstd::prelude::*;
use crate::times::{TimeSpan, ReservedTimeSpan, MAX_TIME, sched_bounded, time_bounded};
use crate::model::{Place, Activity, Route, Location, MAX_RESERVED};
use crate::schedule::{spec_anchor, get_offset_anchor};

verus! {

/// Upper bound on the number of locations of a matrix metric.
pub const MAX_LOCS: usize = 10_000;

/// Direction hint for a travel query: the traversal starts at the given
/// departure time, or ends at the given arrival time.
#[derive(Clone, Copy, PartialEq, Eq, Structural, Debug)]
pub enum TravelTime {
    Departure(i64),
    Arrival(i64),
}

/// The static travel metric: locations on a line (duration and distance are
/// the absolute coordinate difference), or square matrices indexed by
/// location pairs.
#[derive(Clone, PartialEq, Eq, Debug)]
pub enum TravelMetric {
    Line,
    Matrix { size: usize, durations: Vec<i64>, distances: Vec<i64> },
}

impl TravelMetric {
    pub open spec fn wf(self) -> bool {
        match self {
            TravelMetric::Line => true,
            TravelMetric::Matrix { size, durations, distances } => {
                &&& 1 <= size <= MAX_LOCS
                &&& durations@.len() == size * size
                &&& distances@.len() == size * size
                &&& forall|i: int| 0 <= i < durations@.len() ==> 0 <= #[trigger] durations@[i] <= MAX_TIME
                &&& forall|i: int| 0 <= i < distances@.len() ==> 0 <= #[trigger] distances@[i] <= MAX_TIME
            },
        }
    }

    /// A location is admissible for this metric.
    pub open spec fn loc_ok(self, loc: int) -> bool {
        match self {
            TravelMetric::Line => 0 <= loc <= MAX_TIME,
            TravelMetric::Matrix { size, .. } => 0 <= loc < size,
        }
    }
}

/// Base travel duration of the metric, before reserved-time extension.
pub open spec fn spec_base_duration(m: TravelMetric, from: int, to: int) -> int {
    match m {
        TravelMetric::Line => if from <= to { to - from } else { from - to },
        TravelMetric::Matrix { size, durations, .. } => durations@[from * size + to] as int,
    }
}

/// Base travel distance of the metric.
pub open spec fn spec_base_distance(m: TravelMetric, from: int, to: int) -> int {
    match m {
        TravelMetric::Line => if from <= to { to - from } else { from - to },
        TravelMetric::Matrix { size, distances, .. } => distances@[from * size + to] as int,
    }
}

pub proof fn lemma_base_duration_bounds(m: TravelMetric, from: int, to: int)
    requires
        m.wf(),
        m.loc_ok(from),
        m.loc_ok(to),
    ensures
        0 <= spec_base_duration(m, from, to) <= MAX_TIME,
        0 <= spec_base_distance(m, from, to) <= MAX_TIME,
{
    match m {
        TravelMetric::Line => {},
        TravelMetric::Matrix { size, durations, distances } => {
            assert(0 <= from * size + to < size * size) by (nonlinear_arith)
                requires 0 <= from < size, 0 <= to < size;
        },
    }
}

/// Well-formed list of reserved time spans.
pub open spec fn reserved_wf(rs: Seq<ReservedTimeSpan>) -> bool {
    &&& rs.len() <= MAX_RESERVED
    &&& forall|i: int| 0 <= i < rs.len() ==> (#[trigger] rs[i]).wf()
}

/// Whether the interval occupied by reserved span `r` under `anchor` strictly
/// overlaps the half-open interval `[lo, hi)`.
pub open spec fn spec_reserved_hits(r: ReservedTimeSpan, anchor: int, lo: int, hi: int) -> bool {
    let occ = r.spec_occupied(anchor);
    occ.0 < hi && lo < occ.1
}

/// Sum of the durations of the first `n` reserved spans whose occupied
/// interval strictly overlaps `[lo, hi)`.
pub open spec fn spec_ext_sum(rs: Seq<ReservedTimeSpan>, anchor: int, lo: int, hi: int, n: int) -> int
    decreases n,
{
    if n <= 0 {
        0
    } else {
        spec_ext_sum(rs, anchor, lo, hi, n - 1)
            + if spec_reserved_hits(rs[n - 1], anchor, lo, hi) { rs[n - 1].duration as int } else { 0 }
    }
}

pub proof fn lemma_ext_sum_bounds(rs: Seq<ReservedTimeSpan>, anchor: int, lo: int, hi: int, n: int)
    requires
        reserved_wf(rs),
        0 <= n <= rs.len(),
    ensures
        0 <= spec_ext_sum(rs, anchor, lo, hi, n) <= n * MAX_TIME,
    decreases n,
{
    if n > 0 {
        lemma_ext_sum_bounds(rs, anchor, lo, hi, n - 1);
        assert((n - 1) * MAX_TIME + MAX_TIME == n * MAX_TIME) by (nonlinear_arith);
    }
}

/// Total reserved-time extension of the interval `[lo, hi)` under `anchor`.
pub open spec fn spec_extension(rs: Seq<ReservedTimeSpan>, anchor: int, lo: int, hi: int) -> int {
    spec_ext_sum(rs, anchor, lo, hi, rs.len() as int)
}

/// Computes the reserved-time extension of `[lo, hi)`.
fn extension_of(reserved: &Vec<ReservedTimeSpan>, anchor: i64, lo: i64, hi: i64) -> (r: i64)
    requires
        reserved_wf(reserved@),
        sched_bounded(anchor as int),
    ensures
        r == spec_extension(reserved@, anchor as int, lo as int, hi as int),
        0 <= r <= reserved@.len() * MAX_TIME,
{
    let mut acc: i64 = 0;
    let mut i: usize = 0;
    while i < reserved.len()
        invariant
            reserved_wf(reserved@),
            sched_bounded(anchor as int),
            0 <= i <= reserved@.len(),
            acc == spec_ext_sum(reserved@, anchor as int, lo as int, hi as int, i as int),
            0 <= acc <= i * MAX_TIME,
        decreases reserved@.len() - i,
    {
        let r = &reserved[i];
        let resolved = r.time.to_time_window(anchor);
        let occ_start = resolved.end;
        let occ_end = resolved.end + r.duration;
        if occ_start < hi && lo < occ_end {
            acc = acc + r.duration;
        }
        i = i + 1;
    }
    proof {
        lemma_ext_sum_bounds(reserved@, anchor as int, lo as int, hi as int, reserved@.len() as int);
    }
    acc
}

/// The transport cost collaborator: the static metric plus the actor's
/// reserved time spans, which lengthen a traversal they interrupt.
#[derive(Clone, PartialEq, Eq, Debug)]
pub struct TransportModel {
    pub metric: TravelMetric,
    pub reserved: Vec<ReservedTimeSpan>,
}

/// Travel duration from `from` to `to` when the traversal starts at `dep`:
/// the base metric duration plus the durations of the reserved spans the
/// traversal interval strictly crosses.
pub open spec fn spec_duration_dep(t: TransportModel, anchor: int, from: int, to: int, dep: int) -> int {
    let base = spec_base_duration(t.metric, from, to);
    base + spec_extension(t.reserved@, anchor, dep, dep + base)
}

/// Travel duration from `from` to `to` when the traversal ends at `arr`.
pub open spec fn spec_duration_arr(t: TransportModel, anchor: int, from: int, to: int, arr: int) -> int {
    let base = spec_base_duration(t.metric, from, to);
    base + spec_extension(t.reserved@, anchor, arr - base, arr)
}

pub proof fn lemma_duration_arr_bounds(t: TransportModel, anchor: int, from: int, to: int, arr: int)
    requires
        t.wf(),
        t.metric.loc_ok(from),
        t.metric.loc_ok(to),
    ensures
        0 <= spec_duration_arr(t, anchor, from, to, arr) <= (1 + MAX_RESERVED) * MAX_TIME,
{
    lemma_base_duration_bounds(t.metric, from, to);
    let base = spec_base_duration(t.metric, from, to);
    lemma_ext_sum_bounds(t.reserved@, anchor, arr - base, arr, t.reserved@.len() as int);
    assert(t.reserved@.len() * MAX_TIME <= MAX_RESERVED * MAX_TIME) by (nonlinear_arith)
        requires t.reserved@.len() <= MAX_RESERVED;
}

/// Travel duration from `from` to `to` under a direction hint.
pub open spec fn spec_duration(t: TransportModel, anchor: int, from: int, to: int, tt: TravelTime) -> int {
    let base = spec_base_duration(t.metric, from, to);
    let lo = match tt {
        TravelTime::Departure(d) => d as int,
        TravelTime::Arrival(a) => a - base,
    };
    base + spec_extension(t.reserved@, anchor, lo, lo + base)
}

pub proof fn lemma_duration_bounds(t: TransportModel, anchor: int, from: int, to: int, dep: int)
    requires
        t.wf(),
        t.metric.loc_ok(from),
        t.metric.loc_ok(to),
    ensures
        0 <= spec_duration_dep(t, anchor, from, to, dep) <= (1 + MAX_RESERVED) * MAX_TIME,
{
    lemma_base_duration_bounds(t.metric, from, to);
    let base = spec_base_duration(t.metric, from, to);
    lemma_ext_sum_bounds(t.reserved@, anchor, dep, dep + base, t.reserved@.len() as int);
    assert(t.reserved@.len() * MAX_TIME <= MAX_RESERVED * MAX_TIME) by (nonlinear_arith)
        requires t.reserved@.len() <= MAX_RESERVED;
}

impl TransportModel {
    pub open spec fn wf(self) -> bool {
        &&& self.metric.wf()
        &&& reserved_wf(self.reserved@)
    }

    /// A transport model without reserved times.
    pub fn basic(metric: TravelMetric) -> (r: TransportModel)
        ensures
            r.metric == metric,
            r.reserved@.len() == 0,
    {
        TransportModel { metric, reserved: Vec::new() }
    }

    /// Travel duration between two locations of the route, in the given
    /// direction. Includes reserved-time-induced extension, resolved against
    /// the route's current offset anchor.
    pub fn duration(&self, route: &Route, from: Location, to: Location, tt: TravelTime) -> (r: i64)
        requires
            self.wf(),
            route.wf(),
            self.metric.loc_ok(from as int),
            self.metric.loc_ok(to as int),
            travel_time_bounded(tt),
        ensures
            r == spec_duration(*self, spec_anchor(route.actor.spec_cost_span(), route.tour@), from as int, to as int, tt),
            0 <= r <= (1 + MAX_RESERVED) * MAX_TIME,
    {
        let anchor = get_offset_anchor(route);
        let base = self.base_duration(from, to);
        let lo = match tt {
            TravelTime::Departure(d) => d,
            TravelTime::Arrival(a) => a - base,
        };
        let ext = extension_of(&self.reserved, anchor, lo, lo + base);
        base + ext
    }

    /// Travel distance between two locations; independent of time.
    pub fn distance(&self, route: &Route, from: Location, to: Location, _tt: TravelTime) -> (r: i64)
        requires
            self.wf(),
            self.metric.loc_ok(from as int),
            self.metric.loc_ok(to as int),
        ensures
            r == spec_base_distance(self.metric, from as int, to as int),
            0 <= r <= MAX_TIME,
    {
        proof {
            lemma_base_duration_bounds(self.metric, from as int, to as int);
        }
        match &self.metric {
            TravelMetric::Line => {
                if from <= to { (to - from) as i64 } else { (from - to) as i64 }
            },
            TravelMetric::Matrix { size, distances, .. } => {
                proof {
                    assert(0 <= from * *size + to < *size * *size && *size * *size <= MAX_LOCS * MAX_LOCS)
                        by (nonlinear_arith)
                        requires 0 <= from < *size, 0 <= to < *size, *size <= MAX_LOCS;
                }
                distances[from * size + to]
            },
        }
    }

    /// Approximated static distance between two locations.
    pub fn distance_approx(&self, a: Location, b: Location) -> (r: i64)
        requires
            self.wf(),
            self.metric.loc_ok(a as int),
            self.metric.loc_ok(b as int),
        ensures
            r == spec_base_distance(self.metric, a as int, b as int),
            0 <= r <= MAX_TIME,
    {
        self.distance_static(a, b)
    }

    fn distance_static(&self, a: Location, b: Location) -> (r: i64)
        requires
            self.wf(),
            self.metric.loc_ok(a as int),
            self.metric.loc_ok(b as int),
        ensures
            r == spec_base_distance(self.metric, a as int, b as int),
            0 <= r <= MAX_TIME,
    {
        proof {
            lemma_base_duration_bounds(self.metric, a as int, b as int);
        }
        match &self.metric {
            TravelMetric::Line => {
                if a <= b { (b - a) as i64 } else { (a - b) as i64 }
            },
            TravelMetric::Matrix { size, distances, .. } => {
                proof {
                    assert(0 <= a * *size + b < *size * *size && *size * *size <= MAX_LOCS * MAX_LOCS)
                        by (nonlinear_arith)
                        requires 0 <= a < *size, 0 <= b < *size, *size <= MAX_LOCS;
                }
                distances[a * size + b]
            },
        }
    }

    fn base_duration(&self, from: Location, to: Location) -> (r: i64)
        requires
            self.wf(),
            self.metric.loc_ok(from as int),
            self.metric.loc_ok(to as int),
        ensures
            r == spec_base_duration(self.metric, from as int, to as int),
            0 <= r <= MAX_TIME,
    {
        proof {
            lemma_base_duration_bounds(self.metric, from as int, to as int);
        }
        match &self.metric {
            TravelMetric::Line => {
                if from <= to { (to - from) as i64 } else { (from - to) as i64 }
            },
            TravelMetric::Matrix { size, durations, .. } => {
                proof {
                    assert(0 <= from * *size + to < *size * *size && *size * *size <= MAX_LOCS * MAX_LOCS)
                        by (nonlinear_arith)
                        requires 0 <= from < *size, 0 <= to < *size, *size <= MAX_LOCS;
                }
                durations[from * size + to]
            },
        }
    }
}

/// The direction hint carries an admissible schedule value.
pub open spec fn travel_time_bounded(tt: TravelTime) -> bool {
    match tt {
        TravelTime::Departure(d) => sched_bounded(d as int),
        TravelTime::Arrival(a) => sched_bounded(a as int),
    }
}

/// The activity cost collaborator: departure and arrival estimation under the
/// actor's reserved time spans.
#[derive(Clone, PartialEq, Eq, Debug)]
pub struct ActivityCostModel {
    pub reserved: Vec<ReservedTimeSpan>,
}

/// Departure estimation for an activity reached at `arrival`:
/// - arrival after the window end is rejected;
/// - service starts at `max(arrival, window.start)`;
/// - a reserved span touching the closed interval
///   `[arrival, service_start + duration]` of an activity with real service
///   extends the departure by its duration (a rest beginning exactly at the
///   service end still holds the actor); an activity without service time is
///   never extended; the extension is rejected when it pushes the service
///   end past the window end;
/// - otherwise the departure is the service end.
pub open spec fn spec_estimate_departure(ac: ActivityCostModel, anchor: int, place: Place, arrival: int) -> Option<int> {
    if place.time.end < arrival {
        None
    } else {
        let start = if arrival >= place.time.start { arrival } else { place.time.start as int };
        let ext = spec_service_extension(ac, anchor, place, arrival);
        if ext > 0 && start + place.duration + ext > place.time.end {
            None
        } else {
            Some(spec_departure_value(ac, anchor, place, arrival))
        }
    }
}

/// The reserved extension of the activity's service: zero when there is no
/// service to interrupt.
pub open spec fn spec_service_extension(ac: ActivityCostModel, anchor: int, place: Place, arrival: int) -> int {
    let start = if arrival >= place.time.start { arrival } else { place.time.start as int };
    if place.duration > 0 {
        spec_extension(ac.reserved@, anchor, arrival, start + place.duration + 1)
    } else {
        0
    }
}

/// The departure value the forward pass writes: the service end including any
/// reserved extension. Estimation returns exactly this value when it accepts.
pub open spec fn spec_departure_value(ac: ActivityCostModel, anchor: int, place: Place, arrival: int) -> int {
    let start = if arrival >= place.time.start { arrival } else { place.time.start as int };
    start + place.duration + spec_service_extension(ac, anchor, place, arrival)
}

pub proof fn lemma_departure_value_bounds(ac: ActivityCostModel, anchor: int, place: Place, arrival: int)
    requires
        ac.wf(),
        place.wf(),
    ensures
        ({
            let start = if arrival >= place.time.start { arrival } else { place.time.start as int };
            let v = spec_departure_value(ac, anchor, place, arrival);
            start + place.duration <= v <= start + (1 + MAX_RESERVED) * MAX_TIME
        }),
        spec_departure_value(ac, anchor, place, arrival) >= arrival,
{
    let start = if arrival >= place.time.start { arrival } else { place.time.start as int };
    lemma_ext_sum_bounds(ac.reserved@, anchor, arrival, start + place.duration + 1, ac.reserved@.len() as int);
    assert(ac.reserved@.len() * MAX_TIME <= MAX_RESERVED * MAX_TIME) by (nonlinear_arith)
        requires ac.reserved@.len() <= MAX_RESERVED;
    assert(0 <= spec_service_extension(ac, anchor, place, arrival) <= MAX_RESERVED * MAX_TIME);
}

/// Arrival estimation, the inverse direction: the latest arrival from which
/// the activity can be departed by `latest_departure`. Starts from
/// `min(window.end, latest_departure - duration)` and backs off by the
/// reserved extension met there.
pub open spec fn spec_estimate_arrival(ac: ActivityCostModel, anchor: int, place: Place, latest_departure: int) -> int {
    let base = if place.time.end <= latest_departure - place.duration {
        place.time.end as int
    } else {
        latest_departure - place.duration
    };
    let start = if base >= place.time.start { base } else { place.time.start as int };
    let ext = spec_extension(ac.reserved@, anchor, base, start + place.duration);
    base - ext
}

pub proof fn lemma_estimate_arrival_bounds(ac: ActivityCostModel, anchor: int, place: Place, latest_departure: int)
    requires
        ac.wf(),
        place.wf(),
    ensures
        ({
            let base = if place.time.end <= latest_departure - place.duration {
                place.time.end as int
            } else {
                latest_departure - place.duration
            };
            base - MAX_RESERVED * MAX_TIME <= spec_estimate_arrival(ac, anchor, place, latest_departure) <= base
        }),
{
    let base = if place.time.end <= latest_departure - place.duration {
        place.time.end as int
    } else {
        latest_departure - place.duration
    };
    let start = if base >= place.time.start { base } else { place.time.start as int };
    lemma_ext_sum_bounds(ac.reserved@, anchor, base, start + place.duration, ac.reserved@.len() as int);
    assert(ac.reserved@.len() * MAX_TIME <= MAX_RESERVED * MAX_TIME) by (nonlinear_arith)
        requires ac.reserved@.len() <= MAX_RESERVED;
}

impl ActivityCostModel {
    pub open spec fn wf(self) -> bool {
        reserved_wf(self.reserved@)
    }

    /// An activity cost model without reserved times.
    pub fn basic() -> (r: ActivityCostModel)
        ensures
            r.reserved@.len() == 0,
    {
        ActivityCostModel { reserved: Vec::new() }
    }

    /// Estimates the departure from `activity` when it is reached at
    /// `arrival`; `None` means the schedule is infeasible there.
    pub fn estimate_departure(&self, route: &Route, activity: &Activity, arrival: i64) -> (r: Option<i64>)
        requires
            self.wf(),
            route.wf(),
            activity.wf(),
            sched_bounded(arrival as int),
        ensures
            ({
                let anchor = spec_anchor(route.actor.spec_cost_span(), route.tour@);
                match r {
                    Some(d) => spec_estimate_departure(*self, anchor, activity.place, arrival as int) == Some(d as int),
                    None => spec_estimate_departure(*self, anchor, activity.place, arrival as int) is None,
                }
            }),
    {
        let anchor = get_offset_anchor(route);
        if activity.place.time.end < arrival {
            return None;
        }
        let start = if arrival >= activity.place.time.start { arrival } else { activity.place.time.start };
        let ext = if activity.place.duration > 0 {
            extension_of(&self.reserved, anchor, arrival, start + activity.place.duration + 1)
        } else {
            0
        };
        if ext > 0 && start + activity.place.duration + ext > activity.place.time.end {
            None
        } else {
            Some(start + activity.place.duration + ext)
        }
    }

    /// The departure the forward pass writes for `activity` when it is
    /// reached at `arrival`: the service end including any reserved
    /// extension, whether or not estimation accepts it.
    pub fn departure_value(&self, route: &Route, activity: &Activity, arrival: i64) -> (r: i64)
        requires
            self.wf(),
            route.wf(),
            activity.wf(),
            sched_bounded(arrival as int),
        ensures
            r == spec_departure_value(
                *self,
                spec_anchor(route.actor.spec_cost_span(), route.tour@),
                activity.place,
                arrival as int,
            ),
    {
        let anchor = get_offset_anchor(route);
        let start = if arrival >= activity.place.time.start { arrival } else { activity.place.time.start };
        let ext = if activity.place.duration > 0 {
            extension_of(&self.reserved, anchor, arrival, start + activity.place.duration + 1)
        } else {
            0
        };
        start + activity.place.duration + ext
    }

    /// Estimates the latest arrival at `activity` that still allows departing
    /// by `latest_departure`.
    pub fn estimate_arrival(&self, route: &Route, activity: &Activity, latest_departure: i64) -> (r: i64)
        requires
            self.wf(),
            route.wf(),
            activity.wf(),
            sched_bounded(latest_departure as int),
        ensures
            r == spec_estimate_arrival(
                *self,
                spec_anchor(route.actor.spec_cost_span(), route.tour@),
                activity.place,
                latest_departure as int,
            ),
    {
        let anchor = get_offset_anchor(route);
        let base = if activity.place.time.end <= latest_departure - activity.place.duration {
            activity.place.time.end
        } else {
            latest_departure - activity.place.duration
        };
        let start = if base >= activity.place.time.start { base } else { activity.place.time.start };
        let ext = extension_of(&self.reserved, anchor, base, start + activity.place.duration);
        base - ext
    }
}

} // verus!
