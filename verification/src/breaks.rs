//! The break materialiser: converts reserved time spans into break
//! activities of an output tour, inserting transit stops for breaks taken
//! while driving and aligning breaks to activity boundaries at point stops.

use vstd::prelude::*;
use crate::times::{TimeWindow, Schedule, ReservedTimeSpan, MAX_TIME, MAX_SCHED, sched_bounded};
use crate::model::{Route, MAX_ACTIVITIES, MAX_RATE, Location};
use crate::schedule::{get_offset_anchor, spec_anchor};

verus! {

/// Upper bound on the magnitude of an output tour statistic value. Machine
/// limit: leaves room for every break-insertion adjustment.
pub const MAX_COST: i64 = 100_000_000_000_000_000;

/// Largest statistic adjustment one round of break insertion can make over a
/// whole tour.
pub const ROUND_COST: i64 = 2_000_000_000_000_000;

/// The kind of an output activity.
#[derive(Clone, Copy, PartialEq, Eq, Structural, Debug)]
pub enum OutActivityType {
    Departure,
    Arrival,
    Delivery,
    Pickup,
    Service,
    Break,
}

/// One activity of an output stop.
#[derive(Clone, PartialEq, Eq, Debug)]
pub struct OutActivity {
    pub job_id: String,
    pub activity_type: OutActivityType,
    pub location: Option<Location>,
    pub time: Option<TimeWindow>,
}

impl OutActivity {
    pub open spec fn is_break(self) -> bool {
        self.activity_type == OutActivityType::Break
    }

    pub open spec fn wf(self) -> bool {
        match self.time {
            Some(tw) => tw.sched_ok(),
            None => true,
        }
    }
}

/// A stop of the output tour at a concrete location.
#[derive(Clone, PartialEq, Eq, Debug)]
pub struct PointStop {
    pub location: Location,
    pub time: Schedule,
    pub load: Vec<i64>,
    pub activities: Vec<OutActivity>,
}

/// A stop of the output tour without a location: the vehicle rests while
/// driving.
#[derive(Clone, PartialEq, Eq, Debug)]
pub struct TransitStop {
    pub time: Schedule,
    pub load: Vec<i64>,
    pub activities: Vec<OutActivity>,
}

/// A stop: a point stop or a transit stop.
#[derive(Clone, PartialEq, Eq, Debug)]
pub enum Stop {
    Point(PointStop),
    Transit(TransitStop),
}

impl Stop {
    pub open spec fn spec_schedule(self) -> Schedule {
        match self {
            Stop::Point(p) => p.time,
            Stop::Transit(t) => t.time,
        }
    }

    pub open spec fn spec_activities(self) -> Seq<OutActivity> {
        match self {
            Stop::Point(p) => p.activities@,
            Stop::Transit(t) => t.activities@,
        }
    }

    pub open spec fn wf(self) -> bool {
        &&& self.spec_schedule().sched_ok()
        &&& self.spec_activities().len() <= MAX_ACTIVITIES
        &&& forall|i: int| 0 <= i < self.spec_activities().len()
            ==> (#[trigger] self.spec_activities()[i]).wf()
    }

    /// The stop's arrival and departure.
    pub fn schedule(&self) -> (r: Schedule)
        ensures
            r == self.spec_schedule(),
    {
        match self {
            Stop::Point(p) => p.time,
            Stop::Transit(t) => t.time,
        }
    }

    /// The stop's activities.
    pub fn activities(&self) -> (r: &Vec<OutActivity>)
        ensures
            r@ == self.spec_activities(),
    {
        match self {
            Stop::Point(p) => &p.activities,
            Stop::Transit(t) => &t.activities,
        }
    }

    /// The stop's load vector.
    pub fn load(&self) -> (r: &Vec<i64>)
        ensures
            r@ == match *self {
                Stop::Point(p) => p.load@,
                Stop::Transit(t) => t.load@,
            },
    {
        match self {
            Stop::Point(p) => &p.load,
            Stop::Transit(t) => &t.load,
        }
    }

    /// The stop's location, if it has one.
    pub fn location(&self) -> (r: Option<Location>)
        ensures
            r == match *self {
                Stop::Point(p) => Some(p.location),
                Stop::Transit(_) => None::<Location>,
            },
    {
        match self {
            Stop::Point(p) => Some(p.location),
            Stop::Transit(_) => None,
        }
    }
}

/// Aggregated times of an output tour.
#[derive(Clone, Copy, PartialEq, Eq, Structural, Debug)]
pub struct Times {
    pub driving: i64,
    pub serving: i64,
    pub waiting: i64,
    pub break_time: i64,
}

/// Aggregated statistics of an output tour.
#[derive(Clone, Copy, PartialEq, Eq, Structural, Debug)]
pub struct Statistic {
    pub cost: i64,
    pub distance: i64,
    pub duration: i64,
    pub times: Times,
}

/// An output tour: ordered stops with their activities and statistics.
#[derive(Clone, PartialEq, Eq, Debug)]
pub struct OutTour {
    pub vehicle_id: String,
    pub shift_index: usize,
    pub stops: Vec<Stop>,
    pub statistic: Statistic,
}

impl OutTour {
    pub open spec fn wf(self) -> bool {
        &&& self.stops@.len() <= MAX_ACTIVITIES
        &&& forall|i: int| 0 <= i < self.stops@.len() ==> (#[trigger] self.stops@[i]).wf()
        &&& -MAX_COST <= self.statistic.cost <= MAX_COST
        &&& -MAX_COST <= self.statistic.times.driving <= MAX_COST
        &&& -MAX_COST <= self.statistic.times.break_time <= MAX_COST
    }
}

/// Number of break activities in the stops.
pub open spec fn spec_break_count(stops: Seq<Stop>, k: int) -> int
    decreases k,
{
    if k <= 0 {
        0
    } else {
        spec_break_count(stops, k - 1) + spec_stop_break_count(stops[k - 1].spec_activities(), stops[k - 1].spec_activities().len() as int)
    }
}

/// Number of break activities among the first `k` of one stop.
pub open spec fn spec_stop_break_count(acts: Seq<OutActivity>, k: int) -> int
    decreases k,
{
    if k <= 0 {
        0
    } else {
        spec_stop_break_count(acts, k - 1) + if acts[k - 1].is_break() { 1int } else { 0int }
    }
}

/// The stop already holds a break activity over exactly this interval.
pub open spec fn spec_stop_has_break_at(acts: Seq<OutActivity>, tw: TimeWindow) -> bool {
    exists|i: int| 0 <= i < acts.len() && (#[trigger] acts[i]).is_break() && acts[i].time == Some(tw)
}

fn stop_has_break_at(activities: &Vec<OutActivity>, tw: &TimeWindow) -> (r: bool)
    ensures
        r == spec_stop_has_break_at(activities@, *tw),
{
    let mut i: usize = 0;
    while i < activities.len()
        invariant
            0 <= i <= activities@.len(),
            forall|m: int| 0 <= m < i
                ==> !((#[trigger] activities@[m]).is_break() && activities@[m].time == Some(*tw)),
        decreases activities@.len() - i,
    {
        let a = &activities[i];
        let is_break = matches!(a.activity_type, OutActivityType::Break);
        if is_break {
            match &a.time {
                Some(t) => {
                    if t.start == tw.start && t.end == tw.end {
                        return true;
                    }
                },
                None => {},
            }
        }
        i = i + 1;
    }
    false
}

/// The interval an activity occupies at the stop: its own, else the stop's.
pub open spec fn spec_activity_interval(a: OutActivity, stop_tw: TimeWindow) -> TimeWindow {
    match a.time {
        Some(t) => t,
        None => stop_tw,
    }
}

/// The insertion index for a break within a stop: directly after the first
/// non-break activity whose interval intersects the reserved interval,
/// searched from `i`; else the end of the list.
pub open spec fn spec_pick_break_idx(acts: Seq<OutActivity>, stop_tw: TimeWindow, reserved_tw: TimeWindow, i: int) -> int
    decreases acts.len() - i,
{
    if i < 0 || i >= acts.len() {
        acts.len() as int
    } else if !acts[i].is_break() && spec_activity_interval(acts[i], stop_tw).spec_intersects(reserved_tw) {
        i + 1
    } else {
        spec_pick_break_idx(acts, stop_tw, reserved_tw, i + 1)
    }
}

fn pick_break_idx(activities: &Vec<OutActivity>, stop_tw: &TimeWindow, reserved_tw: &TimeWindow) -> (r: usize)
    ensures
        r <= activities@.len(),
        r == spec_pick_break_idx(activities@, *stop_tw, *reserved_tw, 0),
{
    let mut i: usize = 0;
    while i < activities.len()
        invariant
            0 <= i <= activities@.len(),
            spec_pick_break_idx(activities@, *stop_tw, *reserved_tw, 0)
                == spec_pick_break_idx(activities@, *stop_tw, *reserved_tw, i as int),
        decreases activities@.len() - i,
    {
        let a = &activities[i];
        let is_break = matches!(a.activity_type, OutActivityType::Break);
        if !is_break {
            let activity_tw = match &a.time {
                Some(t) => *t,
                None => *stop_tw,
            };
            if activity_tw.intersects(reserved_tw) {
                return i + 1;
            }
        }
        i = i + 1;
    }
    activities.len()
}

/// The two closed intervals overlap with positive length.
pub open spec fn spec_positive_overlap(a: TimeWindow, b: TimeWindow) -> bool {
    (if a.end <= b.end { a.end as int } else { b.end as int })
        > (if a.start >= b.start { a.start as int } else { b.start as int })
}

/// The break interval overlaps some timed non-break activity with positive
/// length.
pub open spec fn spec_break_overlaps_job(acts: Seq<OutActivity>, break_tw: TimeWindow) -> bool {
    exists|i: int| 0 <= i < acts.len() && !(#[trigger] acts[i]).is_break()
        && acts[i].time is Some && spec_positive_overlap(acts[i].time->0, break_tw)
}

/// The boundary-aligned interval of a break at `break_idx`: the input window
/// when it overlaps no timed non-break activity positively; else a window of
/// the same length starting at the previous activity's end when that fits
/// the stop window; else one ending at the next activity's start when that
/// fits; else the input window.
pub open spec fn spec_align_break(acts: Seq<OutActivity>, break_idx: int, stop_tw: TimeWindow, break_tw: TimeWindow) -> TimeWindow {
    if !spec_break_overlaps_job(acts, break_tw) {
        break_tw
    } else {
        let duration = break_tw.end - break_tw.start;
        let from_previous: Option<TimeWindow> = if break_idx > 0 && break_idx - 1 < acts.len()
            && acts[break_idx - 1].time is Some {
            let t = acts[break_idx - 1].time->0;
            let start = if t.end >= stop_tw.start { t.end as int } else { stop_tw.start as int };
            let end = start + duration;
            if end <= stop_tw.end {
                Some(TimeWindow { start: start as i64, end: end as i64 })
            } else {
                None
            }
        } else {
            None
        };
        match from_previous {
            Some(w) => w,
            None => {
                let from_next: Option<TimeWindow> = if 0 <= break_idx && break_idx < acts.len()
                    && acts[break_idx].time is Some {
                    let t = acts[break_idx].time->0;
                    let end = if t.start <= stop_tw.end { t.start as int } else { stop_tw.end as int };
                    let start = end - duration;
                    if start >= stop_tw.start {
                        Some(TimeWindow { start: start as i64, end: end as i64 })
                    } else {
                        None
                    }
                } else {
                    None
                };
                match from_next {
                    Some(w) => w,
                    None => break_tw,
                }
            },
        }
    }
}

/// Slides a break that would overlap a job activity at the same point stop to
/// start at the previous activity's end, or to end at the next activity's
/// start, preferring the first that fits the stop window; a break overlapping
/// nothing keeps its interval.
pub fn align_break_to_activity_boundary(
    activities: &Vec<OutActivity>,
    break_idx: usize,
    stop_tw: &TimeWindow,
    break_tw: &TimeWindow,
) -> (r: TimeWindow)
    requires
        forall|i: int| 0 <= i < activities@.len() ==> (#[trigger] activities@[i]).wf(),
        stop_tw.sched_ok(),
        break_tw.sched_ok(),
        break_tw.wf(),
    ensures
        r == spec_align_break(activities@, break_idx as int, *stop_tw, *break_tw),
        r.sched_ok(),
        r.spec_duration() == break_tw.spec_duration() || r == *break_tw,
{
    // Whether the break overlaps any non-break activity with positive length.
    let mut has_overlap = false;
    let mut i: usize = 0;
    while i < activities.len()
        invariant
            forall|m: int| 0 <= m < activities@.len() ==> (#[trigger] activities@[m]).wf(),
            stop_tw.sched_ok(),
            break_tw.sched_ok(),
            0 <= i <= activities@.len(),
            has_overlap ==> spec_break_overlaps_job(activities@, *break_tw),
            !has_overlap ==> forall|m: int| 0 <= m < i
                ==> !(!(#[trigger] activities@[m]).is_break() && activities@[m].time is Some
                    && spec_positive_overlap(activities@[m].time->0, *break_tw)),
        decreases activities@.len() - i,
    {
        let a = &activities[i];
        let is_break = matches!(a.activity_type, OutActivityType::Break);
        if !is_break {
            match &a.time {
                Some(t) => {
                    match t.overlapping(break_tw) {
                        Some(overlap) => {
                            if overlap.end - overlap.start > 0 {
                                has_overlap = true;
                            }
                        },
                        None => {},
                    }
                },
                None => {},
            }
        }
        i = i + 1;
    }
    if !has_overlap {
        proof {
            assert(!spec_break_overlaps_job(activities@, *break_tw));
        }
        return *break_tw;
    }

    let duration = break_tw.end - break_tw.start;

    // Slide to start at the previous activity's end.
    if break_idx > 0 && break_idx - 1 < activities.len() {
        match &activities[break_idx - 1].time {
            Some(t) => {
                let start = if t.end >= stop_tw.start { t.end } else { stop_tw.start };
                let end = start + duration;
                if end <= stop_tw.end {
                    return TimeWindow { start, end };
                }
            },
            None => {},
        }
    }

    // Slide to end at the next activity's start.
    if break_idx < activities.len() {
        match &activities[break_idx].time {
            Some(t) => {
                let end = if t.start <= stop_tw.end { t.start } else { stop_tw.end };
                let start = end - duration;
                if start >= stop_tw.start {
                    return TimeWindow { start, end };
                }
            },
            None => {},
        }
    }

    *break_tw
}

/// How a break is attached when it falls on a travel leg.
#[derive(Clone, PartialEq, Eq, Debug)]
pub enum BreakInsertion {
    /// A new transit stop carries the break.
    TransitBreakUsed { leg_idx: usize, load: Vec<i64> },
    /// The break is moved back to the previous stop with a synthetic window.
    TransitBreakMoved { leg_idx: usize, break_tw: TimeWindow },
}

/// The synthetic window of a break moved to this stop, if the insertion
/// decision names it.
pub open spec fn spec_moved_window(break_insertion: Option<BreakInsertion>, stop_idx: int) -> Option<TimeWindow> {
    match break_insertion {
        Some(BreakInsertion::TransitBreakMoved { leg_idx, break_tw }) => {
            if leg_idx == stop_idx {
                Some(break_tw)
            } else {
                None
            }
        },
        _ => None,
    }
}

/// The interval a break inserted into this stop occupies: the moved synthetic
/// window when the insertion decision names this stop, else the reserved
/// interval; aligned to activity boundaries at point stops.
pub open spec fn spec_insert_break_time(
    stop: Stop,
    stop_idx: int,
    break_insertion: Option<BreakInsertion>,
    reserved_tw: TimeWindow,
) -> TimeWindow {
    let stop_tw = TimeWindow {
        start: stop.spec_schedule().arrival,
        end: stop.spec_schedule().departure,
    };
    let base = match spec_moved_window(break_insertion, stop_idx) {
        Some(w) => w,
        None => reserved_tw,
    };
    if stop is Point && base.start <= base.end {
        spec_align_break(
            stop.spec_activities(),
            spec_pick_break_idx(stop.spec_activities(), stop_tw, reserved_tw, 0),
            stop_tw,
            base,
        )
    } else {
        base
    }
}

/// Inserts a break activity into one stop: picks the position after the first
/// intersecting non-break activity, aligns the interval to activity
/// boundaries at point stops, extends overlapped activities, sorts the stop's
/// activities by interval start, and adjusts the statistics. The break is
/// inserted exactly when no break over the same interval is already present,
/// so rerunning the materialiser does not duplicate breaks.
pub fn insert_break(
    stop: &mut Stop,
    stop_idx: usize,
    break_time: i64,
    break_cost: i64,
    break_insertion: &Option<BreakInsertion>,
    reserved_tw: &TimeWindow,
    statistic: &mut Statistic,
) -> (inserted: bool)
    requires
        old(stop).wf(),
        old(stop).spec_activities().len() < MAX_ACTIVITIES,
        reserved_tw.wf(),
        reserved_tw.sched_ok(),
        0 <= break_time <= MAX_TIME,
        0 <= break_cost <= MAX_TIME * MAX_RATE,
        -MAX_COST + 2 * MAX_TIME * MAX_RATE <= old(statistic).cost,
        old(statistic).cost <= MAX_COST - 2 * MAX_TIME * MAX_RATE,
        -MAX_COST + 2 * MAX_TIME * MAX_RATE <= old(statistic).times.driving,
        old(statistic).times.driving <= MAX_COST - 2 * MAX_TIME * MAX_RATE,
        match *break_insertion {
            Some(BreakInsertion::TransitBreakMoved { break_tw, .. }) => {
                break_tw.wf() && break_tw.sched_ok()
            },
            _ => true,
        },
    ensures
        spec_stop_break_count(final(stop).spec_activities(), final(stop).spec_activities().len() as int)
            == spec_stop_break_count(old(stop).spec_activities(), old(stop).spec_activities().len() as int)
                + if inserted { 1int } else { 0int },
        !inserted ==> *final(stop) == *old(stop) && *final(statistic) == *old(statistic),
        inserted == !spec_stop_has_break_at(
            old(stop).spec_activities(),
            spec_insert_break_time(*old(stop), stop_idx as int, *break_insertion, *reserved_tw),
        ),
        inserted ==> spec_stop_has_break_at(
            final(stop).spec_activities(),
            spec_insert_break_time(*old(stop), stop_idx as int, *break_insertion, *reserved_tw),
        ),
        inserted ==> final(statistic).cost == old(statistic).cost
            - (if spec_moved_window(*break_insertion, stop_idx as int) is Some { break_cost as int } else { 0 })
            + (if (*old(stop)) is Point { break_cost as int } else { 0 }),
        inserted ==> final(statistic).times.driving == old(statistic).times.driving
            - (if spec_moved_window(*break_insertion, stop_idx as int) is Some { break_time as int } else { 0 })
            - (if (*old(stop)) is Point { 0 } else { break_time as int }),
        final(stop).spec_activities().len() <= old(stop).spec_activities().len() + 1,
        final(stop).spec_schedule() == old(stop).spec_schedule(),
        (*final(stop)) is Point <==> (*old(stop)) is Point,
        final(stop).wf(),
        old(statistic).cost - 2 * MAX_TIME * MAX_RATE <= final(statistic).cost,
        final(statistic).cost <= old(statistic).cost + 2 * MAX_TIME * MAX_RATE,
        old(statistic).times.driving - 2 * MAX_TIME * MAX_RATE <= final(statistic).times.driving,
        final(statistic).times.driving <= old(statistic).times.driving + 2 * MAX_TIME * MAX_RATE,
        final(statistic).times.break_time == old(statistic).times.break_time,
{
    let stop_sched = stop.schedule();
    let stop_tw = TimeWindow { start: stop_sched.arrival, end: stop_sched.departure };

    let break_idx = pick_break_idx(stop.activities(), &stop_tw, reserved_tw);

    // The interval the break occupies at this stop.
    let moved_here: Option<TimeWindow> = match break_insertion {
        Some(BreakInsertion::TransitBreakMoved { leg_idx, break_tw }) => {
            if *leg_idx == stop_idx {
                Some(*break_tw)
            } else {
                None
            }
        },
        _ => None,
    };
    let base_tw = match &moved_here {
        Some(tw) => *tw,
        None => *reserved_tw,
    };
    let is_point = matches!(stop, Stop::Point(_));
    let activity_time = if is_point {
        if base_tw.start <= base_tw.end {
            align_break_to_activity_boundary(stop.activities(), break_idx, &stop_tw, &base_tw)
        } else {
            base_tw
        }
    } else {
        base_tw
    };

    proof {
        assert(activity_time
            == spec_insert_break_time(*old(stop), stop_idx as int, *break_insertion, *reserved_tw));
    }

    // A break over this exact interval is already here: add nothing.
    if stop_has_break_at(stop.activities(), &activity_time) {
        return false;
    }

    // Bookkeeping: a moved break refunds its driving time and service cost; a
    // point stop charges service cost; a transit stop refunds driving time.
    match &moved_here {
        Some(_) => {
            statistic.cost = statistic.cost - break_cost;
            statistic.times.driving = statistic.times.driving - break_time;
        },
        None => {},
    }
    match stop {
        Stop::Point(_) => {
            statistic.cost = statistic.cost + break_cost;
        },
        Stop::Transit(_) => {
            statistic.times.driving = statistic.times.driving - break_time;
        },
    }

    let break_activity = OutActivity {
        job_id: "break".to_owned(),
        activity_type: OutActivityType::Break,
        location: None,
        time: Some(activity_time),
    };

    let ghost before = stop.spec_activities();
    let ghost inserted_act = break_activity;
    match stop {
        Stop::Point(p) => {
            p.activities.insert(break_idx, break_activity);
            proof {
                lemma_insert_break_count(before, inserted_act, break_idx as int);
                assert(p.activities@[break_idx as int] == inserted_act);
            }
            extend_overlapped(&mut p.activities, break_idx, &activity_time);
            proof {
                assert(p.activities@[break_idx as int] == inserted_act);
                assert(p.activities@.contains(inserted_act));
            }
            let ghost pre_sort = p.activities@;
            sort_by_interval_start(&mut p.activities, Ghost(stop_tw));
            proof {
                pre_sort.to_multiset_ensures();
                p.activities@.to_multiset_ensures();
                assert(pre_sort.to_multiset().count(inserted_act) > 0);
                assert(p.activities@.to_multiset().count(inserted_act) > 0);
                assert(p.activities@.contains(inserted_act));
                let w = choose|w: int| 0 <= w < p.activities@.len()
                    && (#[trigger] p.activities@[w]) == inserted_act;
                assert(spec_stop_has_break_at(p.activities@, activity_time));
            }
        },
        Stop::Transit(t) => {
            t.activities.insert(break_idx, break_activity);
            proof {
                lemma_insert_break_count(before, inserted_act, break_idx as int);
                assert(t.activities@[break_idx as int] == inserted_act);
            }
            extend_overlapped(&mut t.activities, break_idx, &activity_time);
            proof {
                assert(t.activities@[break_idx as int] == inserted_act);
                assert(t.activities@.contains(inserted_act));
            }
            let ghost pre_sort = t.activities@;
            sort_by_interval_start(&mut t.activities, Ghost(stop_tw));
            proof {
                pre_sort.to_multiset_ensures();
                t.activities@.to_multiset_ensures();
                assert(pre_sort.to_multiset().count(inserted_act) > 0);
                assert(t.activities@.to_multiset().count(inserted_act) > 0);
                assert(t.activities@.contains(inserted_act));
                let w = choose|w: int| 0 <= w < t.activities@.len()
                    && (#[trigger] t.activities@[w]) == inserted_act;
                assert(spec_stop_has_break_at(t.activities@, activity_time));
            }
        },
    }
    true
}

/// Extends the window end of every non-break activity the inserted break
/// overlaps with positive length, so the stop's timeline stays consistent.
fn extend_overlapped(activities: &mut Vec<OutActivity>, break_idx: usize, activity_time: &TimeWindow)
    requires
        forall|i: int| 0 <= i < old(activities)@.len() ==> (#[trigger] old(activities)@[i]).wf(),
        activity_time.sched_ok(),
        activity_time.wf(),
    ensures
        final(activities)@.len() == old(activities)@.len(),
        forall|i: int| 0 <= i < final(activities)@.len() ==> (#[trigger] final(activities)@[i]).wf(),
        forall|i: int| 0 <= i < final(activities)@.len() ==> {
            let a = #[trigger] final(activities)@[i];
            let b = old(activities)@[i];
            a.job_id == b.job_id && a.activity_type == b.activity_type && a.location == b.location
        },
        break_idx < final(activities)@.len()
            ==> final(activities)@[break_idx as int] == old(activities)@[break_idx as int],
        spec_stop_break_count(final(activities)@, final(activities)@.len() as int)
            == spec_stop_break_count(old(activities)@, old(activities)@.len() as int),
{
    let ghost acts0 = activities@;
    let total = activities.len();
    let mut i: usize = 0;
    while i < total
        invariant
            activity_time.sched_ok(),
            activity_time.wf(),
            total == acts0.len(),
            acts0 == old(activities)@,
            activities@.len() == total,
            forall|m: int| 0 <= m < acts0.len() ==> (#[trigger] acts0[m]).wf(),
            forall|m: int| 0 <= m < total ==> (#[trigger] activities@[m]).wf(),
            forall|m: int| 0 <= m < total ==> {
                let a = #[trigger] activities@[m];
                let b = acts0[m];
                a.job_id == b.job_id && a.activity_type == b.activity_type && a.location == b.location
            },
            break_idx < total ==> activities@[break_idx as int] == acts0[break_idx as int],
            0 <= i <= total,
        decreases total - i,
    {
        if i != break_idx {
            let time_opt = match &activities[i].time {
                Some(t) => Some(*t),
                None => None,
            };
            match time_opt {
                Some(t) => {
                    match t.overlapping(activity_time) {
                        Some(overlap) => {
                            if overlap.end - overlap.start > 0 {
                                let extra_time = activity_time.end - overlap.end
                                    + (overlap.end - overlap.start);
                                let new_end = t.end + extra_time;
                                if t.start <= new_end && -MAX_SCHED <= new_end && new_end <= MAX_SCHED {
                                    activities[i].time = Some(TimeWindow { start: t.start, end: new_end });
                                }
                            }
                        },
                        None => {},
                    }
                },
                None => {},
            }
        }
        i = i + 1;
    }
    proof {
        lemma_break_count_pointwise(activities@, acts0, activities@.len() as int);
    }
}

/// Two activity sequences whose kinds agree index by index hold equally many
/// breaks.
proof fn lemma_break_count_pointwise(a: Seq<OutActivity>, b: Seq<OutActivity>, k: int)
    requires
        a.len() == b.len(),
        k <= a.len(),
        forall|m: int| 0 <= m < a.len()
            ==> (#[trigger] a[m]).activity_type == b[m].activity_type,
    ensures
        spec_stop_break_count(a, k) == spec_stop_break_count(b, k),
    decreases k,
{
    if k > 0 {
        lemma_break_count_pointwise(a, b, k - 1);
    }
}

/// Sorts a stop's activities by interval start; entries without an interval
/// sort to the front. Insertion sort, keeping the break count.
fn sort_by_interval_start(activities: &mut Vec<OutActivity>, Ghost(stop_tw): Ghost<TimeWindow>)
    requires
        forall|i: int| 0 <= i < old(activities)@.len() ==> (#[trigger] old(activities)@[i]).wf(),
    ensures
        final(activities)@.len() == old(activities)@.len(),
        forall|i: int| 0 <= i < final(activities)@.len() ==> (#[trigger] final(activities)@[i]).wf(),
        spec_stop_break_count(final(activities)@, final(activities)@.len() as int)
            == spec_stop_break_count(old(activities)@, old(activities)@.len() as int),
        final(activities)@.to_multiset() == old(activities)@.to_multiset(),
{
    let ghost acts0 = activities@;
    let mut out: Vec<OutActivity> = Vec::new();
    proof {
        assert(out@ =~= acts0.take(0));
    }
    let mut i: usize = 0;
    while i < activities.len()
        invariant
            forall|m: int| 0 <= m < acts0.len() ==> (#[trigger] acts0[m]).wf(),
            acts0 == activities@,
            0 <= i <= acts0.len(),
            out@.len() == i,
            forall|m: int| 0 <= m < out@.len() ==> (#[trigger] out@[m]).wf(),
            out@.to_multiset() == acts0.take(i as int).to_multiset(),
            spec_stop_break_count(out@, out@.len() as int)
                == spec_stop_break_count(acts0, i as int),
        decreases acts0.len() - i,
    {
        let v = clone_activity(&activities[i]);
        let key_opt: Option<i64> = match &v.time {
            Some(t) => Some(t.start),
            None => None,
        };
        let mut pos: usize = 0;
        while pos < out.len() && leq_by_start(&out[pos], key_opt)
            invariant
                0 <= pos <= out@.len(),
            decreases out@.len() - pos,
        {
            pos = pos + 1;
        }
        let ghost out_before = out@;
        out.insert(pos, v);
        proof {
            assert(activities@[i as int] == acts0[i as int]);
            lemma_insert_multiset(out_before, acts0[i as int], pos as int);
            assert(acts0.take(i + 1 as int).drop_last() == acts0.take(i as int));
            assert(acts0.take(i + 1 as int).last() == acts0[i as int]);
            assert(acts0.take(i + 1 as int).to_multiset()
                == acts0.take(i as int).to_multiset().insert(acts0[i as int])) by {
                acts0.take(i + 1 as int).to_multiset_ensures();
                assert(acts0.take(i + 1 as int) =~= acts0.take(i as int).push(acts0[i as int]));
                lemma_push_multiset(acts0.take(i as int), acts0[i as int]);
            }
            lemma_insert_break_count(out_before, acts0[i as int], pos as int);
        }
        i = i + 1;
    }
    let ghost out_final = out@;
    *activities = out;
    proof {
        assert(acts0.take(acts0.len() as int) =~= acts0);
    }
}

/// Whether the activity's interval start is at most the key; keyless entries
/// sort before keyed ones.
fn leq_by_start(a: &OutActivity, key: Option<i64>) -> (r: bool)
{
    match (&a.time, key) {
        (Some(t), Some(k)) => t.start <= k,
        (None, _) => true,
        (Some(_), None) => false,
    }
}

/// Pushing appends to the multiset.
pub proof fn lemma_push_multiset<T>(s: Seq<T>, v: T)
    ensures
        s.push(v).to_multiset() == s.to_multiset().insert(v),
{
    s.to_multiset_ensures();
    s.push(v).to_multiset_ensures();
}

/// Inserting anywhere appends to the multiset.
pub proof fn lemma_insert_multiset<T>(s: Seq<T>, v: T, pos: int)
    requires
        0 <= pos <= s.len(),
    ensures
        s.insert(pos, v).to_multiset() == s.to_multiset().insert(v),
    decreases s.len() - pos,
{
    if pos == s.len() {
        assert(s.insert(pos, v) =~= s.push(v));
        lemma_push_multiset(s, v);
    } else {
        let last = s.last();
        let s2 = s.drop_last();
        assert(s.insert(pos, v) =~= s2.insert(pos, v).push(last));
        lemma_insert_multiset(s2, v, pos);
        lemma_push_multiset(s2.insert(pos, v), last);
        lemma_push_multiset(s2, last);
        assert(s2.push(last) =~= s);
        assert(s.insert(pos, v).to_multiset() =~= s.to_multiset().insert(v));
    }
}

/// Inserting one activity grows the break count by one exactly when it is a
/// break.
proof fn lemma_insert_break_count(s: Seq<OutActivity>, v: OutActivity, pos: int)
    requires
        0 <= pos <= s.len(),
    ensures
        spec_stop_break_count(s.insert(pos, v), s.len() as int + 1)
            == spec_stop_break_count(s, s.len() as int) + if v.is_break() { 1int } else { 0int },
    decreases s.len() - pos,
{
    if pos == s.len() {
        assert(s.insert(pos, v) =~= s.push(v));
        lemma_break_count_push(s, v);
    } else {
        let last = s.last();
        let s2 = s.drop_last();
        assert(s.insert(pos, v) =~= s2.insert(pos, v).push(last));
        lemma_insert_break_count(s2, v, pos);
        lemma_break_count_push(s2.insert(pos, v), last);
        lemma_break_count_push(s2, last);
        assert(s2.push(last) =~= s);
    }
}

proof fn lemma_break_count_push(s: Seq<OutActivity>, v: OutActivity)
    ensures
        spec_stop_break_count(s.push(v), s.len() as int + 1)
            == spec_stop_break_count(s, s.len() as int) + if v.is_break() { 1int } else { 0int },
{
    assert(spec_stop_break_count(s.push(v), s.len() as int + 1)
        == spec_stop_break_count(s.push(v), s.len() as int) + if v.is_break() { 1int } else { 0int });
    lemma_break_count_prefix(s.push(v), s, s.len() as int);
}

proof fn lemma_break_count_prefix(a: Seq<OutActivity>, b: Seq<OutActivity>, k: int)
    requires
        0 <= k <= a.len(),
        k <= b.len(),
        forall|m: int| 0 <= m < k ==> a[m] == b[m],
    ensures
        spec_stop_break_count(a, k) == spec_stop_break_count(b, k),
    decreases k,
{
    if k > 0 {
        lemma_break_count_prefix(a, b, k - 1);
    }
}

/// Break count of one stop.
pub open spec fn spec_stop_breaks(s: Stop) -> int {
    spec_stop_break_count(s.spec_activities(), s.spec_activities().len() as int)
}

/// Changing one stop changes the total break count by that stop's difference.
proof fn lemma_stops_count_update(a: Seq<Stop>, b: Seq<Stop>, i: int, k: int)
    requires
        a.len() == b.len(),
        0 <= i < a.len(),
        forall|j: int| 0 <= j < a.len() && j != i ==> a[j] == b[j],
        0 <= k <= a.len(),
    ensures
        spec_break_count(a, k) == spec_break_count(b, k)
            + if i < k { spec_stop_breaks(a[i]) - spec_stop_breaks(b[i]) } else { 0 },
    decreases k,
{
    if k > 0 {
        lemma_stops_count_update(a, b, i, k - 1);
    }
}

/// Inserting a stop adds its own break count to the total.
proof fn lemma_stops_count_insert(s: Seq<Stop>, v: Stop, pos: int)
    requires
        0 <= pos <= s.len(),
    ensures
        spec_break_count(s.insert(pos, v), s.len() as int + 1)
            == spec_break_count(s, s.len() as int) + spec_stop_breaks(v),
    decreases s.len() - pos,
{
    if pos == s.len() {
        assert(s.insert(pos, v) =~= s.push(v));
        lemma_stops_count_push(s, v);
    } else {
        let last = s.last();
        let s2 = s.drop_last();
        assert(s.insert(pos, v) =~= s2.insert(pos, v).push(last));
        lemma_stops_count_insert(s2, v, pos);
        lemma_stops_count_push(s2.insert(pos, v), last);
        lemma_stops_count_push(s2, last);
        assert(s2.push(last) =~= s);
    }
}

proof fn lemma_stops_count_push(s: Seq<Stop>, v: Stop)
    ensures
        spec_break_count(s.push(v), s.len() as int + 1)
            == spec_break_count(s, s.len() as int) + spec_stop_breaks(v),
{
    lemma_stops_count_prefix(s.push(v), s, s.len() as int);
}

proof fn lemma_stops_count_prefix(a: Seq<Stop>, b: Seq<Stop>, k: int)
    requires
        0 <= k <= a.len(),
        k <= b.len(),
        forall|m: int| 0 <= m < k ==> a[m] == b[m],
    ensures
        spec_break_count(a, k) == spec_break_count(b, k),
    decreases k,
{
    if k > 0 {
        lemma_stops_count_prefix(a, b, k - 1);
    }
}

fn clone_load(v: &Vec<i64>) -> (r: Vec<i64>)
    ensures
        r@ == v@,
{
    let mut out: Vec<i64> = Vec::new();
    let mut i: usize = 0;
    while i < v.len()
        invariant
            0 <= i <= v@.len(),
            out@ == v@.take(i as int),
        decreases v@.len() - i,
    {
        out.push(v[i]);
        proof {
            assert(out@ =~= v@.take(i + 1 as int));
        }
        i = i + 1;
    }
    proof {
        assert(v@.take(v@.len() as int) =~= v@);
    }
    out
}

/// The load view of a stop.
pub open spec fn spec_stop_load(s: Stop) -> Seq<i64> {
    match s {
        Stop::Point(p) => p.load@,
        Stop::Transit(t) => t.load@,
    }
}

/// The travel-leg scan decision for a break interval `w`: the first leg whose
/// travel window strictly crosses `w` yields either a moved break with its
/// synthetic window (when the break starts before the travel and the window
/// stays in range) or a new transit stop; `None` when no leg is crossed.
pub open spec fn spec_scan_legs(stops: Seq<Stop>, w: TimeWindow, dur: i64, leg: int) -> Option<(int, Option<TimeWindow>)>
    decreases stops.len() - leg,
{
    if leg < 0 || leg + 1 >= stops.len() {
        None
    } else {
        let travel = TimeWindow {
            start: stops[leg].spec_schedule().departure,
            end: stops[leg + 1].spec_schedule().arrival,
        };
        if travel.spec_intersects_exclusive(w) {
            if w.start < travel.start {
                if travel.start >= -MAX_SCHED + dur {
                    Some((leg, Some(TimeWindow { start: (travel.start - dur) as i64, end: travel.start })))
                } else {
                    spec_scan_legs(stops, w, dur, leg + 1)
                }
            } else {
                Some((leg, None))
            }
        } else {
            spec_scan_legs(stops, w, dur, leg + 1)
        }
    }
}

/// Whether inserting a break over `w` into this stop adds an activity: it
/// does exactly when no break over the computed interval is already present.
pub open spec fn spec_would_insert(before: Stop, stop_idx: int, bi: Option<BreakInsertion>, w: TimeWindow) -> bool {
    !spec_stop_has_break_at(
        before.spec_activities(),
        spec_insert_break_time(before, stop_idx, bi, w),
    )
}

/// The pinned effect of offering one break to one stop: nothing changes when
/// an identical break is present; else a break over the computed interval is
/// added, the break count rises by one, and the stop's schedule and kind are
/// kept.
pub open spec fn spec_insert_effect(before: Stop, after: Stop, stop_idx: int, bi: Option<BreakInsertion>, w: TimeWindow) -> bool {
    let t = spec_insert_break_time(before, stop_idx, bi, w);
    let ins = spec_would_insert(before, stop_idx, bi, w);
    &&& (!ins ==> after == before)
    &&& (ins ==> spec_stop_has_break_at(after.spec_activities(), t))
    &&& spec_stop_break_count(after.spec_activities(), after.spec_activities().len() as int)
        == spec_stop_break_count(before.spec_activities(), before.spec_activities().len() as int)
            + (if ins { 1int } else { 0int })
    &&& after.spec_activities().len() <= before.spec_activities().len() + 1
    &&& after.spec_schedule() == before.spec_schedule()
    &&& (after is Point <==> before is Point)
}

/// The stop scan: every stop whose schedule window strictly crosses `w`
/// receives the break (by the pinned single-stop effect); every other stop is
/// untouched.
pub open spec fn spec_stop_scan_rel(mids: Seq<Stop>, finals: Seq<Stop>, w: TimeWindow) -> bool {
    &&& finals.len() == mids.len()
    &&& forall|i: int| 0 <= i < mids.len() ==> {
        let stop_tw = TimeWindow {
            start: (#[trigger] mids[i]).spec_schedule().arrival,
            end: mids[i].spec_schedule().departure,
        };
        if stop_tw.spec_intersects_exclusive(w) {
            spec_insert_effect(mids[i], finals[i], i, None, w)
        } else {
            finals[i] == mids[i]
        }
    }
}

/// Whether the stop scan adds at least one break.
pub open spec fn spec_scan_any_insert(mids: Seq<Stop>, w: TimeWindow) -> bool {
    exists|i: int| 0 <= i < mids.len() && {
        let stop_tw = TimeWindow {
            start: (#[trigger] mids[i]).spec_schedule().arrival,
            end: mids[i].spec_schedule().departure,
        };
        stop_tw.spec_intersects_exclusive(w) && spec_would_insert(mids[i], i, None, w)
    }
}

/// One materialiser round for one reserved span, as a relation between the
/// tour before and after: a span resolving out of the schedule range or
/// missing the shift envelope changes nothing; else the leg scan decides
/// between a moved break on the leg's previous stop, a fresh transit stop
/// followed by the stop scan, or the plain stop scan; the accumulated break
/// time grows by the span's duration exactly when a break was added.
pub open spec fn spec_round_rel(
    anchor: int,
    shift_time: TimeWindow,
    rt: ReservedTimeSpan,
    before: OutTour,
    after: OutTour,
) -> bool {
    let resolved_end = rt.time.spec_to_time_window(anchor).1;
    if !(-MAX_SCHED / 2 <= resolved_end <= MAX_SCHED / 2) {
        after == before
    } else {
        let w = TimeWindow { start: resolved_end as i64, end: (resolved_end + rt.duration) as i64 };
        if !shift_time.spec_intersects(w) {
            after == before
        } else {
            let scan = if before.stops@.len() >= 2 {
                spec_scan_legs(before.stops@, w, rt.duration, 0)
            } else {
                None
            };
            &&& after.vehicle_id == before.vehicle_id
            &&& after.shift_index == before.shift_index
            &&& match scan {
                Some((leg, Some(synth))) => {
                    let bi = Some(BreakInsertion::TransitBreakMoved {
                        leg_idx: leg as usize,
                        break_tw: synth,
                    });
                    &&& after.stops@.len() == before.stops@.len()
                    &&& spec_insert_effect(before.stops@[leg], after.stops@[leg], leg, bi, w)
                    &&& (forall|i: int| 0 <= i < before.stops@.len() && i != leg
                        ==> #[trigger] after.stops@[i] == before.stops@[i])
                    &&& after.statistic.times.break_time == before.statistic.times.break_time
                        + (if spec_would_insert(before.stops@[leg], leg, bi, w) { rt.duration as int } else { 0 })
                },
                Some((leg, None)) => exists|ts: Stop| {
                    &&& #[trigger] ts.spec_schedule() == (Schedule { arrival: w.start, departure: w.end })
                    &&& ts is Transit
                    &&& ts.spec_activities().len() == 0
                    &&& spec_stop_load(ts) == spec_stop_load(before.stops@[leg])
                    &&& spec_stop_scan_rel(before.stops@.insert(leg + 1, ts), after.stops@, w)
                    &&& after.statistic.times.break_time == before.statistic.times.break_time
                        + (if spec_scan_any_insert(before.stops@.insert(leg + 1, ts), w) { rt.duration as int } else { 0 })
                },
                None => {
                    &&& spec_stop_scan_rel(before.stops@, after.stops@, w)
                    &&& after.statistic.times.break_time == before.statistic.times.break_time
                        + (if spec_scan_any_insert(before.stops@, w) { rt.duration as int } else { 0 })
                },
            }
        }
    }
}

/// Every stop of the tour leaves room for one more break per reserved span.
pub open spec fn spec_tour_roomy(tour: OutTour) -> bool {
    forall|i: int| 0 <= i < tour.stops@.len()
        ==> (#[trigger] tour.stops@[i]).spec_activities().len() + crate::model::MAX_RESERVED < MAX_ACTIVITIES
}

/// Converts the actor's reserved time spans into break activities of the
/// output tour. Each span is resolved against the route's offset anchor to
/// the interval `[resolved.end, resolved.end + duration)`; a span outside the
/// shift envelope is dropped. A break falling strictly inside a travel leg
/// becomes a transit stop, or is moved to the previous stop when it starts
/// before the travel does; otherwise every stop whose service interval
/// strictly crosses the break receives it. Breaks are only added, never
/// removed, and a break identical to one already present is not added again.
pub fn insert_reserved_times_as_breaks(route: &Route, tour: &mut OutTour, reserved_times: &Vec<ReservedTimeSpan>)
    requires
        route.wf(),
        old(tour).wf(),
        spec_tour_roomy(*old(tour)),
        crate::transport::reserved_wf(reserved_times@),
        old(tour).stops@.len() + reserved_times@.len() <= MAX_ACTIVITIES,
        -MAX_SCHED / 2 <= old(tour).statistic.cost <= MAX_SCHED / 2,
        -MAX_SCHED / 2 <= old(tour).statistic.times.driving <= MAX_SCHED / 2,
        -MAX_SCHED / 2 <= old(tour).statistic.times.break_time <= MAX_SCHED / 2,
    ensures
        final(tour).vehicle_id == old(tour).vehicle_id,
        final(tour).shift_index == old(tour).shift_index,
        final(tour).wf(),
        spec_break_count(final(tour).stops@, final(tour).stops@.len() as int)
            >= spec_break_count(old(tour).stops@, old(tour).stops@.len() as int),
        (exists|trace: Seq<OutTour>| {
            &&& #[trigger] trace.len() == reserved_times@.len() + 1
            &&& trace[0] == *old(tour)
            &&& trace[trace.len() - 1] == *final(tour)
            &&& forall|k: int| 0 <= k < reserved_times@.len() ==> spec_round_rel(
                spec_anchor(route.actor.spec_cost_span(), route.tour@),
                (TimeWindow {
                    start: route.tour@[0].schedule.departure,
                    end: route.tour@[route.tour@.len() - 1].schedule.arrival,
                }),
                reserved_times@[k],
                #[trigger] trace[k],
                trace[k + 1],
            )
        }),
{
    let total_acts = route.tour.len();
    let shift_start = route.tour[0].schedule.departure;
    let shift_end = route.tour[total_acts - 1].schedule.arrival;
    let shift_time = TimeWindow { start: shift_start, end: shift_end };
    let offset_anchor = get_offset_anchor(route);
    let per_service = route.actor.per_service_time_cost;
    let ghost anchor_g = offset_anchor as int;
    let ghost mut trace: Seq<OutTour> = seq![*old(tour)];

    let total_reserved = reserved_times.len();
    let mut r: usize = 0;
    while r < total_reserved
        invariant
            route.wf(),
            crate::transport::reserved_wf(reserved_times@),
            total_reserved == reserved_times@.len(),
            total_reserved <= crate::model::MAX_RESERVED,
            0 <= r <= total_reserved,
            0 <= per_service <= MAX_RATE,
            sched_bounded(offset_anchor as int),
            tour.vehicle_id == old(tour).vehicle_id,
            tour.shift_index == old(tour).shift_index,
            tour.stops@.len() <= old(tour).stops@.len() + r,
            old(tour).stops@.len() + total_reserved <= MAX_ACTIVITIES,
            forall|i: int| 0 <= i < tour.stops@.len() ==> (#[trigger] tour.stops@[i]).wf(),
            forall|i: int| 0 <= i < tour.stops@.len()
                ==> (#[trigger] tour.stops@[i]).spec_activities().len()
                    + crate::model::MAX_RESERVED < MAX_ACTIVITIES + r,
            -MAX_SCHED / 2 - (r as int) * ROUND_COST <= tour.statistic.cost,
            tour.statistic.cost <= MAX_SCHED / 2 + (r as int) * ROUND_COST,
            -MAX_SCHED / 2 - (r as int) * ROUND_COST <= tour.statistic.times.driving,
            tour.statistic.times.driving <= MAX_SCHED / 2 + (r as int) * ROUND_COST,
            -MAX_SCHED / 2 <= tour.statistic.times.break_time,
            tour.statistic.times.break_time <= MAX_SCHED / 2 + (r as int) * MAX_TIME,
            spec_break_count(tour.stops@, tour.stops@.len() as int)
                >= spec_break_count(old(tour).stops@, old(tour).stops@.len() as int),
            anchor_g == offset_anchor as int,
            anchor_g == spec_anchor(route.actor.spec_cost_span(), route.tour@),
            shift_time == (TimeWindow {
                start: route.tour@[0].schedule.departure,
                end: route.tour@[route.tour@.len() - 1].schedule.arrival,
            }),
            trace.len() == r + 1,
            trace[0] == *old(tour),
            trace[r as int] == *tour,
            forall|k: int| 0 <= k < r ==> spec_round_rel(
                anchor_g,
                shift_time,
                reserved_times@[k],
                #[trigger] trace[k],
                trace[k + 1],
            ),
        decreases total_reserved - r,
    {
        let ghost r0 = r as int;
        let ghost round_before = *tour;
        proof {
            assert(reserved_times@[r as int].wf());
            lemma_reserved_round_bounds(r0);
        }
        let rt = &reserved_times[r];
        let resolved = rt.to_reserved_time_window(offset_anchor);
        // Machine limit: a span resolving outside the schedule range is dropped.
        let within = -MAX_SCHED / 2 <= resolved.time.end && resolved.time.end <= MAX_SCHED / 2;
        if within {
            let reserved_tw = TimeWindow {
                start: resolved.time.end,
                end: resolved.time.end + rt.duration,
            };
            if shift_time.intersects(&reserved_tw) {
                // Scan travel legs for a strictly crossed one.
                let mut break_info: Option<BreakInsertion> = None;
                let stops_now = tour.stops.len();
                let ghost round_stops = tour.stops@;
                let ghost scan = if round_stops.len() >= 2 {
                    spec_scan_legs(round_stops, reserved_tw, rt.duration, 0)
                } else {
                    None
                };
                if stops_now >= 2 {
                    let mut leg_idx: usize = 0;
                    while leg_idx + 1 < stops_now && break_info.is_none()
                        invariant
                            stops_now == tour.stops@.len(),
                            round_stops == tour.stops@,
                            scan == spec_scan_legs(round_stops, reserved_tw, rt.duration, 0),
                            0 <= leg_idx,
                            leg_idx + 1 <= stops_now,
                            forall|i: int| 0 <= i < tour.stops@.len() ==> (#[trigger] tour.stops@[i]).wf(),
                            reserved_tw.sched_ok(),
                            reserved_tw.wf(),
                            0 <= rt.duration <= MAX_TIME,
                            match break_info {
                                Some(BreakInsertion::TransitBreakMoved { leg_idx: l, break_tw }) => {
                                    &&& l < stops_now && break_tw.wf() && break_tw.sched_ok()
                                    &&& scan == Some((l as int, Some(break_tw)))
                                },
                                Some(BreakInsertion::TransitBreakUsed { leg_idx: l, load }) => {
                                    &&& l + 1 <= stops_now
                                    &&& scan == Some((l as int, None::<TimeWindow>))
                                    &&& load@ == spec_stop_load(round_stops[l as int])
                                },
                                None => scan == spec_scan_legs(round_stops, reserved_tw, rt.duration, leg_idx as int),
                            },
                        decreases stops_now - leg_idx,
                    {
                        let prev_sched = tour.stops[leg_idx].schedule();
                        let next_sched = tour.stops[leg_idx + 1].schedule();
                        let travel_tw = TimeWindow { start: prev_sched.departure, end: next_sched.arrival };
                        if travel_tw.intersects_exclusive(&reserved_tw) {
                            if reserved_tw.start < travel_tw.start {
                                // Machine limit: the synthetic window must stay in range.
                                if travel_tw.start >= -MAX_SCHED + rt.duration {
                                    let break_tw = TimeWindow {
                                        start: travel_tw.start - rt.duration,
                                        end: travel_tw.start,
                                    };
                                    break_info = Some(BreakInsertion::TransitBreakMoved { leg_idx, break_tw });
                                }
                            } else {
                                let load = clone_load(tour.stops[leg_idx].load());
                                break_info = Some(BreakInsertion::TransitBreakUsed { leg_idx, load });
                            }
                        }
                        leg_idx = leg_idx + 1;
                    }
                }
                proof {
                    match break_info {
                        Some(BreakInsertion::TransitBreakMoved { leg_idx: l, break_tw }) => {
                            assert(scan == Some((l as int, Some(break_tw))));
                        },
                        Some(BreakInsertion::TransitBreakUsed { leg_idx: l, .. }) => {
                            assert(scan == Some((l as int, None::<TimeWindow>)));
                        },
                        None => {
                            assert(scan is None);
                        },
                    }
                }

                // A break used while driving gets its own transit stop.
                let ghost mut transit_stop: Option<Stop> = None;
                match break_info {
                    Some(BreakInsertion::TransitBreakUsed { leg_idx, ref load }) => {
                        let new_stop = Stop::Transit(TransitStop {
                            time: Schedule { arrival: reserved_tw.start, departure: reserved_tw.end },
                            load: clone_load(load),
                            activities: Vec::new(),
                        });
                        proof {
                            lemma_stops_count_insert(tour.stops@, new_stop, leg_idx as int + 1);
                            transit_stop = Some(new_stop);
                        }
                        tour.stops.insert(leg_idx + 1, new_stop);
                    },
                    _ => {},
                }
                let ghost mids = tour.stops@;

                let break_time = rt.duration;
                proof {
                    assert(0 <= break_time * per_service <= MAX_TIME * MAX_RATE) by (nonlinear_arith)
                        requires 0 <= break_time <= MAX_TIME, 0 <= per_service <= MAX_RATE;
                }
                let break_cost = break_time * per_service;
                let mut any_inserted = false;

                match break_info {
                    Some(BreakInsertion::TransitBreakMoved { leg_idx, break_tw }) => {
                        if leg_idx < tour.stops.len() {
                            let ghost stops_before = tour.stops@;
                            let moved = Some(BreakInsertion::TransitBreakMoved { leg_idx, break_tw });
                            proof {
                                lemma_reserved_round_bounds(r0);
                            }
                            let ins = insert_break(
                                &mut tour.stops[leg_idx],
                                leg_idx,
                                break_time,
                                break_cost,
                                &moved,
                                &reserved_tw,
                                &mut tour.statistic,
                            );
                            proof {
                                lemma_stops_count_update(
                                    tour.stops@,
                                    stops_before,
                                    leg_idx as int,
                                    tour.stops@.len() as int,
                                );
                                assert(spec_insert_effect(
                                    round_stops[leg_idx as int],
                                    tour.stops@[leg_idx as int],
                                    leg_idx as int,
                                    moved,
                                    reserved_tw,
                                ));
                                assert(ins == spec_would_insert(
                                    round_stops[leg_idx as int],
                                    leg_idx as int,
                                    moved,
                                    reserved_tw,
                                ));
                            }
                            if ins {
                                any_inserted = true;
                            }
                        }
                    },
                    _ => {
                        let stops_total = tour.stops.len();
                        let mut stop_idx: usize = 0;
                        while stop_idx < stops_total
                            invariant
                                stops_total == tour.stops@.len(),
                                0 <= stop_idx <= stops_total,
                                mids.len() == stops_total,
                                forall|i: int| (stop_idx as int) <= i < mids.len()
                                    ==> #[trigger] tour.stops@[i] == mids[i],
                                forall|i: int| 0 <= i < (stop_idx as int) ==> {
                                    let stop_tw0 = TimeWindow {
                                        start: (#[trigger] mids[i]).spec_schedule().arrival,
                                        end: mids[i].spec_schedule().departure,
                                    };
                                    if stop_tw0.spec_intersects_exclusive(reserved_tw) {
                                        spec_insert_effect(mids[i], tour.stops@[i], i, None, reserved_tw)
                                    } else {
                                        tour.stops@[i] == mids[i]
                                    }
                                },
                                any_inserted ==> spec_scan_any_insert(mids, reserved_tw),
                                !any_inserted ==> forall|i: int| 0 <= i < (stop_idx as int) ==> {
                                    let stop_tw0 = TimeWindow {
                                        start: (#[trigger] mids[i]).spec_schedule().arrival,
                                        end: mids[i].spec_schedule().departure,
                                    };
                                    !(stop_tw0.spec_intersects_exclusive(reserved_tw)
                                        && spec_would_insert(mids[i], i, None, reserved_tw))
                                },
                                reserved_tw.sched_ok(),
                                reserved_tw.wf(),
                                0 <= break_time <= MAX_TIME,
                                0 <= break_cost <= MAX_TIME * MAX_RATE,
                                tour.vehicle_id == old(tour).vehicle_id,
                                tour.shift_index == old(tour).shift_index,
                                forall|i: int| 0 <= i < tour.stops@.len()
                                    ==> (#[trigger] tour.stops@[i]).wf(),
                                forall|i: int| (stop_idx as int) <= i < tour.stops@.len()
                                    ==> (#[trigger] tour.stops@[i]).spec_activities().len()
                                        + crate::model::MAX_RESERVED < MAX_ACTIVITIES + r0,
                                forall|i: int| 0 <= i < (stop_idx as int)
                                    ==> (#[trigger] tour.stops@[i]).spec_activities().len()
                                        + crate::model::MAX_RESERVED < MAX_ACTIVITIES + r0 + 1,
                                0 <= r0 < total_reserved <= crate::model::MAX_RESERVED,
                                stops_total <= MAX_ACTIVITIES,
                                -MAX_SCHED / 2 - r0 * ROUND_COST
                                    - (stop_idx as int) * (2 * MAX_TIME * MAX_RATE)
                                    <= tour.statistic.cost,
                                tour.statistic.cost <= MAX_SCHED / 2 + r0 * ROUND_COST
                                    + (stop_idx as int) * (2 * MAX_TIME * MAX_RATE),
                                -MAX_SCHED / 2 - r0 * ROUND_COST
                                    - (stop_idx as int) * (2 * MAX_TIME * MAX_RATE)
                                    <= tour.statistic.times.driving,
                                tour.statistic.times.driving <= MAX_SCHED / 2 + r0 * ROUND_COST
                                    + (stop_idx as int) * (2 * MAX_TIME * MAX_RATE),
                                -MAX_SCHED / 2 <= tour.statistic.times.break_time,
                                tour.statistic.times.break_time <= MAX_SCHED / 2 + r0 * MAX_TIME,
                                tour.statistic.times.break_time
                                    == round_before.statistic.times.break_time,
                                spec_break_count(tour.stops@, tour.stops@.len() as int)
                                    >= spec_break_count(old(tour).stops@, old(tour).stops@.len() as int),
                            decreases stops_total - stop_idx,
                        {
                            let sched = tour.stops[stop_idx].schedule();
                            let stop_tw = TimeWindow { start: sched.arrival, end: sched.departure };
                            if stop_tw.intersects_exclusive(&reserved_tw) {
                                let ghost stops_before = tour.stops@;
                                proof {
                                    lemma_reserved_round_bounds(r0);
                                    lemma_stop_round_bounds(stop_idx as int);
                                }
                                let ins = insert_break(
                                    &mut tour.stops[stop_idx],
                                    stop_idx,
                                    break_time,
                                    break_cost,
                                    &None,
                                    &reserved_tw,
                                    &mut tour.statistic,
                                );
                                proof {
                                    lemma_stops_count_update(
                                        tour.stops@,
                                        stops_before,
                                        stop_idx as int,
                                        tour.stops@.len() as int,
                                    );
                                    assert(spec_insert_effect(
                                        mids[stop_idx as int],
                                        tour.stops@[stop_idx as int],
                                        stop_idx as int,
                                        None,
                                        reserved_tw,
                                    ));
                                    assert(ins == spec_would_insert(
                                        mids[stop_idx as int],
                                        stop_idx as int,
                                        None,
                                        reserved_tw,
                                    ));
                                    if ins {
                                        assert(spec_scan_any_insert(mids, reserved_tw));
                                    }
                                }
                                if ins {
                                    any_inserted = true;
                                }
                            }
                            proof {
                                lemma_stop_round_bounds(stop_idx as int);
                            }
                            stop_idx = stop_idx + 1;
                        }
                        proof {
                            lemma_stop_round_bounds(stops_total as int);
                            lemma_reserved_round_bounds(r0);
                            assert(spec_stop_scan_rel(mids, tour.stops@, reserved_tw));
                            assert(any_inserted == spec_scan_any_insert(mids, reserved_tw));
                        }
                    },
                }

                let ghost bt_before_write = tour.statistic.times.break_time;
                proof {
                    assert(bt_before_write == round_before.statistic.times.break_time);
                }
                if any_inserted {
                    proof {
                        lemma_reserved_round_bounds(r0);
                    }
                    tour.statistic.times.break_time = tour.statistic.times.break_time + break_time;
                }
                proof {
                    let rtv = reserved_times@[r as int];
                    assert(rtv == *rt);
                    let resolved_end = rtv.time.spec_to_time_window(anchor_g).1;
                    assert(resolved.time.end as int == resolved_end);
                    assert(reserved_tw.start == resolved_end as i64);
                    assert(reserved_tw.end as int == resolved_end + rtv.duration);
                    assert(reserved_tw == (TimeWindow {
                        start: resolved_end as i64,
                        end: (resolved_end + rtv.duration) as i64,
                    }));
                    assert(round_stops == round_before.stops@);
                    assert(tour.statistic.times.break_time == round_before.statistic.times.break_time
                        + (if any_inserted { break_time as int } else { 0 }));
                    match break_info {
                        Some(BreakInsertion::TransitBreakMoved { leg_idx, break_tw }) => {
                            assert(scan == Some((leg_idx as int, Some(break_tw))));
                            let bi = Some(BreakInsertion::TransitBreakMoved { leg_idx, break_tw });
                            assert(leg_idx < round_before.stops@.len());
                            assert(tour.stops@.len() == round_before.stops@.len());
                            assert(spec_insert_effect(
                                round_before.stops@[leg_idx as int],
                                tour.stops@[leg_idx as int],
                                leg_idx as int,
                                bi,
                                reserved_tw,
                            ));
                            assert(forall|i: int| 0 <= i < round_before.stops@.len() && i != leg_idx
                                ==> #[trigger] tour.stops@[i] == round_before.stops@[i]);
                            assert(any_inserted == spec_would_insert(
                                round_before.stops@[leg_idx as int],
                                leg_idx as int,
                                bi,
                                reserved_tw,
                            ));
                        },
                        Some(BreakInsertion::TransitBreakUsed { leg_idx, .. }) => {
                            let ts = transit_stop->0;
                            assert(ts.spec_schedule() == (Schedule {
                                arrival: reserved_tw.start,
                                departure: reserved_tw.end,
                            }));
                            assert(ts is Transit);
                            assert(ts.spec_activities().len() == 0);
                            assert(spec_stop_load(ts) == spec_stop_load(round_before.stops@[leg_idx as int]));
                            assert(mids == round_before.stops@.insert(leg_idx as int + 1, ts));
                            assert(spec_stop_scan_rel(mids, tour.stops@, reserved_tw));
                            assert(any_inserted == spec_scan_any_insert(mids, reserved_tw));
                        },
                        None => {
                            assert(mids == round_before.stops@);
                            assert(spec_stop_scan_rel(mids, tour.stops@, reserved_tw));
                            assert(any_inserted == spec_scan_any_insert(mids, reserved_tw));
                        },
                    }
                    assert(spec_round_rel(anchor_g, shift_time, rtv, round_before, *tour));
                }
            }
        }
        proof {
            assert(spec_round_rel(anchor_g, shift_time, reserved_times@[r as int], round_before, *tour));
            trace = trace.push(*tour);
        }
        r = r + 1;
    }
    proof {
        lemma_reserved_round_bounds(total_reserved as int);
    }
}

/// Arithmetic facts tying a round index to the statistic margins.
proof fn lemma_reserved_round_bounds(r: int)
    requires
        0 <= r <= crate::model::MAX_RESERVED,
    ensures
        (r + 1) * ROUND_COST == r * ROUND_COST + ROUND_COST,
        0 <= r * ROUND_COST <= (crate::model::MAX_RESERVED as int) * ROUND_COST,
        (r + 1) * MAX_TIME == r * MAX_TIME + MAX_TIME,
        0 <= r * MAX_TIME <= (crate::model::MAX_RESERVED as int) * MAX_TIME,
{
    assert((r + 1) * ROUND_COST == r * ROUND_COST + ROUND_COST) by (nonlinear_arith);
    assert(0 <= r * ROUND_COST <= (crate::model::MAX_RESERVED as int) * ROUND_COST)
        by (nonlinear_arith)
        requires 0 <= r <= crate::model::MAX_RESERVED;
    assert((r + 1) * MAX_TIME == r * MAX_TIME + MAX_TIME) by (nonlinear_arith);
    assert(0 <= r * MAX_TIME <= (crate::model::MAX_RESERVED as int) * MAX_TIME) by (nonlinear_arith)
        requires 0 <= r <= crate::model::MAX_RESERVED;
}

/// Arithmetic facts tying a stop index to the per-round statistic margins.
proof fn lemma_stop_round_bounds(si: int)
    requires
        0 <= si <= MAX_ACTIVITIES,
    ensures
        (si + 1) * (2 * MAX_TIME * MAX_RATE) == si * (2 * MAX_TIME * MAX_RATE) + 2 * MAX_TIME * MAX_RATE,
        0 <= si * (2 * MAX_TIME * MAX_RATE) <= ROUND_COST,
{
    assert((si + 1) * (2 * MAX_TIME * MAX_RATE) == si * (2 * MAX_TIME * MAX_RATE) + 2 * MAX_TIME * MAX_RATE)
        by (nonlinear_arith);
    assert(0 <= si * (2 * MAX_TIME * MAX_RATE) <= (MAX_ACTIVITIES as int) * (2 * MAX_TIME * MAX_RATE))
        by (nonlinear_arith)
        requires 0 <= si <= MAX_ACTIVITIES;
}

fn clone_activity(a: &OutActivity) -> (r: OutActivity)
    ensures
        r == *a,
{
    OutActivity {
        job_id: a.job_id.clone(),
        activity_type: a.activity_type,
        location: a.location,
        time: a.time,
    }
}

} // verus!
