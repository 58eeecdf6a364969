//! The break checker: validates that the breaks of an emitted tour match the
//! vehicle shift's break definitions, in time and in number.

use vstd::prelude::*;
use crate::times::{TimeWindow, MAX_TIME, MAX_SCHED, sched_bounded};
use crate::model::RouteCostSpan;
use crate::breaks::{OutTour, OutActivity, OutActivityType, Stop};
use crate::features::GenericError;

verus! {

/// When an optional break may be taken: an absolute window, or offsets from
/// the tour's departure.
#[derive(Clone, Copy, PartialEq, Eq, Structural, Debug)]
pub enum VehicleOptionalBreakTime {
    TimeWindow(TimeWindow),
    TimeOffset(TimeWindow),
}

/// When a required break must be taken: offsets from the tour's anchor, or
/// exact times.
#[derive(Clone, Copy, PartialEq, Eq, Structural, Debug)]
pub enum VehicleRequiredBreakTime {
    OffsetTime { earliest: i64, latest: i64 },
    ExactTime { earliest: i64, latest: i64 },
}

/// When an unassigned optional break counts as satisfied.
#[derive(Clone, Copy, PartialEq, Eq, Structural, Debug)]
pub enum VehicleOptionalBreakPolicy {
    SkipIfNoIntersection,
    SkipIfArrivalBeforeEnd,
}

/// A break definition of a vehicle shift.
#[derive(Clone, Copy, PartialEq, Eq, Structural, Debug)]
pub enum VehicleBreak {
    Optional { time: VehicleOptionalBreakTime, policy: Option<VehicleOptionalBreakPolicy> },
    Required { time: VehicleRequiredBreakTime, duration: i64 },
}

impl VehicleBreak {
    pub open spec fn wf(self) -> bool {
        match self {
            VehicleBreak::Optional { time, .. } => match time {
                VehicleOptionalBreakTime::TimeWindow(tw) => tw.bounded(),
                VehicleOptionalBreakTime::TimeOffset(o) => o.bounded(),
            },
            VehicleBreak::Required { time, duration } => 0 <= duration <= MAX_TIME && match time {
                VehicleRequiredBreakTime::OffsetTime { earliest, latest } =>
                    -MAX_TIME <= earliest <= MAX_TIME && -MAX_TIME <= latest <= MAX_TIME,
                VehicleRequiredBreakTime::ExactTime { earliest, latest } =>
                    -MAX_TIME <= earliest <= MAX_TIME && -MAX_TIME <= latest <= MAX_TIME,
            },
        }
    }
}

/// The break definitions and cost span of one vehicle shift.
#[derive(Clone, PartialEq, Eq, Debug)]
pub struct VehicleShiftInfo {
    pub vehicle_id: String,
    pub shift_index: usize,
    pub breaks: Vec<VehicleBreak>,
    pub cost_span: Option<RouteCostSpan>,
}

/// A reported break violation of one tour.
#[derive(Clone, PartialEq, Eq, Debug)]
pub struct BreakViolation {
    pub vehicle_id: String,
    pub shift_index: usize,
}

/// The emitted solution the checker reads.
#[derive(Clone, PartialEq, Eq, Debug)]
pub struct CheckerSolution {
    pub tours: Vec<OutTour>,
    pub violations: Vec<BreakViolation>,
}

/// Everything the break checker needs: the solution and the shift break
/// definitions, one entry per tour, in tour order.
#[derive(Clone, PartialEq, Eq, Debug)]
pub struct CheckerContext {
    pub solution: CheckerSolution,
    pub shifts: Vec<VehicleShiftInfo>,
}

impl CheckerContext {
    pub open spec fn wf(self) -> bool {
        &&& self.shifts@.len() == self.solution.tours@.len()
        &&& forall|i: int| 0 <= i < self.solution.tours@.len()
            ==> (#[trigger] self.solution.tours@[i]).wf()
        &&& forall|i: int| 0 <= i < self.shifts@.len() ==> {
            let sh = #[trigger] self.shifts@[i];
            forall|k: int| 0 <= k < sh.breaks@.len() ==> (#[trigger] sh.breaks@[k]).wf()
        }
    }
}

/// The arrival of the first stop holding a job activity (one that is neither
/// a departure nor an arrival marker).
pub open spec fn spec_first_job_arrival_from(tour: OutTour, i: int) -> Option<int>
    decreases tour.stops@.len() - i,
{
    if i < 0 || i >= tour.stops@.len() {
        None
    } else if spec_stop_has_job_activity(tour.stops@[i]) {
        Some(tour.stops@[i].spec_schedule().arrival as int)
    } else {
        spec_first_job_arrival_from(tour, i + 1)
    }
}

/// The activity is a served one, not a departure or arrival marker.
pub open spec fn spec_is_job_activity(a: OutActivity) -> bool {
    a.activity_type != OutActivityType::Departure && a.activity_type != OutActivityType::Arrival
}

pub open spec fn spec_stop_has_job_activity(stop: Stop) -> bool {
    exists|k: int| 0 <= k < stop.spec_activities().len()
        && spec_is_job_activity(#[trigger] stop.spec_activities()[k])
}

/// Gets the arrival time of the first job activity in the tour.
pub fn get_first_job_arrival(tour: &OutTour) -> (r: Option<i64>)
    ensures
        r == match spec_first_job_arrival_from(*tour, 0) {
            Some(v) => Some(v as i64),
            None => None::<i64>,
        },
{
    let mut i: usize = 0;
    while i < tour.stops.len()
        invariant
            0 <= i <= tour.stops@.len(),
            spec_first_job_arrival_from(*tour, 0) == spec_first_job_arrival_from(*tour, i as int),
        decreases tour.stops@.len() - i,
    {
        let acts = tour.stops[i].activities();
        let mut k: usize = 0;
        let mut found = false;
        while k < acts.len() && !found
            invariant
                0 <= k <= acts@.len(),
                acts@ == tour.stops@[i as int].spec_activities(),
                found ==> spec_stop_has_job_activity(tour.stops@[i as int]),
                !found ==> forall|m: int| 0 <= m < k
                    ==> !spec_is_job_activity(#[trigger] acts@[m]),
            decreases acts@.len() - k,
        {
            let is_marker = matches!(
                acts[k].activity_type,
                OutActivityType::Departure | OutActivityType::Arrival
            );
            if !is_marker {
                found = true;
            }
            k = k + 1;
        }
        if found {
            return Some(tour.stops[i].schedule().arrival);
        }
        proof {
            assert(!spec_stop_has_job_activity(tour.stops@[i as int]));
        }
        i = i + 1;
    }
    None
}

/// The resolved window of a break definition for this tour: optional breaks
/// anchor their offsets on the departure; required offset breaks anchor on
/// the cost span's anchor (the first job's arrival for first-job spans) and
/// stretch by the break duration past the latest start; exact required
/// breaks use their times directly.
pub open spec fn spec_break_time_window(tour: OutTour, vb: VehicleBreak, cost_span: Option<RouteCostSpan>) -> Option<(int, int)> {
    if tour.stops@.len() == 0 {
        None
    } else {
        let departure = tour.stops@[0].spec_schedule().departure as int;
        let offset_anchor = match cost_span {
            Some(RouteCostSpan::FirstJobToDepot) | Some(RouteCostSpan::FirstJobToLastJob) => {
                match spec_first_job_arrival_from(tour, 0) {
                    Some(a) => a,
                    None => departure,
                }
            },
            _ => departure,
        };
        match vb {
            VehicleBreak::Optional { time: VehicleOptionalBreakTime::TimeWindow(tw), .. } =>
                Some((tw.start as int, tw.end as int)),
            VehicleBreak::Optional { time: VehicleOptionalBreakTime::TimeOffset(o), .. } =>
                Some((departure + o.start, departure + o.end)),
            VehicleBreak::Required { time, duration } => {
                let se = match time {
                    VehicleRequiredBreakTime::OffsetTime { earliest, latest } =>
                        (offset_anchor + earliest, offset_anchor + latest),
                    VehicleRequiredBreakTime::ExactTime { earliest, latest } =>
                        (earliest as int, latest as int),
                };
                Some((se.0, se.1 + duration))
            },
        }
    }
}

/// Gets a break's resolved time window for this tour; an error when the tour
/// has no stops.
pub fn get_break_time_window(
    tour: &OutTour,
    vehicle_break: &VehicleBreak,
    cost_span: Option<RouteCostSpan>,
) -> (r: Result<TimeWindow, GenericError>)
    requires
        tour.wf(),
        vehicle_break.wf(),
    ensures
        match r {
            Ok(tw) => spec_break_time_window(*tour, *vehicle_break, cost_span)
                == Some((tw.start as int, tw.end as int)),
            Err(_) => tour.stops@.len() == 0,
        },
{
    if tour.stops.len() == 0 {
        return Err(GenericError::new("cannot get departure time for tour"));
    }
    let departure = tour.stops[0].schedule().departure;
    let offset_anchor = match cost_span {
        Some(RouteCostSpan::FirstJobToDepot) | Some(RouteCostSpan::FirstJobToLastJob) => {
            match get_first_job_arrival(tour) {
                Some(a) => a,
                None => departure,
            }
        },
        _ => departure,
    };
    proof {
        lemma_first_job_arrival_bounded(*tour, 0);
    }
    match vehicle_break {
        VehicleBreak::Optional { time: VehicleOptionalBreakTime::TimeWindow(tw), .. } => Ok(*tw),
        VehicleBreak::Optional { time: VehicleOptionalBreakTime::TimeOffset(o), .. } => {
            Ok(TimeWindow { start: departure + o.start, end: departure + o.end })
        },
        VehicleBreak::Required { time, duration } => {
            let (start, end) = match time {
                VehicleRequiredBreakTime::OffsetTime { earliest, latest } => {
                    (offset_anchor + *earliest, offset_anchor + *latest)
                },
                VehicleRequiredBreakTime::ExactTime { earliest, latest } => (*earliest, *latest),
            };
            Ok(TimeWindow { start, end: end + duration })
        },
    }
}

/// The first-job arrival, when present, is one of the stop arrivals, hence a
/// bounded schedule value.
proof fn lemma_first_job_arrival_bounded(tour: OutTour, i: int)
    requires
        tour.wf(),
        0 <= i,
    ensures
        match spec_first_job_arrival_from(tour, i) {
            Some(v) => -MAX_SCHED <= v <= MAX_SCHED,
            None => true,
        },
    decreases tour.stops@.len() - i,
{
    if 0 <= i < tour.stops@.len() {
        assert(tour.stops@[i].wf());
        lemma_first_job_arrival_bounded(tour, i + 1);
    }
}

/// Number of violations reported for this tour's vehicle and shift.
pub open spec fn spec_break_violation_count(solution: CheckerSolution, tour: OutTour, k: int) -> int
    decreases k,
{
    if k <= 0 {
        0
    } else {
        spec_break_violation_count(solution, tour, k - 1)
            + if spec_violation_matches(solution.violations@[k - 1], tour) { 1int } else { 0int }
    }
}

pub open spec fn spec_violation_matches(v: BreakViolation, tour: OutTour) -> bool {
    v.vehicle_id@ == tour.vehicle_id@ && v.shift_index == tour.shift_index
}

/// Counts the break violations reported for this tour.
pub fn get_break_violation_count(solution: &CheckerSolution, tour: &OutTour) -> (r: usize)
    ensures
        r == spec_break_violation_count(*solution, *tour, solution.violations@.len() as int),
        r <= solution.violations@.len(),
{
    let mut count: usize = 0;
    let mut k: usize = 0;
    while k < solution.violations.len()
        invariant
            0 <= k <= solution.violations@.len(),
            count == spec_break_violation_count(*solution, *tour, k as int),
            count <= k,
        decreases solution.violations@.len() - k,
    {
        let v = &solution.violations[k];
        if v.vehicle_id.eq(&tour.vehicle_id) && v.shift_index == tour.shift_index {
            count = count + 1;
        }
        k = k + 1;
    }
    count
}

/// The visit interval of an activity at a stop: its own interval, else the
/// stop's schedule.
pub open spec fn spec_visit_time(stop: Stop, act: OutActivity) -> (int, int) {
    match act.time {
        Some(tw) => (tw.start as int, tw.end as int),
        None => (stop.spec_schedule().arrival as int, stop.spec_schedule().departure as int),
    }
}

/// The break activity at `act_idx` of the stop matches some break definition
/// of the shift: the definition's resolved window intersects the visit time.
pub open spec fn spec_break_activity_matched(
    tour: OutTour,
    stop: Stop,
    act: OutActivity,
    breaks: Seq<VehicleBreak>,
    cost_span: Option<RouteCostSpan>,
) -> bool {
    exists|b: int| 0 <= b < breaks.len() && match spec_break_time_window(tour, #[trigger] breaks[b], cost_span) {
        Some(w) => {
            let v = spec_visit_time(stop, act);
            v.0 <= w.1 && w.0 <= v.1
        },
        None => false,
    }
}

/// Finds the first break definition of the shift whose resolved window
/// intersects the visit time of the given activity; the leg information a
/// matched break carries.
pub fn as_leg_info_with_break(
    tour: &OutTour,
    stop: &Stop,
    act: &OutActivity,
    breaks: &Vec<VehicleBreak>,
    cost_span: Option<RouteCostSpan>,
) -> (r: Option<usize>)
    requires
        tour.wf(),
        forall|k: int| 0 <= k < breaks@.len() ==> (#[trigger] breaks@[k]).wf(),
        stop.wf(),
        act.wf(),
    ensures
        r is Some ==> spec_break_activity_matched(*tour, *stop, *act, breaks@, cost_span),
        r is None ==> !spec_break_activity_matched(*tour, *stop, *act, breaks@, cost_span),
{
    let sched = stop.schedule();
    let visit = match &act.time {
        Some(tw) => *tw,
        None => TimeWindow { start: sched.arrival, end: sched.departure },
    };
    let mut b: usize = 0;
    while b < breaks.len()
        invariant
            tour.wf(),
            forall|k: int| 0 <= k < breaks@.len() ==> (#[trigger] breaks@[k]).wf(),
            0 <= b <= breaks@.len(),
            visit.start as int == spec_visit_time(*stop, *act).0,
            visit.end as int == spec_visit_time(*stop, *act).1,
            forall|m: int| 0 <= m < b ==> match spec_break_time_window(*tour, #[trigger] breaks@[m], cost_span) {
                Some(w) => !(spec_visit_time(*stop, *act).0 <= w.1 && w.0 <= spec_visit_time(*stop, *act).1),
                None => true,
            },
        decreases breaks@.len() - b,
    {
        match get_break_time_window(tour, &breaks[b], cost_span) {
            Ok(w) => {
                if visit.start <= w.end && w.start <= visit.end {
                    return Some(b);
                }
            },
            Err(_) => {},
        }
        b = b + 1;
    }
    None
}

/// Whether the break should have been assigned on this tour: optional breaks
/// by their skip policy, required breaks when their window crosses the tour
/// and ends before the tour does.
pub open spec fn spec_should_assign(tour: OutTour, vb: VehicleBreak, cost_span: Option<RouteCostSpan>) -> bool {
    if tour.stops@.len() == 0 {
        false
    } else {
        let departure = tour.stops@[0].spec_schedule().departure as int;
        let arrival = tour.stops@[tour.stops@.len() - 1].spec_schedule().arrival as int;
        match spec_break_time_window(tour, vb, cost_span) {
            Some(w) => match vb {
                VehicleBreak::Optional { policy, .. } => {
                    let p = match policy {
                        Some(p0) => p0,
                        None => VehicleOptionalBreakPolicy::SkipIfNoIntersection,
                    };
                    match p {
                        VehicleOptionalBreakPolicy::SkipIfNoIntersection => w.0 < arrival,
                        VehicleOptionalBreakPolicy::SkipIfArrivalBeforeEnd => arrival > w.1,
                    }
                },
                VehicleBreak::Required { .. } => {
                    w.0 <= arrival && departure <= w.1 && w.1 < arrival
                },
            },
            None => false,
        }
    }
}

/// Number of breaks the first `k` definitions expect on this tour.
pub open spec fn spec_expected_breaks(tour: OutTour, breaks: Seq<VehicleBreak>, cost_span: Option<RouteCostSpan>, k: int) -> int
    decreases k,
{
    if k <= 0 {
        0
    } else {
        spec_expected_breaks(tour, breaks, cost_span, k - 1)
            + if spec_should_assign(tour, breaks[k - 1], cost_span) { 1int } else { 0int }
    }
}

/// Every break activity of the tour matches a break definition in time, and
/// carries no location or the stop's own.
pub open spec fn spec_all_breaks_matched(tour: OutTour, breaks: Seq<VehicleBreak>, cost_span: Option<RouteCostSpan>) -> bool {
    forall|i: int, k: int| 0 <= i < tour.stops@.len()
        && 0 <= k < (#[trigger] tour.stops@[i]).spec_activities().len()
        && (#[trigger] tour.stops@[i].spec_activities()[k]).is_break()
        ==> {
            let stop = tour.stops@[i];
            let act = stop.spec_activities()[k];
            &&& spec_break_activity_matched(tour, stop, act, breaks, cost_span)
            &&& (act.location is Some ==> match stop {
                Stop::Point(p) => act.location == Some(p.location),
                Stop::Transit(_) => false,
            })
        }
}

/// All break conditions of one tour hold: every break activity matches a
/// definition, and the expected break count equals the assigned breaks plus
/// the reported violations.
pub open spec fn spec_tour_breaks_ok(solution: CheckerSolution, tour: OutTour, shift: VehicleShiftInfo) -> bool {
    &&& spec_all_breaks_matched(tour, shift.breaks@, shift.cost_span)
    &&& spec_expected_breaks(tour, shift.breaks@, shift.cost_span, shift.breaks@.len() as int)
        == crate::breaks::spec_break_count(tour.stops@, tour.stops@.len() as int)
            + spec_break_violation_count(solution, tour, solution.violations@.len() as int)
}

/// Counts the break activities of the tour.
fn count_breaks(tour: &OutTour) -> (r: usize)
    requires
        tour.wf(),
    ensures
        r == crate::breaks::spec_break_count(tour.stops@, tour.stops@.len() as int),
        r <= tour.stops@.len() * crate::model::MAX_ACTIVITIES,
{
    let mut total: usize = 0;
    let mut i: usize = 0;
    while i < tour.stops.len()
        invariant
            tour.wf(),
            0 <= i <= tour.stops@.len(),
            total == crate::breaks::spec_break_count(tour.stops@, i as int),
            0 <= total <= i * crate::model::MAX_ACTIVITIES,
        decreases tour.stops@.len() - i,
    {
        let acts = tour.stops[i].activities();
        let mut c: usize = 0;
        let mut k: usize = 0;
        while k < acts.len()
            invariant
                0 <= k <= acts@.len(),
                acts@ == tour.stops@[i as int].spec_activities(),
                c == crate::breaks::spec_stop_break_count(acts@, k as int),
                0 <= c <= k,
            decreases acts@.len() - k,
        {
            if matches!(acts[k].activity_type, OutActivityType::Break) {
                c = c + 1;
            }
            k = k + 1;
        }
        proof {
            assert(tour.stops@[i as int].wf());
            assert((i as int) * crate::model::MAX_ACTIVITIES + crate::model::MAX_ACTIVITIES
                == (i as int + 1) * crate::model::MAX_ACTIVITIES) by (nonlinear_arith);
            assert(0 <= (i as int) * crate::model::MAX_ACTIVITIES
                <= (tour.stops@.len() as int) * crate::model::MAX_ACTIVITIES) by (nonlinear_arith)
                requires 0 <= i as int <= tour.stops@.len() <= crate::model::MAX_ACTIVITIES;
        }
        total = total + c;
        i = i + 1;
    }
    total
}

/// Decides whether the break should have been assigned on this tour.
fn should_assign_break(tour: &OutTour, vb: &VehicleBreak, cost_span: Option<RouteCostSpan>) -> (r: bool)
    requires
        tour.wf(),
        vb.wf(),
    ensures
        r == spec_should_assign(*tour, *vb, cost_span),
{
    if tour.stops.len() == 0 {
        return false;
    }
    let arrival = tour.stops[tour.stops.len() - 1].schedule().arrival;
    let departure = tour.stops[0].schedule().departure;
    match get_break_time_window(tour, vb, cost_span) {
        Ok(w) => {
            match vb {
                VehicleBreak::Optional { policy, .. } => {
                    let p = match policy {
                        Some(p0) => *p0,
                        None => VehicleOptionalBreakPolicy::SkipIfNoIntersection,
                    };
                    match p {
                        VehicleOptionalBreakPolicy::SkipIfNoIntersection => w.start < arrival,
                        VehicleOptionalBreakPolicy::SkipIfArrivalBeforeEnd => arrival > w.end,
                    }
                },
                VehicleBreak::Required { .. } => {
                    w.start <= arrival && departure <= w.end && w.end < arrival
                },
            }
        },
        Err(_) => false,
    }
}

/// Checks the break assignment of every tour: each break activity must match
/// a break definition of its shift in time (and location, for located
/// breaks), and the number of expected breaks must equal the assigned breaks
/// plus the reported violations. The checker accepts exactly when those
/// conditions hold of every tour.
pub fn check_break_assignment(context: &CheckerContext) -> (r: Result<(), GenericError>)
    requires
        context.wf(),
    ensures
        r is Ok <==> forall|t: int| 0 <= t < context.solution.tours@.len()
            ==> spec_tour_breaks_ok(
                context.solution,
                #[trigger] context.solution.tours@[t],
                context.shifts@[t],
            ),
{
    let total_tours = context.solution.tours.len();
    let mut t: usize = 0;
    while t < total_tours
        invariant
            context.wf(),
            total_tours == context.solution.tours@.len(),
            0 <= t <= total_tours,
            forall|m: int| 0 <= m < t ==> spec_tour_breaks_ok(
                context.solution,
                #[trigger] context.solution.tours@[m],
                context.shifts@[m],
            ),
        decreases total_tours - t,
    {
        let tour = &context.solution.tours[t];
        let shift = &context.shifts[t];
        let cost_span = shift.cost_span;

        // Every break activity must match a break definition.
        let stops_total = tour.stops.len();
        let mut i: usize = 0;
        while i < stops_total
            invariant
                context.wf(),
                0 <= t < total_tours == context.solution.tours@.len(),
                tour == context.solution.tours@[t as int],
                shift == context.shifts@[t as int],
                cost_span == shift.cost_span,
                stops_total == tour.stops@.len(),
                0 <= i <= stops_total,
                forall|i0: int, k0: int| 0 <= i0 < i
                    && 0 <= k0 < (#[trigger] tour.stops@[i0]).spec_activities().len()
                    && (#[trigger] tour.stops@[i0].spec_activities()[k0]).is_break()
                    ==> {
                        let stop = tour.stops@[i0];
                        let act = stop.spec_activities()[k0];
                        &&& spec_break_activity_matched(*tour, stop, act, shift.breaks@, cost_span)
                        &&& (act.location is Some ==> match stop {
                            Stop::Point(p) => act.location == Some(p.location),
                            Stop::Transit(_) => false,
                        })
                    },
            decreases stops_total - i,
        {
            let acts_total = tour.stops[i].activities().len();
            let mut k: usize = 0;
            while k < acts_total
                invariant
                    context.wf(),
                    0 <= t < total_tours == context.solution.tours@.len(),
                    tour == context.solution.tours@[t as int],
                    shift == context.shifts@[t as int],
                    cost_span == shift.cost_span,
                    stops_total == tour.stops@.len(),
                    0 <= i < stops_total,
                    acts_total == tour.stops@[i as int].spec_activities().len(),
                    0 <= k <= acts_total,
                    forall|k0: int| 0 <= k0 < k
                        && (#[trigger] tour.stops@[i as int].spec_activities()[k0]).is_break()
                        ==> {
                            let stop = tour.stops@[i as int];
                            let act = stop.spec_activities()[k0];
                            &&& spec_break_activity_matched(*tour, stop, act, shift.breaks@, cost_span)
                            &&& (act.location is Some ==> match stop {
                                Stop::Point(p) => act.location == Some(p.location),
                                Stop::Transit(_) => false,
                            })
                        },
                decreases acts_total - k,
            {
                let is_break = matches!(
                    tour.stops[i].activities()[k].activity_type,
                    OutActivityType::Break
                );
                if is_break {
                    let stop = &tour.stops[i];
                    let matched = {
                        let act = &stop.activities()[k];
                        as_leg_info_with_break(tour, stop, act, &shift.breaks, cost_span)
                    };
                    if matched.is_none() {
                        proof {
                            assert(!spec_all_breaks_matched(*tour, shift.breaks@, cost_span));
                            assert(!spec_tour_breaks_ok(context.solution, *tour, *shift));
                        }
                        return Err(GenericError::new(
                            "break visit time is invalid: expected within a break time window",
                        ));
                    }
                    let loc_ok = match &stop.activities()[k].location {
                        Some(l) => match stop {
                            Stop::Point(p) => *l == p.location,
                            Stop::Transit(_) => false,
                        },
                        None => true,
                    };
                    if !loc_ok {
                        proof {
                            assert(!spec_all_breaks_matched(*tour, shift.breaks@, cost_span));
                            assert(!spec_tour_breaks_ok(context.solution, *tour, *shift));
                        }
                        return Err(GenericError::new(
                            "break location is invalid: cannot match it to a break place",
                        ));
                    }
                }
                k = k + 1;
            }
            i = i + 1;
        }

        // The expected break count must equal the assigned plus the violated.
        let mut expected: usize = 0;
        let mut b: usize = 0;
        let breaks_total = shift.breaks.len();
        while b < breaks_total
            invariant
                context.wf(),
                0 <= t < total_tours == context.solution.tours@.len(),
                tour == context.solution.tours@[t as int],
                shift == context.shifts@[t as int],
                cost_span == shift.cost_span,
                breaks_total == shift.breaks@.len(),
                0 <= b <= breaks_total,
                expected == spec_expected_breaks(*tour, shift.breaks@, cost_span, b as int),
                0 <= expected <= b,
            decreases breaks_total - b,
        {
            proof {
                assert(shift.breaks@[b as int].wf());
            }
            if should_assign_break(tour, &shift.breaks[b], cost_span) {
                expected = expected + 1;
            }
            b = b + 1;
        }

        let actual = count_breaks(tour);
        let violations = get_break_violation_count(&context.solution, tour);
        proof {
            assert(0 <= (tour.stops@.len() as int) * crate::model::MAX_ACTIVITIES
                <= (crate::model::MAX_ACTIVITIES as int) * crate::model::MAX_ACTIVITIES)
                by (nonlinear_arith)
                requires 0 <= tour.stops@.len() <= crate::model::MAX_ACTIVITIES;
        }
        let counts_agree = expected >= violations && expected - violations == actual;
        if !counts_agree {
            proof {
                assert(!spec_tour_breaks_ok(context.solution, *tour, *shift));
            }
            return Err(GenericError::new(
                "amount of breaks does not match the expected count for the vehicle shift",
            ));
        }
        t = t + 1;
    }
    Ok(())
}

/// Checks that breaks are properly assigned, collecting the failures. The
/// result is accepting exactly when every tour satisfies its break
/// conditions.
pub fn check_breaks(context: &CheckerContext) -> (r: Result<(), Vec<GenericError>>)
    requires
        context.wf(),
    ensures
        r is Ok <==> forall|t: int| 0 <= t < context.solution.tours@.len()
            ==> spec_tour_breaks_ok(
                context.solution,
                #[trigger] context.solution.tours@[t],
                context.shifts@[t],
            ),
{
    match check_break_assignment(context) {
        Ok(()) => Ok(()),
        Err(e) => {
            let mut errs: Vec<GenericError> = Vec::new();
            errs.push(e);
            Err(errs)
        },
    }
}

} // verus!
