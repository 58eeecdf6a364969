//! The state recorder: the backward pass computing per-activity latest
//! arrivals and future waiting times, and the route statistics computed per
//! cost span.

use vstd::prelude::*;
use crate::times::{MAX_TIME, MAX_WIN, MAX_SCHED, sched_bounded};
use crate::model::{Activity, Route, RouteContext, RouteCostSpan, MAX_ACTIVITIES, Location};
use crate::transport::{
    TransportModel, ActivityCostModel, TravelMetric, TravelTime, spec_base_distance,
    spec_duration_arr, spec_estimate_arrival, lemma_base_duration_bounds,
    lemma_duration_arr_bounds, lemma_estimate_arrival_bounds,
};
use crate::schedule::{spec_anchor, tour_locs_ok};

verus! {

/// Largest decrease of the latest-arrival accumulator over one activity of
/// the backward pass.
pub const BACK_STEP: i64 = 20_000_000_000;

/// Largest growth of the accumulated waiting time over one activity.
pub const WAIT_STEP: i64 = 2_000_000_000_000_000;

/// Index of the last job activity: for closed tours the activity before the
/// end depot, for open tours the last activity.
pub open spec fn spec_last_job_idx(route: Route) -> Option<int> {
    let total = route.tour@.len() as int;
    if total <= 1 {
        None
    } else if !route.spec_end().has_job() {
        if total > 2 {
            Some(total - 2)
        } else {
            None
        }
    } else {
        Some(total - 1)
    }
}

/// The route carries at least one job activity.
pub open spec fn spec_has_jobs(route: Route) -> bool {
    let total = route.tour@.len() as int;
    if route.spec_has_end_depot() {
        total > 2
    } else {
        total > 1
    }
}

/// Returns the index of the last job activity in the route, if any.
pub fn get_last_job_idx(route: &Route, total_activities: usize) -> (r: Option<usize>)
    requires
        route.wf(),
        total_activities == route.tour@.len(),
    ensures
        r == match spec_last_job_idx(*route) {
            Some(i) => Some(i as usize),
            None => None::<usize>,
        },
{
    if total_activities <= 1 {
        return None;
    }
    let end = &route.tour[total_activities - 1];
    if end.job.is_none() {
        if total_activities > 2 {
            Some(total_activities - 2)
        } else {
            None
        }
    } else {
        Some(total_activities - 1)
    }
}

/// Whether the route has at least one job activity.
pub fn has_jobs(route: &Route, total_activities: usize) -> (r: bool)
    requires
        route.wf(),
        total_activities == route.tour@.len(),
    ensures
        r == spec_has_jobs(*route),
{
    let has_end_depot = total_activities >= 2 && route.tour[total_activities - 1].job.is_none();
    if has_end_depot {
        total_activities > 2
    } else {
        total_activities > 1
    }
}

/// Route duration per cost span, as the table of spans defines it: the
/// departure at the span's last point minus the departure or arrival at its
/// first point; zero when the span is empty.
pub open spec fn spec_route_duration(route: Route, span: RouteCostSpan) -> int {
    let tour = route.tour@;
    let start = tour[0];
    let end = tour[tour.len() - 1];
    match span {
        RouteCostSpan::DepotToDepot => end.schedule.departure - start.schedule.departure,
        RouteCostSpan::DepotToLastJob => match spec_last_job_idx(route) {
            Some(i) => tour[i].schedule.departure - start.schedule.departure,
            None => 0,
        },
        RouteCostSpan::FirstJobToDepot => if spec_has_jobs(route) {
            end.schedule.departure - tour[1].schedule.arrival
        } else {
            0
        },
        RouteCostSpan::FirstJobToLastJob => match spec_last_job_idx(route) {
            Some(i) => tour[i].schedule.departure - tour[1].schedule.arrival,
            None => 0,
        },
    }
}

/// Sum of the static distances of the first `n` legs starting at activity
/// index `s`: the legs `(s, s+1), …, (s+n-1, s+n)`.
pub open spec fn spec_leg_dist_sum(m: TravelMetric, tour: Seq<Activity>, s: int, n: int) -> int
    decreases n,
{
    if n <= 0 {
        0
    } else {
        spec_leg_dist_sum(m, tour, s, n - 1)
            + spec_base_distance(m, tour[s + n - 1].place.location as int, tour[s + n].place.location as int)
    }
}

pub proof fn lemma_leg_dist_sum_bounds(m: TravelMetric, tour: Seq<Activity>, s: int, n: int)
    requires
        m.wf(),
        tour_locs_ok(m, tour),
        0 <= s,
        0 <= n,
        s + n < tour.len(),
    ensures
        0 <= spec_leg_dist_sum(m, tour, s, n) <= n * MAX_TIME,
    decreases n,
{
    if n > 0 {
        lemma_leg_dist_sum_bounds(m, tour, s, n - 1);
        lemma_base_duration_bounds(m, tour[s + n - 1].place.location as int, tour[s + n].place.location as int);
        assert((n - 1) * MAX_TIME + MAX_TIME == n * MAX_TIME) by (nonlinear_arith);
    }
}

/// The activity index range `[start_idx, end_idx)` whose legs count toward
/// the distance of the span; `None` when the span is empty.
pub open spec fn spec_distance_range(route: Route, span: RouteCostSpan) -> Option<(int, int)> {
    let total = route.tour@.len() as int;
    match span {
        RouteCostSpan::DepotToDepot => Some((0, total)),
        RouteCostSpan::DepotToLastJob => match spec_last_job_idx(route) {
            Some(i) => Some((0, i + 1)),
            None => None,
        },
        RouteCostSpan::FirstJobToDepot => if spec_has_jobs(route) {
            Some((1, total))
        } else {
            None
        },
        RouteCostSpan::FirstJobToLastJob => match spec_last_job_idx(route) {
            Some(i) => Some((1, i + 1)),
            None => None,
        },
    }
}

/// Route distance per cost span: the sum of the static leg distances over the
/// span's activity range; zero when the span is empty.
pub open spec fn spec_route_distance(route: Route, m: TravelMetric, span: RouteCostSpan) -> int {
    match spec_distance_range(route, span) {
        Some((s, e)) => spec_leg_dist_sum(m, route.tour@, s, e - s - 1),
        None => 0,
    }
}

/// Computes the route duration for the cost span.
pub fn calculate_route_duration(route: &Route, cost_span: RouteCostSpan, total_activities: usize) -> (r: i64)
    requires
        route.wf(),
        total_activities == route.tour@.len(),
    ensures
        r == spec_route_duration(*route, cost_span),
{
    let start_dep = route.tour[0].schedule.departure;
    let end_dep = route.tour[total_activities - 1].schedule.departure;
    match cost_span {
        RouteCostSpan::DepotToDepot => end_dep - start_dep,
        RouteCostSpan::DepotToLastJob => {
            match get_last_job_idx(route, total_activities) {
                Some(last_job_idx) => route.tour[last_job_idx].schedule.departure - start_dep,
                None => 0,
            }
        },
        RouteCostSpan::FirstJobToDepot => {
            if has_jobs(route, total_activities) {
                end_dep - route.tour[1].schedule.arrival
            } else {
                0
            }
        },
        RouteCostSpan::FirstJobToLastJob => {
            match get_last_job_idx(route, total_activities) {
                Some(last_job_idx) => {
                    route.tour[last_job_idx].schedule.departure - route.tour[1].schedule.arrival
                },
                None => 0,
            }
        },
    }
}

/// Computes the route distance for the cost span: the static distances of the
/// legs inside the span's activity range.
pub fn calculate_route_distance(
    route: &Route,
    transport: &TransportModel,
    cost_span: RouteCostSpan,
    total_activities: usize,
) -> (r: i64)
    requires
        route.wf(),
        transport.wf(),
        tour_locs_ok(transport.metric, route.tour@),
        total_activities == route.tour@.len(),
    ensures
        r == spec_route_distance(*route, transport.metric, cost_span),
        0 <= r <= 2 * MAX_SCHED,
{
    let ghost tour = route.tour@;
    let range: Option<(usize, usize)> = match cost_span {
        RouteCostSpan::DepotToDepot => Some((0, total_activities)),
        RouteCostSpan::DepotToLastJob => {
            match get_last_job_idx(route, total_activities) {
                Some(i) => Some((0, i + 1)),
                None => None,
            }
        },
        RouteCostSpan::FirstJobToDepot => {
            if has_jobs(route, total_activities) {
                Some((1, total_activities))
            } else {
                None
            }
        },
        RouteCostSpan::FirstJobToLastJob => {
            match get_last_job_idx(route, total_activities) {
                Some(i) => Some((1, i + 1)),
                None => None,
            }
        },
    };
    let (start_idx, end_idx) = match range {
        Some(r) => r,
        None => {
            return 0;
        },
    };
    let mut total: i64 = 0;
    let mut k: usize = start_idx + 1;
    let mut loc = route.tour[start_idx].place.location;
    let mut dep = route.tour[start_idx].schedule.departure;
    while k < end_idx
        invariant
            route.wf(),
            transport.wf(),
            tour_locs_ok(transport.metric, route.tour@),
            tour == route.tour@,
            0 <= start_idx < end_idx <= tour.len(),
            start_idx + 1 <= k <= end_idx,
            loc == tour[k - 1].place.location,
            sched_bounded(dep as int),
            total == spec_leg_dist_sum(transport.metric, tour, start_idx as int, (k - 1 - start_idx) as int),
            0 <= total <= (k - 1 - start_idx) * MAX_TIME,
        decreases end_idx - k,
    {
        let next_loc = route.tour[k].place.location;
        let d = transport.distance(route, loc, next_loc, TravelTime::Departure(dep));
        proof {
            assert((k - 1 - start_idx) * MAX_TIME + MAX_TIME == (k - start_idx) * MAX_TIME) by (nonlinear_arith);
            assert((k - start_idx) * MAX_TIME <= MAX_ACTIVITIES * MAX_TIME) by (nonlinear_arith)
                requires 0 <= k - start_idx <= MAX_ACTIVITIES;
        }
        total = total + d;
        loc = next_loc;
        dep = route.tour[k].schedule.departure;
        k = k + 1;
    }
    total
}

/// The actor's depot locations are admissible for the metric.
pub open spec fn actor_locs_ok(m: TravelMetric, route: Route) -> bool {
    &&& (route.actor.detail.start is Some ==> m.loc_ok(route.actor.detail.start->0.location as int))
    &&& (route.actor.detail.end is Some ==> m.loc_ok(route.actor.detail.end->0.location as int))
}

/// The location the backward pass starts from: the end depot, else the start
/// depot.
pub open spec fn spec_back_init_loc(route: Route) -> int {
    match route.actor.detail.end {
        Some(p) => p.location as int,
        None => match route.actor.detail.start {
            Some(p) => p.location as int,
            None => 0,
        },
    }
}

/// Accumulator of the backward pass after the last `k` activities have been
/// visited: the latest admissible arrival bound (`None` while the shift end
/// is unbounded and no job has been visited), the location travelled to next,
/// and the accumulated future waiting. Jobless activities leave it unchanged.
pub open spec fn spec_back_acc(t: TransportModel, ac: ActivityCostModel, route: Route, k: int) -> (Option<int>, int, int)
    decreases k,
{
    let anchor = spec_anchor(route.actor.spec_cost_span(), route.tour@);
    if k <= 0 {
        let et = match route.actor.detail.time_end {
            Some(e) => Some(e as int),
            None => None,
        };
        (et, spec_back_init_loc(route), 0)
    } else {
        let (et, pl, w) = spec_back_acc(t, ac, route, k - 1);
        let j = route.tour@.len() - k;
        let act = route.tour@[j];
        if !act.has_job() {
            (et, pl, w)
        } else {
            let la = match et {
                None => act.place.time.end as int,
                Some(e) => spec_estimate_arrival(
                    ac,
                    anchor,
                    act.place,
                    e - spec_duration_arr(t, anchor, act.place.location as int, pl, e),
                ),
            };
            let waiting = if act.place.time.start - act.schedule.arrival >= 0 {
                act.place.time.start - act.schedule.arrival
            } else {
                0
            };
            (Some(la), act.place.location as int, w + waiting)
        }
    }
}

/// The latest-arrival slot of the activity at index `j`: zero for jobless
/// activities.
pub open spec fn spec_latest_at(t: TransportModel, ac: ActivityCostModel, route: Route, j: int) -> int {
    let act = route.tour@[j];
    if !act.has_job() {
        0
    } else {
        let anchor = spec_anchor(route.actor.spec_cost_span(), route.tour@);
        let k = route.tour@.len() - j;
        let (et, pl, w) = spec_back_acc(t, ac, route, k - 1);
        match et {
            None => act.place.time.end as int,
            Some(e) => spec_estimate_arrival(
                ac,
                anchor,
                act.place,
                e - spec_duration_arr(t, anchor, act.place.location as int, pl, e),
            ),
        }
    }
}

/// The future-waiting slot of the activity at index `j`: zero for jobless
/// activities, else the waiting accumulated from the tail through `j`.
pub open spec fn spec_waiting_at(t: TransportModel, ac: ActivityCostModel, route: Route, j: int) -> int {
    let act = route.tour@[j];
    if !act.has_job() {
        0
    } else {
        let k = route.tour@.len() - j;
        spec_back_acc(t, ac, route, k).2
    }
}

/// Length of the published state vectors: one slot per activity, with the
/// trailing end-depot slot removed.
pub open spec fn spec_state_len(route: Route) -> int {
    let total = route.tour@.len() as int;
    if route.tour@[total - 1].has_job() {
        total
    } else {
        total - 1
    }
}

proof fn lemma_back_acc_bounds(t: TransportModel, ac: ActivityCostModel, route: Route, k: int)
    requires
        t.wf(),
        ac.wf(),
        route.wf(),
        tour_locs_ok(t.metric, route.tour@),
        actor_locs_ok(t.metric, route),
        0 <= k <= route.tour@.len(),
    ensures
        ({
            let (et, pl, w) = spec_back_acc(t, ac, route, k);
            &&& (et is Some ==> -MAX_WIN - 10 * MAX_TIME - k * BACK_STEP <= et->0 <= MAX_WIN)
            &&& (et is Some ==> sched_bounded(et->0))
            &&& t.metric.loc_ok(pl)
            &&& 0 <= w <= k * WAIT_STEP
        }),
    decreases k,
{
    let anchor = spec_anchor(route.actor.spec_cost_span(), route.tour@);
    if k > 0 {
        lemma_back_acc_bounds(t, ac, route, k - 1);
        let (et, pl, w) = spec_back_acc(t, ac, route, k - 1);
        let j = route.tour@.len() - k;
        let act = route.tour@[j];
        assert(act.wf());
        if act.has_job() {
            match et {
                None => {},
                Some(e) => {
                    lemma_duration_arr_bounds(t, anchor, act.place.location as int, pl, e);
                    let ld = e - spec_duration_arr(t, anchor, act.place.location as int, pl, e);
                    lemma_estimate_arrival_bounds(ac, anchor, act.place, ld);
                },
            }
            assert((k - 1) * BACK_STEP + BACK_STEP == k * BACK_STEP) by (nonlinear_arith);
            assert((k - 1) * WAIT_STEP + WAIT_STEP == k * WAIT_STEP) by (nonlinear_arith);
            assert(k * BACK_STEP <= MAX_ACTIVITIES * BACK_STEP) by (nonlinear_arith)
                requires 0 <= k <= MAX_ACTIVITIES;
            assert(k * WAIT_STEP <= MAX_ACTIVITIES * WAIT_STEP) by (nonlinear_arith)
                requires 0 <= k <= MAX_ACTIVITIES;
        } else {
            assert((k - 1) * BACK_STEP <= k * BACK_STEP) by (nonlinear_arith)
                requires k >= 1, BACK_STEP >= 0;
            assert((k - 1) * WAIT_STEP <= k * WAIT_STEP) by (nonlinear_arith)
                requires k >= 1, WAIT_STEP >= 0;
        }
    }
}

/// Recomputes the latest-arrival and future-waiting state of every job
/// activity by the backward pass: the latest arrival still allowing every
/// later activity to meet its bound, and the waiting accumulated from the
/// tail. Jobless activities hold zero slots; the trailing end-depot slot is
/// removed before the vectors are published.
pub fn update_states(route_ctx: &mut RouteContext, activity: &ActivityCostModel, transport: &TransportModel)
    requires
        old(route_ctx).route.wf(),
        activity.wf(),
        transport.wf(),
        tour_locs_ok(transport.metric, old(route_ctx).route.tour@),
        actor_locs_ok(transport.metric, old(route_ctx).route),
        old(route_ctx).route.actor.detail.start is Some || old(route_ctx).route.actor.detail.end is Some,
    ensures
        final(route_ctx).route == old(route_ctx).route,
        final(route_ctx).stale == old(route_ctx).stale,
        final(route_ctx).state.total_distance == old(route_ctx).state.total_distance,
        final(route_ctx).state.total_duration == old(route_ctx).state.total_duration,
        final(route_ctx).state.limit_duration == old(route_ctx).state.limit_duration,
        final(route_ctx).state.nearest_distance_data == old(route_ctx).state.nearest_distance_data,
        final(route_ctx).state.vehicle_distance_data == old(route_ctx).state.vehicle_distance_data,
        final(route_ctx).state.latest_arrivals@.len() == spec_state_len(old(route_ctx).route),
        final(route_ctx).state.waiting_times@.len() == spec_state_len(old(route_ctx).route),
        forall|j: int| 0 <= j < spec_state_len(old(route_ctx).route)
            ==> #[trigger] final(route_ctx).state.latest_arrivals@[j]
                == spec_latest_at(*transport, *activity, old(route_ctx).route, j),
        forall|j: int| 0 <= j < spec_state_len(old(route_ctx).route)
            ==> #[trigger] final(route_ctx).state.waiting_times@[j]
                == spec_waiting_at(*transport, *activity, old(route_ctx).route, j),
        forall|j: int| 0 <= j < spec_state_len(old(route_ctx).route)
            ==> sched_bounded(#[trigger] final(route_ctx).state.latest_arrivals@[j] as int),
{
    let ghost t = *transport;
    let ghost ac = *activity;
    let ghost route0 = old(route_ctx).route;
    let total = route_ctx.route.tour.len();

    // Zero-filled slots, one per activity.
    let mut latest_arrivals: Vec<i64> = Vec::new();
    let mut waiting_times: Vec<i64> = Vec::new();
    let mut z: usize = 0;
    while z < total
        invariant
            0 <= z <= total,
            latest_arrivals@.len() == z,
            waiting_times@.len() == z,
            forall|j: int| 0 <= j < z ==> #[trigger] latest_arrivals@[j] == 0i64,
            forall|j: int| 0 <= j < z ==> #[trigger] waiting_times@[j] == 0i64,
        decreases total - z,
    {
        latest_arrivals.push(0);
        waiting_times.push(0);
        z = z + 1;
    }

    // Initial accumulator: the shift's hard end bound and the depot location
    // the tail travels to.
    let mut end_time: Option<i64> = route_ctx.route.actor.detail.time_end;
    let mut prev_loc: Location = match route_ctx.route.actor.detail.end {
        Some(p) => p.location,
        None => match route_ctx.route.actor.detail.start {
            Some(p) => p.location,
            None => 0,
        },
    };
    let mut waiting: i64 = 0;

    let mut j: usize = total;
    while j > 0
        invariant
            route_ctx.route == route0,
            route_ctx.state == old(route_ctx).state,
            route_ctx.stale == old(route_ctx).stale,
            route0.wf(),
            activity.wf(),
            transport.wf(),
            t == *transport,
            ac == *activity,
            tour_locs_ok(t.metric, route0.tour@),
            actor_locs_ok(t.metric, route0),
            total == route0.tour@.len(),
            0 <= j <= total,
            latest_arrivals@.len() == total,
            waiting_times@.len() == total,
            ({
                let (et, pl, w) = spec_back_acc(t, ac, route0, (total - j) as int);
                &&& (match end_time {
                    Some(e) => et == Some(e as int),
                    None => et is None,
                })
                &&& pl == prev_loc as int
                &&& w == waiting as int
            }),
            forall|i: int| j <= i < total
                ==> #[trigger] latest_arrivals@[i] == spec_latest_at(t, ac, route0, i),
            forall|i: int| j <= i < total
                ==> #[trigger] waiting_times@[i] == spec_waiting_at(t, ac, route0, i),
            forall|i: int| j <= i < total
                ==> sched_bounded(#[trigger] latest_arrivals@[i] as int),
            forall|i: int| 0 <= i < j ==> #[trigger] latest_arrivals@[i] == 0i64,
            forall|i: int| 0 <= i < j ==> #[trigger] waiting_times@[i] == 0i64,
        decreases j,
    {
        j = j - 1;
        let ghost k = (total - j) as int;
        proof {
            lemma_back_acc_bounds(t, ac, route0, k - 1);
            lemma_back_acc_bounds(t, ac, route0, k);
        }
        let has_job = route_ctx.route.tour[j].job.is_some();
        if has_job {
            let latest_arrival: i64 = match end_time {
                None => route_ctx.route.tour[j].place.time.end,
                Some(e) => {
                    let act_loc = route_ctx.route.tour[j].place.location;
                    let travel = transport.duration(
                        &route_ctx.route,
                        act_loc,
                        prev_loc,
                        TravelTime::Arrival(e),
                    );
                    let latest_departure = e - travel;
                    let a = &route_ctx.route.tour[j];
                    activity.estimate_arrival(&route_ctx.route, a, latest_departure)
                },
            };
            let tw_start = route_ctx.route.tour[j].place.time.start;
            let arr = route_ctx.route.tour[j].schedule.arrival;
            let act_wait: i64 = if tw_start - arr >= 0 { tw_start - arr } else { 0 };
            let future_waiting = waiting + act_wait;
            latest_arrivals[j] = latest_arrival;
            waiting_times[j] = future_waiting;
            end_time = Some(latest_arrival);
            prev_loc = route_ctx.route.tour[j].place.location;
            waiting = future_waiting;
        }
    }

    // Remove the trailing end-depot slot before publishing.
    let pop_tail = total >= 1 && route_ctx.route.tour[total - 1].job.is_none();
    if pop_tail {
        let _ = latest_arrivals.pop();
        let _ = waiting_times.pop();
    }
    route_ctx.state.latest_arrivals = latest_arrivals;
    route_ctx.state.waiting_times = waiting_times;
}

/// Recomputes the route totals for the route's cost span and writes them into
/// the state.
pub fn update_statistics(route_ctx: &mut RouteContext, transport: &TransportModel)
    requires
        old(route_ctx).route.wf(),
        transport.wf(),
        tour_locs_ok(transport.metric, old(route_ctx).route.tour@),
    ensures
        final(route_ctx).route == old(route_ctx).route,
        final(route_ctx).stale == old(route_ctx).stale,
        final(route_ctx).state.latest_arrivals == old(route_ctx).state.latest_arrivals,
        final(route_ctx).state.waiting_times == old(route_ctx).state.waiting_times,
        final(route_ctx).state.limit_duration == old(route_ctx).state.limit_duration,
        final(route_ctx).state.nearest_distance_data == old(route_ctx).state.nearest_distance_data,
        final(route_ctx).state.vehicle_distance_data == old(route_ctx).state.vehicle_distance_data,
        final(route_ctx).state.total_duration is Some,
        final(route_ctx).state.total_duration->0
            == spec_route_duration(old(route_ctx).route, old(route_ctx).route.actor.spec_cost_span()),
        final(route_ctx).state.total_distance is Some,
        final(route_ctx).state.total_distance->0 == spec_route_distance(
            old(route_ctx).route,
            transport.metric,
            old(route_ctx).route.actor.spec_cost_span(),
        ),
        -2 * MAX_SCHED <= final(route_ctx).state.total_duration->0 <= 2 * MAX_SCHED,
        0 <= final(route_ctx).state.total_distance->0 <= 2 * MAX_SCHED,
{
    let total_activities = route_ctx.route.tour.len();
    let cost_span = route_ctx.route.actor.effective_cost_span();
    let total_dur = calculate_route_duration(&route_ctx.route, cost_span, total_activities);
    let total_dist = calculate_route_distance(&route_ctx.route, transport, cost_span, total_activities);
    route_ctx.state.total_duration = Some(total_dur);
    route_ctx.state.total_distance = Some(total_dist);
}

} // verus!
