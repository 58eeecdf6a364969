//! The departure optimizer: advances or recedes the route's start departure
//! while keeping the schedule feasible, falling back to critical departure
//! candidates where the anchor shift reconfigures offset-derived windows.

use vstd::prelude::*;
use crate::times::{TimeSpan, MAX_TIME, MAX_WIN, MAX_SCHED, sched_bounded};
use crate::model::{Activity, Route, RouteContext, MAX_DEP, MAX_ACTIVITIES};
use crate::transport::{TransportModel, ActivityCostModel, TravelTime, spec_duration_dep};
use crate::schedule::{
    spec_anchor, tour_locs_ok, update_route_departure, is_schedule_feasible, spec_feasible,
    spec_feasible_seq, spec_departure_updated_tour,
};
use crate::state::{actor_locs_ok, WAIT_STEP};

verus! {

/// The hedging step around a critical candidate: one time unit on either
/// side, guarding against strict versus non-strict boundary transitions.
pub const EPSILON: i64 = 1;

/// Accumulator of the advance scan over the last `k` activities, tail first:
/// the total waiting time and the largest departure shift the already-visited
/// suffix tolerates (`None` while unbounded).
pub open spec fn spec_advance_fold(tour: Seq<Activity>, k: int) -> (int, Option<int>)
    decreases k,
{
    if k <= 0 {
        (0, None)
    } else {
        let (tw, ms) = spec_advance_fold(tour, k - 1);
        let act = tour[tour.len() - k];
        let waiting = if act.place.time.start - act.schedule.arrival >= 0 {
            act.place.time.start - act.schedule.arrival
        } else {
            0
        };
        let remaining = if act.place.time.end - act.schedule.arrival - waiting >= 0 {
            act.place.time.end - act.schedule.arrival - waiting
        } else {
            0
        };
        let capped = match ms {
            None => remaining,
            Some(m) => if remaining <= m { remaining } else { m },
        };
        (tw + waiting, Some(waiting + capped))
    }
}

pub proof fn lemma_advance_fold_bounds(tour: Seq<Activity>, k: int)
    requires
        0 <= k <= tour.len() <= MAX_ACTIVITIES,
        forall|j: int| 0 <= j < tour.len() ==> (#[trigger] tour[j]).wf(),
    ensures
        ({
            let (tw, ms) = spec_advance_fold(tour, k);
            &&& 0 <= tw <= k * WAIT_STEP
            &&& (ms is Some ==> 0 <= ms->0 <= WAIT_STEP)
        }),
    decreases k,
{
    if k > 0 {
        lemma_advance_fold_bounds(tour, k - 1);
        assert(tour[tour.len() - k].wf());
        assert((k - 1) * WAIT_STEP + WAIT_STEP == k * WAIT_STEP) by (nonlinear_arith);
    }
}

/// The departure the advance would move to: in whole-tour mode the current
/// departure plus the least of the accumulated waiting and the tolerated
/// shift; in first-leg mode the departure that reaches the first activity at
/// its window start; both clipped to the actor's latest allowed departure.
/// `None` when no strictly later, bounded departure exists.
pub open spec fn spec_try_advance(t: TransportModel, route: Route, whole_tour: bool) -> Option<int> {
    let tour = route.tour@;
    if tour.len() < 2 {
        None
    } else {
        let dep0 = tour[0].schedule.departure as int;
        let latest = match route.actor.detail.start {
            Some(p) => match p.latest {
                Some(l) => Some(l as int),
                None => None,
            },
            None => None,
        };
        let raw = if whole_tour {
            let (tw, ms) = spec_advance_fold(tour, tour.len() as int);
            let shift = match ms {
                None => tw,
                Some(m) => if tw <= m { tw } else { m },
            };
            dep0 + shift
        } else {
            let travel = spec_duration_dep(
                t,
                spec_anchor(route.actor.spec_cost_span(), tour),
                tour[0].place.location as int,
                tour[1].place.location as int,
                dep0,
            );
            let wanted = tour[1].place.time.start - travel;
            if dep0 >= wanted { dep0 } else { wanted }
        };
        let target = match latest {
            None => raw,
            Some(l) => if raw <= l { raw } else { l },
        };
        if target > dep0 && target <= MAX_DEP {
            Some(target)
        } else {
            None
        }
    }
}

/// Computes the departure the advance aims for, if any: strictly later than
/// the current departure and within the departure bound.
pub fn try_advance_departure_time(
    route_ctx: &RouteContext,
    transport: &TransportModel,
    optimize_whole_tour: bool,
) -> (r: Option<i64>)
    requires
        route_ctx.route.wf(),
        transport.wf(),
        tour_locs_ok(transport.metric, route_ctx.route.tour@),
    ensures
        r == match spec_try_advance(*transport, route_ctx.route, optimize_whole_tour) {
            Some(v) => Some(v as i64),
            None => None::<i64>,
        },
        r is Some ==> route_ctx.route.tour@[0].schedule.departure < r->0 <= MAX_DEP,
{
    let ghost tour = route_ctx.route.tour@;
    let total = route_ctx.route.tour.len();
    if total < 2 {
        return None;
    }
    let dep0 = route_ctx.route.tour[0].schedule.departure;
    let latest: Option<i64> = match &route_ctx.route.actor.detail.start {
        Some(p) => p.latest,
        None => None,
    };
    let raw: i64 = if optimize_whole_tour {
        let mut tw: i64 = 0;
        let mut ms: Option<i64> = None;
        let mut idx: usize = total;
        while idx > 0
            invariant
                route_ctx.route.wf(),
                tour == route_ctx.route.tour@,
                total == tour.len(),
                0 <= idx <= total,
                ({
                    let (stw, sms) = spec_advance_fold(tour, (total - idx) as int);
                    &&& tw as int == stw
                    &&& (match ms {
                        Some(m) => sms == Some(m as int),
                        None => sms is None,
                    })
                }),
                0 <= tw <= (total - idx) * WAIT_STEP,
                ms is Some ==> 0 <= ms->0 <= WAIT_STEP,
            decreases idx,
        {
            idx = idx - 1;
            let ghost k = (total - idx) as int;
            proof {
                lemma_advance_fold_bounds(tour, k - 1);
                lemma_advance_fold_bounds(tour, k);
                assert(tour[idx as int].wf());
            }
            let s = route_ctx.route.tour[idx].place.time.start;
            let e = route_ctx.route.tour[idx].place.time.end;
            let arr = route_ctx.route.tour[idx].schedule.arrival;
            let waiting: i64 = if s - arr >= 0 { s - arr } else { 0 };
            let remaining: i64 = if e - arr - waiting >= 0 { e - arr - waiting } else { 0 };
            let capped: i64 = match ms {
                None => remaining,
                Some(m) => if remaining <= m { remaining } else { m },
            };
            tw = tw + waiting;
            ms = Some(waiting + capped);
        }
        let shift: i64 = match ms {
            None => tw,
            Some(m) => if tw <= m { tw } else { m },
        };
        dep0 + shift
    } else {
        let start_loc = route_ctx.route.tour[0].place.location;
        let first_loc = route_ctx.route.tour[1].place.location;
        let travel = transport.duration(
            &route_ctx.route,
            start_loc,
            first_loc,
            TravelTime::Departure(dep0),
        );
        let wanted = route_ctx.route.tour[1].place.time.start - travel;
        if dep0 >= wanted { dep0 } else { wanted }
    };
    let target: i64 = match latest {
        None => raw,
        Some(l) => if raw <= l { raw } else { l },
    };
    if target > dep0 && target <= MAX_DEP {
        Some(target)
    } else {
        None
    }
}

/// The departure the recede would move back to: the current departure minus
/// the least of the slack at the first activity, the distance to the earliest
/// allowed departure, and the room left under the duration limit. `None` when
/// that decrement is not positive.
pub open spec fn spec_try_recede(route: Route, state: crate::model::RouteState) -> Option<int> {
    let tour = route.tour@;
    if tour.len() < 2 || state.latest_arrivals@.len() < 2 {
        None
    } else {
        let dep0 = tour[0].schedule.departure as int;
        let slack = state.latest_arrivals@[1] - tour[1].schedule.arrival;
        let earliest = match route.actor.detail.start {
            Some(p) => match p.earliest {
                Some(e) => e as int,
                None => tour[0].place.time.start as int,
            },
            None => tour[0].place.time.start as int,
        };
        let c1 = if dep0 - earliest <= slack { dep0 - earliest } else { slack };
        let max_change = match (state.total_duration, state.limit_duration) {
            (Some(total), Some(limit)) => if limit - total <= c1 { limit - total } else { c1 },
            _ => c1,
        };
        if max_change > 0 {
            Some(dep0 - max_change)
        } else {
            None
        }
    }
}

/// Computes the departure the recede aims for, if any: strictly earlier than
/// the current one and no earlier than the earliest allowed departure.
pub fn try_recede_departure_time(route_ctx: &RouteContext) -> (r: Option<i64>)
    requires
        route_ctx.route.wf(),
        forall|j: int| 0 <= j < route_ctx.state.latest_arrivals@.len()
            ==> sched_bounded(#[trigger] route_ctx.state.latest_arrivals@[j] as int),
        route_ctx.state.total_duration is Some
            ==> -2 * MAX_SCHED <= route_ctx.state.total_duration->0 <= 2 * MAX_SCHED,
        route_ctx.state.limit_duration is Some
            ==> sched_bounded(route_ctx.state.limit_duration->0 as int),
    ensures
        r == match spec_try_recede(route_ctx.route, route_ctx.state) {
            Some(v) => Some(v as i64),
            None => None::<i64>,
        },
        r is Some ==> -MAX_TIME <= r->0 < route_ctx.route.tour@[0].schedule.departure,
{
    let total = route_ctx.route.tour.len();
    if total < 2 || route_ctx.state.latest_arrivals.len() < 2 {
        return None;
    }
    let dep0 = route_ctx.route.tour[0].schedule.departure;
    let first_arrival = route_ctx.route.tour[1].schedule.arrival;
    let latest_arrival = route_ctx.state.latest_arrivals[1];
    let slack = latest_arrival - first_arrival;
    let earliest: i64 = match &route_ctx.route.actor.detail.start {
        Some(p) => match p.earliest {
            Some(e) => e,
            None => route_ctx.route.tour[0].place.time.start,
        },
        None => route_ctx.route.tour[0].place.time.start,
    };
    let c0 = dep0 - earliest;
    let c1 = if c0 <= slack { c0 } else { slack };
    let max_change: i64 = match (route_ctx.state.total_duration, route_ctx.state.limit_duration) {
        (Some(total_dur), Some(limit)) => {
            let room = limit - total_dur;
            if room <= c1 { room } else { c1 }
        },
        _ => c1,
    };
    if max_change > 0 {
        Some(dep0 - max_change)
    } else {
        None
    }
}

/// The first offset span among the candidate spans, searched from `i`.
pub open spec fn spec_first_offset_span(times: Seq<TimeSpan>, i: int) -> Option<int>
    decreases times.len() - i,
{
    if i < 0 || i >= times.len() {
        None
    } else if times[i].is_offset() {
        Some(i)
    } else {
        spec_first_offset_span(times, i + 1)
    }
}

/// The break-offset triple an activity contributes to the candidate search:
/// the offsets of its first offset span and its service duration.
pub open spec fn spec_offset_triple(act: Activity) -> Option<(int, int, int)> {
    if !act.has_job() {
        None
    } else {
        match spec_first_offset_span(act.place.times@, 0) {
            Some(k) => match act.place.times@[k] {
                TimeSpan::Offset(o) => Some((o.start as int, o.end as int, act.place.duration as int)),
                TimeSpan::Window(_) => None,
            },
            None => None,
        }
    }
}

/// The activity contributes its resolved window endpoints as boundaries: it
/// carries a job and at least one absolute candidate span.
pub open spec fn spec_contributes_boundaries(act: Activity) -> bool {
    act.has_job() && exists|k: int| 0 <= k < act.place.times@.len() && !(#[trigger] act.place.times@[k]).is_offset()
}

/// `v` is a critical departure candidate of the tour: for some activity with
/// a break-offset triple `(os, oe, dur)` and some window boundary `b` of an
/// activity with an absolute span, `v` is one of `b - oe - dur`, `b - oe`,
/// `b - os`, shifted by at most one hedging unit.
pub open spec fn spec_is_critical_candidate(tour: Seq<Activity>, v: int) -> bool {
    exists|i: int, j: int| 0 <= i < tour.len() && 0 <= j < tour.len()
        && #[trigger] spec_candidate_pair(tour[i], tour[j], v)
}

/// `v` lies within one hedging unit of `d`.
pub open spec fn spec_near(v: int, d: int) -> bool {
    d - EPSILON <= v <= d + EPSILON
}

/// `v` arises from the offset triple of `a` and a window boundary of `b`:
/// it is within one hedging unit of one of the three alignment formulas
/// applied to either endpoint of `b`'s resolved window.
pub open spec fn spec_candidate_pair(a: Activity, b: Activity, v: int) -> bool {
    match spec_offset_triple(a) {
        Some(t3) => {
            let (os, oe, dur) = t3;
            let lo = b.place.time.start as int;
            let hi = b.place.time.end as int;
            spec_contributes_boundaries(b) && {
                ||| spec_near(v, lo - oe - dur)
                ||| spec_near(v, lo - oe)
                ||| spec_near(v, lo - os)
                ||| spec_near(v, hi - oe - dur)
                ||| spec_near(v, hi - oe)
                ||| spec_near(v, hi - os)
            }
        },
        None => false,
    }
}

/// Every element of the vector is a critical candidate strictly between the
/// current departure and the upper target.
pub open spec fn spec_candidates_ok(tour: Seq<Activity>, vs: Seq<i64>, current: int, upper: int) -> bool {
    forall|i: int| 0 <= i < vs.len() ==> {
        let v = #[trigger] vs[i] as int;
        current < v < upper && spec_is_critical_candidate(tour, v)
    }
}

/// Every critical candidate strictly between the current departure and the
/// upper target occurs in the vector.
pub open spec fn spec_candidates_complete(tour: Seq<Activity>, vs: Seq<i64>, current: int, upper: int) -> bool {
    forall|v: i64| current < v && (v as int) < upper && #[trigger] spec_is_critical_candidate(tour, v as int)
        ==> vs.contains(v)
}

/// Every in-range hedge of the three alignment formulas for the offset
/// triple `(os, oe, dur)` and the boundary `bd` occurs in the vector.
pub open spec fn spec_hedges_included(vs: Seq<i64>, os: int, oe: int, dur: int, bd: int, current: int, upper: int) -> bool {
    forall|v: i64|
        #![trigger spec_near(v as int, bd - oe - dur)]
        #![trigger spec_near(v as int, bd - oe)]
        #![trigger spec_near(v as int, bd - os)]
        current < v && (v as int) < upper
        && (spec_near(v as int, bd - oe - dur) || spec_near(v as int, bd - oe) || spec_near(v as int, bd - os))
        ==> vs.contains(v)
}

/// A superset of a hedge-complete vector is hedge-complete.
proof fn lemma_hedges_monotone(a: Seq<i64>, b: Seq<i64>, os: int, oe: int, dur: int, bd: int, current: int, upper: int)
    requires
        spec_hedges_included(a, os, oe, dur, bd, current, upper),
        forall|v: i64| a.contains(v) ==> #[trigger] b.contains(v),
    ensures
        spec_hedges_included(b, os, oe, dur, bd, current, upper),
{
    assert forall|v: i64|
        #![trigger spec_near(v as int, bd - oe - dur)]
        #![trigger spec_near(v as int, bd - oe)]
        #![trigger spec_near(v as int, bd - os)]
        current < v && (v as int) < upper
        && (spec_near(v as int, bd - oe - dur) || spec_near(v as int, bd - oe) || spec_near(v as int, bd - os))
        implies b.contains(v) by {
        assert(a.contains(v));
    }
}

/// Pushes `d` and its two hedged neighbours, keeping exactly the values
/// strictly between the current departure and the upper target: afterwards
/// every in-range hedge of `d` is in the vector, every earlier element is
/// untouched, and every added element is an in-range hedge of `d`.
pub fn push_candidate(candidates: &mut Vec<i64>, d: i64, current: i64, upper: i64, epsilon: i64)
    requires
        sched_bounded(d as int),
        sched_bounded(current as int),
        sched_bounded(upper as int),
        epsilon == EPSILON,
    ensures
        final(candidates)@.len() >= old(candidates)@.len(),
        forall|i: int| 0 <= i < old(candidates)@.len()
            ==> #[trigger] final(candidates)@[i] == old(candidates)@[i],
        forall|i: int| old(candidates)@.len() <= i < final(candidates)@.len() ==> {
            let v = #[trigger] final(candidates)@[i] as int;
            &&& current < v < upper
            &&& (v == d - EPSILON || v == d as int || v == d + EPSILON)
        },
        forall|v: i64| old(candidates)@.contains(v) ==> #[trigger] final(candidates)@.contains(v),
        forall|v: i64| (v == d - EPSILON || v == d || v == d + EPSILON) && current < v && v < upper
            ==> #[trigger] final(candidates)@.contains(v),
{
    let lo = d - epsilon;
    let ghost n0 = candidates@.len() as int;
    if lo > current && lo < upper {
        candidates.push(lo);
    }
    let ghost n1 = candidates@.len() as int;
    if d > current && d < upper {
        candidates.push(d);
    }
    let ghost n2 = candidates@.len() as int;
    let hi = d + epsilon;
    if hi > current && hi < upper {
        candidates.push(hi);
    }
    proof {
        if current < lo && lo < upper {
            assert(candidates@[n0] == lo);
            assert(candidates@.contains(lo));
        }
        if current < d && d < upper {
            assert(candidates@[n1] == d);
            assert(candidates@.contains(d));
        }
        if current < hi && hi < upper {
            assert(candidates@[n2] == hi);
            assert(candidates@.contains(hi));
        }
        assert forall|v: i64| old(candidates)@.contains(v)
            implies #[trigger] candidates@.contains(v) by {
            let q = choose|q: int| 0 <= q < old(candidates)@.len()
                && (#[trigger] old(candidates)@[q]) == v;
            assert(candidates@[q] == v);
        }
    }
}

/// Computes the critical departure candidates strictly between `current` and
/// `upper`: the departures at which a break-offset boundary aligns exactly
/// with a job time-window boundary, hedged by one unit on either side, sorted
/// ascending without duplicates.
pub fn compute_critical_departures(route: &Route, current: i64, upper: i64) -> (r: Vec<i64>)
    requires
        route.wf(),
        sched_bounded(current as int),
        sched_bounded(upper as int),
    ensures
        spec_candidates_ok(route.tour@, r@, current as int, upper as int),
        spec_candidates_complete(route.tour@, r@, current as int, upper as int),
        forall|i: int, j: int| 0 <= i < j < r@.len() ==> #[trigger] r@[i] < #[trigger] r@[j],
{
    let ghost tour = route.tour@;
    let total = route.tour.len();

    // Break-offset triples of the route's activities.
    let mut offsets: Vec<(i64, i64, i64)> = Vec::new();
    let ghost mut offset_sources: Seq<int> = Seq::empty();
    let mut i: usize = 0;
    while i < total
        invariant
            route.wf(),
            tour == route.tour@,
            total == tour.len(),
            0 <= i <= total,
            offsets@.len() == offset_sources.len(),
            forall|m: int| 0 <= m < offsets@.len() ==> {
                let src = #[trigger] offset_sources[m];
                &&& 0 <= src < tour.len()
                &&& spec_offset_triple(tour[src]) == Some((
                    offsets@[m].0 as int,
                    offsets@[m].1 as int,
                    offsets@[m].2 as int,
                ))
            },
            forall|m: int| 0 <= m < offsets@.len() ==> {
                let o = #[trigger] offsets@[m];
                -MAX_TIME <= o.0 <= MAX_TIME && -MAX_TIME <= o.1 <= MAX_TIME && 0 <= o.2 <= MAX_TIME
            },
            forall|i0: int| 0 <= i0 < i && (#[trigger] spec_offset_triple(tour[i0])) is Some
                ==> exists|m: int| 0 <= m < offset_sources.len() && #[trigger] offset_sources[m] == i0,
        decreases total - i,
    {
        let ghost sources_before = offset_sources;
        if route.tour[i].job.is_some() {
            let times = &route.tour[i].place.times;
            let mut k: usize = 0;
            let mut found: Option<usize> = None;
            while k < times.len() && found.is_none()
                invariant
                    0 <= k <= times@.len(),
                    found is None ==> spec_first_offset_span(times@, 0)
                        == spec_first_offset_span(times@, k as int),
                    found is Some ==> found->0 < times@.len()
                        && times@[found->0 as int].is_offset()
                        && spec_first_offset_span(times@, 0) == Some(found->0 as int),
                decreases times@.len() - k,
            {
                if matches!(&times[k], TimeSpan::Offset(_)) {
                    found = Some(k);
                }
                k = k + 1;
            }
            match found {
                Some(k2) => {
                    match &route.tour[i].place.times[k2] {
                        TimeSpan::Offset(o) => {
                            offsets.push((o.start, o.end, route.tour[i].place.duration));
                            proof {
                                offset_sources = offset_sources.push(i as int);
                                assert(offset_sources[offset_sources.len() - 1] == i as int);
                            }
                        },
                        TimeSpan::Window(_) => {
                            proof {
                                assert(false);
                            }
                        },
                    }
                },
                None => {
                    proof {
                        assert(spec_offset_triple(tour[i as int]) is None);
                    }
                },
            }
        } else {
            proof {
                assert(spec_offset_triple(tour[i as int]) is None);
            }
        }
        proof {
            assert forall|i0: int| 0 <= i0 < i + 1 && (#[trigger] spec_offset_triple(tour[i0])) is Some
                implies exists|m: int| 0 <= m < offset_sources.len() && #[trigger] offset_sources[m] == i0 by {
                if i0 < i {
                    let m0 = choose|m0: int| 0 <= m0 < sources_before.len()
                        && (#[trigger] sources_before[m0]) == i0;
                    assert(offset_sources[m0] == i0);
                } else {
                    assert(offset_sources[offset_sources.len() - 1] == i0);
                }
            }
        }
        i = i + 1;
    }

    // Window boundaries of job activities that carry an absolute span.
    let mut boundaries: Vec<i64> = Vec::new();
    let ghost mut boundary_sources: Seq<int> = Seq::empty();
    let mut j: usize = 0;
    while j < total
        invariant
            route.wf(),
            tour == route.tour@,
            total == tour.len(),
            0 <= j <= total,
            boundaries@.len() == boundary_sources.len(),
            forall|m: int| 0 <= m < boundaries@.len() ==> {
                let src = #[trigger] boundary_sources[m];
                &&& 0 <= src < tour.len()
                &&& spec_contributes_boundaries(tour[src])
                &&& (boundaries@[m] == tour[src].place.time.start
                    || boundaries@[m] == tour[src].place.time.end)
            },
            forall|j0: int| 0 <= j0 < j && #[trigger] spec_contributes_boundaries(tour[j0])
                ==> (exists|m: int| 0 <= m < boundaries@.len()
                        && #[trigger] boundary_sources[m] == j0
                        && boundaries@[m] == tour[j0].place.time.start)
                    && (exists|m: int| 0 <= m < boundaries@.len()
                        && #[trigger] boundary_sources[m] == j0
                        && boundaries@[m] == tour[j0].place.time.end),
        decreases total - j,
    {
        let ghost bounds_before = boundaries@;
        let ghost bsources_before = boundary_sources;
        if route.tour[j].job.is_some() {
            let times = &route.tour[j].place.times;
            let mut k: usize = 0;
            let mut has_window = false;
            while k < times.len()
                invariant
                    route.wf(),
                    tour == route.tour@,
                    0 <= j < total == tour.len(),
                    0 <= k <= times@.len(),
                    times == tour[j as int].place.times,
                    tour[j as int].has_job(),
                    has_window ==> spec_contributes_boundaries(tour[j as int]),
                    !has_window ==> forall|k0: int| 0 <= k0 < k
                        ==> (#[trigger] times@[k0]).is_offset(),
                decreases times@.len() - k,
            {
                if matches!(&times[k], TimeSpan::Window(_)) {
                    proof {
                        assert(!tour[j as int].place.times@[k as int].is_offset());
                    }
                    has_window = true;
                }
                k = k + 1;
            }
            if has_window {
                boundaries.push(route.tour[j].place.time.start);
                proof {
                    boundary_sources = boundary_sources.push(j as int);
                }
                boundaries.push(route.tour[j].place.time.end);
                proof {
                    boundary_sources = boundary_sources.push(j as int);
                    assert(boundary_sources[boundary_sources.len() - 2] == j as int);
                    assert(boundaries@[boundaries@.len() - 2] == tour[j as int].place.time.start);
                    assert(boundary_sources[boundary_sources.len() - 1] == j as int);
                    assert(boundaries@[boundaries@.len() - 1] == tour[j as int].place.time.end);
                }
            } else {
                proof {
                    assert(!spec_contributes_boundaries(tour[j as int]));
                }
            }
        } else {
            proof {
                assert(!spec_contributes_boundaries(tour[j as int]));
            }
        }
        proof {
            assert forall|j0: int| 0 <= j0 < j + 1 && #[trigger] spec_contributes_boundaries(tour[j0])
                implies (exists|m: int| 0 <= m < boundaries@.len()
                        && #[trigger] boundary_sources[m] == j0
                        && boundaries@[m] == tour[j0].place.time.start)
                    && (exists|m: int| 0 <= m < boundaries@.len()
                        && #[trigger] boundary_sources[m] == j0
                        && boundaries@[m] == tour[j0].place.time.end) by {
                if j0 < j {
                    let m1 = choose|m1: int| 0 <= m1 < bounds_before.len()
                        && (#[trigger] bsources_before[m1]) == j0
                        && bounds_before[m1] == tour[j0].place.time.start;
                    assert(boundary_sources[m1] == j0 && boundaries@[m1] == tour[j0].place.time.start);
                    let m2 = choose|m2: int| 0 <= m2 < bounds_before.len()
                        && (#[trigger] bsources_before[m2]) == j0
                        && bounds_before[m2] == tour[j0].place.time.end;
                    assert(boundary_sources[m2] == j0 && boundaries@[m2] == tour[j0].place.time.end);
                } else {
                    assert(boundary_sources[boundary_sources.len() - 2] == j0);
                    assert(boundary_sources[boundary_sources.len() - 1] == j0);
                }
            }
        }
        j = j + 1;
    }

    // Raw candidates from every triple and boundary.
    let mut candidates: Vec<i64> = Vec::new();
    let mut a: usize = 0;
    while a < offsets.len()
        invariant
            route.wf(),
            tour == route.tour@,
            sched_bounded(current as int),
            sched_bounded(upper as int),
            0 <= a <= offsets@.len(),
            offsets@.len() == offset_sources.len(),
            boundaries@.len() == boundary_sources.len(),
            forall|m: int| 0 <= m < offsets@.len() ==> {
                let src = #[trigger] offset_sources[m];
                &&& 0 <= src < tour.len()
                &&& spec_offset_triple(tour[src]) == Some((
                    offsets@[m].0 as int,
                    offsets@[m].1 as int,
                    offsets@[m].2 as int,
                ))
            },
            forall|m: int| 0 <= m < boundaries@.len() ==> {
                let src = #[trigger] boundary_sources[m];
                &&& 0 <= src < tour.len()
                &&& spec_contributes_boundaries(tour[src])
                &&& (boundaries@[m] == tour[src].place.time.start
                    || boundaries@[m] == tour[src].place.time.end)
            },
            forall|m: int| 0 <= m < offsets@.len() ==> {
                let o = #[trigger] offsets@[m];
                -MAX_TIME <= o.0 <= MAX_TIME && -MAX_TIME <= o.1 <= MAX_TIME && 0 <= o.2 <= MAX_TIME
            },
            spec_candidates_ok(tour, candidates@, current as int, upper as int),
            forall|m: int, n: int| 0 <= m < a && 0 <= n < boundaries@.len()
                ==> #[trigger] spec_hedges_included(
                    candidates@,
                    offsets@[m].0 as int,
                    offsets@[m].1 as int,
                    offsets@[m].2 as int,
                    boundaries@[n] as int,
                    current as int,
                    upper as int,
                ),
        decreases offsets@.len() - a,
    {
        let (os, oe, dur) = (offsets[a].0, offsets[a].1, offsets[a].2);
        let mut b: usize = 0;
        while b < boundaries.len()
            invariant
                route.wf(),
                tour == route.tour@,
                sched_bounded(current as int),
                sched_bounded(upper as int),
                0 <= a < offsets@.len(),
                0 <= b <= boundaries@.len(),
                offsets@.len() == offset_sources.len(),
                boundaries@.len() == boundary_sources.len(),
                os == offsets@[a as int].0 && oe == offsets@[a as int].1 && dur == offsets@[a as int].2,
                -MAX_TIME <= os <= MAX_TIME && -MAX_TIME <= oe <= MAX_TIME && 0 <= dur <= MAX_TIME,
                forall|m: int| 0 <= m < offsets@.len() ==> {
                    let src = #[trigger] offset_sources[m];
                    &&& 0 <= src < tour.len()
                    &&& spec_offset_triple(tour[src]) == Some((
                        offsets@[m].0 as int,
                        offsets@[m].1 as int,
                        offsets@[m].2 as int,
                    ))
                },
                forall|m: int| 0 <= m < boundaries@.len() ==> {
                    let src = #[trigger] boundary_sources[m];
                    &&& 0 <= src < tour.len()
                    &&& spec_contributes_boundaries(tour[src])
                    &&& (boundaries@[m] == tour[src].place.time.start
                        || boundaries@[m] == tour[src].place.time.end)
                },
                spec_candidates_ok(tour, candidates@, current as int, upper as int),
                forall|m: int, n: int| 0 <= m < a && 0 <= n < boundaries@.len()
                    ==> #[trigger] spec_hedges_included(
                        candidates@,
                        offsets@[m].0 as int,
                        offsets@[m].1 as int,
                        offsets@[m].2 as int,
                        boundaries@[n] as int,
                        current as int,
                        upper as int,
                    ),
                forall|n: int| 0 <= n < b
                    ==> #[trigger] spec_hedges_included(
                        candidates@,
                        os as int,
                        oe as int,
                        dur as int,
                        boundaries@[n] as int,
                        current as int,
                        upper as int,
                    ),
            decreases boundaries@.len() - b,
        {
            let ghost src_i = offset_sources[a as int];
            let ghost src_j = boundary_sources[b as int];
            let boundary = boundaries[b];
            proof {
                assert(tour[src_j].wf());
                assert(tour[src_j].place.time.win_ok());
            }
            let ghost old_len = candidates@.len();
            let ghost cands_before = candidates@;
            push_candidate(&mut candidates, boundary - oe - dur, current, upper, EPSILON);
            push_candidate(&mut candidates, boundary - oe, current, upper, EPSILON);
            push_candidate(&mut candidates, boundary - os, current, upper, EPSILON);
            proof {
                assert forall|m: int| 0 <= m < candidates@.len()
                    implies {
                        let v = #[trigger] candidates@[m] as int;
                        (current as int) < v < (upper as int) && spec_is_critical_candidate(tour, v)
                    }
                by {
                    if m >= old_len {
                        let v = candidates@[m] as int;
                        assert(spec_candidate_pair(tour[src_i], tour[src_j], v));
                        assert(spec_is_critical_candidate(tour, v));
                    }
                }
                // Earlier pairs stay covered: pushing only appends.
                assert forall|v: i64| cands_before.contains(v)
                    implies #[trigger] candidates@.contains(v) by {
                    let q = choose|q: int| 0 <= q < cands_before.len()
                        && (#[trigger] cands_before[q]) == v;
                    assert(candidates@[q] == v);
                }
                assert forall|m: int, n: int| 0 <= m < a && 0 <= n < boundaries@.len()
                    implies #[trigger] spec_hedges_included(
                        candidates@,
                        offsets@[m].0 as int,
                        offsets@[m].1 as int,
                        offsets@[m].2 as int,
                        boundaries@[n] as int,
                        current as int,
                        upper as int,
                    ) by {
                    lemma_hedges_monotone(
                        cands_before,
                        candidates@,
                        offsets@[m].0 as int,
                        offsets@[m].1 as int,
                        offsets@[m].2 as int,
                        boundaries@[n] as int,
                        current as int,
                        upper as int,
                    );
                }
                assert forall|n: int| 0 <= n < b
                    implies #[trigger] spec_hedges_included(
                        candidates@,
                        os as int,
                        oe as int,
                        dur as int,
                        boundaries@[n] as int,
                        current as int,
                        upper as int,
                    ) by {
                    lemma_hedges_monotone(
                        cands_before,
                        candidates@,
                        os as int,
                        oe as int,
                        dur as int,
                        boundaries@[n] as int,
                        current as int,
                        upper as int,
                    );
                }
                // This pair is now covered: the three hedged formulas were
                // pushed for this boundary.
                assert(spec_hedges_included(
                    candidates@,
                    os as int,
                    oe as int,
                    dur as int,
                    boundary as int,
                    current as int,
                    upper as int,
                )) by {
                    assert forall|v: i64|
                        #![trigger spec_near(v as int, boundary - oe - dur)]
                        #![trigger spec_near(v as int, boundary - oe)]
                        #![trigger spec_near(v as int, boundary - os)]
                        current < v && (v as int) < upper
                        && (spec_near(v as int, boundary - oe - dur)
                            || spec_near(v as int, boundary - oe)
                            || spec_near(v as int, boundary - os))
                        implies candidates@.contains(v) by {
                        if spec_near(v as int, boundary - oe - dur) {
                            assert(v == boundary - oe - dur - EPSILON || v == boundary - oe - dur
                                || v == boundary - oe - dur + EPSILON);
                        } else if spec_near(v as int, boundary - oe) {
                            assert(v == boundary - oe - EPSILON || v == boundary - oe
                                || v == boundary - oe + EPSILON);
                        } else {
                            assert(v == boundary - os - EPSILON || v == boundary - os
                                || v == boundary - os + EPSILON);
                        }
                    }
                }
            }
            b = b + 1;
        }
        a = a + 1;
    }

    // Every hedged alignment value in range is now present.
    let ghost raw = candidates@;
    proof {
        assert forall|v: i64| current < v && (v as int) < (upper as int)
            && #[trigger] spec_is_critical_candidate(tour, v as int)
            implies raw.contains(v) by {
            let (wi, wj) = choose|wi: int, wj: int| 0 <= wi < tour.len() && 0 <= wj < tour.len()
                && #[trigger] spec_candidate_pair(tour[wi], tour[wj], v as int);
            assert(spec_offset_triple(tour[wi]) is Some);
            let m = choose|m: int| 0 <= m < offset_sources.len() && (#[trigger] offset_sources[m]) == wi;
            let lo = tour[wj].place.time.start;
            let hi = tour[wj].place.time.end;
            assert(spec_contributes_boundaries(tour[wj]));
            let n1 = choose|n1: int| 0 <= n1 < boundaries@.len()
                && (#[trigger] boundary_sources[n1]) == wj
                && boundaries@[n1] == tour[wj].place.time.start;
            let n2 = choose|n2: int| 0 <= n2 < boundaries@.len()
                && (#[trigger] boundary_sources[n2]) == wj
                && boundaries@[n2] == tour[wj].place.time.end;
            assert(spec_hedges_included(
                raw,
                offsets@[m].0 as int,
                offsets@[m].1 as int,
                offsets@[m].2 as int,
                boundaries@[n1] as int,
                current as int,
                upper as int,
            ));
            assert(spec_hedges_included(
                raw,
                offsets@[m].0 as int,
                offsets@[m].1 as int,
                offsets@[m].2 as int,
                boundaries@[n2] as int,
                current as int,
                upper as int,
            ));
            let os0 = offsets@[m].0 as int;
            let oe0 = offsets@[m].1 as int;
            let dur0 = offsets@[m].2 as int;
            assert(spec_offset_triple(tour[wi]) == Some((os0, oe0, dur0)));
            let bd1 = boundaries@[n1] as int;
            let bd2 = boundaries@[n2] as int;
            assert(bd1 == lo as int);
            assert(bd2 == hi as int);
            if spec_near(v as int, lo - oe0 - dur0) || spec_near(v as int, lo - oe0)
                || spec_near(v as int, lo - os0) {
                assert(spec_near(v as int, bd1 - oe0 - dur0) || spec_near(v as int, bd1 - oe0)
                    || spec_near(v as int, bd1 - os0));
                assert(raw.contains(v));
            } else {
                assert(spec_near(v as int, hi - oe0 - dur0) || spec_near(v as int, hi - oe0)
                    || spec_near(v as int, hi - os0));
                assert(spec_near(v as int, bd2 - oe0 - dur0) || spec_near(v as int, bd2 - oe0)
                    || spec_near(v as int, bd2 - os0));
                assert(raw.contains(v));
            }
        }
    }

    // Sort ascending, then drop duplicates; both keep exactly these values.
    let sorted = sort_candidates(candidates, Ghost(tour), Ghost(current as int), Ghost(upper as int));
    dedup_sorted(sorted, Ghost(tour), Ghost(current as int), Ghost(upper as int))
}

/// Insertion sort over the candidate values: the result holds exactly the
/// input values (as a multiset), ascending.
fn sort_candidates(vs: Vec<i64>, Ghost(tour): Ghost<Seq<Activity>>, Ghost(current): Ghost<int>, Ghost(upper): Ghost<int>) -> (r: Vec<i64>)
    requires
        spec_candidates_ok(tour, vs@, current, upper),
    ensures
        spec_candidates_ok(tour, r@, current, upper),
        forall|i: int, j: int| 0 <= i <= j < r@.len() ==> #[trigger] r@[i] <= #[trigger] r@[j],
        r@.to_multiset() == vs@.to_multiset(),
        forall|v: i64| r@.contains(v) <==> vs@.contains(v),
{
    let mut out: Vec<i64> = Vec::new();
    proof {
        assert(out@ =~= vs@.take(0));
    }
    let mut i: usize = 0;
    while i < vs.len()
        invariant
            spec_candidates_ok(tour, vs@, current, upper),
            spec_candidates_ok(tour, out@, current, upper),
            forall|p: int, q: int| 0 <= p <= q < out@.len() ==> #[trigger] out@[p] <= #[trigger] out@[q],
            0 <= i <= vs@.len(),
            out@.to_multiset() == vs@.take(i as int).to_multiset(),
        decreases vs@.len() - i,
    {
        let v = vs[i];
        // Find the insertion point.
        let mut pos: usize = 0;
        while pos < out.len() && out[pos] <= v
            invariant
                0 <= pos <= out@.len(),
                forall|p: int| 0 <= p < pos ==> #[trigger] out@[p] <= v,
            decreases out@.len() - pos,
        {
            pos = pos + 1;
        }
        proof {
            assert(pos < out@.len() ==> out@[pos as int] > v);
        }
        let ghost out_before = out@;
        out.insert(pos, v);
        proof {
            crate::breaks::lemma_insert_multiset(out_before, v, pos as int);
            assert(vs@.take(i + 1 as int) =~= vs@.take(i as int).push(vs@[i as int]));
            crate::breaks::lemma_push_multiset(vs@.take(i as int), vs@[i as int]);
        }
        i = i + 1;
    }
    proof {
        assert(vs@.take(vs@.len() as int) =~= vs@);
        out@.to_multiset_ensures();
        vs@.to_multiset_ensures();
        assert(forall|v: i64| out@.contains(v) <==> out@.to_multiset().count(v) > 0);
        assert(forall|v: i64| vs@.contains(v) <==> vs@.to_multiset().count(v) > 0);
    }
    out
}

/// Keeps the first occurrence of each value of an ascending vector: the
/// result is strictly ascending and holds exactly the input's values.
fn dedup_sorted(vs: Vec<i64>, Ghost(tour): Ghost<Seq<Activity>>, Ghost(current): Ghost<int>, Ghost(upper): Ghost<int>) -> (r: Vec<i64>)
    requires
        spec_candidates_ok(tour, vs@, current, upper),
        forall|i: int, j: int| 0 <= i <= j < vs@.len() ==> #[trigger] vs@[i] <= #[trigger] vs@[j],
    ensures
        spec_candidates_ok(tour, r@, current, upper),
        forall|i: int, j: int| 0 <= i < j < r@.len() ==> #[trigger] r@[i] < #[trigger] r@[j],
        forall|v: i64| r@.contains(v) <==> vs@.contains(v),
{
    let mut out: Vec<i64> = Vec::new();
    let mut i: usize = 0;
    while i < vs.len()
        invariant
            spec_candidates_ok(tour, vs@, current, upper),
            forall|p: int, q: int| 0 <= p <= q < vs@.len() ==> #[trigger] vs@[p] <= #[trigger] vs@[q],
            spec_candidates_ok(tour, out@, current, upper),
            forall|p: int, q: int| 0 <= p < q < out@.len() ==> #[trigger] out@[p] < #[trigger] out@[q],
            0 <= i <= vs@.len(),
            out@.len() > 0 ==> i > 0,
            forall|p: int| 0 <= p < out@.len() ==> exists|q: int| 0 <= q < i && #[trigger] out@[p] == vs@[q],
            i > 0 && out@.len() > 0 ==> out@[out@.len() - 1] == vs@[i - 1]
                || out@[out@.len() - 1] <= vs@[i - 1],
            forall|v: i64| out@.contains(v) <==> vs@.take(i as int).contains(v),
        decreases vs@.len() - i,
    {
        let v = vs[i];
        let take = if out.len() == 0 {
            true
        } else {
            out[out.len() - 1] < v
        };
        let ghost out_before = out@;
        if take {
            out.push(v);
        }
        proof {
            assert(vs@.take(i + 1 as int) =~= vs@.take(i as int).push(vs@[i as int]));
            if !take {
                // Sorted input: a skipped value equals the last kept one.
                let last = out_before[out_before.len() - 1];
                assert(out_before.contains(last));
                let q = choose|q: int| 0 <= q < i && (#[trigger] vs@[q]) == last;
                assert(vs@[q] <= vs@[i as int]);
                assert(last == v);
            }
            let ghost taken_now = vs@.take(i as int);
            let ghost taken_next = vs@.take(i + 1 as int);
            assert forall|w: i64| out@.contains(w) <==> taken_next.contains(w) by {
                if out@.contains(w) {
                    let p = choose|p: int| 0 <= p < out@.len() && (#[trigger] out@[p]) == w;
                    if take && p == out@.len() - 1 {
                        assert(taken_next[i as int] == w);
                    } else {
                        assert(out_before.contains(w));
                        let q2 = choose|q2: int| 0 <= q2 < taken_now.len()
                            && (#[trigger] taken_now[q2]) == w;
                        assert(taken_next[q2] == w);
                    }
                }
                if taken_next.contains(w) {
                    let q3 = choose|q3: int| 0 <= q3 < taken_next.len()
                        && (#[trigger] taken_next[q3]) == w;
                    if q3 < i {
                        assert(taken_now[q3] == w);
                        assert(out_before.contains(w));
                        let p2 = choose|p2: int| 0 <= p2 < out_before.len()
                            && (#[trigger] out_before[p2]) == w;
                        assert(out@[p2] == w);
                    } else {
                        assert(w == v);
                        if take {
                            assert(out@[out@.len() - 1] == w);
                        } else {
                            assert(out@[out@.len() - 1] == w);
                        }
                    }
                }
            }
        }
        i = i + 1;
    }
    proof {
        assert(vs@.take(vs@.len() as int) =~= vs@);
    }
    out
}

/// The tour the candidate descent leaves behind: candidates are taken from
/// index `k - 1` downward; one strictly inside `(current, upper)` is tried by
/// rebinding the departure there, and the first feasible result is kept; when
/// none is, the departure is rebound back to `current`.
pub open spec fn spec_advance_steps(
    t: TransportModel,
    ac: ActivityCostModel,
    span: crate::model::RouteCostSpan,
    tour_cur: Seq<Activity>,
    cands: Seq<i64>,
    k: int,
    current: int,
    upper: int,
) -> Seq<Activity>
    decreases k,
{
    if k <= 0 {
        spec_departure_updated_tour(t, ac, span, tour_cur, current)
    } else {
        let c = cands[k - 1] as int;
        if c <= current || c >= upper {
            spec_advance_steps(t, ac, span, tour_cur, cands, k - 1, current, upper)
        } else {
            let s = spec_departure_updated_tour(t, ac, span, tour_cur, c);
            if spec_feasible_seq(t, ac, span, s) {
                s
            } else {
                spec_advance_steps(t, ac, span, s, cands, k - 1, current, upper)
            }
        }
    }
}

/// What the advance commits when its target is `u`: the departure is rebound
/// to `u` and kept when feasible there; otherwise the critical candidates of
/// the rebound tour — a strictly ascending list that is sound and complete
/// for the open interval `(current, u)` — are tried from the highest down,
/// and when none yields a feasible schedule the departure is rebound back to
/// `current`.
pub open spec fn spec_advance_witness(
    t: TransportModel,
    ac: ActivityCostModel,
    span: crate::model::RouteCostSpan,
    tour0: Seq<Activity>,
    final_tour: Seq<Activity>,
    u: int,
    cands: Seq<i64>,
) -> bool {
    let current = tour0[0].schedule.departure as int;
    let tour1 = spec_departure_updated_tour(t, ac, span, tour0, u);
    &&& (!spec_feasible_seq(t, ac, span, tour1) ==> {
        &&& (forall|i: int, j: int| 0 <= i < j < cands.len() ==> #[trigger] cands[i] < #[trigger] cands[j])
        &&& spec_candidates_ok(tour1, cands, current, u)
        &&& spec_candidates_complete(tour1, cands, current, u)
    })
    &&& final_tour == (if spec_feasible_seq(t, ac, span, tour1) {
        tour1
    } else {
        spec_advance_steps(t, ac, span, tour1, cands, cands.len() as int, current, u)
    })
}

/// Tries to move the route's departure forward: computes the advance target,
/// commits it when the schedule stays feasible, else tries the critical
/// candidates from the highest down, else restores the current departure.
/// The start departure never decreases, and on return the schedule is
/// feasible or the departure is back at its old value.
pub fn advance_departure_time(
    route_ctx: &mut RouteContext,
    activity: &ActivityCostModel,
    transport: &TransportModel,
    consider_whole_tour: bool,
)
    requires
        old(route_ctx).route.wf(),
        activity.wf(),
        transport.wf(),
        tour_locs_ok(transport.metric, old(route_ctx).route.tour@),
        actor_locs_ok(transport.metric, old(route_ctx).route),
        old(route_ctx).route.actor.detail.start is Some || old(route_ctx).route.actor.detail.end is Some,
    ensures
        final(route_ctx).route.wf(),
        final(route_ctx).route.actor == old(route_ctx).route.actor,
        tour_locs_ok(transport.metric, final(route_ctx).route.tour@),
        final(route_ctx).route.tour@[0].schedule.departure
            >= old(route_ctx).route.tour@[0].schedule.departure,
        spec_feasible(*transport, *activity, final(route_ctx).route)
            || final(route_ctx).route.tour@[0].schedule.departure
                == old(route_ctx).route.tour@[0].schedule.departure,
        spec_try_advance(*transport, old(route_ctx).route, consider_whole_tour) is None
            ==> *final(route_ctx) == *old(route_ctx),
        (match spec_try_advance(*transport, old(route_ctx).route, consider_whole_tour) {
            Some(u) => exists|cands: Seq<i64>| #[trigger] spec_advance_witness(
                *transport,
                *activity,
                old(route_ctx).route.actor.spec_cost_span(),
                old(route_ctx).route.tour@,
                final(route_ctx).route.tour@,
                u,
                cands,
            ),
            None => true,
        }),
{
    let ghost t = *transport;
    let ghost ac = *activity;
    let ghost span = old(route_ctx).route.actor.spec_cost_span();
    let ghost tour0 = old(route_ctx).route.tour@;

    let upper = match try_advance_departure_time(route_ctx, transport, consider_whole_tour) {
        Some(u) => u,
        None => {
            return;
        },
    };
    proof {
        assert(spec_try_advance(*transport, old(route_ctx).route, consider_whole_tour) is Some);
        assert(spec_try_advance(*transport, old(route_ctx).route, consider_whole_tour)->0 == upper as int);
    }
    let current = route_ctx.route.tour[0].schedule.departure;

    // Fast path: try the upper bound directly.
    update_route_departure(route_ctx, activity, transport, upper);
    let ghost tour1 = route_ctx.route.tour@;
    proof {
        assert(tour1 == spec_departure_updated_tour(t, ac, span, tour0, upper as int));
    }
    if is_schedule_feasible(&route_ctx.route, activity, transport) {
        proof {
            let ghost empty: Seq<i64> = Seq::empty();
            assert(spec_advance_witness(t, ac, span, tour0, route_ctx.route.tour@, upper as int, empty));
        }
        return;
    }

    // Slow path: critical departure candidates, highest first.
    let candidates = compute_critical_departures(&route_ctx.route, current, upper);
    let ghost cands = candidates@;
    let ghost outcome = spec_advance_steps(t, ac, span, tour1, cands, cands.len() as int, current as int, upper as int);
    let mut k = candidates.len();
    while k > 0
        invariant
            activity.wf(),
            transport.wf(),
            t == *transport,
            ac == *activity,
            span == old(route_ctx).route.actor.spec_cost_span(),
            tour0 == old(route_ctx).route.tour@,
            old(route_ctx).route.wf(),
            route_ctx.route.wf(),
            route_ctx.route.actor == old(route_ctx).route.actor,
            tour_locs_ok(transport.metric, route_ctx.route.tour@),
            actor_locs_ok(transport.metric, route_ctx.route),
            route_ctx.route.actor.detail.start is Some || route_ctx.route.actor.detail.end is Some,
            cands == candidates@,
            0 <= k <= cands.len(),
            current == old(route_ctx).route.tour@[0].schedule.departure,
            -MAX_TIME <= current <= MAX_DEP,
            upper <= MAX_DEP,
            route_ctx.route.tour@[0].schedule.departure >= current,
            spec_try_advance(*transport, old(route_ctx).route, consider_whole_tour) is Some,
            spec_try_advance(*transport, old(route_ctx).route, consider_whole_tour)->0 == upper as int,
            tour1 == spec_departure_updated_tour(t, ac, span, tour0, upper as int),
            !spec_feasible_seq(t, ac, span, tour1),
            forall|i: int, j: int| 0 <= i < j < cands.len() ==> #[trigger] cands[i] < #[trigger] cands[j],
            spec_candidates_ok(tour1, cands, current as int, upper as int),
            spec_candidates_complete(tour1, cands, current as int, upper as int),
            outcome == spec_advance_steps(t, ac, span, tour1, cands, cands.len() as int, current as int, upper as int),
            outcome == spec_advance_steps(
                t,
                ac,
                span,
                route_ctx.route.tour@,
                cands,
                k as int,
                current as int,
                upper as int,
            ),
        decreases k,
    {
        k = k - 1;
        let candidate = candidates[k];
        if candidate <= current || candidate >= upper {
            continue;
        }
        let ghost prev = route_ctx.route.tour@;
        update_route_departure(route_ctx, activity, transport, candidate);
        proof {
            assert(route_ctx.route.tour@
                == spec_departure_updated_tour(t, ac, span, prev, candidate as int));
        }
        if is_schedule_feasible(&route_ctx.route, activity, transport) {
            proof {
                assert(outcome == route_ctx.route.tour@);
                assert(spec_advance_witness(t, ac, span, tour0, route_ctx.route.tour@, upper as int, cands));
            }
            return;
        }
    }

    // Fallback: restore the current departure.
    let ghost prev = route_ctx.route.tour@;
    update_route_departure(route_ctx, activity, transport, current);
    proof {
        assert(route_ctx.route.tour@
            == spec_departure_updated_tour(t, ac, span, prev, current as int));
        assert(outcome == route_ctx.route.tour@);
        assert(spec_advance_witness(t, ac, span, tour0, route_ctx.route.tour@, upper as int, cands));
    }
}

/// Tries to move the route's departure backward by the slack the first
/// activity and the duration limit allow; restores the current departure when
/// the earlier schedule turns out infeasible. The start departure never
/// increases, and on return the schedule is feasible or the departure is back
/// at its old value.
pub fn recede_departure_time(
    route_ctx: &mut RouteContext,
    activity: &ActivityCostModel,
    transport: &TransportModel,
)
    requires
        old(route_ctx).route.wf(),
        activity.wf(),
        transport.wf(),
        tour_locs_ok(transport.metric, old(route_ctx).route.tour@),
        actor_locs_ok(transport.metric, old(route_ctx).route),
        old(route_ctx).route.actor.detail.start is Some || old(route_ctx).route.actor.detail.end is Some,
        forall|j: int| 0 <= j < old(route_ctx).state.latest_arrivals@.len()
            ==> sched_bounded(#[trigger] old(route_ctx).state.latest_arrivals@[j] as int),
        old(route_ctx).state.total_duration is Some
            ==> -2 * MAX_SCHED <= old(route_ctx).state.total_duration->0 <= 2 * MAX_SCHED,
        old(route_ctx).state.limit_duration is Some
            ==> sched_bounded(old(route_ctx).state.limit_duration->0 as int),
    ensures
        final(route_ctx).route.wf(),
        final(route_ctx).route.actor == old(route_ctx).route.actor,
        tour_locs_ok(transport.metric, final(route_ctx).route.tour@),
        final(route_ctx).route.tour@[0].schedule.departure
            <= old(route_ctx).route.tour@[0].schedule.departure,
        spec_feasible(*transport, *activity, final(route_ctx).route)
            || final(route_ctx).route.tour@[0].schedule.departure
                == old(route_ctx).route.tour@[0].schedule.departure,
        spec_try_recede(old(route_ctx).route, old(route_ctx).state) is None
            ==> *final(route_ctx) == *old(route_ctx),
        (match spec_try_recede(old(route_ctx).route, old(route_ctx).state) {
            Some(d) => {
                let t = *transport;
                let ac = *activity;
                let span = old(route_ctx).route.actor.spec_cost_span();
                let tour0 = old(route_ctx).route.tour@;
                let moved = spec_departure_updated_tour(t, ac, span, tour0, d);
                final(route_ctx).route.tour@ == (if spec_feasible_seq(t, ac, span, moved) {
                    moved
                } else {
                    spec_departure_updated_tour(
                        t,
                        ac,
                        span,
                        moved,
                        tour0[0].schedule.departure as int,
                    )
                })
            },
            None => true,
        }),
{
    let ghost t = *transport;
    let ghost ac = *activity;
    let ghost span = old(route_ctx).route.actor.spec_cost_span();
    let ghost tour0 = old(route_ctx).route.tour@;

    let new_departure_time = match try_recede_departure_time(route_ctx) {
        Some(d) => d,
        None => {
            return;
        },
    };
    let current = route_ctx.route.tour[0].schedule.departure;

    update_route_departure(route_ctx, activity, transport, new_departure_time);
    let ghost moved = route_ctx.route.tour@;
    proof {
        assert(moved == spec_departure_updated_tour(t, ac, span, tour0, new_departure_time as int));
    }
    if is_schedule_feasible(&route_ctx.route, activity, transport) {
        return;
    }

    // Infeasible: restore the current departure.
    update_route_departure(route_ctx, activity, transport, current);
    proof {
        assert(route_ctx.route.tour@
            == spec_departure_updated_tour(t, ac, span, moved, current as int));
    }
}

/// Advancing is idempotent in the first-leg regime without reserved times:
/// once the departure stands at the advance target, computing the target
/// again moves nothing, so a second advance is a no-op.
pub proof fn lemma_advance_idempotent_first_leg(
    t: TransportModel,
    r1: Route,
    r2: Route,
)
    requires
        t.reserved@.len() == 0,
        r1.tour@.len() >= 2,
        r2.tour@.len() >= 2,
        spec_try_advance(t, r1, false) is Some,
        r2.tour@[0].schedule.departure as int == spec_try_advance(t, r1, false)->0,
        r2.tour@[0].place.location == r1.tour@[0].place.location,
        r2.tour@[1].place.location == r1.tour@[1].place.location,
        r2.tour@[1].place.time.start == r1.tour@[1].place.time.start,
        r2.actor.detail.start == r1.actor.detail.start,
    ensures
        spec_try_advance(t, r2, false) is None,
{
    let dep1 = r1.tour@[0].schedule.departure as int;
    let dep2 = r2.tour@[0].schedule.departure as int;
    let base = crate::transport::spec_base_duration(
        t.metric,
        r1.tour@[0].place.location as int,
        r1.tour@[1].place.location as int,
    );
    // Without reserved spans the travel duration is the base metric duration,
    // whatever the departure or anchor.
    assert(spec_duration_dep(
        t,
        spec_anchor(r1.actor.spec_cost_span(), r1.tour@),
        r1.tour@[0].place.location as int,
        r1.tour@[1].place.location as int,
        dep1,
    ) == base);
    assert(spec_duration_dep(
        t,
        spec_anchor(r2.actor.spec_cost_span(), r2.tour@),
        r2.tour@[0].place.location as int,
        r2.tour@[1].place.location as int,
        dep2,
    ) == base);
}

} // verus!
