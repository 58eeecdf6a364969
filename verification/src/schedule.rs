//! Schedule computation: the anchor resolver, the forward scheduling pass,
//! the non-mutating feasibility probe, the window rebinder and the schedule
//! update driver.

use vstd::prelude::*;
use crate::times::{Schedule, TimeSpan, MAX_TIME, MAX_WIN, MAX_SCHED, sched_bounded};
use crate::model::{Activity, Route, RouteContext, RouteCostSpan, MAX_DEP, MAX_RESERVED, MAX_ACTIVITIES};
use crate::transport::{
    TransportModel, ActivityCostModel, TravelMetric, TravelTime, spec_duration_dep,
    spec_departure_value, spec_estimate_departure, lemma_duration_bounds,
    lemma_departure_value_bounds,
};
use crate::state::{update_states, update_statistics};

verus! {

/// Largest growth of a schedule value over one activity of the forward pass:
/// travel plus service plus reserved extensions.
pub const SCHED_STEP: i64 = 20_000_000_000;

/// Every location of the tour is admissible for the travel metric.
pub open spec fn tour_locs_ok(m: TravelMetric, tour: Seq<Activity>) -> bool {
    forall|j: int| 0 <= j < tour.len() ==> m.loc_ok((#[trigger] tour[j]).place.location as int)
}

/// The offset anchor of a tour under a cost span: the start departure for
/// depot-anchored spans, the first job's arrival (when the activity at index
/// 1 carries a job) for first-job-anchored spans.
pub open spec fn spec_anchor(span: RouteCostSpan, tour: Seq<Activity>) -> int {
    let start_dep = if tour.len() > 0 { tour[0].schedule.departure as int } else { 0 };
    if span.anchors_on_first_job() {
        if tour.len() > 1 && tour[1].has_job() {
            tour[1].schedule.arrival as int
        } else {
            start_dep
        }
    } else {
        start_dep
    }
}

/// Returns the offset anchor timestamp of the route, selected by its cost
/// span: the start departure for depot-anchored spans, the first job's
/// arrival for first-job-anchored spans.
pub fn get_offset_anchor(route: &Route) -> (r: i64)
    requires
        route.wf(),
    ensures
        r == spec_anchor(route.actor.spec_cost_span(), route.tour@),
        sched_bounded(r as int),
{
    let span = route.actor.effective_cost_span();
    let start_departure = if route.tour.len() > 0 { route.tour[0].schedule.departure } else { 0 };
    match span {
        RouteCostSpan::DepotToDepot | RouteCostSpan::DepotToLastJob => start_departure,
        RouteCostSpan::FirstJobToDepot | RouteCostSpan::FirstJobToLastJob => {
            if route.tour.len() > 1 && route.tour[1].job.is_some() {
                route.tour[1].schedule.arrival
            } else {
                start_departure
            }
        },
    }
}

/// The stored schedule of the start activity, as mathematical values.
pub open spec fn spec_sched0(tour: Seq<Activity>) -> (int, int) {
    (tour[0].schedule.arrival as int, tour[0].schedule.departure as int)
}

/// The anchor seen part way through the mutating forward pass, when the
/// schedules in `scheds` have already been written back: the first job's
/// arrival comes from `scheds` once computed, else from the stored tour.
pub open spec fn spec_anchor_evolving(span: RouteCostSpan, tour: Seq<Activity>, scheds: Seq<(int, int)>) -> int {
    if span.anchors_on_first_job() && tour.len() > 1 && tour[1].has_job() {
        if scheds.len() > 1 {
            scheds[1].0
        } else {
            tour[1].schedule.arrival as int
        }
    } else {
        tour[0].schedule.departure as int
    }
}

/// The anchor the pass uses at each step: the given fixed one (the probe
/// never mutates, so its anchor never moves), or the evolving one of the
/// mutating pass.
pub open spec fn spec_pass_anchor(span: RouteCostSpan, tour: Seq<Activity>, scheds: Seq<(int, int)>, fixed: Option<int>) -> int {
    match fixed {
        Some(a) => a,
        None => spec_anchor_evolving(span, tour, scheds),
    }
}

/// Schedules of the first `n` activities under the forward pass: index 0
/// keeps the stored schedule; each later activity is reached after the travel
/// from its predecessor and departed at its service end. Total: a step that
/// departure estimation would reject still carries the service-end value.
pub open spec fn spec_pass(
    t: TransportModel,
    ac: ActivityCostModel,
    span: RouteCostSpan,
    tour: Seq<Activity>,
    fixed: Option<int>,
    n: int,
) -> Seq<(int, int)>
    decreases n,
{
    if n <= 1 {
        seq![spec_sched0(tour)]
    } else {
        let prefix = spec_pass(t, ac, span, tour, fixed, n - 1);
        let anchor = spec_pass_anchor(span, tour, prefix, fixed);
        let dep = prefix[n - 2].1;
        let arrival = dep + spec_duration_dep(
            t,
            anchor,
            tour[n - 2].place.location as int,
            tour[n - 1].place.location as int,
            dep,
        );
        prefix.push((arrival, spec_departure_value(ac, anchor, tour[n - 1].place, arrival)))
    }
}

/// Every step of the forward pass up to `n` is accepted by departure
/// estimation.
pub open spec fn spec_pass_ok(
    t: TransportModel,
    ac: ActivityCostModel,
    span: RouteCostSpan,
    tour: Seq<Activity>,
    fixed: Option<int>,
    n: int,
) -> bool
    decreases n,
{
    if n <= 1 {
        true
    } else {
        let prefix = spec_pass(t, ac, span, tour, fixed, n - 1);
        let anchor = spec_pass_anchor(span, tour, prefix, fixed);
        let dep = prefix[n - 2].1;
        let arrival = dep + spec_duration_dep(
            t,
            anchor,
            tour[n - 2].place.location as int,
            tour[n - 1].place.location as int,
            dep,
        );
        spec_pass_ok(t, ac, span, tour, fixed, n - 1)
            && spec_estimate_departure(ac, anchor, tour[n - 1].place, arrival) is Some
    }
}

/// Whether a tour admits a consistent schedule under its stored anchor.
pub open spec fn spec_feasible_seq(t: TransportModel, ac: ActivityCostModel, span: RouteCostSpan, tour: Seq<Activity>) -> bool {
    spec_pass_ok(t, ac, span, tour, Some(spec_anchor(span, tour)), tour.len() as int)
}

/// Whether the route admits a consistent schedule under the stored anchor:
/// what the feasibility probe decides.
pub open spec fn spec_feasible(t: TransportModel, ac: ActivityCostModel, route: Route) -> bool {
    spec_feasible_seq(t, ac, route.actor.spec_cost_span(), route.tour@)
}

/// The pass extends its own prefixes: the first `m` schedules of a longer run
/// equal the shorter run.
pub proof fn lemma_pass_prefix(
    t: TransportModel,
    ac: ActivityCostModel,
    span: RouteCostSpan,
    tour: Seq<Activity>,
    fixed: Option<int>,
    m: int,
    n: int,
)
    requires
        1 <= m <= n,
    ensures
        spec_pass(t, ac, span, tour, fixed, n).len() == n,
        forall|j: int| 0 <= j < m ==> spec_pass(t, ac, span, tour, fixed, n)[j] == spec_pass(t, ac, span, tour, fixed, m)[j],
    decreases n,
{
    if n > 1 {
        lemma_pass_prefix(t, ac, span, tour, fixed, if m < n { m } else { n - 1 }, n - 1);
        if m == n {
            lemma_pass_prefix(t, ac, span, tour, fixed, n - 1, n - 1);
        }
    }
}

/// Bounds of the pass values: schedules never fall below the start departure
/// and grow by at most `SCHED_STEP` per activity.
pub proof fn lemma_pass_bounds(
    t: TransportModel,
    ac: ActivityCostModel,
    span: RouteCostSpan,
    tour: Seq<Activity>,
    fixed: Option<int>,
    n: int,
)
    requires
        t.wf(),
        ac.wf(),
        1 <= n <= tour.len() <= MAX_ACTIVITIES,
        forall|j: int| 0 <= j < tour.len() ==> (#[trigger] tour[j]).wf(),
        tour_locs_ok(t.metric, tour),
        -MAX_TIME <= tour[0].schedule.departure <= MAX_DEP,
    ensures
        ({
            let pass = spec_pass(t, ac, span, tour, fixed, n);
            let dep0 = tour[0].schedule.departure as int;
            let hi = if dep0 >= MAX_WIN { dep0 } else { MAX_WIN as int };
            &&& pass.len() == n
            &&& forall|j: int| 1 <= j < n ==> {
                let p = #[trigger] pass[j];
                dep0 <= p.0 <= p.1 <= hi + j * SCHED_STEP
            }
            &&& forall|j: int| 1 <= j < n ==> -MAX_SCHED <= (#[trigger] pass[j]).0 <= pass[j].1 <= MAX_SCHED
        }),
    decreases n,
{
    let pass = spec_pass(t, ac, span, tour, fixed, n);
    let dep0 = tour[0].schedule.departure as int;
    let hi = if dep0 >= MAX_WIN { dep0 } else { MAX_WIN as int };
    if n > 1 {
        lemma_pass_bounds(t, ac, span, tour, fixed, n - 1);
        let prefix = spec_pass(t, ac, span, tour, fixed, n - 1);
        let anchor = spec_pass_anchor(span, tour, prefix, fixed);
        let dep = prefix[n - 2].1;
        lemma_duration_bounds(t, anchor, tour[n - 2].place.location as int, tour[n - 1].place.location as int, dep);
        let arrival = dep + spec_duration_dep(
            t,
            anchor,
            tour[n - 2].place.location as int,
            tour[n - 1].place.location as int,
            dep,
        );
        lemma_departure_value_bounds(ac, anchor, tour[n - 1].place, arrival);
        assert(dep <= hi + (n - 2) * SCHED_STEP);
        assert((n - 2) * SCHED_STEP + SCHED_STEP == (n - 1) * SCHED_STEP) by (nonlinear_arith);
        assert(1 * SCHED_STEP <= (n - 1) * SCHED_STEP <= MAX_ACTIVITIES * SCHED_STEP) by (nonlinear_arith)
            requires 1 <= n - 1 <= MAX_ACTIVITIES;
    }
}

/// Checks whether the route schedule is feasible by simulating the forward
/// pass without mutating it: `true` exactly when no activity's departure
/// estimation rejects. The probe reads only the start schedule, the places
/// and the collaborators; it never writes.
pub fn is_schedule_feasible(route: &Route, activity: &ActivityCostModel, transport: &TransportModel) -> (r: bool)
    requires
        route.wf(),
        activity.wf(),
        transport.wf(),
        tour_locs_ok(transport.metric, route.tour@),
    ensures
        r == spec_feasible(*transport, *activity, *route),
{
    let ghost t = *transport;
    let ghost ac = *activity;
    let ghost tour = route.tour@;
    let ghost span = route.actor.spec_cost_span();
    let ghost fixed = Some(spec_anchor(span, tour));
    let ghost n = tour.len() as int;

    let total = route.tour.len();
    let mut loc = route.tour[0].place.location;
    let mut dep = route.tour[0].schedule.departure;
    let mut i: usize = 1;

    proof {
        lemma_pass_bounds(t, ac, span, tour, fixed, n);
        lemma_pass_prefix(t, ac, span, tour, fixed, 1, n);
    }

    while i < total
        invariant
            route.wf(),
            activity.wf(),
            transport.wf(),
            tour_locs_ok(transport.metric, route.tour@),
            t == *transport,
            ac == *activity,
            tour == route.tour@,
            span == route.actor.spec_cost_span(),
            fixed == Some(spec_anchor(span, tour)),
            n == tour.len() as int,
            total == tour.len(),
            1 <= i <= total,
            loc == tour[i - 1].place.location,
            dep as int == spec_pass(t, ac, span, tour, fixed, n)[i - 1].1,
            sched_bounded(dep as int),
            spec_pass_ok(t, ac, span, tour, fixed, i as int),
        decreases total - i,
    {
        let ghost pass = spec_pass(t, ac, span, tour, fixed, n);
        let a = &route.tour[i];
        let location = a.place.location;
        let travel = transport.duration(route, loc, location, TravelTime::Departure(dep));
        proof {
            lemma_pass_bounds(t, ac, span, tour, fixed, n);
        }
        let arrival = dep + travel;
        proof {
            lemma_pass_prefix(t, ac, span, tour, fixed, i as int, n);
            lemma_pass_prefix(t, ac, span, tour, fixed, i as int, i + 1 as int);
            assert(spec_pass(t, ac, span, tour, fixed, (i + 1) as int)[i as int].0 == arrival as int);
        }
        match activity.estimate_departure(route, a, arrival) {
            Option::None => {
                proof {
                    lemma_pass_prefix(t, ac, span, tour, fixed, (i + 1) as int, n);
                }
                assert(!spec_pass_ok(t, ac, span, tour, fixed, (i + 1) as int));
                assert(!spec_pass_ok(t, ac, span, tour, fixed, n)) by {
                    lemma_pass_ok_monotone(t, ac, span, tour, fixed, (i + 1) as int, n);
                }
                return false;
            },
            Option::Some(d) => {
                proof {
                    lemma_pass_prefix(t, ac, span, tour, fixed, (i + 1) as int, n);
                    lemma_pass_bounds(t, ac, span, tour, fixed, n);
                }
                loc = location;
                dep = d;
            },
        }
        i = i + 1;
    }
    true
}

/// The two tours have the same length, start activity, places and jobs: they
/// differ at most in the schedules of the activities after the start.
pub open spec fn same_tour_shape(a: Seq<Activity>, b: Seq<Activity>) -> bool {
    &&& a.len() == b.len()
    &&& a.len() >= 1 ==> a[0] == b[0]
    &&& forall|j: int| 0 <= j < a.len() ==> (#[trigger] a[j]).place == b[j].place && a[j].job == b[j].job
}

/// The schedules of the activities after the start equal the given pass
/// values.
pub open spec fn tour_has_scheds(tour: Seq<Activity>, scheds: Seq<(int, int)>) -> bool {
    forall|j: int| 1 <= j < tour.len() ==> {
        let a = #[trigger] tour[j];
        a.schedule.arrival == scheds[j].0 && a.schedule.departure == scheds[j].1
    }
}

/// Rewrites every activity schedule after the start by the forward pass:
/// each activity is reached after the travel from its predecessor (under the
/// anchor current at that step) and departed at its service end, including
/// reserved-time extensions.
pub fn update_schedules(route_ctx: &mut RouteContext, activity: &ActivityCostModel, transport: &TransportModel)
    requires
        old(route_ctx).route.wf(),
        activity.wf(),
        transport.wf(),
        tour_locs_ok(transport.metric, old(route_ctx).route.tour@),
    ensures
        final(route_ctx).route.actor == old(route_ctx).route.actor,
        final(route_ctx).state == old(route_ctx).state,
        final(route_ctx).stale == old(route_ctx).stale,
        same_tour_shape(final(route_ctx).route.tour@, old(route_ctx).route.tour@),
        tour_has_scheds(
            final(route_ctx).route.tour@,
            spec_pass(
                *transport,
                *activity,
                old(route_ctx).route.actor.spec_cost_span(),
                old(route_ctx).route.tour@,
                None,
                old(route_ctx).route.tour@.len() as int,
            ),
        ),
        final(route_ctx).route.wf(),
{
    let ghost t = *transport;
    let ghost ac = *activity;
    let ghost tour0 = old(route_ctx).route.tour@;
    let ghost span = old(route_ctx).route.actor.spec_cost_span();
    let ghost n = tour0.len() as int;
    let ghost pass = spec_pass(t, ac, span, tour0, None, n);

    proof {
        lemma_pass_bounds(t, ac, span, tour0, None, n);
        lemma_pass_prefix(t, ac, span, tour0, None, 1, n);
        assert(pass[0] == spec_sched0(tour0));
    }

    let total = route_ctx.route.tour.len();
    let mut loc = route_ctx.route.tour[0].place.location;
    let mut dep = route_ctx.route.tour[0].schedule.departure;
    let mut i: usize = 1;

    while i < total
        invariant
            activity.wf(),
            transport.wf(),
            old(route_ctx).route.wf(),
            tour_locs_ok(transport.metric, tour0),
            tour_locs_ok(transport.metric, route_ctx.route.tour@),
            t == *transport,
            ac == *activity,
            span == route_ctx.route.actor.spec_cost_span(),
            n == tour0.len() as int,
            total == tour0.len(),
            pass == spec_pass(t, ac, span, tour0, None, n),
            route_ctx.route.actor == old(route_ctx).route.actor,
            route_ctx.state == old(route_ctx).state,
            route_ctx.stale == old(route_ctx).stale,
            tour0 == old(route_ctx).route.tour@,
            route_ctx.route.tour@.len() == tour0.len(),
            same_tour_shape(route_ctx.route.tour@, tour0),
            forall|j: int| (i as int) <= j < tour0.len()
                ==> (#[trigger] route_ctx.route.tour@[j]).schedule == tour0[j].schedule,
            forall|j: int| 1 <= j < (i as int) ==> {
                let a = #[trigger] route_ctx.route.tour@[j];
                a.schedule.arrival == pass[j].0 && a.schedule.departure == pass[j].1
            },
            route_ctx.route.wf(),
            1 <= i <= total,
            loc == tour0[i - 1].place.location,
            dep as int == pass[i - 1].1,
            sched_bounded(dep as int),
        decreases total - i,
    {
        proof {
            lemma_pass_bounds(t, ac, span, tour0, None, n);
            lemma_pass_prefix(t, ac, span, tour0, None, i as int, n);
            lemma_pass_prefix(t, ac, span, tour0, None, i as int, (i + 1) as int);
            // The anchor the collaborators read from the partially updated
            // tour is the anchor of this step of the pass.
            assert(spec_anchor(span, route_ctx.route.tour@)
                == spec_pass_anchor(span, tour0, spec_pass(t, ac, span, tour0, None, i as int), None));
        }
        let location = route_ctx.route.tour[i].place.location;
        let travel = transport.duration(&route_ctx.route, loc, location, TravelTime::Departure(dep));
        let arrival = dep + travel;
        let departure = {
            let a = &route_ctx.route.tour[i];
            activity.departure_value(&route_ctx.route, a, arrival)
        };
        proof {
            lemma_pass_prefix(t, ac, span, tour0, None, (i + 1) as int, n);
            assert(arrival as int == pass[i as int].0);
            assert(departure as int == pass[i as int].1);
        }
        route_ctx.route.tour[i].schedule = Schedule { arrival, departure };
        loc = location;
        dep = departure;
        i = i + 1;
    }
}

/// Bound on the magnitude of an anchor handed to the window rebinder.
pub const MAX_ANCHOR: i64 = 200_000_000_000_000;

/// The first candidate span of the place that is an offset span and
/// materialises, under `anchor`, to exactly the window `tw`; searched from
/// index `i`.
pub open spec fn spec_find_offset_match(times: Seq<TimeSpan>, tw: crate::times::TimeWindow, anchor: int, i: int) -> Option<int>
    decreases times.len() - i,
{
    if i < 0 || i >= times.len() {
        None
    } else if times[i].is_offset()
        && times[i].spec_to_time_window(anchor).0 == tw.start
        && times[i].spec_to_time_window(anchor).1 == tw.end {
        Some(i)
    } else {
        spec_find_offset_match(times, tw, anchor, i + 1)
    }
}

/// One activity after the anchor shift: if its resolved window came from an
/// offset span (it equals the first offset span materialised at the old
/// anchor), the window is rematerialised at the new anchor; otherwise the
/// activity is untouched. Jobless activities are untouched.
pub open spec fn spec_rebound_activity(act: Activity, old_anchor: int, new_anchor: int) -> Activity {
    if !act.has_job() {
        act
    } else {
        match spec_find_offset_match(act.place.times@, act.place.time, old_anchor, 0) {
            None => act,
            Some(i) => {
                let w = act.place.times@[i].spec_to_time_window(new_anchor);
                Activity {
                    place: crate::model::Place {
                        time: crate::times::TimeWindow { start: w.0 as i64, end: w.1 as i64 },
                        ..act.place
                    },
                    ..act
                }
            },
        }
    }
}

/// The whole tour after the anchor shift; the identity when the anchor did
/// not move.
pub open spec fn spec_rebound_tour(tour: Seq<Activity>, old_anchor: int, new_anchor: int) -> Seq<Activity> {
    if old_anchor == new_anchor {
        tour
    } else {
        Seq::new(tour.len(), |j: int| spec_rebound_activity(tour[j], old_anchor, new_anchor))
    }
}

/// Under an anchor shift of `delta`, an activity whose window came from an
/// offset span has its window translated by exactly `delta`; one whose window
/// came from an absolute span (no offset span matches) is unchanged.
pub proof fn lemma_window_rebind_shift(act: Activity, old_anchor: int, new_anchor: int)
    requires
        act.wf(),
        -MAX_ANCHOR <= old_anchor <= MAX_ANCHOR,
        -MAX_ANCHOR <= new_anchor <= MAX_ANCHOR,
    ensures
        ({
            let delta = new_anchor - old_anchor;
            let new = spec_rebound_activity(act, old_anchor, new_anchor);
            match spec_find_offset_match(act.place.times@, act.place.time, old_anchor, 0) {
                Some(i) => act.has_job() ==> {
                    &&& new.place.time.start == act.place.time.start + delta
                    &&& new.place.time.end == act.place.time.end + delta
                },
                None => new == act,
            }
        }),
{
    if act.has_job() {
        match spec_find_offset_match(act.place.times@, act.place.time, old_anchor, 0) {
            Some(i) => {
                lemma_find_offset_match_in_range(act.place.times@, act.place.time, old_anchor, 0);
            },
            None => {},
        }
    }
}

/// A found index is in range and names an offset span that matches at the old
/// anchor.
pub proof fn lemma_find_offset_match_in_range(times: Seq<TimeSpan>, tw: crate::times::TimeWindow, anchor: int, i: int)
    requires
        0 <= i,
    ensures
        match spec_find_offset_match(times, tw, anchor, i) {
            Some(k) => {
                &&& i <= k < times.len()
                &&& times[k].is_offset()
                &&& times[k].spec_to_time_window(anchor).0 == tw.start
                &&& times[k].spec_to_time_window(anchor).1 == tw.end
            },
            None => true,
        },
    decreases times.len() - i,
{
    if i < times.len() {
        lemma_find_offset_match_in_range(times, tw, anchor, i + 1);
    }
}

/// Finds the first offset span of the place whose window at `old_anchor` is
/// the place's resolved window.
fn find_offset_match(place: &crate::model::Place, old_anchor: i64) -> (r: Option<usize>)
    requires
        place.wf(),
        sched_bounded(old_anchor as int),
    ensures
        r == match spec_find_offset_match(place.times@, place.time, old_anchor as int, 0) {
            Some(k) => Some(k as usize),
            None => None::<usize>,
        },
{
    let mut i: usize = 0;
    while i < place.times.len()
        invariant
            place.wf(),
            sched_bounded(old_anchor as int),
            0 <= i <= place.times@.len(),
            spec_find_offset_match(place.times@, place.time, old_anchor as int, 0)
                == spec_find_offset_match(place.times@, place.time, old_anchor as int, i as int),
        decreases place.times@.len() - i,
    {
        let span = &place.times[i];
        let is_offset = matches!(span, TimeSpan::Offset(_));
        if is_offset {
            let w = span.to_time_window(old_anchor);
            if w.start == place.time.start && w.end == place.time.end {
                return Some(i);
            }
        }
        i = i + 1;
    }
    None
}

/// Recomputes the resolved windows of activities whose window was derived
/// from an offset span, after the anchor moved from `old_anchor` to
/// `new_anchor`. Activities whose window came from an absolute span are
/// untouched; the first matching span wins.
pub fn recompute_offset_time_windows(route_ctx: &mut RouteContext, old_anchor: i64, new_anchor: i64)
    requires
        old(route_ctx).route.wf(),
        old_anchor == new_anchor || (
            -MAX_ANCHOR <= old_anchor <= MAX_ANCHOR && -MAX_ANCHOR <= new_anchor <= MAX_ANCHOR
        ),
    ensures
        final(route_ctx).route.actor == old(route_ctx).route.actor,
        final(route_ctx).state == old(route_ctx).state,
        final(route_ctx).stale == old(route_ctx).stale,
        final(route_ctx).route.tour@ == spec_rebound_tour(
            old(route_ctx).route.tour@,
            old_anchor as int,
            new_anchor as int,
        ),
        final(route_ctx).route.wf(),
{
    if old_anchor == new_anchor {
        return;
    }
    let ghost tour0 = old(route_ctx).route.tour@;
    let total = route_ctx.route.tour.len();
    let mut j: usize = 0;
    while j < total
        invariant
            old(route_ctx).route.wf(),
            -MAX_ANCHOR <= old_anchor <= MAX_ANCHOR,
            -MAX_ANCHOR <= new_anchor <= MAX_ANCHOR,
            old_anchor != new_anchor,
            tour0 == old(route_ctx).route.tour@,
            route_ctx.route.actor == old(route_ctx).route.actor,
            route_ctx.state == old(route_ctx).state,
            route_ctx.stale == old(route_ctx).stale,
            total == tour0.len(),
            route_ctx.route.tour@.len() == total,
            0 <= j <= total,
            forall|m: int| 0 <= m < j
                ==> #[trigger] route_ctx.route.tour@[m]
                    == spec_rebound_activity(tour0[m], old_anchor as int, new_anchor as int),
            forall|m: int| j <= m < total ==> #[trigger] route_ctx.route.tour@[m] == tour0[m],
            route_ctx.route.wf(),
        decreases total - j,
    {
        let has_job = route_ctx.route.tour[j].job.is_some();
        if has_job {
            let found = find_offset_match(&route_ctx.route.tour[j].place, old_anchor);
            match found {
                Some(k) => {
                    proof {
                        lemma_find_offset_match_in_range(
                            tour0[j as int].place.times@,
                            tour0[j as int].place.time,
                            old_anchor as int,
                            0,
                        );
                    }
                    let w = route_ctx.route.tour[j].place.times[k].to_time_window(new_anchor);
                    route_ctx.route.tour[j].place.time = w;
                },
                None => {},
            }
        }
        j = j + 1;
    }
    proof {
        assert(route_ctx.route.tour@ =~= spec_rebound_tour(tour0, old_anchor as int, new_anchor as int));
    }
}

/// The tour with every schedule after the start replaced by the forward pass
/// values: what one run of the mutating pass produces.
pub open spec fn spec_pass_applied(t: TransportModel, ac: ActivityCostModel, span: RouteCostSpan, tour: Seq<Activity>) -> Seq<Activity> {
    let pass = spec_pass(t, ac, span, tour, None, tour.len() as int);
    Seq::new(
        tour.len(),
        |j: int| if j == 0 {
            tour[0]
        } else {
            Activity {
                schedule: Schedule { arrival: pass[j].0 as i64, departure: pass[j].1 as i64 },
                ..tour[j]
            }
        },
    )
}

/// `k` runs of the mutating pass.
pub open spec fn spec_applied_n(t: TransportModel, ac: ActivityCostModel, span: RouteCostSpan, x: Seq<Activity>, k: int) -> Seq<Activity>
    decreases k,
{
    if k <= 0 {
        x
    } else {
        spec_pass_applied(t, ac, span, spec_applied_n(t, ac, span, x, k - 1))
    }
}

/// How many runs the anchor fixed-point loop performs, starting from the tour
/// `x0` left by the initial pass: it stops as soon as one more run leaves the
/// anchor unchanged, after at most three runs.
pub open spec fn spec_loop_runs(t: TransportModel, ac: ActivityCostModel, span: RouteCostSpan, x0: Seq<Activity>) -> int {
    let x1 = spec_applied_n(t, ac, span, x0, 1);
    let x2 = spec_applied_n(t, ac, span, x0, 2);
    if spec_anchor(span, x1) == spec_anchor(span, x0) {
        1
    } else if spec_anchor(span, x2) == spec_anchor(span, x1) {
        2
    } else {
        3
    }
}

/// The tour after a full schedule update: one forward pass, then, for
/// first-job-anchored spans, the anchor fixed-point iteration.
pub open spec fn spec_updated_tour(t: TransportModel, ac: ActivityCostModel, span: RouteCostSpan, tour: Seq<Activity>) -> Seq<Activity> {
    let x0 = spec_pass_applied(t, ac, span, tour);
    if span.anchors_on_first_job() {
        spec_applied_n(t, ac, span, x0, spec_loop_runs(t, ac, span, x0))
    } else {
        x0
    }
}

/// A tour whose shape matches `from` and whose schedules equal the pass over
/// `from` is exactly the pass applied to `from`.
pub proof fn lemma_applied_char(
    t: TransportModel,
    ac: ActivityCostModel,
    span: RouteCostSpan,
    from: Seq<Activity>,
    to: Seq<Activity>,
)
    requires
        t.wf(),
        ac.wf(),
        1 <= from.len() <= MAX_ACTIVITIES,
        forall|j: int| 0 <= j < from.len() ==> (#[trigger] from[j]).wf(),
        tour_locs_ok(t.metric, from),
        -MAX_TIME <= from[0].schedule.departure <= MAX_DEP,
        same_tour_shape(to, from),
        tour_has_scheds(to, spec_pass(t, ac, span, from, None, from.len() as int)),
    ensures
        to == spec_pass_applied(t, ac, span, from),
{
    let n = from.len() as int;
    let pass = spec_pass(t, ac, span, from, None, n);
    let applied = spec_pass_applied(t, ac, span, from);
    lemma_pass_prefix(t, ac, span, from, None, n, n);
    lemma_pass_bounds(t, ac, span, from, None, n);
    assert forall|j: int| 0 <= j < n implies to[j] == applied[j] by {
        if j >= 1 {
            assert(to[j].schedule.arrival == pass[j].0);
            assert(to[j].schedule.departure == pass[j].1);
            assert(-MAX_SCHED <= pass[j].0 <= MAX_SCHED);
            assert(to[j].schedule == Schedule { arrival: pass[j].0 as i64, departure: pass[j].1 as i64 });
        }
    }
    assert(to =~= applied);
}

/// Updates the route schedule: the forward pass, then (when the cost span
/// anchors on the first job's arrival, which the pass itself recomputes) up
/// to three more passes until the anchor settles, then the backward state
/// pass and the route statistics.
pub fn update_route_schedule(route_ctx: &mut RouteContext, activity: &ActivityCostModel, transport: &TransportModel)
    requires
        old(route_ctx).route.wf(),
        activity.wf(),
        transport.wf(),
        tour_locs_ok(transport.metric, old(route_ctx).route.tour@),
        crate::state::actor_locs_ok(transport.metric, old(route_ctx).route),
        old(route_ctx).route.actor.detail.start is Some || old(route_ctx).route.actor.detail.end is Some,
    ensures
        final(route_ctx).route.actor == old(route_ctx).route.actor,
        final(route_ctx).stale == old(route_ctx).stale,
        final(route_ctx).state.limit_duration == old(route_ctx).state.limit_duration,
        final(route_ctx).state.nearest_distance_data == old(route_ctx).state.nearest_distance_data,
        final(route_ctx).state.vehicle_distance_data == old(route_ctx).state.vehicle_distance_data,
        final(route_ctx).route.tour@ == spec_updated_tour(
            *transport,
            *activity,
            old(route_ctx).route.actor.spec_cost_span(),
            old(route_ctx).route.tour@,
        ),
        same_tour_structure(final(route_ctx).route.tour@, old(route_ctx).route.tour@),
        tour_locs_ok(transport.metric, final(route_ctx).route.tour@),
        final(route_ctx).route.wf(),
        final(route_ctx).state.latest_arrivals@.len() == crate::state::spec_state_len(final(route_ctx).route),
        final(route_ctx).state.waiting_times@.len() == crate::state::spec_state_len(final(route_ctx).route),
        forall|j: int| 0 <= j < crate::state::spec_state_len(final(route_ctx).route)
            ==> #[trigger] final(route_ctx).state.latest_arrivals@[j]
                == crate::state::spec_latest_at(*transport, *activity, final(route_ctx).route, j),
        forall|j: int| 0 <= j < crate::state::spec_state_len(final(route_ctx).route)
            ==> #[trigger] final(route_ctx).state.waiting_times@[j]
                == crate::state::spec_waiting_at(*transport, *activity, final(route_ctx).route, j),
        final(route_ctx).state.total_duration is Some,
        final(route_ctx).state.total_duration->0 == crate::state::spec_route_duration(
            final(route_ctx).route,
            final(route_ctx).route.actor.spec_cost_span(),
        ),
        final(route_ctx).state.total_distance is Some,
        final(route_ctx).state.total_distance->0 == crate::state::spec_route_distance(
            final(route_ctx).route,
            transport.metric,
            final(route_ctx).route.actor.spec_cost_span(),
        ),
{
    let ghost t = *transport;
    let ghost ac = *activity;
    let ghost tour_old = old(route_ctx).route.tour@;
    let ghost span = old(route_ctx).route.actor.spec_cost_span();

    let cost_span = route_ctx.route.actor.effective_cost_span();
    let needs_fixed_point = matches!(
        cost_span,
        RouteCostSpan::FirstJobToDepot | RouteCostSpan::FirstJobToLastJob
    );

    update_schedules(route_ctx, activity, transport);
    proof {
        lemma_applied_char(t, ac, span, tour_old, route_ctx.route.tour@);
    }
    let ghost x0 = route_ctx.route.tour@;

    if needs_fixed_point {
        let mut runs: usize = 0;
        let mut done = false;
        while runs < 3 && !done
            invariant
                activity.wf(),
                transport.wf(),
                t == *transport,
                ac == *activity,
                old(route_ctx).route.wf(),
                route_ctx.route.actor == old(route_ctx).route.actor,
                route_ctx.state == old(route_ctx).state,
                route_ctx.stale == old(route_ctx).stale,
                span == route_ctx.route.actor.spec_cost_span(),
                tour_locs_ok(t.metric, route_ctx.route.tour@),
                route_ctx.route.wf(),
                0 <= runs <= 3,
                route_ctx.route.tour@ == spec_applied_n(t, ac, span, x0, runs as int),
                done ==> 1 <= runs
                    && spec_anchor(span, spec_applied_n(t, ac, span, x0, runs as int))
                        == spec_anchor(span, spec_applied_n(t, ac, span, x0, runs - 1)),
                forall|m: int| 1 <= m <= (if done { runs - 1 } else { runs as int })
                    ==> spec_anchor(span, #[trigger] spec_applied_n(t, ac, span, x0, m))
                        != spec_anchor(span, spec_applied_n(t, ac, span, x0, m - 1)),
            decreases 4 - runs - (if done { 1int } else { 0int }),
        {
            let ghost prev = route_ctx.route.tour@;
            let anchor = get_offset_anchor(&route_ctx.route);
            update_schedules(route_ctx, activity, transport);
            proof {
                lemma_applied_char(t, ac, span, prev, route_ctx.route.tour@);
            }
            let new_anchor = get_offset_anchor(&route_ctx.route);
            runs = runs + 1;
            if new_anchor == anchor {
                done = true;
            }
        }
        proof {
            let a0 = spec_anchor(span, spec_applied_n(t, ac, span, x0, 0));
            let a1 = spec_anchor(span, spec_applied_n(t, ac, span, x0, 1));
            let a2 = spec_anchor(span, spec_applied_n(t, ac, span, x0, 2));
            assert(spec_applied_n(t, ac, span, x0, 0) == x0);
            if done {
                if runs == 2 {
                    assert(a1 != a0);
                }
                if runs == 3 {
                    assert(a1 != a0);
                    assert(a2 != a1);
                }
            } else {
                assert(runs == 3);
                assert(a1 != a0);
                assert(a2 != a1);
            }
            assert(route_ctx.route.tour@ == spec_applied_n(t, ac, span, x0, spec_loop_runs(t, ac, span, x0)));
        }
    }
    update_states(route_ctx, activity, transport);
    update_statistics(route_ctx, transport);
}

/// The two tours agree on everything the travel metric and the rebinder read:
/// length, locations, service durations, candidate spans and jobs. Schedules
/// and resolved windows may differ.
pub open spec fn same_tour_structure(a: Seq<Activity>, b: Seq<Activity>) -> bool {
    &&& a.len() == b.len()
    &&& forall|j: int| 0 <= j < a.len() ==> {
        let x = #[trigger] a[j];
        let y = b[j];
        &&& x.place.location == y.place.location
        &&& x.place.duration == y.place.duration
        &&& x.place.times == y.place.times
        &&& x.job == y.job
    }
}

/// One pass run preserves the tour structure.
pub proof fn lemma_pass_applied_structure(t: TransportModel, ac: ActivityCostModel, span: RouteCostSpan, x: Seq<Activity>)
    ensures
        same_tour_structure(spec_pass_applied(t, ac, span, x), x),
{
}

/// Iterated pass runs preserve the tour structure.
pub proof fn lemma_applied_n_structure(t: TransportModel, ac: ActivityCostModel, span: RouteCostSpan, x: Seq<Activity>, k: int)
    ensures
        same_tour_structure(spec_applied_n(t, ac, span, x, k), x),
    decreases k,
{
    if k > 0 {
        lemma_applied_n_structure(t, ac, span, x, k - 1);
        lemma_pass_applied_structure(t, ac, span, spec_applied_n(t, ac, span, x, k - 1));
    }
}

/// The rebinder preserves the tour structure.
pub proof fn lemma_rebound_structure(x: Seq<Activity>, old_anchor: int, new_anchor: int)
    ensures
        same_tour_structure(spec_rebound_tour(x, old_anchor, new_anchor), x),
{
}

/// Iterating the pass never touches the start activity.
pub proof fn lemma_applied_n_keeps_start(
    t: TransportModel,
    ac: ActivityCostModel,
    span: RouteCostSpan,
    x: Seq<Activity>,
    k: int,
)
    requires
        x.len() >= 1,
        0 <= k,
    ensures
        spec_applied_n(t, ac, span, x, k).len() == x.len(),
        spec_applied_n(t, ac, span, x, k)[0] == x[0],
    decreases k,
{
    if k > 0 {
        lemma_applied_n_keeps_start(t, ac, span, x, k - 1);
    }
}

/// Updates the route's start departure: overwrites it, rematerialises the
/// offset-derived windows against the moved anchor, and runs the full
/// schedule update.
pub open spec fn spec_departure_updated_tour(
    t: TransportModel,
    ac: ActivityCostModel,
    span: RouteCostSpan,
    tour: Seq<Activity>,
    new_dep: int,
) -> Seq<Activity> {
    let start = tour[0];
    let tour1 = tour.update(0, Activity {
        schedule: Schedule { arrival: start.schedule.arrival, departure: new_dep as i64 },
        ..start
    });
    let tour2 = spec_rebound_tour(tour1, spec_anchor(span, tour), spec_anchor(span, tour1));
    spec_updated_tour(t, ac, span, tour2)
}

/// Overwrites the route's start departure with `new_departure_time`,
/// rematerialises offset-derived activity windows against the moved anchor,
/// and reruns the full schedule update.
pub fn update_route_departure(
    route_ctx: &mut RouteContext,
    activity: &ActivityCostModel,
    transport: &TransportModel,
    new_departure_time: i64,
)
    requires
        old(route_ctx).route.wf(),
        activity.wf(),
        transport.wf(),
        tour_locs_ok(transport.metric, old(route_ctx).route.tour@),
        crate::state::actor_locs_ok(transport.metric, old(route_ctx).route),
        old(route_ctx).route.actor.detail.start is Some || old(route_ctx).route.actor.detail.end is Some,
        -MAX_TIME <= new_departure_time <= MAX_DEP,
    ensures
        final(route_ctx).route.actor == old(route_ctx).route.actor,
        final(route_ctx).stale == old(route_ctx).stale,
        final(route_ctx).state.limit_duration == old(route_ctx).state.limit_duration,
        final(route_ctx).state.nearest_distance_data == old(route_ctx).state.nearest_distance_data,
        final(route_ctx).state.vehicle_distance_data == old(route_ctx).state.vehicle_distance_data,
        final(route_ctx).route.tour@ == spec_departure_updated_tour(
            *transport,
            *activity,
            old(route_ctx).route.actor.spec_cost_span(),
            old(route_ctx).route.tour@,
            new_departure_time as int,
        ),
        final(route_ctx).route.tour@[0].schedule.departure == new_departure_time,
        same_tour_structure(final(route_ctx).route.tour@, old(route_ctx).route.tour@),
        tour_locs_ok(transport.metric, final(route_ctx).route.tour@),
        final(route_ctx).route.wf(),
        final(route_ctx).state.latest_arrivals@.len() == crate::state::spec_state_len(final(route_ctx).route),
        final(route_ctx).state.waiting_times@.len() == crate::state::spec_state_len(final(route_ctx).route),
        forall|j: int| 0 <= j < crate::state::spec_state_len(final(route_ctx).route)
            ==> #[trigger] final(route_ctx).state.latest_arrivals@[j]
                == crate::state::spec_latest_at(*transport, *activity, final(route_ctx).route, j),
        forall|j: int| 0 <= j < crate::state::spec_state_len(final(route_ctx).route)
            ==> #[trigger] final(route_ctx).state.waiting_times@[j]
                == crate::state::spec_waiting_at(*transport, *activity, final(route_ctx).route, j),
        final(route_ctx).state.total_duration is Some,
        final(route_ctx).state.total_duration->0 == crate::state::spec_route_duration(
            final(route_ctx).route,
            final(route_ctx).route.actor.spec_cost_span(),
        ),
        final(route_ctx).state.total_distance is Some,
        final(route_ctx).state.total_distance->0 == crate::state::spec_route_distance(
            final(route_ctx).route,
            transport.metric,
            final(route_ctx).route.actor.spec_cost_span(),
        ),
{
    let ghost tour_old = old(route_ctx).route.tour@;
    let ghost span = old(route_ctx).route.actor.spec_cost_span();

    let old_anchor = get_offset_anchor(&route_ctx.route);
    route_ctx.route.tour[0].schedule.departure = new_departure_time;
    proof {
        assert(route_ctx.route.tour@ == tour_old.update(0, Activity {
            schedule: Schedule {
                arrival: tour_old[0].schedule.arrival,
                departure: new_departure_time,
            },
            ..tour_old[0]
        }));
    }
    let new_anchor = get_offset_anchor(&route_ctx.route);
    proof {
        // For first-job-anchored spans the anchor is the stored first-job
        // arrival, which the start departure does not touch; for the others
        // both anchors are start departures within the departure bound.
        if old_anchor != new_anchor {
            assert(-MAX_ANCHOR <= old_anchor <= MAX_ANCHOR);
            assert(-MAX_ANCHOR <= new_anchor <= MAX_ANCHOR);
        }
    }
    recompute_offset_time_windows(route_ctx, old_anchor, new_anchor);
    let ghost tour2 = route_ctx.route.tour@;
    update_route_schedule(route_ctx, activity, transport);
    proof {
        let t = *transport;
        let ac = *activity;
        let x0 = spec_pass_applied(t, ac, span, tour2);
        assert(x0.len() == tour2.len() && x0[0] == tour2[0]);
        if span.anchors_on_first_job() {
            lemma_applied_n_keeps_start(t, ac, span, x0, spec_loop_runs(t, ac, span, x0));
        }
        assert(tour2[0].schedule.departure == new_departure_time);
        lemma_rebound_structure(
            tour_old.update(0, Activity {
                schedule: Schedule {
                    arrival: tour_old[0].schedule.arrival,
                    departure: new_departure_time,
                },
                ..tour_old[0]
            }),
            spec_anchor(span, tour_old),
            new_anchor as int,
        );
    }
}

/// Once a prefix of the pass is rejected, every longer run is rejected too.
pub proof fn lemma_pass_ok_monotone(
    t: TransportModel,
    ac: ActivityCostModel,
    span: RouteCostSpan,
    tour: Seq<Activity>,
    fixed: Option<int>,
    m: int,
    n: int,
)
    requires
        1 <= m <= n,
        !spec_pass_ok(t, ac, span, tour, fixed, m),
    ensures
        !spec_pass_ok(t, ac, span, tour, fixed, n),
    decreases n,
{
    if n > m {
        lemma_pass_ok_monotone(t, ac, span, tour, fixed, m, n - 1);
    }
}

/// The stored schedules are a fixed point of the forward pass: rerunning the
/// pass reproduces them.
pub open spec fn schedules_consistent(t: TransportModel, ac: ActivityCostModel, route: Route) -> bool {
    tour_has_scheds(
        route.tour@,
        spec_pass(t, ac, route.actor.spec_cost_span(), route.tour@, None, route.tour@.len() as int),
    )
}

/// On a self-consistent tour the evolving pass and the fixed-anchor pass at
/// the tour's own anchor coincide: the anchor no longer moves.
pub proof fn lemma_consistent_anchor_pass(
    t: TransportModel,
    ac: ActivityCostModel,
    span: RouteCostSpan,
    tour: Seq<Activity>,
    n: int,
)
    requires
        1 <= n <= tour.len(),
        tour_has_scheds(tour, spec_pass(t, ac, span, tour, None, tour.len() as int)),
    ensures
        forall|i: int| 0 <= i < n
            ==> spec_pass(t, ac, span, tour, None, n)[i]
                == spec_pass(t, ac, span, tour, Some(spec_anchor(span, tour)), n)[i],
    decreases n,
{
    lemma_pass_prefix(t, ac, span, tour, None, n, n);
    lemma_pass_prefix(t, ac, span, tour, Some(spec_anchor(span, tour)), n, n);
    if n > 1 {
        lemma_consistent_anchor_pass(t, ac, span, tour, n - 1);
        lemma_pass_prefix(t, ac, span, tour, None, n - 1, n);
        lemma_pass_prefix(t, ac, span, tour, Some(spec_anchor(span, tour)), n - 1, n);
        lemma_pass_prefix(t, ac, span, tour, None, n - 1, n - 1);
        // The evolving anchor at this step: for first-job spans it is the
        // stored first-job arrival, which the consistent pass reproduces.
        let prefix = spec_pass(t, ac, span, tour, None, n - 1);
        if span.anchors_on_first_job() && tour.len() > 1 && tour[1].has_job() {
            if prefix.len() > 1 {
                lemma_pass_prefix(t, ac, span, tour, None, 2, tour.len() as int);
                lemma_pass_prefix(t, ac, span, tour, None, 2, n - 1);
                assert(prefix[1] == spec_pass(t, ac, span, tour, None, tour.len() as int)[1]);
                assert(prefix[1].0 == tour[1].schedule.arrival as int);
            }
        }
        assert(spec_pass_anchor(span, tour, prefix, None) == spec_anchor(span, tour));
        assert(spec_pass(t, ac, span, tour, None, n)[n - 1]
            == spec_pass(t, ac, span, tour, Some(spec_anchor(span, tour)), n)[n - 1]);
    }
}

/// After a converged schedule update, every consecutive pair of activities is
/// linked by the travel duration: the arrival at each activity is its
/// predecessor's departure plus the travel between them, evaluated at the
/// tour's own anchor.
pub proof fn lemma_update_consecutive_arrivals(
    t: TransportModel,
    ac: ActivityCostModel,
    route: Route,
)
    requires
        route.tour@.len() >= 1,
        schedules_consistent(t, ac, route),
    ensures
        forall|i: int| 1 <= i < route.tour@.len()
            ==> (#[trigger] route.tour@[i]).schedule.arrival
                == route.tour@[i - 1].schedule.departure + spec_duration_dep(
                    t,
                    spec_anchor(route.actor.spec_cost_span(), route.tour@),
                    route.tour@[i - 1].place.location as int,
                    route.tour@[i].place.location as int,
                    route.tour@[i - 1].schedule.departure as int,
                ),
{
    let tour = route.tour@;
    let span = route.actor.spec_cost_span();
    let n = tour.len() as int;
    let anchor = spec_anchor(span, tour);
    lemma_consistent_anchor_pass(t, ac, span, tour, n);
    lemma_pass_prefix(t, ac, span, tour, Some(anchor), n, n);
    assert forall|i: int| 1 <= i < n implies (#[trigger] tour[i]).schedule.arrival
        == tour[i - 1].schedule.departure + spec_duration_dep(
            t,
            anchor,
            tour[i - 1].place.location as int,
            tour[i].place.location as int,
            tour[i - 1].schedule.departure as int,
        ) by {
        let fixed = spec_pass(t, ac, span, tour, Some(anchor), n);
        lemma_pass_prefix(t, ac, span, tour, Some(anchor), i + 1, n);
        lemma_pass_prefix(t, ac, span, tour, Some(anchor), i, i + 1);
        assert(spec_pass(t, ac, span, tour, Some(anchor), i + 1)[i].0
            == spec_pass(t, ac, span, tour, Some(anchor), i + 1)[i - 1].1 + spec_duration_dep(
                t,
                anchor,
                tour[i - 1].place.location as int,
                tour[i].place.location as int,
                spec_pass(t, ac, span, tour, Some(anchor), i + 1)[i - 1].1,
            ));
    }
}

/// The activity is served inside its window: the service start lies between
/// the window's start and end, and the departure covers the service start
/// plus the full service duration.
pub open spec fn spec_served_in_window(a: Activity) -> bool {
    let service_start = if a.schedule.arrival >= a.place.time.start {
        a.schedule.arrival as int
    } else {
        a.place.time.start as int
    };
    &&& a.place.time.start <= service_start <= a.place.time.end
    &&& a.schedule.departure >= service_start + a.place.duration
}

/// After a converged, feasible schedule update, every activity is served
/// inside its window: the service start lies between the window's start and
/// end, and the departure covers the service start plus the full service
/// duration.
pub proof fn lemma_update_service_windows(
    t: TransportModel,
    ac: ActivityCostModel,
    route: Route,
)
    requires
        t.wf(),
        ac.wf(),
        route.wf(),
        route.tour@.len() >= 1,
        schedules_consistent(t, ac, route),
        spec_feasible(t, ac, route),
    ensures
        forall|i: int| 1 <= i < route.tour@.len() ==> spec_served_in_window(#[trigger] route.tour@[i]),
{
    let tour = route.tour@;
    let span = route.actor.spec_cost_span();
    let n = tour.len() as int;
    let anchor = spec_anchor(span, tour);
    lemma_consistent_anchor_pass(t, ac, span, tour, n);
    lemma_pass_prefix(t, ac, span, tour, Some(anchor), n, n);
    assert forall|i: int| 1 <= i < n implies spec_served_in_window(#[trigger] tour[i]) by {
        lemma_pass_ok_prefix(t, ac, span, tour, Some(anchor), i + 1, n);
        lemma_pass_prefix(t, ac, span, tour, Some(anchor), i + 1, n);
        lemma_pass_prefix(t, ac, span, tour, Some(anchor), i, i + 1);
        let prefix = spec_pass(t, ac, span, tour, Some(anchor), i);
        let dep = prefix[i - 1].1;
        let arrival = dep + spec_duration_dep(
            t,
            anchor,
            tour[i - 1].place.location as int,
            tour[i].place.location as int,
            dep,
        );
        assert(spec_estimate_departure(ac, anchor, tour[i].place, arrival) is Some);
        assert(arrival == tour[i].schedule.arrival as int);
        lemma_departure_value_bounds(ac, anchor, tour[i].place, arrival);
        assert(tour[i].wf());
    }
}

/// Feasibility prefixes: a run accepted to `n` is accepted to every earlier
/// point.
pub proof fn lemma_pass_ok_prefix(
    t: TransportModel,
    ac: ActivityCostModel,
    span: RouteCostSpan,
    tour: Seq<Activity>,
    fixed: Option<int>,
    m: int,
    n: int,
)
    requires
        1 <= m <= n,
        spec_pass_ok(t, ac, span, tour, fixed, n),
    ensures
        spec_pass_ok(t, ac, span, tour, fixed, m),
    decreases n,
{
    if m < n {
        lemma_pass_ok_prefix(t, ac, span, tour, fixed, m, n - 1);
    }
}

/// The feasibility probe is pure: on a depot-anchored route it reads only the
/// start schedule, the places and their windows, never the stored schedules
/// of the later activities.
pub proof fn lemma_probe_pure(
    t: TransportModel,
    ac: ActivityCostModel,
    span: RouteCostSpan,
    a: Seq<Activity>,
    b: Seq<Activity>,
    n: int,
)
    requires
        !span.anchors_on_first_job(),
        a.len() == b.len(),
        1 <= n <= a.len(),
        a[0].schedule == b[0].schedule,
        forall|j: int| 0 <= j < a.len() ==> (#[trigger] a[j]).place == b[j].place,
        forall|j: int| 0 <= j < a.len() ==> (#[trigger] a[j]).job == b[j].job,
    ensures
        forall|i: int| 0 <= i < n
            ==> spec_pass(t, ac, span, a, Some(spec_anchor(span, a)), n)[i]
                == spec_pass(t, ac, span, b, Some(spec_anchor(span, b)), n)[i],
        spec_pass_ok(t, ac, span, a, Some(spec_anchor(span, a)), n)
            == spec_pass_ok(t, ac, span, b, Some(spec_anchor(span, b)), n),
    decreases n,
{
    lemma_pass_prefix(t, ac, span, a, Some(spec_anchor(span, a)), n, n);
    lemma_pass_prefix(t, ac, span, b, Some(spec_anchor(span, b)), n, n);
    if n > 1 {
        lemma_probe_pure(t, ac, span, a, b, n - 1);
        lemma_pass_prefix(t, ac, span, a, Some(spec_anchor(span, a)), n - 1, n - 1);
        lemma_pass_prefix(t, ac, span, b, Some(spec_anchor(span, b)), n - 1, n - 1);
    }
}

/// On a depot-anchored span the evolving pass reads only the start schedule,
/// the places and the jobs: two tours agreeing on those get the same pass.
pub proof fn lemma_depot_pass_independent(
    t: TransportModel,
    ac: ActivityCostModel,
    span: RouteCostSpan,
    a: Seq<Activity>,
    b: Seq<Activity>,
    n: int,
)
    requires
        !span.anchors_on_first_job(),
        a.len() == b.len(),
        1 <= n <= a.len(),
        a[0].schedule == b[0].schedule,
        forall|j: int| 0 <= j < a.len() ==> (#[trigger] a[j]).place == b[j].place,
        forall|j: int| 0 <= j < a.len() ==> (#[trigger] a[j]).job == b[j].job,
    ensures
        forall|i: int| 0 <= i < n
            ==> spec_pass(t, ac, span, a, None, n)[i] == spec_pass(t, ac, span, b, None, n)[i],
    decreases n,
{
    lemma_pass_prefix(t, ac, span, a, None, n, n);
    lemma_pass_prefix(t, ac, span, b, None, n, n);
    if n > 1 {
        lemma_depot_pass_independent(t, ac, span, a, b, n - 1);
        lemma_pass_prefix(t, ac, span, a, None, n - 1, n - 1);
        lemma_pass_prefix(t, ac, span, b, None, n - 1, n - 1);
        assert(spec_pass(t, ac, span, a, None, n - 1) =~= spec_pass(t, ac, span, b, None, n - 1));
    }
}

/// On a depot-anchored span every schedule update lands on a fixed point of
/// the pass: the consecutive-travel and service-window laws then hold of the
/// updated tour directly.
pub proof fn lemma_depot_update_consistent(
    t: TransportModel,
    ac: ActivityCostModel,
    span: RouteCostSpan,
    tour: Seq<Activity>,
)
    requires
        t.wf(),
        ac.wf(),
        !span.anchors_on_first_job(),
        1 <= tour.len() <= MAX_ACTIVITIES,
        forall|j: int| 0 <= j < tour.len() ==> (#[trigger] tour[j]).wf(),
        tour_locs_ok(t.metric, tour),
        -MAX_TIME <= tour[0].schedule.departure <= MAX_DEP,
    ensures
        ({
            let new = spec_updated_tour(t, ac, span, tour);
            tour_has_scheds(new, spec_pass(t, ac, span, new, None, new.len() as int))
        }),
{
    let n = tour.len() as int;
    let new = spec_pass_applied(t, ac, span, tour);
    assert(spec_updated_tour(t, ac, span, tour) == new);
    lemma_pass_prefix(t, ac, span, tour, None, n, n);
    lemma_pass_bounds(t, ac, span, tour, None, n);
    lemma_pass_applied_structure(t, ac, span, tour);
    assert(new.len() == tour.len());
    assert(new[0] == tour[0]);
    lemma_depot_pass_independent(t, ac, span, new, tour, n);
}

/// The anchor fixed-point loop runs at most three extra passes, and when it
/// stops early the anchor has stopped moving.
pub proof fn lemma_anchor_loop_bounded(
    t: TransportModel,
    ac: ActivityCostModel,
    span: RouteCostSpan,
    x0: Seq<Activity>,
)
    ensures
        1 <= spec_loop_runs(t, ac, span, x0) <= 3,
        spec_loop_runs(t, ac, span, x0) < 3 ==> {
            let k = spec_loop_runs(t, ac, span, x0);
            spec_anchor(span, spec_applied_n(t, ac, span, x0, k))
                == spec_anchor(span, spec_applied_n(t, ac, span, x0, k - 1))
        },
{
}

/// A converged schedule update is idempotent: running the update on a tour
/// whose schedules are already a fixed point of the pass leaves the tour, and
/// hence the state vectors recomputed from it, unchanged.
pub proof fn lemma_update_idempotent(
    t: TransportModel,
    ac: ActivityCostModel,
    route: Route,
)
    requires
        t.wf(),
        ac.wf(),
        route.wf(),
        tour_locs_ok(t.metric, route.tour@),
        schedules_consistent(t, ac, route),
    ensures
        spec_updated_tour(t, ac, route.actor.spec_cost_span(), route.tour@) == route.tour@,
{
    let tour = route.tour@;
    let span = route.actor.spec_cost_span();
    lemma_applied_char(t, ac, span, tour, tour);
    assert(spec_pass_applied(t, ac, span, tour) == tour);
    assert(spec_applied_n(t, ac, span, tour, 0) == tour);
    assert(spec_applied_n(t, ac, span, tour, 1) == tour);
    assert(spec_applied_n(t, ac, span, tour, 2) == tour);
    assert(spec_loop_runs(t, ac, span, tour) == 1);
}

} // verus!
