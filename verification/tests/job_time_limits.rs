//! The job-time-limits hard constraint, judged on single insertion positions.

use vrp_core::times::{TimeWindow, Schedule};
use vrp_core::model::{
    Place, Activity, JobInfo, VehiclePlace, ActorDetail, Actor, Route, RouteContext,
    JobTimeConstraints,
};
use vrp_core::transport::{TravelMetric, TransportModel, ActivityCostModel};
use vrp_core::features::{
    ViolationCode, ConstraintViolation, MoveContext, ActivityContext, SolutionContext, SolutionState,
};
use vrp_core::limits::create_job_time_limits_feature;

const VIOLATION_CODE: ViolationCode = ViolationCode(1);

fn create_feature() -> vrp_core::features::Feature {
    create_job_time_limits_feature(
        "job_time_limits",
        TransportModel::basic(TravelMetric::Line),
        ActivityCostModel::basic(),
        VIOLATION_CODE,
    )
    .unwrap()
}

fn route_ctx_with_job_time_constraints(
    earliest_first: Option<i64>,
    latest_last: Option<i64>,
) -> RouteContext {
    let actor = Actor {
        detail: ActorDetail {
            start: Some(VehiclePlace { location: 0, earliest: Some(0), latest: None }),
            end: Some(VehiclePlace { location: 0, earliest: None, latest: Some(1000) }),
            time_end: None,
        },
        cost_span: None,
        job_time_constraints: Some(JobTimeConstraints { earliest_first, latest_last }),
        per_service_time_cost: 0,
        skills: Vec::new(),
    };
    RouteContext::new(Route { actor, tour: vec![create_depot_activity(0, 0)] })
}

fn route_ctx_without_dimension() -> RouteContext {
    let actor = Actor {
        detail: ActorDetail {
            start: Some(VehiclePlace { location: 0, earliest: Some(0), latest: None }),
            end: Some(VehiclePlace { location: 0, earliest: None, latest: Some(1000) }),
            time_end: None,
        },
        cost_span: None,
        job_time_constraints: None,
        per_service_time_cost: 0,
        skills: Vec::new(),
    };
    RouteContext::new(Route { actor, tour: vec![create_depot_activity(0, 0)] })
}

/// Creates a depot-like activity (no job) for testing.
fn create_depot_activity(location: usize, departure: i64) -> Activity {
    Activity {
        place: Place { location, duration: 0, time: TimeWindow::new(0, 1000), times: Vec::new() },
        schedule: Schedule::new(departure, departure),
        job: None,
    }
}

fn target_with_tw(location: usize, tw: (i64, i64)) -> Activity {
    target_with_tw_and_duration(location, tw, 0)
}

fn target_with_tw_and_duration(location: usize, tw: (i64, i64), duration: i64) -> Activity {
    Activity {
        place: Place { location, duration, time: TimeWindow::new(tw.0, tw.1), times: Vec::new() },
        schedule: Schedule::new(0, 0),
        job: Some(JobInfo { target_nearest_distance: None, skills: Vec::new() }),
    }
}

fn empty_solution() -> SolutionContext {
    SolutionContext { routes: Vec::new(), state: SolutionState::empty() }
}

fn evaluate(
    route_ctx: &RouteContext,
    index: usize,
    prev: &Activity,
    target: &Activity,
    next: Option<&Activity>,
) -> Option<ConstraintViolation> {
    let feature = create_feature();
    let constraint = feature.constraint.unwrap();
    let solution_ctx = empty_solution();
    let activity_ctx = ActivityContext { index, prev, target, next };
    constraint.evaluate(&MoveContext::activity(&solution_ctx, route_ctx, &activity_ctx))
}

#[test]
fn allows_job_when_arrival_is_after_earliest_first() {
    // Departure at 0, earliest-first 5; the job at location 10 is reached at
    // 10, after the bound.
    let route_ctx = route_ctx_with_job_time_constraints(Some(5), None);
    let result = evaluate(
        &route_ctx,
        0,
        &create_depot_activity(0, 0),
        &target_with_tw(10, (0, 100)),
        Some(&create_depot_activity(0, 20)),
    );
    assert_eq!(result, None);
}

#[test]
fn allows_job_when_can_wait_until_earliest_first() {
    // Arrival 10 is before the earliest-first 15, but the window extends to
    // 100, so waiting is possible.
    let route_ctx = route_ctx_with_job_time_constraints(Some(15), None);
    let result = evaluate(
        &route_ctx,
        0,
        &create_depot_activity(0, 0),
        &target_with_tw(10, (0, 100)),
        Some(&create_depot_activity(0, 30)),
    );
    assert_eq!(result, None);
}

#[test]
fn rejects_job_when_time_window_ends_before_earliest_first() {
    // Arrival 10 is before the earliest-first 15 and the window ends at 12:
    // waiting is impossible.
    let route_ctx = route_ctx_with_job_time_constraints(Some(15), None);
    let result = evaluate(
        &route_ctx,
        0,
        &create_depot_activity(0, 0),
        &target_with_tw(10, (0, 12)),
        Some(&create_depot_activity(0, 30)),
    );
    assert_eq!(result, ConstraintViolation::skip(VIOLATION_CODE));
}

#[test]
fn allows_job_when_departure_is_before_latest_last() {
    // Arrival 10, no service time, departure 10; latest-last 20 holds.
    let route_ctx = route_ctx_with_job_time_constraints(None, Some(20));
    let result = evaluate(
        &route_ctx,
        0,
        &create_depot_activity(0, 0),
        &target_with_tw(10, (0, 100)),
        None,
    );
    assert_eq!(result, None);
}

#[test]
fn rejects_job_when_departure_exceeds_latest_last() {
    // Arrival 50, departure 50; latest-last 20 is violated.
    let route_ctx = route_ctx_with_job_time_constraints(None, Some(20));
    let result = evaluate(
        &route_ctx,
        0,
        &create_depot_activity(0, 0),
        &target_with_tw(50, (0, 100)),
        None,
    );
    assert_eq!(result, ConstraintViolation::skip(VIOLATION_CODE));
}

#[test]
fn rejects_job_when_duration_causes_departure_after_latest_last() {
    // Arrival 10 is before the latest-last 15, but service lasts 10 so the
    // departure at 20 exceeds it.
    let route_ctx = route_ctx_with_job_time_constraints(None, Some(15));
    let result = evaluate(
        &route_ctx,
        0,
        &create_depot_activity(0, 0),
        &target_with_tw_and_duration(10, (0, 100), 10),
        None,
    );
    assert_eq!(result, ConstraintViolation::skip(VIOLATION_CODE));
}

#[test]
fn does_not_apply_when_inserting_before_another_job() {
    // The next activity carries a job, so the inserted one is not last and
    // the latest-last bound does not apply.
    let route_ctx = route_ctx_with_job_time_constraints(None, Some(20));
    let result = evaluate(
        &route_ctx,
        0,
        &create_depot_activity(0, 0),
        &target_with_tw(50, (0, 100)),
        Some(&target_with_tw(60, (0, 100))),
    );
    assert_eq!(result, None);
}

#[test]
fn applies_both_constraints_for_single_job_route() {
    // The only job is first and last: arrival 10 is past the earliest-first 5
    // and the departure 10 is under the latest-last 20.
    let route_ctx = route_ctx_with_job_time_constraints(Some(5), Some(20));
    let result = evaluate(
        &route_ctx,
        0,
        &create_depot_activity(0, 0),
        &target_with_tw(10, (0, 100)),
        None,
    );
    assert_eq!(result, None);
}

#[test]
fn rejects_when_earliest_first_violated_even_with_valid_latest_last() {
    // Arrival 10 is before the earliest-first 15 and the window ends at 12:
    // the first-job rule rejects whatever the latest-last bound allows.
    let route_ctx = route_ctx_with_job_time_constraints(Some(15), Some(100));
    let result = evaluate(
        &route_ctx,
        0,
        &create_depot_activity(0, 0),
        &target_with_tw(10, (0, 12)),
        None,
    );
    assert_eq!(result, ConstraintViolation::skip(VIOLATION_CODE));
}

#[test]
fn allows_any_job_when_no_constraints_set() {
    // The dimension is present but both bounds are unset.
    let route_ctx = route_ctx_with_job_time_constraints(None, None);
    let result = evaluate(
        &route_ctx,
        0,
        &create_depot_activity(0, 0),
        &target_with_tw(100, (0, 5)),
        None,
    );
    assert_eq!(result, None);
}

#[test]
fn allows_any_job_when_vehicle_has_no_dimension() {
    // The vehicle carries no job-time-constraints dimension at all.
    let route_ctx = route_ctx_without_dimension();
    let result = evaluate(
        &route_ctx,
        0,
        &create_depot_activity(0, 0),
        &target_with_tw(100, (0, 5)),
        None,
    );
    assert_eq!(result, None);
}
