//! Statistics and feasibility of the schedule update, on closed and open
//! tours under every cost span.

use vrp_core::times::{TimeWindow, TimeSpan, ReservedTimeSpan, Schedule};
use vrp_core::model::{
    Place, Activity, JobInfo, VehiclePlace, ActorDetail, Actor, Route, RouteContext, RouteCostSpan,
};
use vrp_core::transport::{TravelMetric, TransportModel, ActivityCostModel};
use vrp_core::schedule::update_route_schedule;
use vrp_core::schedule::is_schedule_feasible;
use vrp_core::state::update_statistics;

fn depot_activity(location: usize, arrival: i64, departure: i64) -> Activity {
    Activity {
        place: Place {
            location,
            duration: 0,
            time: TimeWindow::new(0, 1000),
            times: Vec::new(),
        },
        schedule: Schedule::new(arrival, departure),
        job: None,
    }
}

fn job_activity(location: usize, arrival: i64, departure: i64) -> Activity {
    Activity {
        place: Place {
            location,
            duration: 0,
            time: TimeWindow::new(0, 1000),
            times: Vec::new(),
        },
        schedule: Schedule::new(arrival, departure),
        job: Some(JobInfo { target_nearest_distance: None, skills: Vec::new() }),
    }
}

fn create_detail(start_loc: usize, end_loc: usize) -> ActorDetail {
    ActorDetail {
        start: Some(VehiclePlace { location: start_loc, earliest: Some(0), latest: None }),
        end: Some(VehiclePlace { location: end_loc, earliest: None, latest: Some(1000) }),
        time_end: None,
    }
}

fn create_open_detail(start_loc: usize) -> ActorDetail {
    ActorDetail {
        start: Some(VehiclePlace { location: start_loc, earliest: Some(0), latest: None }),
        end: None,
        time_end: None,
    }
}

fn actor_with(detail: ActorDetail, cost_span: Option<RouteCostSpan>) -> Actor {
    Actor {
        detail,
        cost_span,
        job_time_constraints: None,
        per_service_time_cost: 0,
        skills: Vec::new(),
    }
}

/// Closed tour: depot at 0, jobs at 10, 30, 60, end depot at 0. Distances by
/// span: depot-to-depot 120, depot-to-last-job 60, first-job-to-depot 110,
/// first-job-to-last-job 50.
fn create_test_route_with_cost_span(cost_span: Option<RouteCostSpan>) -> (RouteContext, TransportModel) {
    let route = Route {
        actor: actor_with(create_detail(0, 0), cost_span),
        tour: vec![
            depot_activity(0, 0, 0),
            job_activity(10, 10, 10),
            job_activity(30, 30, 30),
            job_activity(60, 60, 60),
            depot_activity(0, 130, 130),
        ],
    };
    (RouteContext::new(route), TransportModel::basic(TravelMetric::Line))
}

fn create_open_vrp_route_with_cost_span(cost_span: Option<RouteCostSpan>) -> (RouteContext, TransportModel) {
    let route = Route {
        actor: actor_with(create_open_detail(0), cost_span),
        tour: vec![
            depot_activity(0, 0, 0),
            job_activity(10, 10, 10),
            job_activity(30, 30, 30),
            job_activity(60, 60, 60),
        ],
    };
    (RouteContext::new(route), TransportModel::basic(TravelMetric::Line))
}

fn totals(route_ctx: &RouteContext) -> (i64, i64) {
    (
        route_ctx.state.total_distance.unwrap_or(0),
        route_ctx.state.total_duration.unwrap_or(0),
    )
}

#[test]
fn can_calculate_statistics_with_depot_to_depot_span() {
    let (mut route_ctx, transport) = create_test_route_with_cost_span(Some(RouteCostSpan::DepotToDepot));

    update_statistics(&mut route_ctx, &transport);

    let (total_distance, total_duration) = totals(&route_ctx);
    assert_eq!(total_distance, 120, "DepotToDepot distance should be 120");
    assert_eq!(total_duration, 130, "DepotToDepot duration should be 130");
}

#[test]
fn can_calculate_statistics_with_depot_to_last_job_span() {
    let (mut route_ctx, transport) = create_test_route_with_cost_span(Some(RouteCostSpan::DepotToLastJob));

    update_statistics(&mut route_ctx, &transport);

    let (total_distance, total_duration) = totals(&route_ctx);
    assert_eq!(total_distance, 60, "DepotToLastJob distance should be 60");
    assert_eq!(total_duration, 60, "DepotToLastJob duration should be 60");
}

#[test]
fn can_calculate_statistics_with_first_job_to_depot_span() {
    let (mut route_ctx, transport) = create_test_route_with_cost_span(Some(RouteCostSpan::FirstJobToDepot));

    update_statistics(&mut route_ctx, &transport);

    let (total_distance, total_duration) = totals(&route_ctx);
    assert_eq!(total_distance, 110, "FirstJobToDepot distance should be 110");
    assert_eq!(total_duration, 120, "FirstJobToDepot duration should be 120");
}

#[test]
fn can_calculate_statistics_with_first_job_to_last_job_span() {
    let (mut route_ctx, transport) = create_test_route_with_cost_span(Some(RouteCostSpan::FirstJobToLastJob));

    update_statistics(&mut route_ctx, &transport);

    let (total_distance, total_duration) = totals(&route_ctx);
    assert_eq!(total_distance, 50, "FirstJobToLastJob distance should be 50");
    assert_eq!(total_duration, 50, "FirstJobToLastJob duration should be 50");
}

#[test]
fn can_calculate_statistics_with_default_span_when_not_set() {
    let (mut route_ctx, transport) = create_test_route_with_cost_span(None);

    update_statistics(&mut route_ctx, &transport);

    let (total_distance, total_duration) = totals(&route_ctx);
    assert_eq!(total_distance, 120, "Default span distance should match DepotToDepot");
    assert_eq!(total_duration, 130, "Default span duration should match DepotToDepot");
}

#[test]
fn can_handle_single_job_route_with_all_spans() {
    let test_cases = vec![
        (Some(RouteCostSpan::DepotToDepot), 20, 40),
        (Some(RouteCostSpan::DepotToLastJob), 10, 20),
        (Some(RouteCostSpan::FirstJobToDepot), 10, 20),
        (Some(RouteCostSpan::FirstJobToLastJob), 0, 0),
    ];

    for (span, expected_distance, expected_duration) in test_cases {
        let route = Route {
            actor: actor_with(create_detail(0, 0), span),
            tour: vec![
                depot_activity(0, 0, 0),
                job_activity(10, 20, 20),
                depot_activity(0, 40, 40),
            ],
        };
        let mut route_ctx = RouteContext::new(route);
        let transport = TransportModel::basic(TravelMetric::Line);

        update_statistics(&mut route_ctx, &transport);

        let (total_distance, total_duration) = totals(&route_ctx);
        assert_eq!(
            total_distance, expected_distance,
            "Single job route with {:?} should have distance {}",
            span, expected_distance
        );
        assert_eq!(
            total_duration, expected_duration,
            "Single job route with {:?} should have duration {}",
            span, expected_duration
        );
    }
}

#[test]
fn can_calculate_statistics_for_open_vrp_with_depot_to_depot_span() {
    let (mut route_ctx, transport) = create_open_vrp_route_with_cost_span(Some(RouteCostSpan::DepotToDepot));

    update_statistics(&mut route_ctx, &transport);

    let (total_distance, total_duration) = totals(&route_ctx);
    assert_eq!(total_distance, 60, "Open VRP DepotToDepot distance should be 60");
    assert_eq!(total_duration, 60, "Open VRP DepotToDepot duration should be 60");
}

#[test]
fn can_calculate_statistics_for_open_vrp_with_depot_to_last_job_span() {
    let (mut route_ctx, transport) = create_open_vrp_route_with_cost_span(Some(RouteCostSpan::DepotToLastJob));

    update_statistics(&mut route_ctx, &transport);

    let (total_distance, total_duration) = totals(&route_ctx);
    assert_eq!(total_distance, 60, "Open VRP DepotToLastJob distance should be 60");
    assert_eq!(total_duration, 60, "Open VRP DepotToLastJob duration should be 60");
}

#[test]
fn can_calculate_statistics_for_open_vrp_with_first_job_to_depot_span() {
    let (mut route_ctx, transport) = create_open_vrp_route_with_cost_span(Some(RouteCostSpan::FirstJobToDepot));

    update_statistics(&mut route_ctx, &transport);

    let (total_distance, total_duration) = totals(&route_ctx);
    assert_eq!(total_distance, 50, "Open VRP FirstJobToDepot distance should be 50");
    assert_eq!(total_duration, 50, "Open VRP FirstJobToDepot duration should be 50");
}

#[test]
fn can_calculate_statistics_for_open_vrp_with_first_job_to_last_job_span() {
    let (mut route_ctx, transport) = create_open_vrp_route_with_cost_span(Some(RouteCostSpan::FirstJobToLastJob));

    update_statistics(&mut route_ctx, &transport);

    let (total_distance, total_duration) = totals(&route_ctx);
    assert_eq!(total_distance, 50, "Open VRP FirstJobToLastJob distance should be 50");
    assert_eq!(total_duration, 50, "Open VRP FirstJobToLastJob duration should be 50");
}

fn create_feasibility_detail(start_loc: usize, end_loc: usize, time_start: i64, time_end: i64) -> ActorDetail {
    ActorDetail {
        start: Some(VehiclePlace { location: start_loc, earliest: Some(time_start), latest: None }),
        end: Some(VehiclePlace { location: end_loc, earliest: None, latest: Some(time_end) }),
        time_end: Some(time_end),
    }
}

fn activity_with_tw_and_duration(location: usize, tw: (i64, i64), duration: i64) -> Activity {
    Activity {
        place: Place {
            location,
            duration,
            time: TimeWindow::new(tw.0, tw.1),
            times: Vec::new(),
        },
        schedule: Schedule::new(0, 0),
        job: Some(JobInfo { target_nearest_distance: None, skills: Vec::new() }),
    }
}

#[test]
fn is_schedule_feasible_returns_true_for_feasible_route_with_reserved_time() {
    // Reserved time at 25 with duration 5. The activity at location 10 with
    // window (0, 100) and duration 10 is served over (10, 20): the reserved
    // interval does not interrupt it.
    let reserved_time = ReservedTimeSpan { time: TimeSpan::Window(TimeWindow::new(25, 25)), duration: 5 };
    let reserved = vec![reserved_time];
    let activity_cost = ActivityCostModel { reserved: reserved.clone() };
    let transport = TransportModel { metric: TravelMetric::Line, reserved };

    let route = Route {
        actor: actor_with(create_feasibility_detail(0, 0, 0, 100), None),
        tour: vec![
            depot_activity(0, 0, 0),
            activity_with_tw_and_duration(10, (0, 100), 10),
            depot_activity(0, 0, 0),
        ],
    };
    let mut route_ctx = RouteContext::new(route);
    update_route_schedule(&mut route_ctx, &activity_cost, &transport);

    assert!(is_schedule_feasible(&route_ctx.route, &activity_cost, &transport));
}

#[test]
fn is_schedule_feasible_returns_false_when_break_exceeds_activity_tw() {
    // Reserved time at 9 with duration 12 occupies (9, 21). The activity at
    // location 10 with window (0, 20) and duration 10 arrives at 10; the
    // reserved interval interrupts its service and the extension pushes the
    // service end past the window end.
    let reserved_time = ReservedTimeSpan { time: TimeSpan::Window(TimeWindow::new(9, 9)), duration: 12 };
    let activity_cost = ActivityCostModel { reserved: vec![reserved_time] };
    let transport = TransportModel::basic(TravelMetric::Line);

    let route = Route {
        actor: actor_with(create_feasibility_detail(0, 0, 0, 100), None),
        tour: vec![
            depot_activity(0, 0, 0),
            activity_with_tw_and_duration(10, (0, 20), 10),
            depot_activity(0, 0, 0),
        ],
    };
    let route_ctx = RouteContext::new(route);

    assert!(!is_schedule_feasible(&route_ctx.route, &activity_cost, &transport));
}
