//! Shift job-time limits, exercised end to end: jobs are inserted greedily
//! under the constraint and the schedule update, and the resulting tours and
//! unassigned jobs are checked.

use vrp_core::times::{TimeWindow, Schedule};
use vrp_core::model::{
    Place, Activity, JobInfo, VehiclePlace, ActorDetail, Actor, Route, RouteContext,
    RouteCostSpan, JobTimeConstraints,
};
use vrp_core::transport::{TravelMetric, TransportModel, ActivityCostModel};
use vrp_core::schedule::{update_route_schedule, is_schedule_feasible};
use vrp_core::departure::{advance_departure_time, recede_departure_time};
use vrp_core::features::{
    ViolationCode, MoveContext, ActivityContext, SolutionContext, SolutionState,
};
use vrp_core::limits::create_job_time_limits_feature;

const JOB_TIME_CONSTRAINT: &str = "JOB_TIME_CONSTRAINT";

#[derive(Clone)]
struct JobSpec {
    id: &'static str,
    x: usize,
    tw: (i64, i64),
    duration: i64,
}

#[derive(Clone)]
struct VehicleSpec {
    id: String,
    start_earliest: i64,
    start_latest: Option<i64>,
    end: Option<(usize, i64)>,
    earliest_first: Option<i64>,
    latest_last: Option<i64>,
    cost_span: Option<RouteCostSpan>,
}

fn create_delivery_job_with_times(id: &'static str, x: usize, tw: (i64, i64), duration: i64) -> JobSpec {
    JobSpec { id, x, tw, duration }
}

fn create_vehicle_with_job_time_constraints(
    earliest_first: Option<i64>,
    latest_last: Option<i64>,
) -> VehicleSpec {
    create_named_vehicle_with_job_time_constraints("my_vehicle", earliest_first, latest_last)
}

fn create_named_vehicle_with_job_time_constraints(
    type_id: &str,
    earliest_first: Option<i64>,
    latest_last: Option<i64>,
) -> VehicleSpec {
    VehicleSpec {
        id: format!("{}_1", type_id),
        start_earliest: 0,
        start_latest: None,
        end: Some((0, 1000)),
        earliest_first,
        latest_last,
        cost_span: None,
    }
}

fn create_open_route_vehicle_with_job_time_constraints(
    earliest_first: Option<i64>,
    latest_last: Option<i64>,
) -> VehicleSpec {
    VehicleSpec {
        id: "my_vehicle_1".to_string(),
        start_earliest: 0,
        start_latest: None,
        end: None,
        earliest_first,
        latest_last,
        cost_span: None,
    }
}

fn job_activity(spec: &JobSpec) -> Activity {
    Activity {
        place: Place {
            location: spec.x,
            duration: spec.duration,
            time: TimeWindow::new(spec.tw.0, spec.tw.1),
            times: Vec::new(),
        },
        schedule: Schedule::new(0, 0),
        job: Some(JobInfo { target_nearest_distance: None, skills: Vec::new() }),
    }
}

fn make_route(v: &VehicleSpec) -> RouteContext {
    let actor = Actor {
        detail: ActorDetail {
            start: Some(VehiclePlace { location: 0, earliest: Some(v.start_earliest), latest: v.start_latest }),
            end: v.end.map(|(loc, latest)| VehiclePlace { location: loc, earliest: None, latest: Some(latest) }),
            time_end: v.end.map(|(_, latest)| latest),
        },
        cost_span: v.cost_span,
        job_time_constraints: Some(JobTimeConstraints {
            earliest_first: v.earliest_first,
            latest_last: v.latest_last,
        }),
        per_service_time_cost: 1,
        skills: Vec::new(),
    };
    let mut tour = vec![Activity {
        place: Place { location: 0, duration: 0, time: TimeWindow::new(0, 1_000_000), times: Vec::new() },
        schedule: Schedule::new(v.start_earliest, v.start_earliest),
        job: None,
    }];
    if let Some((loc, latest)) = v.end {
        tour.push(Activity {
            place: Place { location: loc, duration: 0, time: TimeWindow::new(0, latest), times: Vec::new() },
            schedule: Schedule::new(v.start_earliest, v.start_earliest),
            job: None,
        });
    }
    RouteContext::new(Route { actor, tour })
}

struct SolvedTour {
    vehicle_id: String,
    job_ids: Vec<String>,
}

struct Solved {
    tours: Vec<SolvedTour>,
    unassigned: Option<Vec<(String, String)>>,
}

/// Greedy cheapest insertion under the job-time-limits constraint and the
/// feasibility probe, then departure rescheduling.
fn solve(jobs: Vec<JobSpec>, vehicles: Vec<VehicleSpec>) -> Solved {
    let transport = TransportModel::basic(TravelMetric::Line);
    let activity_cost = ActivityCostModel::basic();
    let feature = create_job_time_limits_feature(
        "job_time_limits",
        TransportModel::basic(TravelMetric::Line),
        ActivityCostModel::basic(),
        ViolationCode(1),
    )
    .unwrap();
    let constraint = feature.constraint.unwrap();
    let solution_ctx = SolutionContext { routes: Vec::new(), state: SolutionState::empty() };

    let mut routes: Vec<RouteContext> = Vec::new();
    let mut assigned_ids: Vec<Vec<String>> = Vec::new();
    for v in &vehicles {
        routes.push(make_route(v));
        assigned_ids.push(Vec::new());
    }

    let mut remaining: Vec<JobSpec> = jobs;
    let mut unassigned: Vec<(String, String)> = Vec::new();

    loop {
        let mut best: Option<(usize, usize, usize, i64)> = None;
        let mut any_constraint_reject = false;

        for (j, job) in remaining.iter().enumerate() {
            let candidate = job_activity(job);
            for (r, route_ctx) in routes.iter().enumerate() {
                let tour_len = route_ctx.route.tour.len();
                let has_end = route_ctx.route.actor.detail.end.is_some();
                let last_insert = if has_end { tour_len - 1 } else { tour_len };
                for pos in 1..=last_insert {
                    let prev = route_ctx.route.tour[pos - 1].clone();
                    let next = route_ctx.route.tour.get(pos).cloned();
                    let activity_ctx = ActivityContext {
                        index: pos - 1,
                        prev: &prev,
                        target: &candidate,
                        next: next.as_ref(),
                    };
                    let verdict = constraint.evaluate(&MoveContext::activity(
                        &solution_ctx,
                        route_ctx,
                        &activity_ctx,
                    ));
                    if verdict.is_some() {
                        any_constraint_reject = true;
                        continue;
                    }
                    let mut trial = route_ctx.clone();
                    trial.route.tour.insert(pos, candidate.clone());
                    update_route_schedule(&mut trial, &activity_cost, &transport);
                    if !is_schedule_feasible(&trial.route, &activity_cost, &transport) {
                        continue;
                    }
                    let prev_loc = prev.place.location as i64;
                    let next_loc = next.as_ref().map(|n| n.place.location as i64).unwrap_or(job.x as i64);
                    let x = job.x as i64;
                    let delta = (x - prev_loc).abs() + (next_loc - x).abs() - (next_loc - prev_loc).abs();
                    let better = match best {
                        None => true,
                        Some((_, _, _, d)) => delta < d,
                    };
                    if better {
                        best = Some((j, r, pos, delta));
                    }
                }
            }
        }

        match best {
            Some((j, r, pos, _)) => {
                let job = remaining.remove(j);
                routes[r].route.tour.insert(pos, job_activity(&job));
                update_route_schedule(&mut routes[r], &activity_cost, &transport);
                let insert_after = pos - 1;
                let cap = assigned_ids[r].len();
                assigned_ids[r].insert(insert_after.min(cap), job.id.to_string());
            },
            None => {
                for job in remaining.drain(..) {
                    let code = if any_constraint_reject { JOB_TIME_CONSTRAINT } else { "OTHER" };
                    unassigned.push((job.id.to_string(), code.to_string()));
                }
                break;
            },
        }
        if remaining.is_empty() {
            break;
        }
    }

    // Departure rescheduling, as the update pipeline would run it.
    for route_ctx in routes.iter_mut() {
        if route_ctx.route.tour.iter().any(|a| a.job.is_some()) {
            advance_departure_time(route_ctx, &activity_cost, &transport, false);
            recede_departure_time(route_ctx, &activity_cost, &transport);
        }
    }

    let mut tours = Vec::new();
    for r in 0..routes.len() {
        if !assigned_ids[r].is_empty() {
            tours.push(SolvedTour { vehicle_id: vehicles[r].id.clone(), job_ids: assigned_ids[r].clone() });
        }
    }

    Solved {
        tours,
        unassigned: if unassigned.is_empty() { None } else { Some(unassigned) },
    }
}

#[test]
fn can_reject_job_when_arrival_before_earliest_first() {
    // The job at 5 is reached at 5, before the earliest-first 10, and its
    // window ends at 8: it cannot wait, so it stays unassigned.
    let solution = solve(
        vec![create_delivery_job_with_times("job1", 5, (0, 8), 1)],
        vec![create_vehicle_with_job_time_constraints(Some(10), None)],
    );

    let unassigned = solution.unassigned.expect("job1 should be unassigned");
    assert_eq!(unassigned.len(), 1);
    assert_eq!(unassigned[0].0, "job1");
    assert_eq!(unassigned[0].1, JOB_TIME_CONSTRAINT);
}

#[test]
fn can_assign_job_when_arrival_after_earliest_first() {
    // The job at 15 is reached at 15, after the earliest-first 10.
    let solution = solve(
        vec![create_delivery_job_with_times("job1", 15, (0, 100), 1)],
        vec![create_vehicle_with_job_time_constraints(Some(10), None)],
    );

    assert!(solution.unassigned.is_none(), "Job should be assigned");
    assert_eq!(solution.tours.len(), 1);
    assert!(solution.tours[0].job_ids.iter().any(|id| id == "job1"), "Tour should contain job1");
}

#[test]
fn can_assign_job_when_time_window_allows_waiting() {
    // The job at 5 is reached before the earliest-first 10, but its window
    // extends to 100: waiting is possible.
    let solution = solve(
        vec![create_delivery_job_with_times("job1", 5, (0, 100), 1)],
        vec![create_vehicle_with_job_time_constraints(Some(10), None)],
    );

    assert!(solution.unassigned.is_none(), "Job should be assigned because TW allows waiting");
    assert_eq!(solution.tours.len(), 1);
    assert!(solution.tours[0].job_ids.iter().any(|id| id == "job1"), "Tour should contain job1");
}

#[test]
fn can_reject_job_when_departure_after_latest_last() {
    // The job at 50 departs at 51, past the latest-last 30.
    let solution = solve(
        vec![create_delivery_job_with_times("job1", 50, (0, 100), 1)],
        vec![create_vehicle_with_job_time_constraints(None, Some(30))],
    );

    let unassigned = solution.unassigned.expect("job1 should be unassigned");
    assert_eq!(unassigned[0].0, "job1");
    assert_eq!(unassigned[0].1, JOB_TIME_CONSTRAINT);
}

#[test]
fn can_assign_job_when_departure_before_latest_last() {
    // The job at 10 departs at 11, under the latest-last 30.
    let solution = solve(
        vec![create_delivery_job_with_times("job1", 10, (0, 100), 1)],
        vec![create_vehicle_with_job_time_constraints(None, Some(30))],
    );

    assert!(solution.unassigned.is_none(), "Job should be assigned");
    assert_eq!(solution.tours.len(), 1);
    assert!(solution.tours[0].job_ids.iter().any(|id| id == "job1"), "Tour should contain job1");
}

#[test]
fn can_apply_both_constraints_and_assign_job() {
    // Arrival 15 is past the earliest-first 10 and the departure 16 is under
    // the latest-last 30.
    let solution = solve(
        vec![create_delivery_job_with_times("job1", 15, (0, 100), 1)],
        vec![create_vehicle_with_job_time_constraints(Some(10), Some(30))],
    );

    assert!(solution.unassigned.is_none(), "Job should be assigned");
    assert_eq!(solution.tours.len(), 1);
}

#[test]
fn can_apply_both_constraints_and_reject_job() {
    // The window ends at 8, before the earliest-first 10: cannot wait.
    let solution = solve(
        vec![create_delivery_job_with_times("job1", 5, (0, 8), 1)],
        vec![create_vehicle_with_job_time_constraints(Some(10), Some(100))],
    );

    let unassigned = solution.unassigned.expect("Job should be unassigned");
    assert_eq!(unassigned[0].0, "job1");
}

#[test]
fn can_handle_multiple_jobs_with_constraints() {
    // The jobs at 5 and 20 fit under earliest-first 10 and latest-last 50;
    // the job at 100 cannot be departed from in time.
    let solution = solve(
        vec![
            create_delivery_job_with_times("job1", 5, (0, 100), 1),
            create_delivery_job_with_times("job2", 20, (0, 100), 1),
            create_delivery_job_with_times("job3", 100, (0, 200), 1),
        ],
        vec![create_vehicle_with_job_time_constraints(Some(10), Some(50))],
    );

    let unassigned = solution.unassigned.expect("Should have unassigned jobs");
    assert!(unassigned.iter().any(|(id, _)| id == "job3"), "job3 should be unassigned");

    assert_eq!(solution.tours.len(), 1);
    assert!(solution.tours[0].job_ids.iter().any(|id| id == "job1"), "job1 should be assigned");
    assert!(solution.tours[0].job_ids.iter().any(|id| id == "job2"), "job2 should be assigned");
}

#[test]
fn can_reject_job_when_duration_causes_departure_after_latest_last() {
    // Arrival 10 is before the latest-last 15, but 10 units of service push
    // the departure to 20.
    let solution = solve(
        vec![create_delivery_job_with_times("job1", 10, (0, 100), 10)],
        vec![create_vehicle_with_job_time_constraints(None, Some(15))],
    );

    let unassigned = solution.unassigned.expect("Job should be unassigned");
    assert_eq!(unassigned[0].0, "job1");
}

#[test]
fn can_work_with_depot_to_depot_span() {
    // The job-time limits apply whatever the cost span.
    let mut vehicle = create_vehicle_with_job_time_constraints(Some(10), None);
    vehicle.cost_span = Some(RouteCostSpan::DepotToDepot);
    let solution = solve(
        vec![create_delivery_job_with_times("job1", 5, (0, 8), 1)],
        vec![vehicle],
    );

    let unassigned = solution.unassigned.expect("Job should be unassigned");
    assert_eq!(unassigned[0].1, JOB_TIME_CONSTRAINT);
}

#[test]
fn can_apply_different_constraints_to_different_vehicles() {
    // The strict vehicle (earliest-first 20, latest-last 25) rejects the job
    // at 10 with window (0, 15); the relaxed one accepts it.
    let solution = solve(
        vec![create_delivery_job_with_times("job1", 10, (0, 15), 1)],
        vec![
            create_named_vehicle_with_job_time_constraints("vehicle_strict", Some(20), Some(25)),
            create_named_vehicle_with_job_time_constraints("vehicle_relaxed", Some(5), Some(100)),
        ],
    );

    assert!(solution.unassigned.is_none(), "Job should be assigned");
    assert_eq!(solution.tours.len(), 1);
    assert!(
        solution.tours[0].vehicle_id.contains("vehicle_relaxed"),
        "Job should be assigned to vehicle_relaxed, but was assigned to {}",
        solution.tours[0].vehicle_id
    );
}

#[test]
fn can_reject_job_when_waiting_causes_latest_last_violation() {
    // Waiting until the earliest-first 10 plus 5 units of service puts the
    // departure at 15, past the latest-last 12.
    let solution = solve(
        vec![create_delivery_job_with_times("job1", 5, (0, 100), 5)],
        vec![create_vehicle_with_job_time_constraints(Some(10), Some(12))],
    );

    let unassigned = solution.unassigned.expect("Job should be unassigned");
    assert_eq!(unassigned[0].0, "job1");
}

#[test]
fn earliest_first_only_applies_to_first_job() {
    // The job at 5 would violate the earliest-first bound only as the first
    // job; as the second it is reached late enough.
    let solution = solve(
        vec![
            create_delivery_job_with_times("job1", 15, (0, 100), 1),
            create_delivery_job_with_times("job2", 5, (0, 100), 1),
        ],
        vec![create_vehicle_with_job_time_constraints(Some(10), None)],
    );

    assert!(solution.unassigned.is_none(), "Both jobs should be assigned");
    assert_eq!(solution.tours.len(), 1);
    assert!(solution.tours[0].job_ids.iter().any(|id| id == "job1"), "job1 should be assigned");
    assert!(solution.tours[0].job_ids.iter().any(|id| id == "job2"), "job2 should be assigned");
}

#[test]
fn latest_last_only_applies_to_last_job() {
    // Both jobs fit when the nearer one is served within the bound.
    let solution = solve(
        vec![
            create_delivery_job_with_times("job1", 10, (0, 100), 1),
            create_delivery_job_with_times("job2", 25, (0, 100), 1),
        ],
        vec![create_vehicle_with_job_time_constraints(None, Some(30))],
    );

    assert!(solution.unassigned.is_none(), "Both jobs should be assigned");
    assert_eq!(solution.tours.len(), 1);
    assert_eq!(solution.tours[0].job_ids.len(), 2, "Should have 2 jobs in tour");
}

#[test]
fn can_handle_tight_time_window() {
    // Arrival 10 meets the earliest-first 10 exactly and the departure 11
    // stays under the latest-last 12.
    let solution = solve(
        vec![create_delivery_job_with_times("job1", 10, (0, 100), 1)],
        vec![create_vehicle_with_job_time_constraints(Some(10), Some(12))],
    );

    assert!(solution.unassigned.is_none(), "Job should fit in tight window");
    assert_eq!(solution.tours.len(), 1);
}

#[test]
fn can_reject_job_outside_tight_time_window() {
    // Two units of service push the departure to 12, past the latest-last 11.
    let solution = solve(
        vec![create_delivery_job_with_times("job1", 10, (0, 100), 2)],
        vec![create_vehicle_with_job_time_constraints(Some(10), Some(11))],
    );

    let unassigned = solution.unassigned.expect("Job should not fit in tight window");
    assert_eq!(unassigned[0].0, "job1");
}

#[test]
fn can_apply_latest_last_on_open_route() {
    // On an open route the job at 10 departs at 11, under the latest-last 15.
    let solution = solve(
        vec![create_delivery_job_with_times("job1", 10, (0, 100), 1)],
        vec![create_open_route_vehicle_with_job_time_constraints(None, Some(15))],
    );

    assert!(solution.unassigned.is_none(), "Job should be assigned on open route");
    assert_eq!(solution.tours.len(), 1);
}

#[test]
fn can_reject_job_on_open_route_when_latest_last_violated() {
    // On an open route the job at 20 departs at 21, past the latest-last 15.
    let solution = solve(
        vec![create_delivery_job_with_times("job1", 20, (0, 100), 1)],
        vec![create_open_route_vehicle_with_job_time_constraints(None, Some(15))],
    );

    let unassigned = solution.unassigned.expect("Job should be rejected on open route");
    assert_eq!(unassigned[0].0, "job1");
}
