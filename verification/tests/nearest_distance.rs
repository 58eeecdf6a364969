//! The nearest-distance objective: penalties for jobs whose nearest
//! neighbour on the same route is farther than their threshold.

use vrp_core::times::{TimeWindow, Schedule};
use vrp_core::model::{
    Place, Activity, JobInfo, VehiclePlace, ActorDetail, Actor, Route, RouteContext,
};
use vrp_core::transport::{TravelMetric, TransportModel};
use vrp_core::features::{
    NearestDistanceFeatureBuilder, JobTargetFn, Job, MoveContext, SolutionContext, SolutionState,
    InsertionContext,
};

fn create_test_feature() -> vrp_core::features::Feature {
    NearestDistanceFeatureBuilder::new("test_nearest_distance")
        .set_transport(TransportModel::basic(TravelMetric::Line))
        .set_job_target_fn(JobTargetFn::StoredTarget)
        .build()
        .unwrap()
}

fn job_activity(location: usize, target: Option<i64>) -> Activity {
    Activity {
        place: Place { location, duration: 0, time: TimeWindow::new(0, 1000), times: Vec::new() },
        schedule: Schedule::new(0, 0),
        job: Some(JobInfo { target_nearest_distance: target, skills: Vec::new() }),
    }
}

fn depot_activity(location: usize) -> Activity {
    Activity {
        place: Place { location, duration: 0, time: TimeWindow::new(0, 1000), times: Vec::new() },
        schedule: Schedule::new(0, 0),
        job: None,
    }
}

fn default_actor() -> Actor {
    Actor {
        detail: ActorDetail {
            start: Some(VehiclePlace { location: 0, earliest: Some(0), latest: None }),
            end: Some(VehiclePlace { location: 0, earliest: None, latest: Some(1000) }),
            time_end: None,
        },
        cost_span: None,
        job_time_constraints: None,
        per_service_time_cost: 0,
        skills: Vec::new(),
    }
}

fn route_ctx_with_jobs(jobs: Vec<Activity>) -> RouteContext {
    let mut tour = vec![depot_activity(0)];
    for a in jobs {
        tour.push(a);
    }
    RouteContext::new(Route { actor: default_actor(), tour })
}

fn insertion_ctx_with_routes(routes: Vec<RouteContext>) -> InsertionContext {
    InsertionContext {
        solution: SolutionContext { routes, state: SolutionState::empty() },
    }
}

fn job_with(location: Option<usize>, target: Option<i64>) -> Job {
    Job { location, target_nearest_distance: target, skills: Vec::new() }
}

#[test]
fn nearest_distance_test_can_create_feature_with_all_required_parameters() {
    let result = NearestDistanceFeatureBuilder::new("test")
        .set_transport(TransportModel::basic(TravelMetric::Line))
        .set_job_target_fn(JobTargetFn::StoredTarget)
        .build();

    assert!(result.is_ok());
    let feature = result.unwrap();
    assert!(feature.objective.is_some());
    assert!(feature.state.is_some());
}

#[test]
fn nearest_distance_test_can_return_error_when_transport_not_set() {
    let result = NearestDistanceFeatureBuilder::new("test")
        .set_job_target_fn(JobTargetFn::StoredTarget)
        .build();

    assert!(result.is_err());
    assert!(result.unwrap_err().to_string().contains("transport"));
}

#[test]
fn can_return_error_when_job_target_fn_not_set() {
    let result = NearestDistanceFeatureBuilder::new("test")
        .set_transport(TransportModel::basic(TravelMetric::Line))
        .build();

    assert!(result.is_err());
    assert!(result.unwrap_err().to_string().contains("job_target_fn"));
}

#[test]
fn nearest_distance_test_can_return_zero_fitness_for_empty_route() {
    let feature = create_test_feature();
    let objective = feature.objective.unwrap();
    let route_ctx = route_ctx_with_jobs(Vec::new());
    let insertion_ctx = insertion_ctx_with_routes(vec![route_ctx]);

    let fitness = objective.fitness(&insertion_ctx);

    assert_eq!(fitness, 0);
}

#[test]
fn can_return_zero_fitness_for_single_job_route() {
    // A single job has no other job to compute a nearest distance with.
    let feature = create_test_feature();
    let objective = feature.objective.unwrap();
    let route_ctx = route_ctx_with_jobs(vec![job_activity(10, Some(5))]);
    let insertion_ctx = insertion_ctx_with_routes(vec![route_ctx]);

    let fitness = objective.fitness(&insertion_ctx);

    assert_eq!(fitness, 0);
}

#[test]
fn can_return_zero_fitness_when_jobs_have_no_target() {
    // Jobs without a threshold contribute nothing, however far apart.
    let feature = create_test_feature();
    let objective = feature.objective.unwrap();
    let route_ctx = route_ctx_with_jobs(vec![job_activity(0, None), job_activity(100, None)]);
    let insertion_ctx = insertion_ctx_with_routes(vec![route_ctx]);

    let fitness = objective.fitness(&insertion_ctx);

    assert_eq!(fitness, 0);
}

#[test]
fn can_return_zero_fitness_when_within_threshold() {
    // Jobs at 10 and 15 with threshold 20: the distance 5 is within bounds.
    let feature = create_test_feature();
    let objective = feature.objective.unwrap();
    let route_ctx = route_ctx_with_jobs(vec![job_activity(10, Some(20)), job_activity(15, Some(20))]);
    let insertion_ctx = insertion_ctx_with_routes(vec![route_ctx]);

    let fitness = objective.fitness(&insertion_ctx);

    assert_eq!(fitness, 0);
}

#[test]
fn can_return_penalty_when_exceeding_threshold() {
    // Jobs at 0 and 100 with threshold 5: each contributes 100 - 5 = 95.
    let feature = create_test_feature();
    let objective = feature.objective.unwrap();
    let route_ctx = route_ctx_with_jobs(vec![job_activity(0, Some(5)), job_activity(100, Some(5))]);
    let insertion_ctx = insertion_ctx_with_routes(vec![route_ctx]);

    let fitness = objective.fitness(&insertion_ctx);

    assert_eq!(fitness, 190);
}

#[test]
fn can_penalize_only_jobs_with_target() {
    // Only the job at 0 carries a threshold: min distance 50, penalty 45.
    let feature = create_test_feature();
    let objective = feature.objective.unwrap();
    let route_ctx = route_ctx_with_jobs(vec![
        job_activity(0, Some(5)),
        job_activity(50, None),
        job_activity(100, None),
    ]);
    let insertion_ctx = insertion_ctx_with_routes(vec![route_ctx]);

    let fitness = objective.fitness(&insertion_ctx);

    assert_eq!(fitness, 45);
}

#[test]
fn can_handle_multiple_jobs_with_different_thresholds() {
    // Jobs at 0 (threshold 50), 10 (threshold 100) and 100 (threshold 20):
    // only the last exceeds its threshold, by 90 - 20 = 70.
    let feature = create_test_feature();
    let objective = feature.objective.unwrap();
    let route_ctx = route_ctx_with_jobs(vec![
        job_activity(0, Some(50)),
        job_activity(10, Some(100)),
        job_activity(100, Some(20)),
    ]);
    let insertion_ctx = insertion_ctx_with_routes(vec![route_ctx]);

    let fitness = objective.fitness(&insertion_ctx);

    assert_eq!(fitness, 70);
}

#[test]
fn can_estimate_zero_for_job_without_target() {
    let feature = create_test_feature();
    let objective = feature.objective.unwrap();
    let job = job_with(Some(50), None);
    let route_ctx = route_ctx_with_jobs(Vec::new());
    let solution_ctx = SolutionContext { routes: Vec::new(), state: SolutionState::empty() };

    let estimate = objective.estimate(&MoveContext::route(&solution_ctx, &route_ctx, &job));

    assert_eq!(estimate, 0);
}

#[test]
fn can_estimate_zero_when_within_threshold() {
    // Inserting at 50 with threshold 100 next to jobs at 40 and 60: the
    // least distance 10 stays inside the threshold.
    let feature = create_test_feature();
    let objective = feature.objective.unwrap();
    let job = job_with(Some(50), Some(100));
    let route_ctx = route_ctx_with_jobs(vec![job_activity(40, None), job_activity(60, None)]);
    let solution_ctx = SolutionContext { routes: Vec::new(), state: SolutionState::empty() };

    let estimate = objective.estimate(&MoveContext::route(&solution_ctx, &route_ctx, &job));

    assert_eq!(estimate, 0);
}

#[test]
fn can_estimate_penalty_when_exceeding_threshold() {
    // Inserting at 50 with threshold 5 next to jobs at 0 and 100: the least
    // distance 50 exceeds the threshold by 45.
    let feature = create_test_feature();
    let objective = feature.objective.unwrap();
    let job = job_with(Some(50), Some(5));
    let route_ctx = route_ctx_with_jobs(vec![job_activity(0, None), job_activity(100, None)]);
    let solution_ctx = SolutionContext { routes: Vec::new(), state: SolutionState::empty() };

    let estimate = objective.estimate(&MoveContext::route(&solution_ctx, &route_ctx, &job));

    assert_eq!(estimate, 45);
}

#[test]
fn can_estimate_zero_for_empty_route() {
    // No existing jobs on the route: nothing to compare with.
    let feature = create_test_feature();
    let objective = feature.objective.unwrap();
    let job = job_with(Some(50), Some(5));
    let route_ctx = route_ctx_with_jobs(Vec::new());
    let solution_ctx = SolutionContext { routes: Vec::new(), state: SolutionState::empty() };

    let estimate = objective.estimate(&MoveContext::route(&solution_ctx, &route_ctx, &job));

    assert_eq!(estimate, 0);
}

#[test]
fn can_prefer_compact_route_over_scattered_route() {
    // Compact jobs at 10, 12, 14 stay within the threshold 10; scattered
    // jobs at 0, 50, 100 each exceed it by 40.
    let feature = create_test_feature();
    let objective = feature.objective.unwrap();

    let compact = route_ctx_with_jobs(vec![
        job_activity(10, Some(10)),
        job_activity(12, Some(10)),
        job_activity(14, Some(10)),
    ]);
    let compact_ctx = insertion_ctx_with_routes(vec![compact]);
    let compact_fitness = objective.fitness(&compact_ctx);

    let feature_b = create_test_feature();
    let objective_b = feature_b.objective.unwrap();
    let scattered = route_ctx_with_jobs(vec![
        job_activity(0, Some(10)),
        job_activity(50, Some(10)),
        job_activity(100, Some(10)),
    ]);
    let scattered_ctx = insertion_ctx_with_routes(vec![scattered]);
    let scattered_fitness = objective_b.fitness(&scattered_ctx);

    assert_eq!(compact_fitness, 0);
    assert_eq!(scattered_fitness, 120);
    assert!(compact_fitness < scattered_fitness);
}
