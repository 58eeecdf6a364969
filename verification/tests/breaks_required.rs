//! Required breaks with flexible start times, end to end: jobs are inserted
//! greedily, the departure is rescheduled, reserved times are materialised as
//! break activities, and the emitted tours are validated.

use vrp_core::times::{TimeWindow, TimeSpan, ReservedTimeSpan, Schedule};
use vrp_core::model::{
    Place, Activity, JobInfo, VehiclePlace, ActorDetail, Actor, Route, RouteContext, RouteCostSpan,
};
use vrp_core::transport::{TravelMetric, TransportModel, ActivityCostModel};
use vrp_core::schedule::{update_route_schedule, is_schedule_feasible};
use vrp_core::departure::advance_departure_time;
use vrp_core::breaks::{
    OutActivity, OutActivityType, PointStop, Stop, Times, Statistic, OutTour,
    insert_reserved_times_as_breaks,
};
use vrp_core::checker::{
    VehicleBreak, VehicleRequiredBreakTime, VehicleShiftInfo, BreakViolation, CheckerSolution,
    CheckerContext, check_breaks,
};

#[derive(Clone, Copy)]
enum BreakTimeSpec {
    Offset(i64, i64),
    Exact(i64, i64),
}

#[derive(Clone, Copy)]
struct BreakSpec {
    time: BreakTimeSpec,
    duration: i64,
}

#[derive(Clone)]
struct JobSpec {
    id: &'static str,
    coords: (f64, f64),
    tw: Option<(i64, i64)>,
    duration: i64,
    kind: OutActivityType,
}

#[derive(Clone)]
struct VehicleSpec {
    id: String,
    start_latest: Option<i64>,
    end_latest: Option<i64>,
    breaks: Vec<BreakSpec>,
    cost_span: Option<RouteCostSpan>,
}

fn create_delivery_job(id: &'static str, coords: (f64, f64)) -> JobSpec {
    JobSpec { id, coords, tw: None, duration: 1, kind: OutActivityType::Delivery }
}

fn create_delivery_job_with_times(id: &'static str, coords: (f64, f64), tw: (i64, i64), duration: i64) -> JobSpec {
    JobSpec { id, coords, tw: Some(tw), duration, kind: OutActivityType::Delivery }
}

fn create_delivery_job_with_duration(id: &'static str, coords: (f64, f64), duration: i64) -> JobSpec {
    JobSpec { id, coords, tw: None, duration, kind: OutActivityType::Delivery }
}

fn create_pickup_delivery_job(id: &'static str, pickup: (f64, f64), delivery: (f64, f64)) -> Vec<JobSpec> {
    vec![
        JobSpec { id, coords: pickup, tw: None, duration: 1, kind: OutActivityType::Pickup },
        JobSpec { id, coords: delivery, tw: None, duration: 1, kind: OutActivityType::Delivery },
    ]
}

fn vehicle_with_breaks(start_latest: Option<i64>, end_latest: Option<i64>, breaks: Vec<BreakSpec>) -> VehicleSpec {
    VehicleSpec { id: "my_vehicle_1".to_string(), start_latest, end_latest, breaks, cost_span: None }
}

/// A duration and distance matrix over the depot and job coordinates, with
/// rounded Euclidean entries, mirroring a matrix built from the problem.
fn matrix_from_coords(coords: &[(f64, f64)]) -> TravelMetric {
    let size = coords.len();
    let mut durations: Vec<i64> = Vec::new();
    let mut distances: Vec<i64> = Vec::new();
    for a in coords {
        for b in coords {
            let d = (((a.0 - b.0).powi(2) + (a.1 - b.1).powi(2)).sqrt()).round() as i64;
            durations.push(d);
            distances.push(d);
        }
    }
    TravelMetric::Matrix { size, durations, distances }
}

fn reserved_from_breaks(breaks: &[BreakSpec]) -> Vec<ReservedTimeSpan> {
    breaks
        .iter()
        .map(|b| match b.time {
            BreakTimeSpec::Offset(e, l) => ReservedTimeSpan {
                time: TimeSpan::Offset(TimeWindow::new(e, l)),
                duration: b.duration,
            },
            BreakTimeSpec::Exact(e, l) => ReservedTimeSpan {
                time: TimeSpan::Window(TimeWindow::new(e, l)),
                duration: b.duration,
            },
        })
        .collect()
}

fn shift_breaks(breaks: &[BreakSpec]) -> Vec<VehicleBreak> {
    breaks
        .iter()
        .map(|b| match b.time {
            BreakTimeSpec::Offset(e, l) => VehicleBreak::Required {
                time: VehicleRequiredBreakTime::OffsetTime { earliest: e, latest: l },
                duration: b.duration,
            },
            BreakTimeSpec::Exact(e, l) => VehicleBreak::Required {
                time: VehicleRequiredBreakTime::ExactTime { earliest: e, latest: l },
                duration: b.duration,
            },
        })
        .collect()
}

struct Solved {
    tours: Vec<OutTour>,
    shifts: Vec<VehicleShiftInfo>,
    unassigned: Vec<String>,
}

/// Greedy cheapest insertion under the feasibility probe, departure
/// rescheduling, then break materialisation.
fn solve_with_breaks(jobs: Vec<JobSpec>, vehicles: Vec<VehicleSpec>) -> Solved {
    // Locations: index 0 is the depot, then one per job.
    let mut coords: Vec<(f64, f64)> = vec![(0.0, 0.0)];
    for j in &jobs {
        coords.push(j.coords);
    }
    let metric = matrix_from_coords(&coords);

    let mut transports: Vec<TransportModel> = Vec::new();
    let mut activity_costs: Vec<ActivityCostModel> = Vec::new();
    let mut routes: Vec<RouteContext> = Vec::new();
    let mut names: Vec<Vec<&'static str>> = Vec::new();
    let mut kinds: Vec<Vec<OutActivityType>> = Vec::new();
    for v in &vehicles {
        let reserved = reserved_from_breaks(&v.breaks);
        transports.push(TransportModel { metric: metric.clone(), reserved: reserved.clone() });
        activity_costs.push(ActivityCostModel { reserved });
        let actor = Actor {
            detail: ActorDetail {
                start: Some(VehiclePlace { location: 0, earliest: Some(0), latest: v.start_latest }),
                end: v.end_latest.map(|latest| VehiclePlace { location: 0, earliest: None, latest: Some(latest) }),
                time_end: v.end_latest,
            },
            cost_span: v.cost_span,
            job_time_constraints: None,
            per_service_time_cost: 1,
            skills: Vec::new(),
        };
        let mut tour = vec![Activity {
            place: Place { location: 0, duration: 0, time: TimeWindow::new(0, 1_000_000), times: Vec::new() },
            schedule: Schedule::new(0, 0),
            job: None,
        }];
        if let Some(latest) = v.end_latest {
            tour.push(Activity {
                place: Place { location: 0, duration: 0, time: TimeWindow::new(0, latest), times: Vec::new() },
                schedule: Schedule::new(0, 0),
                job: None,
            });
        }
        routes.push(RouteContext::new(Route { actor, tour }));
        names.push(Vec::new());
        kinds.push(Vec::new());
    }

    let job_activity = |job_idx: usize, job: &JobSpec| -> Activity {
        let tw = job.tw.unwrap_or((0, 1_000_000));
        Activity {
            place: Place {
                location: job_idx + 1,
                duration: job.duration,
                time: TimeWindow::new(tw.0, tw.1),
                times: Vec::new(),
            },
            schedule: Schedule::new(0, 0),
            job: Some(JobInfo { target_nearest_distance: None, skills: Vec::new() }),
        }
    };

    let mut remaining: Vec<(usize, JobSpec)> = jobs.iter().cloned().enumerate().collect();
    let mut unassigned: Vec<String> = Vec::new();

    loop {
        let mut best: Option<(usize, usize, usize, i64)> = None;
        for (slot, (job_idx, job)) in remaining.iter().enumerate() {
            let candidate = job_activity(*job_idx, job);
            for (r, route_ctx) in routes.iter().enumerate() {
                let tour_len = route_ctx.route.tour.len();
                let has_end = route_ctx.route.actor.detail.end.is_some();
                let last_insert = if has_end { tour_len - 1 } else { tour_len };
                for pos in (1..=last_insert).rev() {
                    let mut trial = route_ctx.clone();
                    trial.route.tour.insert(pos, candidate.clone());
                    update_route_schedule(&mut trial, &activity_costs[r], &transports[r]);
                    if !is_schedule_feasible(&trial.route, &activity_costs[r], &transports[r]) {
                        continue;
                    }
                    let old_total = route_ctx.state.total_duration.unwrap_or(0);
                    let new_total = trial.state.total_duration.unwrap_or(0);
                    let delta = new_total - old_total;
                    let better = match best {
                        None => true,
                        Some((_, _, _, d)) => delta < d,
                    };
                    if better {
                        best = Some((slot, r, pos, delta));
                    }
                }
            }
        }
        match best {
            Some((slot, r, pos, _)) => {
                let (job_idx, job) = remaining.remove(slot);
                routes[r].route.tour.insert(pos, job_activity(job_idx, &job));
                update_route_schedule(&mut routes[r], &activity_costs[r], &transports[r]);
                let cap = names[r].len();
                names[r].insert((pos - 1).min(cap), job.id);
                let cap2 = kinds[r].len();
                kinds[r].insert((pos - 1).min(cap2), job.kind);
            },
            None => {
                for (_, job) in remaining.drain(..) {
                    unassigned.push(job.id.to_string());
                }
                break;
            },
        }
        if remaining.is_empty() {
            break;
        }
    }

    // Departure rescheduling, then break materialisation per tour.
    let mut tours = Vec::new();
    let mut shifts = Vec::new();
    for (r, route_ctx) in routes.iter_mut().enumerate() {
        if names[r].is_empty() {
            continue;
        }
        advance_departure_time(route_ctx, &activity_costs[r], &transports[r], false);

        let mut tour = route_to_out_tour(route_ctx, &vehicles[r].id, &names[r], &kinds[r]);
        let reserved = reserved_from_breaks(&vehicles[r].breaks);
        insert_reserved_times_as_breaks(&route_ctx.route, &mut tour, &reserved);
        tours.push(tour);
        shifts.push(VehicleShiftInfo {
            vehicle_id: vehicles[r].id.clone(),
            shift_index: 0,
            breaks: shift_breaks(&vehicles[r].breaks),
            cost_span: vehicles[r].cost_span,
        });
    }

    Solved { tours, shifts, unassigned }
}

/// Emits the route as an output tour: one stop per activity, with departure
/// and arrival markers on the depots and service intervals on the jobs.
fn route_to_out_tour(
    route_ctx: &RouteContext,
    vehicle_id: &str,
    names: &[&'static str],
    kinds: &[OutActivityType],
) -> OutTour {
    let tour = &route_ctx.route.tour;
    let has_end = route_ctx.route.actor.detail.end.is_some();
    let mut stops: Vec<Stop> = Vec::new();
    for (i, a) in tour.iter().enumerate() {
        let is_start = i == 0;
        let is_end = has_end && i + 1 == tour.len();
        let (job_id, activity_type, time) = if is_start {
            ("departure".to_string(), OutActivityType::Departure, None)
        } else if is_end {
            ("arrival".to_string(), OutActivityType::Arrival, None)
        } else {
            let service_start = a.schedule.arrival.max(a.place.time.start);
            (
                names[i - 1].to_string(),
                kinds[i - 1],
                Some(TimeWindow::new(service_start, service_start + a.place.duration)),
            )
        };
        stops.push(Stop::Point(PointStop {
            location: a.place.location,
            time: Schedule::new(a.schedule.arrival, a.schedule.departure),
            load: vec![0],
            activities: vec![OutActivity {
                job_id,
                activity_type,
                location: Some(a.place.location),
                time,
            }],
        }));
    }
    OutTour {
        vehicle_id: vehicle_id.to_string(),
        shift_index: 0,
        stops,
        statistic: Statistic {
            cost: 0,
            distance: 0,
            duration: 0,
            times: Times { driving: 0, serving: 0, waiting: 0, break_time: 0 },
        },
    }
}

fn kind_name(t: OutActivityType) -> &'static str {
    match t {
        OutActivityType::Departure => "departure",
        OutActivityType::Arrival => "arrival",
        OutActivityType::Delivery => "delivery",
        OutActivityType::Pickup => "pickup",
        OutActivityType::Service => "service",
        OutActivityType::Break => "break",
    }
}

/// Collects all activity intervals (start, end, type, job id) from a tour.
fn collect_activity_intervals(tour: &OutTour) -> Vec<(i64, i64, String, String)> {
    let mut intervals = Vec::new();
    for stop in &tour.stops {
        let schedule = stop.schedule();
        for a in stop.activities() {
            match &a.time {
                Some(time) => intervals.push((
                    time.start,
                    time.end,
                    kind_name(a.activity_type).to_string(),
                    a.job_id.clone(),
                )),
                None => intervals.push((
                    schedule.arrival,
                    schedule.departure,
                    kind_name(a.activity_type).to_string(),
                    a.job_id.clone(),
                )),
            }
        }
    }
    intervals
}

fn format_tour_debug(tour: &OutTour) -> String {
    let mut lines = vec![format!("vehicle={} shift={}", tour.vehicle_id, tour.shift_index)];
    for (i, stop) in tour.stops.iter().enumerate() {
        let s = stop.schedule();
        let stop_type = if matches!(stop, Stop::Transit(_)) { "T" } else { "P" };
        lines.push(format!("  stop {i}{stop_type}: arr={} dep={}", s.arrival, s.departure));
        for a in stop.activities() {
            let t = a.time.as_ref().map(|t| format!("[{}..{}]", t.start, t.end)).unwrap_or_default();
            lines.push(format!("    {}({}) {}", a.job_id, kind_name(a.activity_type), t));
        }
    }
    lines.join("\n")
}

/// Validates break count and duration, break-versus-job overlaps, stop
/// schedule consistency, in-stop ordering and bounds, tour bounds, and that
/// required breaks carry no own location.
fn validate_tour_breaks_and_schedule(tour: &OutTour, expected_break_count: usize, expected_break_duration: i64) {
    let intervals = collect_activity_intervals(tour);

    let break_intervals: Vec<_> = intervals.iter().filter(|(_, _, typ, _)| typ == "break").collect();
    assert_eq!(
        break_intervals.len(),
        expected_break_count,
        "expected {expected_break_count} break(s), got {}\ntour stops: {}",
        break_intervals.len(),
        format_tour_debug(tour)
    );

    for (start, end, _, _) in &break_intervals {
        let duration = end - start;
        assert!(
            (duration - expected_break_duration).abs() < 1,
            "break duration mismatch: expected {expected_break_duration}, got {duration}\ntour: {}",
            format_tour_debug(tour)
        );
    }

    validate_no_break_job_overlap(tour);
    validate_tour_schedule_only(tour);

    // Break time within tour bounds.
    let tour_start = tour.stops.first().unwrap().schedule().departure;
    let tour_end = tour.stops.last().unwrap().schedule().arrival;
    for (b_start, b_end, _, _) in &break_intervals {
        assert!(
            *b_start >= tour_start && *b_end <= tour_end,
            "break [{b_start}..{b_end}] outside tour time [{tour_start}..{tour_end}]\ntour: {}",
            format_tour_debug(tour)
        );
    }

    // Break activities have no location of their own.
    for stop in &tour.stops {
        for act in stop.activities() {
            if matches!(act.activity_type, OutActivityType::Break) {
                assert!(
                    act.location.is_none(),
                    "required break should have no location, but got {:?}\ntour: {}",
                    act.location,
                    format_tour_debug(tour)
                );
            }
        }
    }
}

fn validate_solution_breaks(tours: &[OutTour], expected_break_count: usize, expected_break_duration: i64) {
    assert!(!tours.is_empty(), "expected at least one tour");
    for tour in tours {
        validate_tour_breaks_and_schedule(tour, expected_break_count, expected_break_duration);
    }
}

/// Validates stop schedule consistency and in-stop ordering only.
fn validate_tour_schedule_only(tour: &OutTour) {
    let mut prev_departure: Option<i64> = None;
    for (i, stop) in tour.stops.iter().enumerate() {
        let arr = stop.schedule().arrival;
        let dep = stop.schedule().departure;
        assert!(dep >= arr, "stop {i}: departure ({dep}) < arrival ({arr})\ntour: {}", format_tour_debug(tour));
        if let Some(prev_dep) = prev_departure {
            assert!(
                arr >= prev_dep,
                "stop {i}: arrival ({arr}) < previous departure ({prev_dep})\ntour: {}",
                format_tour_debug(tour)
            );
        }
        prev_departure = Some(dep);

        let mut prev_act_start = i64::MIN;
        for act in stop.activities() {
            if let Some(time) = &act.time {
                assert!(
                    time.end >= time.start,
                    "stop {i}: activity '{}' has end ({}) < start ({})\ntour: {}",
                    act.job_id,
                    time.end,
                    time.start,
                    format_tour_debug(tour)
                );
                assert!(
                    time.start >= arr,
                    "stop {i}: activity '{}' start ({}) < stop arrival ({arr})\ntour: {}",
                    act.job_id,
                    time.start,
                    format_tour_debug(tour)
                );
                assert!(
                    time.end <= dep,
                    "stop {i}: activity '{}' end ({}) > stop departure ({dep})\ntour: {}",
                    act.job_id,
                    time.end,
                    format_tour_debug(tour)
                );
                assert!(
                    time.start >= prev_act_start,
                    "stop {i}: activity '{}' not time-ordered\ntour: {}",
                    act.job_id,
                    format_tour_debug(tour)
                );
                prev_act_start = time.start;
            }
        }
    }
}

/// Validates no cross-stop overlap between break and job activities.
fn validate_no_break_job_overlap(tour: &OutTour) {
    let intervals = collect_activity_intervals(tour);
    let breaks: Vec<_> = intervals.iter().filter(|(_, _, t, _)| t == "break").collect();
    let jobs: Vec<_> = intervals
        .iter()
        .filter(|(_, _, t, _)| t != "break" && t != "departure" && t != "arrival")
        .collect();

    for (b_start, b_end, _, _) in &breaks {
        for (a_start, a_end, a_type, a_id) in &jobs {
            let same_stop = tour.stops.iter().any(|stop| {
                let acts = stop.activities();
                acts.iter().any(|a| matches!(a.activity_type, OutActivityType::Break))
                    && acts.iter().any(|a| a.job_id == **a_id)
            });
            if !same_stop {
                let overlaps = b_start < a_end && a_start < b_end;
                assert!(
                    !overlaps,
                    "break [{b_start}..{b_end}] overlaps with {a_type} '{a_id}' [{a_start}..{a_end}]\ntour: {}",
                    format_tour_debug(tour)
                );
            }
        }
    }
}

fn run_checker(solved: &Solved) {
    let context = CheckerContext {
        solution: CheckerSolution {
            tours: solved.tours.clone(),
            violations: Vec::<BreakViolation>::new(),
        },
        shifts: solved.shifts.clone(),
    };
    if let Err(errors) = check_breaks(&context) {
        panic!("break checker should accept the solution: {}", errors[0].to_string());
    }
}

#[test]
fn can_assign_offset_break_with_flexible_departure() {
    let solved = solve_with_breaks(
        vec![create_delivery_job("job1", (5.0, 0.0)), create_delivery_job("job2", (15.0, 0.0))],
        vec![vehicle_with_breaks(None, Some(100), vec![BreakSpec { time: BreakTimeSpec::Offset(7, 7), duration: 2 }])],
    );

    assert!(solved.unassigned.is_empty(), "expected all jobs assigned");
    validate_solution_breaks(&solved.tours, 1, 2);
    run_checker(&solved);

    let departure = solved.tours[0].stops[0].schedule().departure;
    let intervals = collect_activity_intervals(&solved.tours[0]);
    let (b_start, _, _, _) = intervals.iter().find(|(_, _, t, _)| t == "break").unwrap();
    let offset = b_start - departure;
    assert!((offset - 7).abs() < 1, "break offset from departure should be 7, got {offset}");
}

#[test]
fn can_assign_offset_break_with_wide_end_window_and_late_jobs() {
    let solved = solve_with_breaks(
        vec![
            create_delivery_job_with_times("job1", (5.0, 0.0), (30, 100), 1),
            create_delivery_job_with_times("job2", (15.0, 0.0), (30, 100), 1),
        ],
        vec![vehicle_with_breaks(None, Some(200), vec![BreakSpec { time: BreakTimeSpec::Offset(7, 7), duration: 2 }])],
    );

    assert!(solved.unassigned.is_empty(), "expected all jobs assigned");
    let departure = solved.tours[0].stops[0].schedule().departure;
    assert!(departure > 0, "expected departure to be advanced past time zero, got {departure}");
    validate_solution_breaks(&solved.tours, 1, 2);
}

#[test]
fn can_assign_offset_break_with_recede_departure() {
    let solved = solve_with_breaks(
        vec![create_delivery_job("job1", (5.0, 0.0)), create_delivery_job("job2", (15.0, 0.0))],
        vec![vehicle_with_breaks(None, Some(100), vec![BreakSpec { time: BreakTimeSpec::Offset(7, 7), duration: 2 }])],
    );

    assert!(solved.unassigned.is_empty());
    validate_solution_breaks(&solved.tours, 1, 2);
    run_checker(&solved);
}

#[test]
fn can_handle_mixed_break_types_in_validation() {
    let solved = solve_with_breaks(
        vec![
            create_delivery_job("job1", (5.0, 0.0)),
            create_delivery_job("job2", (15.0, 0.0)),
            create_delivery_job("job3", (25.0, 0.0)),
        ],
        vec![vehicle_with_breaks(
            Some(0),
            Some(1000),
            vec![
                BreakSpec { time: BreakTimeSpec::Exact(7, 7), duration: 2 },
                BreakSpec { time: BreakTimeSpec::Offset(22, 22), duration: 2 },
            ],
        )],
    );

    assert!(solved.unassigned.is_empty());
    validate_solution_breaks(&solved.tours, 2, 2);

    let intervals = collect_activity_intervals(&solved.tours[0]);
    let mut break_starts: Vec<i64> =
        intervals.iter().filter(|(_, _, t, _)| t == "break").map(|(s, _, _, _)| *s).collect();
    break_starts.sort();
    assert_eq!(break_starts.len(), 2);
    assert!((break_starts[0] - 7).abs() < 1, "first break should start at 7, got {}", break_starts[0]);
    assert!((break_starts[1] - 22).abs() < 1, "second break should start at 22, got {}", break_starts[1]);
}

#[test]
fn can_assign_offset_break_with_first_job_cost_span() {
    let mut vehicle = vehicle_with_breaks(
        Some(0),
        Some(200),
        vec![BreakSpec { time: BreakTimeSpec::Offset(7, 7), duration: 2 }],
    );
    vehicle.cost_span = Some(RouteCostSpan::FirstJobToLastJob);
    let solved = solve_with_breaks(
        vec![create_delivery_job("job1", (10.0, 0.0)), create_delivery_job("job2", (25.0, 0.0))],
        vec![vehicle],
    );

    assert!(solved.unassigned.is_empty());
    validate_solution_breaks(&solved.tours, 1, 2);

    let intervals = collect_activity_intervals(&solved.tours[0]);
    let first_job = intervals.iter().find(|(_, _, _, id)| id == "job1").expect("job1 missing");
    let brk = intervals.iter().find(|(_, _, t, _)| t == "break").expect("break missing");
    let offset_from_first_job = brk.0 - first_job.0;
    assert!(
        (offset_from_first_job - 7).abs() < 1,
        "break offset from first job arrival ({}) should be 7, got {offset_from_first_job}",
        first_job.0,
    );
}

#[test]
fn can_assign_offset_break_with_first_job_span_and_range_offset() {
    let mut vehicle = vehicle_with_breaks(
        Some(0),
        Some(200),
        vec![BreakSpec { time: BreakTimeSpec::Offset(7, 12), duration: 2 }],
    );
    vehicle.cost_span = Some(RouteCostSpan::FirstJobToLastJob);
    let solved = solve_with_breaks(
        vec![
            create_delivery_job("job1", (10.0, 0.0)),
            create_delivery_job("job2", (20.0, 0.0)),
            create_delivery_job("job3", (30.0, 0.0)),
        ],
        vec![vehicle],
    );

    assert!(solved.unassigned.is_empty());
    validate_solution_breaks(&solved.tours, 1, 2);

    let intervals = collect_activity_intervals(&solved.tours[0]);
    let first_route_job = intervals
        .iter()
        .find(|(_, _, typ, _)| typ != "departure" && typ != "arrival" && typ != "break")
        .expect("no job in route");
    let brk = intervals.iter().find(|(_, _, t, _)| t == "break").unwrap();
    let offset = brk.0 - first_route_job.0;
    assert!(
        (6..=14).contains(&offset),
        "break offset from first job arrival ({}) should be within the offsets, got {offset}",
        first_route_job.0,
    );
}

#[test]
fn can_assign_wide_range_offset_break_during_long_travel() {
    // Time windows force the ordering depot, job1, job2, depot; the wide
    // offset range means the break is taken at offset 40 during the long
    // travel between the jobs.
    let solved = solve_with_breaks(
        vec![
            create_delivery_job_with_times("job1", (5.0, 0.0), (0, 10), 1),
            create_delivery_job_with_times("job2", (50.0, 0.0), (40, 100), 1),
        ],
        vec![vehicle_with_breaks(Some(0), Some(500), vec![BreakSpec { time: BreakTimeSpec::Offset(4, 40), duration: 2 }])],
    );

    assert!(solved.unassigned.is_empty());
    validate_solution_breaks(&solved.tours, 1, 2);
}

#[test]
fn can_place_wide_offset_break_on_transit_leg_with_consistent_times() {
    let solved = solve_with_breaks(
        vec![
            create_delivery_job_with_times("job1", (5.0, 0.0), (0, 10), 1),
            create_delivery_job_with_times("job2", (50.0, 0.0), (40, 100), 1),
        ],
        vec![vehicle_with_breaks(Some(0), Some(500), vec![BreakSpec { time: BreakTimeSpec::Offset(4, 40), duration: 2 }])],
    );

    assert!(solved.unassigned.is_empty(), "expected all jobs assigned");
    assert_eq!(solved.tours.len(), 1, "expected one tour");

    let tour = &solved.tours[0];
    let debug = format_tour_debug(tour);

    validate_tour_schedule_only(tour);
    validate_no_break_job_overlap(tour);

    let break_positions: Vec<_> = tour
        .stops
        .iter()
        .enumerate()
        .flat_map(|(stop_idx, stop)| {
            stop.activities().iter().enumerate().filter_map(move |(act_idx, activity)| {
                if matches!(activity.activity_type, OutActivityType::Break) {
                    Some((stop_idx, act_idx))
                } else {
                    None
                }
            }).collect::<Vec<_>>()
        })
        .collect();

    assert_eq!(break_positions.len(), 1, "expected exactly one break\n{debug}");

    let flat_order: Vec<String> =
        tour.stops.iter().flat_map(|stop| stop.activities().iter().map(|a| a.job_id.clone()).collect::<Vec<_>>()).collect();
    assert_eq!(
        flat_order,
        vec!["departure", "job1", "break", "job2", "arrival"],
        "unexpected flattened activity order\n{debug}"
    );

    let (break_stop_idx, break_activity_idx) = break_positions[0];
    assert!(
        break_stop_idx > 0 && break_stop_idx + 1 < tour.stops.len(),
        "break stop should have previous and next stops\n{debug}"
    );

    let break_stop = &tour.stops[break_stop_idx];
    assert!(matches!(break_stop, Stop::Transit(_)), "break should be attached to transit stop\n{debug}");
    assert_eq!(break_stop.activities().len(), 1, "transit break stop should have a single break activity\n{debug}");

    let prev_stop = &tour.stops[break_stop_idx - 1];
    let next_stop = &tour.stops[break_stop_idx + 1];
    assert!(
        prev_stop.activities().iter().any(|activity| activity.job_id == "job1"),
        "break previous stop should contain job1\n{debug}"
    );
    assert!(
        next_stop.activities().iter().any(|activity| activity.job_id == "job2"),
        "break next stop should contain job2\n{debug}"
    );

    let break_activity = &break_stop.activities()[break_activity_idx];
    let stop_arrival = break_stop.schedule().arrival;
    let stop_departure = break_stop.schedule().departure;
    let (break_start, break_end) = break_activity
        .time
        .as_ref()
        .map(|time| (time.start, time.end))
        .unwrap_or((stop_arrival, stop_departure));

    assert!(
        break_start == stop_arrival && break_end == stop_departure,
        "break activity interval should match transit stop interval\n{debug}"
    );

    let prev_departure = prev_stop.schedule().departure;
    let next_arrival = next_stop.schedule().arrival;
    assert!(break_start >= prev_departure, "break starts before previous stop departure\n{debug}");
    assert!(break_start < break_end, "break interval is not strictly positive\n{debug}");
    assert!(break_end <= next_arrival, "break ends after next stop arrival\n{debug}");

    let departure = tour.stops[0].schedule().departure;
    let offset = break_start - departure;
    assert!((offset - 40).abs() <= 1, "break offset from tour departure should be near 40, got {offset}\n{debug}");
}

#[test]
fn can_keep_job_activity_duration_when_break_starts_at_activity_end_on_same_stop() {
    // Boundary case: the required break starts exactly when the first job's
    // service ends; it must join that point stop without stretching the job.
    let solved = solve_with_breaks(
        vec![
            create_delivery_job_with_times("job1", (4.0, 0.0), (5, 10), 1),
            create_delivery_job_with_times("job2", (12.0, 0.0), (20, 100), 1),
        ],
        vec![vehicle_with_breaks(Some(0), Some(300), vec![BreakSpec { time: BreakTimeSpec::Offset(5, 6), duration: 2 }])],
    );

    assert!(solved.unassigned.is_empty(), "expected all jobs assigned");
    assert_eq!(solved.tours.len(), 1, "expected one tour");

    let tour = &solved.tours[0];
    let debug = format_tour_debug(tour);

    let break_positions: Vec<_> = tour
        .stops
        .iter()
        .enumerate()
        .flat_map(|(stop_idx, stop)| {
            stop.activities().iter().enumerate().filter_map(move |(act_idx, activity)| {
                if matches!(activity.activity_type, OutActivityType::Break) {
                    Some((stop_idx, act_idx))
                } else {
                    None
                }
            }).collect::<Vec<_>>()
        })
        .collect();

    assert_eq!(break_positions.len(), 1, "expected exactly one break\n{debug}");

    let flat_order: Vec<String> =
        tour.stops.iter().flat_map(|stop| stop.activities().iter().map(|a| a.job_id.clone()).collect::<Vec<_>>()).collect();
    assert_eq!(
        flat_order,
        vec!["departure", "job1", "break", "job2", "arrival"],
        "unexpected flattened activity order\n{debug}"
    );

    let (break_stop_idx, break_activity_idx) = break_positions[0];
    assert!(
        break_stop_idx > 0 && break_stop_idx + 1 < tour.stops.len(),
        "break stop should have previous and next stops\n{debug}"
    );

    let break_stop = &tour.stops[break_stop_idx];
    assert!(
        matches!(break_stop, Stop::Point(_)),
        "break should be attached to the point stop holding job1 here\n{debug}"
    );
    assert!(
        break_stop.activities().iter().any(|activity| activity.job_id == "job1"),
        "break stop should contain job1\n{debug}"
    );

    let stop_arrival = break_stop.schedule().arrival;
    let stop_departure = break_stop.schedule().departure;

    let break_activity = &break_stop.activities()[break_activity_idx];
    let (break_start, break_end) = break_activity
        .time
        .as_ref()
        .map(|time| (time.start, time.end))
        .unwrap_or((stop_arrival, stop_departure));

    let job1_activity = break_stop
        .activities()
        .iter()
        .find(|activity| activity.job_id == "job1")
        .expect("job1 activity should be on break stop");
    let (job1_start, job1_end) = job1_activity
        .time
        .as_ref()
        .map(|time| (time.start, time.end))
        .unwrap_or((stop_arrival, stop_departure));

    assert_eq!(job1_end - job1_start, 1, "job1 activity duration should stay at 1\n{debug}");
    assert!(job1_end <= break_start, "job1 end should not be after break start\n{debug}");
    assert!(break_start < break_end, "break interval is not strictly positive\n{debug}");
    assert!(
        break_start >= stop_arrival && break_end <= stop_departure,
        "break interval should stay within stop bounds\n{debug}"
    );

    let prev_departure = tour.stops[break_stop_idx - 1].schedule().departure;
    let next_arrival = tour.stops[break_stop_idx + 1].schedule().arrival;
    assert!(prev_departure <= break_start, "break starts before previous stop departure\n{debug}");
    assert!(break_end <= next_arrival, "break ends after next stop arrival\n{debug}");

    validate_tour_schedule_only(tour);
    validate_no_break_job_overlap(tour);
}

#[test]
fn can_align_required_break_to_job_boundary_when_reserved_time_hits_mid_activity() {
    let solved = solve_with_breaks(
        vec![create_delivery_job_with_duration("job1", (5.0, 0.0), 3)],
        vec![vehicle_with_breaks(Some(0), Some(200), vec![BreakSpec { time: BreakTimeSpec::Exact(7, 7), duration: 2 }])],
    );

    assert!(solved.unassigned.is_empty(), "expected all jobs assigned");
    assert_eq!(solved.tours.len(), 1, "expected one tour");
    run_checker(&solved);

    let tour = &solved.tours[0];
    let debug = format_tour_debug(tour);

    let stop = tour
        .stops
        .iter()
        .find(|stop| {
            stop.activities().iter().any(|activity| activity.job_id == "job1")
                && stop.activities().iter().any(|activity| matches!(activity.activity_type, OutActivityType::Break))
        })
        .expect("expected job1 and break at same stop");

    let stop_arrival = stop.schedule().arrival;
    let stop_departure = stop.schedule().departure;

    let job = stop.activities().iter().find(|activity| activity.job_id == "job1").expect("job1 activity");
    let brk = stop
        .activities()
        .iter()
        .find(|activity| matches!(activity.activity_type, OutActivityType::Break))
        .expect("break activity");

    let (job_start, job_end) = job.time.as_ref().map(|t| (t.start, t.end)).unwrap_or((stop_arrival, stop_departure));
    let (break_start, break_end) = brk.time.as_ref().map(|t| (t.start, t.end)).unwrap_or((stop_arrival, stop_departure));

    assert_eq!(job_end - job_start, 3, "job1 duration should stay equal to its service duration\n{debug}");
    assert!(
        break_start == job_end || job_start == break_end,
        "break should start at job end or finish at job start, got job=[{job_start}..{job_end}], break=[{break_start}..{break_end}]\n{debug}"
    );
    assert!(
        !(break_start < job_end && job_start < break_end),
        "break should not overlap job activity at same stop\n{debug}"
    );
    assert!(
        break_start >= stop_arrival && break_end <= stop_departure,
        "break should stay within stop bounds\n{debug}"
    );

    validate_tour_schedule_only(tour);
    validate_no_break_job_overlap(tour);
}

#[test]
fn can_skip_required_break_when_it_starts_at_tour_end_boundary() {
    let solved = solve_with_breaks(
        vec![create_delivery_job("job1", (5.0, 0.0))],
        vec![vehicle_with_breaks(Some(0), Some(200), vec![BreakSpec { time: BreakTimeSpec::Offset(11, 11), duration: 2 }])],
    );

    assert!(solved.unassigned.is_empty(), "expected all jobs assigned");
    assert_eq!(solved.tours.len(), 1, "expected one tour");

    let tour = &solved.tours[0];
    let debug = format_tour_debug(tour);

    let break_count = tour
        .stops
        .iter()
        .flat_map(|stop| stop.activities().iter().collect::<Vec<_>>())
        .filter(|activity| matches!(activity.activity_type, OutActivityType::Break))
        .count();
    assert_eq!(break_count, 0, "required break should be skipped when it only touches tour end boundary\n{debug}");

    let flat_order: Vec<String> =
        tour.stops.iter().flat_map(|stop| stop.activities().iter().map(|a| a.job_id.clone()).collect::<Vec<_>>()).collect();
    assert_eq!(flat_order, vec!["departure", "job1", "arrival"], "unexpected flattened activity order\n{debug}");

    let last_stop = tour.stops.last().expect("expected last stop");
    assert_eq!(
        last_stop.schedule().departure,
        last_stop.schedule().arrival,
        "last stop should not be stretched by a boundary-touching break\n{debug}"
    );

    validate_tour_schedule_only(tour);
    validate_no_break_job_overlap(tour);
    run_checker(&solved);
}

#[test]
fn can_assign_range_offset_break_without_wrong_departure_shift() {
    let solved = solve_with_breaks(
        vec![
            create_delivery_job("job1", (5.0, 0.0)),
            create_delivery_job("job2", (12.0, 0.0)),
            create_delivery_job("job3", (20.0, 0.0)),
        ],
        vec![vehicle_with_breaks(Some(0), Some(200), vec![BreakSpec { time: BreakTimeSpec::Offset(4, 12), duration: 2 }])],
    );

    assert!(solved.unassigned.is_empty());
    validate_solution_breaks(&solved.tours, 1, 2);
}

#[test]
fn can_assign_break_with_many_closely_spaced_jobs_and_long_service() {
    let solved = solve_with_breaks(
        vec![
            create_delivery_job_with_duration("j1", (3.0, 0.0), 2),
            create_delivery_job_with_duration("j2", (6.0, 0.0), 4),
            create_delivery_job_with_duration("j3", (9.0, 0.0), 1),
            create_delivery_job_with_duration("j4", (12.0, 0.0), 3),
            create_delivery_job_with_duration("j5", (15.0, 0.0), 2),
            create_delivery_job_with_duration("j6", (18.0, 0.0), 1),
        ],
        vec![vehicle_with_breaks(Some(0), Some(300), vec![BreakSpec { time: BreakTimeSpec::Offset(10, 15), duration: 3 }])],
    );

    assert!(solved.unassigned.is_empty(), "expected all jobs assigned");
    validate_solution_breaks(&solved.tours, 1, 3);

    let tour = &solved.tours[0];
    let departure = tour.stops[0].schedule().departure;
    let intervals = collect_activity_intervals(tour);
    let brk = intervals.iter().find(|(_, _, t, _)| t == "break").unwrap();
    let offset = brk.0 - departure;
    assert!(
        (9..=18).contains(&offset),
        "break offset from departure should be in the offset range, got {offset}\ntour: {}",
        format_tour_debug(tour)
    );
}

#[test]
fn can_assign_break_with_pickup_delivery_jobs() {
    let mut jobs = create_pickup_delivery_job("pd1", (5.0, 0.0), (15.0, 0.0));
    jobs.extend(create_pickup_delivery_job("pd2", (8.0, 0.0), (20.0, 0.0)));
    let solved = solve_with_breaks(
        jobs,
        vec![vehicle_with_breaks(Some(0), Some(300), vec![BreakSpec { time: BreakTimeSpec::Offset(8, 12), duration: 2 }])],
    );

    assert!(solved.unassigned.is_empty(), "expected all pickup-delivery jobs assigned");
    validate_solution_breaks(&solved.tours, 1, 2);
}

#[test]
fn can_assign_break_with_tight_time_windows_and_long_break() {
    let solved = solve_with_breaks(
        vec![
            create_delivery_job_with_times("j1", (5.0, 0.0), (4, 12), 1),
            create_delivery_job_with_times("j2", (10.0, 0.0), (12, 30), 1),
            create_delivery_job_with_times("j3", (15.0, 0.0), (20, 45), 1),
        ],
        vec![vehicle_with_breaks(Some(0), Some(300), vec![BreakSpec { time: BreakTimeSpec::Offset(8, 12), duration: 5 }])],
    );

    assert!(solved.unassigned.is_empty(), "expected all jobs assigned");
    validate_solution_breaks(&solved.tours, 1, 5);
}

#[test]
fn can_assign_break_with_multiple_vehicles() {
    let mut v1 = vehicle_with_breaks(Some(0), Some(300), vec![BreakSpec { time: BreakTimeSpec::Offset(8, 8), duration: 2 }]);
    v1.id = "v1".to_string();
    let mut v2 = vehicle_with_breaks(Some(0), Some(300), vec![BreakSpec { time: BreakTimeSpec::Offset(10, 10), duration: 3 }]);
    v2.id = "v2".to_string();
    let solved = solve_with_breaks(
        vec![
            create_delivery_job("j1", (5.0, 5.0)),
            create_delivery_job("j2", (10.0, 5.0)),
            create_delivery_job("j3", (5.0, -5.0)),
            create_delivery_job("j4", (10.0, -5.0)),
        ],
        vec![v1, v2],
    );

    assert!(solved.unassigned.is_empty(), "expected all jobs assigned");
    assert!(!solved.tours.is_empty(), "expected at least one tour");

    for tour in &solved.tours {
        let expected_duration = if tour.vehicle_id == "v1" { 2 } else { 3 };
        validate_tour_breaks_and_schedule(tour, 1, expected_duration);
    }
}

#[test]
fn can_assign_break_with_flexible_departure_and_many_jobs_clustered() {
    let solved = solve_with_breaks(
        vec![
            create_delivery_job("a1", (5.0, 0.0)),
            create_delivery_job("a2", (7.0, 0.0)),
            create_delivery_job("a3", (8.0, 1.0)),
            create_delivery_job("a4", (10.0, 0.0)),
            create_delivery_job("b1", (40.0, 0.0)),
            create_delivery_job("b2", (43.0, 0.0)),
            create_delivery_job("b3", (45.0, 1.0)),
            create_delivery_job("b4", (48.0, 0.0)),
        ],
        vec![vehicle_with_breaks(None, Some(500), vec![BreakSpec { time: BreakTimeSpec::Offset(15, 25), duration: 3 }])],
    );

    assert!(solved.unassigned.is_empty(), "expected all jobs assigned");
    validate_solution_breaks(&solved.tours, 1, 3);
}

#[test]
fn can_assign_break_with_first_job_span_flexible_departure_and_wide_offset() {
    let mut vehicle = vehicle_with_breaks(None, Some(500), vec![BreakSpec { time: BreakTimeSpec::Offset(4, 10), duration: 2 }]);
    vehicle.cost_span = Some(RouteCostSpan::FirstJobToLastJob);
    let solved = solve_with_breaks(
        vec![
            create_delivery_job("j1", (8.0, 0.0)),
            create_delivery_job("j2", (15.0, 0.0)),
            create_delivery_job("j3", (22.0, 0.0)),
            create_delivery_job("j4", (30.0, 0.0)),
        ],
        vec![vehicle],
    );

    assert!(solved.unassigned.is_empty(), "expected all jobs assigned");
    validate_solution_breaks(&solved.tours, 1, 2);

    let tour = &solved.tours[0];
    let intervals = collect_activity_intervals(tour);
    let first_route_job = intervals
        .iter()
        .find(|(_, _, typ, _)| typ != "departure" && typ != "arrival" && typ != "break")
        .expect("no job in route");
    let brk = intervals.iter().find(|(_, _, t, _)| t == "break").unwrap();
    let offset = brk.0 - first_route_job.0;
    assert!(
        (3..=12).contains(&offset),
        "break offset from first job ({}) should be within the offsets, got {offset}\ntour: {}",
        first_route_job.0,
        format_tour_debug(tour)
    );
}

#[test]
fn can_assign_break_with_first_job_span_late_time_windows_and_wide_offset() {
    let mut vehicle = vehicle_with_breaks(None, Some(500), vec![BreakSpec { time: BreakTimeSpec::Offset(4, 20), duration: 2 }]);
    vehicle.cost_span = Some(RouteCostSpan::FirstJobToLastJob);
    let solved = solve_with_breaks(
        vec![
            create_delivery_job_with_times("j1", (5.0, 0.0), (20, 50), 1),
            create_delivery_job_with_times("j2", (12.0, 0.0), (25, 60), 1),
            create_delivery_job_with_times("j3", (20.0, 0.0), (30, 70), 1),
        ],
        vec![vehicle],
    );

    assert!(solved.unassigned.is_empty(), "expected all jobs assigned");
    validate_solution_breaks(&solved.tours, 1, 2);

    let departure = solved.tours[0].stops[0].schedule().departure;
    assert!(departure > 0, "expected departure advanced for late time windows, got {departure}");
}

#[test]
fn can_assign_break_with_jobs_requiring_long_service_times() {
    let solved = solve_with_breaks(
        vec![
            create_delivery_job_with_duration("j1", (5.0, 0.0), 10),
            create_delivery_job_with_duration("j2", (15.0, 0.0), 15),
            create_delivery_job_with_duration("j3", (25.0, 0.0), 8),
        ],
        vec![vehicle_with_breaks(Some(0), Some(500), vec![BreakSpec { time: BreakTimeSpec::Offset(20, 25), duration: 3 }])],
    );

    assert!(solved.unassigned.is_empty());
    validate_solution_breaks(&solved.tours, 1, 3);
}

#[test]
fn can_assign_two_offset_breaks_with_wide_ranges() {
    let solved = solve_with_breaks(
        vec![
            create_delivery_job("j1", (5.0, 0.0)),
            create_delivery_job("j2", (15.0, 0.0)),
            create_delivery_job("j3", (25.0, 0.0)),
            create_delivery_job("j4", (35.0, 0.0)),
            create_delivery_job("j5", (45.0, 0.0)),
        ],
        vec![vehicle_with_breaks(
            Some(0),
            Some(500),
            vec![
                BreakSpec { time: BreakTimeSpec::Offset(5, 15), duration: 2 },
                BreakSpec { time: BreakTimeSpec::Offset(25, 40), duration: 2 },
            ],
        )],
    );

    assert!(solved.unassigned.is_empty(), "expected all jobs assigned");
    validate_solution_breaks(&solved.tours, 2, 2);

    let intervals = collect_activity_intervals(&solved.tours[0]);
    let breaks: Vec<_> = intervals.iter().filter(|(_, _, t, _)| t == "break").collect();
    assert_eq!(breaks.len(), 2);
    let (b1_start, b1_end, _, _) = breaks[0];
    let (b2_start, b2_end, _, _) = breaks[1];
    let overlaps = b1_start < b2_end && b2_start < b1_end;
    assert!(
        !overlaps,
        "two breaks overlap: [{b1_start}..{b1_end}] and [{b2_start}..{b2_end}]\ntour: {}",
        format_tour_debug(&solved.tours[0])
    );
}

#[test]
fn can_assign_exact_and_offset_breaks_with_many_jobs() {
    let solved = solve_with_breaks(
        vec![
            create_delivery_job("j1", (5.0, 0.0)),
            create_delivery_job("j2", (12.0, 0.0)),
            create_delivery_job("j3", (20.0, 0.0)),
            create_delivery_job("j4", (30.0, 0.0)),
            create_delivery_job("j5", (42.0, 0.0)),
            create_delivery_job("j6", (55.0, 0.0)),
        ],
        vec![vehicle_with_breaks(
            Some(0),
            Some(500),
            vec![
                BreakSpec { time: BreakTimeSpec::Exact(10, 10), duration: 2 },
                BreakSpec { time: BreakTimeSpec::Offset(30, 40), duration: 3 },
            ],
        )],
    );

    assert!(solved.unassigned.is_empty(), "expected all jobs assigned");

    let tour = &solved.tours[0];
    let intervals = collect_activity_intervals(tour);
    let breaks: Vec<_> = intervals.iter().filter(|(_, _, t, _)| t == "break").collect();
    assert_eq!(breaks.len(), 2, "expected 2 breaks\ntour: {}", format_tour_debug(tour));

    for (b_start, b_end, _, _) in &breaks {
        let dur = b_end - b_start;
        assert!(
            (2..=3).contains(&dur),
            "unexpected break duration {dur}\ntour: {}",
            format_tour_debug(tour)
        );
    }

    validate_tour_schedule_only(tour);
    validate_no_break_job_overlap(tour);
}
