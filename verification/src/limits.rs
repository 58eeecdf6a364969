//! The job-time-limits hard constraint: per-shift earliest-first and
//! latest-last bounds checked before an insertion is committed.

use vstd::prelude::*;
use crate::times::{MAX_TIME, MAX_WIN, sched_bounded};
use crate::model::{Activity, Route, RouteContext, JobTimeConstraints};
use crate::transport::{
    TransportModel, ActivityCostModel, TravelTime, spec_duration_dep, spec_estimate_departure,
    lemma_duration_bounds,
};
use crate::schedule::spec_anchor;
use crate::features::{
    Feature, FeatureConstraintKind, GenericError, ViolationCode, ConstraintViolation, MoveContext,
    ActivityContext,
};

verus! {

/// Hard constraint enforcing the actor's per-shift job time limits: the
/// earliest time the first job may start and the latest time the last job may
/// be departed from.
#[derive(Clone, PartialEq, Eq, Debug)]
pub struct JobTimeLimitsConstraint {
    pub transport: TransportModel,
    pub activity: ActivityCostModel,
    pub violation_code: ViolationCode,
}

/// The verdict of the job-time-limits constraint on inserting `target`
/// between `prev` and `next` at leg `index`:
/// - with `earliest_first = E` set, a first job reached before `E` is allowed
///   only when its window end lets it wait for `E`;
/// - with `latest_last = L` set, a last job must be departed from by `L`,
///   where the arrival accounts for any wait a first job owes `E`; a job
///   whose departure cannot be estimated at all is skipped too.
pub open spec fn spec_evaluate_activity(
    c: JobTimeLimitsConstraint,
    route: Route,
    index: int,
    prev: Activity,
    target: Activity,
    next: Option<Activity>,
) -> Option<ConstraintViolation> {
    match route.actor.job_time_constraints {
        None => None,
        Some(constraints) => {
            if constraints.earliest_first is None && constraints.latest_last is None {
                None
            } else if !target.has_job() {
                None
            } else {
                let anchor = spec_anchor(route.actor.spec_cost_span(), route.tour@);
                let departure = prev.schedule.departure as int;
                let arr = departure + spec_duration_dep(
                    c.transport,
                    anchor,
                    prev.place.location as int,
                    target.place.location as int,
                    departure,
                );
                let is_first_job = !prev.has_job() && index == 0;
                let early_reject = match constraints.earliest_first {
                    Some(e) => is_first_job && arr < e && target.place.time.end < e,
                    None => false,
                };
                if early_reject {
                    Some(ConstraintViolation { code: c.violation_code, stopped: false })
                } else {
                    let late_reject = match constraints.latest_last {
                        Some(l) => {
                            let is_last_job = match next {
                                None => true,
                                Some(n) => !n.has_job(),
                            };
                            if is_last_job {
                                let actual_arr = match constraints.earliest_first {
                                    Some(e) => if is_first_job && arr < e { e as int } else { arr },
                                    None => arr,
                                };
                                let service_start = if actual_arr >= target.place.time.start {
                                    actual_arr
                                } else {
                                    target.place.time.start as int
                                };
                                match spec_estimate_departure(c.activity, anchor, target.place, service_start) {
                                    Some(d) => d > l,
                                    None => true,
                                }
                            } else {
                                false
                            }
                        },
                        None => false,
                    };
                    if late_reject {
                        Some(ConstraintViolation { code: c.violation_code, stopped: false })
                    } else {
                        None
                    }
                }
            }
        },
    }
}

impl JobTimeLimitsConstraint {
    /// Judges the insertion of `activity_ctx.target` into the route.
    pub fn evaluate_activity(
        &self,
        route_ctx: &RouteContext,
        activity_ctx: &ActivityContext,
    ) -> (r: Option<ConstraintViolation>)
        requires
            self.transport.wf(),
            self.activity.wf(),
            route_ctx.route.wf(),
            activity_ctx.prev.wf(),
            activity_ctx.target.wf(),
            -MAX_WIN <= activity_ctx.prev.schedule.departure <= MAX_WIN,
            self.transport.metric.loc_ok(activity_ctx.prev.place.location as int),
            self.transport.metric.loc_ok(activity_ctx.target.place.location as int),
        ensures
            r == spec_evaluate_activity(
                *self,
                route_ctx.route,
                activity_ctx.index as int,
                *activity_ctx.prev,
                *activity_ctx.target,
                match activity_ctx.next {
                    Some(n) => Some(*n),
                    None => None,
                },
            ),
    {
        let constraints = match &route_ctx.route.actor.job_time_constraints {
            Some(cs) => *cs,
            None => {
                return None;
            },
        };
        if constraints.earliest_first.is_none() && constraints.latest_last.is_none() {
            return None;
        }
        let prev = activity_ctx.prev;
        let target = activity_ctx.target;
        if target.job.is_none() {
            return None;
        }

        let departure = prev.schedule.departure;
        proof {
            lemma_duration_bounds(
                self.transport,
                spec_anchor(route_ctx.route.actor.spec_cost_span(), route_ctx.route.tour@),
                prev.place.location as int,
                target.place.location as int,
                departure as int,
            );
        }
        let arr_time_at_target = departure + self.transport.duration(
            &route_ctx.route,
            prev.place.location,
            target.place.location,
            TravelTime::Departure(departure),
        );

        let is_first_job = prev.job.is_none() && activity_ctx.index == 0;

        // Earliest-first: a first job reached too early must be able to wait.
        match constraints.earliest_first {
            Some(earliest_first) => {
                if is_first_job && arr_time_at_target < earliest_first {
                    if target.place.time.end < earliest_first {
                        return ConstraintViolation::skip(self.violation_code);
                    }
                }
            },
            None => {},
        }

        // Latest-last: a last job must be departed from in time.
        match constraints.latest_last {
            Some(latest_last) => {
                let is_last_job = match activity_ctx.next {
                    Some(n) => n.job.is_none(),
                    None => true,
                };
                if is_last_job {
                    let actual_arr_time = match constraints.earliest_first {
                        Some(earliest_first) => {
                            if is_first_job && arr_time_at_target < earliest_first {
                                earliest_first
                            } else {
                                arr_time_at_target
                            }
                        },
                        None => arr_time_at_target,
                    };
                    let service_start = if actual_arr_time >= target.place.time.start {
                        actual_arr_time
                    } else {
                        target.place.time.start
                    };
                    let departure_from_target =
                        self.activity.estimate_departure(&route_ctx.route, target, service_start);
                    match departure_from_target {
                        Some(d) => {
                            if d > latest_last {
                                return ConstraintViolation::skip(self.violation_code);
                            }
                        },
                        None => {
                            return ConstraintViolation::skip(self.violation_code);
                        },
                    }
                }
            },
            None => {},
        }

        None
    }

    /// Judges a move: only activity insertions are constrained.
    pub fn evaluate(&self, move_ctx: &MoveContext) -> (r: Option<ConstraintViolation>)
        requires
            self.transport.wf(),
            self.activity.wf(),
            match *move_ctx {
                MoveContext::Route { .. } => true,
                MoveContext::Activity { route_ctx, activity_ctx, .. } => {
                    &&& route_ctx.route.wf()
                    &&& activity_ctx.prev.wf()
                    &&& activity_ctx.target.wf()
                    &&& -MAX_WIN <= activity_ctx.prev.schedule.departure <= MAX_WIN
                    &&& self.transport.metric.loc_ok(activity_ctx.prev.place.location as int)
                    &&& self.transport.metric.loc_ok(activity_ctx.target.place.location as int)
                },
            },
        ensures
            r == match *move_ctx {
                MoveContext::Route { .. } => None::<ConstraintViolation>,
                MoveContext::Activity { route_ctx, activity_ctx, .. } => spec_evaluate_activity(
                    *self,
                    route_ctx.route,
                    activity_ctx.index as int,
                    *activity_ctx.prev,
                    *activity_ctx.target,
                    match activity_ctx.next {
                        Some(n) => Some(*n),
                        None => None,
                    },
                ),
            },
    {
        match move_ctx {
            MoveContext::Route { .. } => None,
            MoveContext::Activity { route_ctx, activity_ctx, .. } => {
                self.evaluate_activity(route_ctx, activity_ctx)
            },
        }
    }

    /// Merging two jobs leaves the constraint indifferent: the source side is
    /// kept.
    pub fn merge(&self, source: crate::features::Job, _other: crate::features::Job) -> (r: Result<crate::features::Job, ViolationCode>)
        ensures
            r == Result::<crate::features::Job, ViolationCode>::Ok(source),
    {
        Ok(source)
    }
}

/// Creates the feature that enforces job time limits on shifts. A hard
/// constraint: jobs violating the limits stay unassigned.
pub fn create_job_time_limits_feature(
    name: &str,
    transport: TransportModel,
    activity: ActivityCostModel,
    violation_code: ViolationCode,
) -> (r: Result<Feature, GenericError>)
    ensures
        r is Ok,
        r->Ok_0.name@ == name@,
        r->Ok_0.constraint == (Some(FeatureConstraintKind::JobTimeLimits(JobTimeLimitsConstraint {
            transport,
            activity,
            violation_code,
        }))),
        r->Ok_0.objective is None,
        r->Ok_0.state is None,
{
    Ok(Feature {
        name: name.to_owned(),
        constraint: Some(FeatureConstraintKind::JobTimeLimits(JobTimeLimitsConstraint {
            transport,
            activity,
            violation_code,
        })),
        objective: None,
        state: None,
    })
}

/// Raising the latest-last bound never turns an accepted insertion into a
/// refusal: the constraint is monotone in `latest_last`.
pub proof fn lemma_latest_last_monotone(
    c1: JobTimeLimitsConstraint,
    c2: JobTimeLimitsConstraint,
    r1: Route,
    r2: Route,
    index: int,
    prev: Activity,
    target: Activity,
    next: Option<Activity>,
    l1: int,
    l2: int,
)
    requires
        c2 == c1,
        r2 == (Route {
            actor: crate::model::Actor {
                job_time_constraints: Some(JobTimeConstraints {
                    latest_last: Some(l2 as i64),
                    ..r1.actor.job_time_constraints->0
                }),
                ..r1.actor
            },
            ..r1
        }),
        r1.actor.job_time_constraints is Some,
        r1.actor.job_time_constraints->0.latest_last == Some(l1 as i64),
        -MAX_TIME <= l1 <= l2 <= MAX_TIME,
        spec_evaluate_activity(c1, r1, index, prev, target, next) is None,
    ensures
        spec_evaluate_activity(c2, r2, index, prev, target, next) is None,
{
}

/// Lowering the earliest-first bound never turns an accepted insertion into a
/// refusal, when no reserved time interrupts the target's service: the
/// constraint is monotone in `earliest_first`.
pub proof fn lemma_earliest_first_monotone(
    c1: JobTimeLimitsConstraint,
    c2: JobTimeLimitsConstraint,
    r1: Route,
    r2: Route,
    index: int,
    prev: Activity,
    target: Activity,
    next: Option<Activity>,
    e1: int,
    e2: int,
)
    requires
        c2 == c1,
        c1.activity.reserved@.len() == 0,
        r2 == (Route {
            actor: crate::model::Actor {
                job_time_constraints: Some(JobTimeConstraints {
                    earliest_first: Some(e2 as i64),
                    ..r1.actor.job_time_constraints->0
                }),
                ..r1.actor
            },
            ..r1
        }),
        r1.actor.job_time_constraints is Some,
        r1.actor.job_time_constraints->0.earliest_first == Some(e1 as i64),
        -MAX_TIME <= e2 <= e1 <= MAX_TIME,
        target.wf(),
        spec_evaluate_activity(c1, r1, index, prev, target, next) is None,
    ensures
        spec_evaluate_activity(c2, r2, index, prev, target, next) is None,
{
    let anchor1 = spec_anchor(r1.actor.spec_cost_span(), r1.tour@);
    let anchor2 = spec_anchor(r2.actor.spec_cost_span(), r2.tour@);
    assert(anchor1 == anchor2);
    assert(spec_anchor(r1.actor.spec_cost_span(), r1.tour@)
        == spec_anchor(r2.actor.spec_cost_span(), r2.tour@));
}

} // verus!
