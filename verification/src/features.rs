//! Feature capabilities: typed constraint, objective and state hooks, with
//! the two distance-shaping objectives (nearest distance and vehicle
//! distance) and the contexts the search driver hands them.

use vstd::prelude::*;
use crate::times::{MAX_TIME, MAX_WIN, sched_bounded};
use crate::model::{Activity, Actor, Route, RouteContext, Location, MAX_ACTIVITIES};
use crate::transport::{TransportModel, TravelMetric, spec_base_distance, lemma_base_duration_bounds};
use crate::schedule::tour_locs_ok;
use crate::limits::JobTimeLimitsConstraint;

verus! {

/// An error carrying a descriptive message; raised by feature builders when a
/// required collaborator is missing.
#[derive(Clone, PartialEq, Eq, Debug)]
pub struct GenericError {
    pub msg: String,
}

impl GenericError {
    pub fn new(msg: &str) -> (r: GenericError)
        ensures
            r.msg@ == msg@,
    {
        GenericError { msg: msg.to_owned() }
    }

    /// The error's message.
    pub fn to_string(&self) -> (r: String)
        ensures
            r@ == self.msg@,
    {
        self.msg.clone()
    }
}

/// A typed code identifying the constraint that refused a move.
#[derive(Clone, Copy, PartialEq, Eq, Structural, Debug)]
pub struct ViolationCode(pub i32);

/// A constraint's verdict on a move: the violated code, and whether the whole
/// route should be given up rather than just this move.
#[derive(Clone, Copy, PartialEq, Eq, Structural, Debug)]
pub struct ConstraintViolation {
    pub code: ViolationCode,
    pub stopped: bool,
}

impl ConstraintViolation {
    /// A verdict that skips only this move.
    pub fn skip(code: ViolationCode) -> (r: Option<ConstraintViolation>)
        ensures
            r == Some(ConstraintViolation { code, stopped: false }),
    {
        Some(ConstraintViolation { code, stopped: false })
    }

    /// A verdict that stops evaluating the whole route.
    pub fn fail(code: ViolationCode) -> (r: Option<ConstraintViolation>)
        ensures
            r == Some(ConstraintViolation { code, stopped: true }),
    {
        Some(ConstraintViolation { code, stopped: true })
    }
}

/// A job proposed for insertion: its primary location, its optional
/// nearest-distance threshold and its required skills.
#[derive(Clone, PartialEq, Eq, Debug)]
pub struct Job {
    pub location: Option<Location>,
    pub target_nearest_distance: Option<i64>,
    pub skills: Vec<u64>,
}

impl Job {
    pub open spec fn wf(self) -> bool {
        match self.target_nearest_distance {
            Some(d) => -MAX_TIME <= d <= MAX_TIME,
            None => true,
        }
    }
}

/// Gets the primary location of a job.
pub fn get_job_location(job: &Job) -> (r: Option<Location>)
    ensures
        r == job.location,
{
    job.location
}

/// Solution-level cached state: the totals the objectives publish.
#[derive(Clone, Copy, PartialEq, Eq, Structural, Debug)]
pub struct SolutionState {
    pub nearest_distance_penalty: Option<i64>,
    pub vehicle_distance_penalty: Option<i64>,
}

impl SolutionState {
    pub fn empty() -> (r: SolutionState)
        ensures
            r.nearest_distance_penalty is None,
            r.vehicle_distance_penalty is None,
    {
        SolutionState { nearest_distance_penalty: None, vehicle_distance_penalty: None }
    }
}

/// The routes of a solution under construction and its cached state.
#[derive(Clone, PartialEq, Eq, Debug)]
pub struct SolutionContext {
    pub routes: Vec<RouteContext>,
    pub state: SolutionState,
}

/// A solution handed to an objective's fitness query.
#[derive(Clone, PartialEq, Eq, Debug)]
pub struct InsertionContext {
    pub solution: SolutionContext,
}

/// The insertion position a constraint judges: the activity before it, the
/// activity to insert, and the activity after it (absent at an open tail).
pub struct ActivityContext<'a> {
    /// Index of the insertion position among the route's legs.
    pub index: usize,
    pub prev: &'a Activity,
    pub target: &'a Activity,
    pub next: Option<&'a Activity>,
}

/// A candidate move: a job proposed for a route, or an activity proposed for
/// a position.
pub enum MoveContext<'a> {
    Route { solution_ctx: &'a SolutionContext, route_ctx: &'a RouteContext, job: &'a Job },
    Activity {
        solution_ctx: &'a SolutionContext,
        route_ctx: &'a RouteContext,
        activity_ctx: &'a ActivityContext<'a>,
    },
}

impl<'a> MoveContext<'a> {
    pub fn route(
        solution_ctx: &'a SolutionContext,
        route_ctx: &'a RouteContext,
        job: &'a Job,
    ) -> (r: MoveContext<'a>)
        ensures
            r == (MoveContext::Route { solution_ctx, route_ctx, job }),
    {
        MoveContext::Route { solution_ctx, route_ctx, job }
    }

    pub fn activity(
        solution_ctx: &'a SolutionContext,
        route_ctx: &'a RouteContext,
        activity_ctx: &'a ActivityContext<'a>,
    ) -> (r: MoveContext<'a>)
        ensures
            r == (MoveContext::Activity { solution_ctx, route_ctx, activity_ctx }),
    {
        MoveContext::Activity { solution_ctx, route_ctx, activity_ctx }
    }
}

/// How the nearest-distance objective reads a job's threshold.
#[derive(Clone, Copy, PartialEq, Eq, Structural, Debug)]
pub enum JobTargetFn {
    /// Read the threshold stored on the job itself.
    StoredTarget,
}

/// How an actor's compatibility with a job is decided.
#[derive(Clone, Copy, PartialEq, Eq, Structural, Debug)]
pub enum ActorJobCompatibilityFn {
    /// Every actor can serve every job.
    Always,
    /// An actor is compatible when it has every skill the job requires.
    RequiresAllSkills,
}

/// Whether an actor with the given skills can serve a job requiring
/// `skills`, under the compatibility rule.
pub open spec fn spec_compatible_skills(c: ActorJobCompatibilityFn, skills: Seq<u64>, actor: Actor) -> bool {
    match c {
        ActorJobCompatibilityFn::Always => true,
        ActorJobCompatibilityFn::RequiresAllSkills => forall|s: u64|
            skills.contains(s) ==> actor.skills@.contains(s),
    }
}

/// Whether the actor can serve the job under the compatibility rule.
pub open spec fn spec_compatible(c: ActorJobCompatibilityFn, job: Job, actor: Actor) -> bool {
    spec_compatible_skills(c, job.skills@, actor)
}

fn clone_skills(v: &Vec<u64>) -> (r: Vec<u64>)
    ensures
        r@ == v@,
{
    let mut out: Vec<u64> = Vec::new();
    let mut i: usize = 0;
    while i < v.len()
        invariant
            0 <= i <= v@.len(),
            out@ == v@.take(i as int),
        decreases v@.len() - i,
    {
        out.push(v[i]);
        proof {
            assert(out@ =~= v@.take(i + 1 as int));
        }
        i = i + 1;
    }
    proof {
        assert(v@.take(v@.len() as int) =~= v@);
    }
    out
}

fn vec_contains(v: &Vec<u64>, x: u64) -> (r: bool)
    ensures
        r == v@.contains(x),
{
    let mut i: usize = 0;
    while i < v.len()
        invariant
            0 <= i <= v@.len(),
            forall|m: int| 0 <= m < i ==> v@[m] != x,
        decreases v@.len() - i,
    {
        if v[i] == x {
            return true;
        }
        i = i + 1;
    }
    false
}

/// Decides the compatibility rule for a concrete job and actor.
pub fn is_compatible(c: &ActorJobCompatibilityFn, job: &Job, actor: &Actor) -> (r: bool)
    ensures
        r == spec_compatible(*c, *job, *actor),
{
    match c {
        ActorJobCompatibilityFn::Always => true,
        ActorJobCompatibilityFn::RequiresAllSkills => {
            let mut i: usize = 0;
            while i < job.skills.len()
                invariant
                    *c == ActorJobCompatibilityFn::RequiresAllSkills,
                    0 <= i <= job.skills@.len(),
                    forall|m: int| 0 <= m < i ==> actor.skills@.contains(#[trigger] job.skills@[m]),
                decreases job.skills@.len() - i,
            {
                if !vec_contains(&actor.skills, job.skills[i]) {
                    proof {
                        assert(job.skills@.contains(job.skills@[i as int]));
                    }
                    return false;
                }
                i = i + 1;
            }
            proof {
                assert forall|x: u64| job.skills@.contains(x) implies actor.skills@.contains(x) by {
                    let idx = choose|idx: int| 0 <= idx < job.skills@.len() && job.skills@[idx] == x;
                    assert(actor.skills@.contains(job.skills@[idx]));
                }
            }
            true
        },
    }
}

// --- Nearest distance ---------------------------------------------------

/// Number of job activities among the first `k` of the tour.
pub open spec fn spec_job_count(tour: Seq<Activity>, k: int) -> int
    decreases k,
{
    if k <= 0 {
        0
    } else {
        spec_job_count(tour, k - 1) + if tour[k - 1].has_job() { 1int } else { 0int }
    }
}

/// Least static distance from activity `i` to another job activity among the
/// first `k`; `None` when there is none.
pub open spec fn spec_nearest_min(m: TravelMetric, tour: Seq<Activity>, i: int, k: int) -> Option<int>
    decreases k,
{
    if k <= 0 {
        None
    } else {
        let rest = spec_nearest_min(m, tour, i, k - 1);
        if k - 1 != i && tour[k - 1].has_job() {
            let d = spec_base_distance(m, tour[i].place.location as int, tour[k - 1].place.location as int);
            match rest {
                None => Some(d),
                Some(b) => Some(if d <= b { d } else { b }),
            }
        } else {
            rest
        }
    }
}

/// Penalty contribution of activity `i`: the excess of its nearest-neighbour
/// distance over its threshold, when it carries a threshold and a neighbour
/// exists.
pub open spec fn spec_nearest_contrib(m: TravelMetric, tour: Seq<Activity>, i: int) -> int {
    match tour[i].job {
        Some(j) => match j.target_nearest_distance {
            Some(target) => match spec_nearest_min(m, tour, i, tour.len() as int) {
                Some(d) => if d > target { d - target } else { 0 },
                None => 0,
            },
            None => 0,
        },
        None => 0,
    }
}

/// Sum of the contributions of the first `k` activities.
pub open spec fn spec_nearest_sum(m: TravelMetric, tour: Seq<Activity>, k: int) -> int
    decreases k,
{
    if k <= 0 {
        0
    } else {
        spec_nearest_sum(m, tour, k - 1) + spec_nearest_contrib(m, tour, k - 1)
    }
}

/// The nearest-distance penalty of one route: zero when it has at most one
/// job activity, else the summed excess of each thresholded job's
/// nearest-neighbour distance over its threshold.
pub open spec fn spec_nearest_route_penalty(m: TravelMetric, route: Route) -> int {
    let tour = route.tour@;
    if spec_job_count(tour, tour.len() as int) <= 1 {
        0
    } else {
        spec_nearest_sum(m, tour, tour.len() as int)
    }
}

proof fn lemma_nearest_min_bounds(m: TravelMetric, tour: Seq<Activity>, i: int, k: int)
    requires
        m.wf(),
        tour_locs_ok(m, tour),
        0 <= i < tour.len(),
        0 <= k <= tour.len(),
    ensures
        match spec_nearest_min(m, tour, i, k) {
            Some(d) => 0 <= d <= MAX_TIME,
            None => true,
        },
    decreases k,
{
    if k > 0 {
        lemma_nearest_min_bounds(m, tour, i, k - 1);
        if k - 1 != i && tour[k - 1].has_job() {
            lemma_base_duration_bounds(m, tour[i].place.location as int, tour[k - 1].place.location as int);
        }
    }
}

proof fn lemma_nearest_sum_bounds(m: TravelMetric, tour: Seq<Activity>, k: int)
    requires
        m.wf(),
        tour_locs_ok(m, tour),
        0 <= k <= tour.len() <= MAX_ACTIVITIES,
        forall|j: int| 0 <= j < tour.len() ==> (#[trigger] tour[j]).wf(),
    ensures
        0 <= spec_nearest_sum(m, tour, k) <= k * (2 * MAX_TIME),
    decreases k,
{
    if k > 0 {
        lemma_nearest_sum_bounds(m, tour, k - 1);
        lemma_nearest_min_bounds(m, tour, k - 1, tour.len() as int);
        assert(tour[k - 1].wf());
        assert((k - 1) * (2 * MAX_TIME) + 2 * MAX_TIME == k * (2 * MAX_TIME)) by (nonlinear_arith);
    }
}

/// The nearest-distance objective: penalises jobs whose nearest neighbour on
/// the same route is farther than their threshold.
#[derive(Clone, PartialEq, Eq, Debug)]
pub struct NearestDistanceObjective {
    pub transport: TransportModel,
    pub job_target_fn: JobTargetFn,
}

impl NearestDistanceObjective {
    /// Computes the penalty of a single route.
    pub fn compute_route_penalty(&self, route_ctx: &RouteContext) -> (r: i64)
        requires
            self.transport.wf(),
            route_ctx.route.wf(),
            tour_locs_ok(self.transport.metric, route_ctx.route.tour@),
        ensures
            r == spec_nearest_route_penalty(self.transport.metric, route_ctx.route),
            0 <= r <= MAX_ACTIVITIES * (2 * MAX_TIME),
    {
        nearest_route_penalty(&self.transport, route_ctx)
    }
}

/// Computes the nearest-distance penalty of one route.
fn nearest_route_penalty(transport: &TransportModel, route_ctx: &RouteContext) -> (r: i64)
    requires
        transport.wf(),
        route_ctx.route.wf(),
        tour_locs_ok(transport.metric, route_ctx.route.tour@),
    ensures
        r == spec_nearest_route_penalty(transport.metric, route_ctx.route),
        0 <= r <= MAX_ACTIVITIES * (2 * MAX_TIME),
{
    let ghost m = transport.metric;
    let ghost tour = route_ctx.route.tour@;
    let total = route_ctx.route.tour.len();

    // Count the job activities.
    let mut jobs: usize = 0;
    let mut c: usize = 0;
    while c < total
        invariant
            tour == route_ctx.route.tour@,
            total == tour.len(),
            0 <= c <= total,
            jobs == spec_job_count(tour, c as int),
            0 <= jobs <= c,
        decreases total - c,
    {
        if route_ctx.route.tour[c].job.is_some() {
            jobs = jobs + 1;
        }
        c = c + 1;
    }
    if jobs <= 1 {
        proof {
            lemma_nearest_sum_bounds(m, tour, 0);
        }
        return 0;
    }

    let mut penalty: i64 = 0;
    let mut i: usize = 0;
    while i < total
        invariant
            transport.wf(),
            route_ctx.route.wf(),
            tour_locs_ok(transport.metric, route_ctx.route.tour@),
            m == transport.metric,
            tour == route_ctx.route.tour@,
            total == tour.len(),
            0 <= i <= total,
            penalty == spec_nearest_sum(m, tour, i as int),
            0 <= penalty <= i * (2 * MAX_TIME),
        decreases total - i,
    {
        proof {
            lemma_nearest_sum_bounds(m, tour, i as int);
            lemma_nearest_sum_bounds(m, tour, i + 1 as int);
            lemma_nearest_min_bounds(m, tour, i as int, tour.len() as int);
            assert(tour[i as int].wf());
        }
        let target_opt: Option<i64> = match &route_ctx.route.tour[i].job {
            Some(j) => j.target_nearest_distance,
            None => None,
        };
        match target_opt {
            Some(target) => {
                // Least distance to another job activity.
                let mut best: Option<i64> = None;
                let mut k: usize = 0;
                while k < total
                    invariant
                        transport.wf(),
                        route_ctx.route.wf(),
                        tour_locs_ok(transport.metric, route_ctx.route.tour@),
                        m == transport.metric,
                        tour == route_ctx.route.tour@,
                        total == tour.len(),
                        0 <= i < total,
                        0 <= k <= total,
                        match best {
                            Some(b) => spec_nearest_min(m, tour, i as int, k as int) == Some(b as int),
                            None => spec_nearest_min(m, tour, i as int, k as int) is None,
                        },
                    decreases total - k,
                {
                    if k != i && route_ctx.route.tour[k].job.is_some() {
                        let d = transport.distance_approx(
                            route_ctx.route.tour[i].place.location,
                            route_ctx.route.tour[k].place.location,
                        );
                        best = match best {
                            None => Some(d),
                            Some(b) => Some(if d <= b { d } else { b }),
                        };
                    }
                    k = k + 1;
                }
                proof {
                    lemma_nearest_min_bounds(m, tour, i as int, tour.len() as int);
                    assert(tour[i as int].wf());
                    assert(-MAX_TIME <= target <= MAX_TIME);
                }
                let excess: i64 = match best {
                    Some(d) => if d > target { d - target } else { 0 },
                    None => 0,
                };
                proof {
                    assert(0 <= excess <= 2 * MAX_TIME);
                    assert((i as int) * (2 * MAX_TIME) + 2 * MAX_TIME == (i + 1) * (2 * MAX_TIME))
                        by (nonlinear_arith);
                    assert((i as int) * (2 * MAX_TIME) <= MAX_ACTIVITIES * (2 * MAX_TIME))
                        by (nonlinear_arith)
                        requires 0 <= i <= MAX_ACTIVITIES;
                }
                penalty = penalty + excess;
            },
            None => {},
        }
        i = i + 1;
    }
    penalty
}

/// The estimated nearest-distance penalty of inserting `job` into the route:
/// zero without a threshold, a location or existing jobs, else the excess of
/// the least distance to an existing job over the threshold.
pub open spec fn spec_nearest_estimate(m: TravelMetric, route: Route, job: Job) -> int {
    match (job.target_nearest_distance, job.location) {
        (Some(target), Some(loc)) => {
            match spec_job_min_dist(m, route.tour@, loc as int, route.tour@.len() as int) {
                Some(d) => if d > target { d - target } else { 0 },
                None => 0,
            }
        },
        _ => 0,
    }
}

/// Least static distance from `loc` to a job activity among the first `k`.
pub open spec fn spec_job_min_dist(m: TravelMetric, tour: Seq<Activity>, loc: int, k: int) -> Option<int>
    decreases k,
{
    if k <= 0 {
        None
    } else {
        let rest = spec_job_min_dist(m, tour, loc, k - 1);
        if tour[k - 1].has_job() {
            let d = spec_base_distance(m, loc, tour[k - 1].place.location as int);
            match rest {
                None => Some(d),
                Some(b) => Some(if d <= b { d } else { b }),
            }
        } else {
            rest
        }
    }
}

// --- Vehicle distance ---------------------------------------------------

/// Least static distance from `loc` to the start depot of a compatible actor
/// among the first `k` of the fleet.
pub open spec fn spec_nearest_actor_dist(
    m: TravelMetric,
    actors: Seq<Actor>,
    c: ActorJobCompatibilityFn,
    skills: Seq<u64>,
    loc: int,
    k: int,
) -> Option<int>
    decreases k,
{
    if k <= 0 {
        None
    } else {
        let rest = spec_nearest_actor_dist(m, actors, c, skills, loc, k - 1);
        let actor = actors[k - 1];
        if spec_compatible_skills(c, skills, actor) && actor.detail.start is Some {
            let d = spec_base_distance(m, loc, actor.detail.start->0.location as int);
            match rest {
                None => Some(d),
                Some(b) => Some(if d <= b { d } else { b }),
            }
        } else {
            rest
        }
    }
}

/// Every actor's start depot is admissible for the metric.
pub open spec fn fleet_locs_ok(m: TravelMetric, actors: Seq<Actor>) -> bool {
    forall|j: int| 0 <= j < actors.len()
        ==> ((#[trigger] actors[j]).detail.start is Some
            ==> m.loc_ok(actors[j].detail.start->0.location as int))
}

/// Finds the least distance from a job location to the start of any
/// compatible actor of the fleet.
pub fn find_nearest_compatible_vehicle_dist(
    job_loc: Location,
    job: &Job,
    actors: &Vec<Actor>,
    compatibility_fn: &ActorJobCompatibilityFn,
    transport: &TransportModel,
) -> (r: Option<i64>)
    requires
        transport.wf(),
        transport.metric.loc_ok(job_loc as int),
        fleet_locs_ok(transport.metric, actors@),
    ensures
        r == match spec_nearest_actor_dist(
            transport.metric,
            actors@,
            *compatibility_fn,
            job.skills@,
            job_loc as int,
            actors@.len() as int,
        ) {
            Some(d) => Some(d as i64),
            None => None::<i64>,
        },
{
    let ghost m = transport.metric;
    let mut best: Option<i64> = None;
    let mut k: usize = 0;
    while k < actors.len()
        invariant
            transport.wf(),
            m == transport.metric,
            transport.metric.loc_ok(job_loc as int),
            fleet_locs_ok(transport.metric, actors@),
            0 <= k <= actors@.len(),
            match best {
                Some(b) => spec_nearest_actor_dist(m, actors@, *compatibility_fn, job.skills@, job_loc as int, k as int)
                    == Some(b as int),
                None => spec_nearest_actor_dist(m, actors@, *compatibility_fn, job.skills@, job_loc as int, k as int)
                    is None,
            },
        decreases actors@.len() - k,
    {
        let actor = &actors[k];
        if is_compatible(compatibility_fn, job, actor) {
            match &actor.detail.start {
                Some(p) => {
                    let d = transport.distance_approx(job_loc, p.location);
                    best = match best {
                        None => Some(d),
                        Some(b) => Some(if d <= b { d } else { b }),
                    };
                },
                None => {},
            }
        }
        k = k + 1;
    }
    best
}

/// Penalty contribution of activity `i` of a route under the vehicle
/// distance objective: the excess of the distance to the assigned vehicle's
/// start over the distance to the nearest compatible vehicle's start.
pub open spec fn spec_vd_contrib(
    m: TravelMetric,
    route: Route,
    actors: Seq<Actor>,
    c: ActorJobCompatibilityFn,
    i: int,
) -> int {
    if !route.tour@[i].has_job() {
        0
    } else {
        match route.actor.detail.start {
            None => 0,
            Some(p) => {
                let loc = route.tour@[i].place.location as int;
                let d_assigned = spec_base_distance(m, loc, p.location as int);
                let skills = route.tour@[i].job->0.skills@;
                let d_nearest = match spec_nearest_actor_dist(m, actors, c, skills, loc, actors.len() as int) {
                    Some(d) => d,
                    None => d_assigned,
                };
                if d_assigned > d_nearest { d_assigned - d_nearest } else { 0 }
            },
        }
    }
}

/// Summed vehicle distance contributions of the first `k` activities.
pub open spec fn spec_vd_sum(
    m: TravelMetric,
    route: Route,
    actors: Seq<Actor>,
    c: ActorJobCompatibilityFn,
    k: int,
) -> int
    decreases k,
{
    if k <= 0 {
        0
    } else {
        spec_vd_sum(m, route, actors, c, k - 1) + spec_vd_contrib(m, route, actors, c, k - 1)
    }
}

/// The vehicle-distance penalty of one route: zero when the actor has no
/// start depot, else the summed excess distances of its job activities.
pub open spec fn spec_vd_route_penalty(
    m: TravelMetric,
    route: Route,
    actors: Seq<Actor>,
    c: ActorJobCompatibilityFn,
) -> int {
    match route.actor.detail.start {
        None => 0,
        Some(_) => spec_vd_sum(m, route, actors, c, route.tour@.len() as int),
    }
}

proof fn lemma_nearest_actor_dist_bounds(
    m: TravelMetric,
    actors: Seq<Actor>,
    c: ActorJobCompatibilityFn,
    skills: Seq<u64>,
    loc: int,
    k: int,
)
    requires
        m.wf(),
        m.loc_ok(loc),
        fleet_locs_ok(m, actors),
        0 <= k <= actors.len(),
    ensures
        match spec_nearest_actor_dist(m, actors, c, skills, loc, k) {
            Some(d) => 0 <= d <= MAX_TIME,
            None => true,
        },
    decreases k,
{
    if k > 0 {
        lemma_nearest_actor_dist_bounds(m, actors, c, skills, loc, k - 1);
        let actor = actors[k - 1];
        if spec_compatible_skills(c, skills, actor) && actor.detail.start is Some {
            lemma_base_duration_bounds(m, loc, actor.detail.start->0.location as int);
        }
    }
}

proof fn lemma_vd_sum_bounds(
    m: TravelMetric,
    route: Route,
    actors: Seq<Actor>,
    c: ActorJobCompatibilityFn,
    k: int,
)
    requires
        m.wf(),
        tour_locs_ok(m, route.tour@),
        fleet_locs_ok(m, actors),
        route.actor.detail.start is Some ==> m.loc_ok(route.actor.detail.start->0.location as int),
        0 <= k <= route.tour@.len() <= MAX_ACTIVITIES,
    ensures
        0 <= spec_vd_sum(m, route, actors, c, k) <= k * MAX_TIME,
    decreases k,
{
    if k > 0 {
        lemma_vd_sum_bounds(m, route, actors, c, k - 1);
        if route.tour@[k - 1].has_job() {
            match route.actor.detail.start {
                None => {},
                Some(p) => {
                    let loc = route.tour@[k - 1].place.location as int;
                    lemma_base_duration_bounds(m, loc, p.location as int);
                    lemma_nearest_actor_dist_bounds(
                        m,
                        actors,
                        c,
                        route.tour@[k - 1].job->0.skills@,
                        loc,
                        actors.len() as int,
                    );
                },
            }
        }
        assert((k - 1) * MAX_TIME + MAX_TIME == k * MAX_TIME) by (nonlinear_arith);
    }
}

/// The vehicle-distance objective: penalises jobs served by a vehicle whose
/// start depot is farther than the nearest compatible vehicle's.
#[derive(Clone, PartialEq, Eq, Debug)]
pub struct VehicleDistanceObjective {
    pub transport: TransportModel,
    pub actors: Vec<Actor>,
    pub compatibility_fn: ActorJobCompatibilityFn,
}

impl VehicleDistanceObjective {
    /// Computes the penalty of a single route.
    pub fn compute_route_penalty(&self, route_ctx: &RouteContext) -> (r: i64)
        requires
            self.transport.wf(),
            route_ctx.route.wf(),
            tour_locs_ok(self.transport.metric, route_ctx.route.tour@),
            fleet_locs_ok(self.transport.metric, self.actors@),
            route_ctx.route.actor.detail.start is Some
                ==> self.transport.metric.loc_ok(route_ctx.route.actor.detail.start->0.location as int),
        ensures
            r == spec_vd_route_penalty(
                self.transport.metric,
                route_ctx.route,
                self.actors@,
                self.compatibility_fn,
            ),
            0 <= r <= MAX_ACTIVITIES * MAX_TIME,
    {
        vd_route_penalty(&self.transport, &self.actors, &self.compatibility_fn, route_ctx)
    }
}

/// Computes the vehicle-distance penalty of one route.
fn vd_route_penalty(
    transport: &TransportModel,
    actors: &Vec<Actor>,
    compatibility_fn: &ActorJobCompatibilityFn,
    route_ctx: &RouteContext,
) -> (r: i64)
    requires
        transport.wf(),
        route_ctx.route.wf(),
        tour_locs_ok(transport.metric, route_ctx.route.tour@),
        fleet_locs_ok(transport.metric, actors@),
        route_ctx.route.actor.detail.start is Some
            ==> transport.metric.loc_ok(route_ctx.route.actor.detail.start->0.location as int),
    ensures
        r == spec_vd_route_penalty(transport.metric, route_ctx.route, actors@, *compatibility_fn),
        0 <= r <= MAX_ACTIVITIES * MAX_TIME,
{
    let ghost m = transport.metric;
    let ghost route = route_ctx.route;
    let assigned_start = match &route_ctx.route.actor.detail.start {
        Some(p) => p.location,
        None => {
            proof {
                lemma_vd_sum_bounds(m, route, actors@, *compatibility_fn, 0);
            }
            return 0;
        },
    };
    let total = route_ctx.route.tour.len();
    let mut penalty: i64 = 0;
    let mut i: usize = 0;
    while i < total
        invariant
            transport.wf(),
            route_ctx.route.wf(),
            tour_locs_ok(transport.metric, route_ctx.route.tour@),
            fleet_locs_ok(transport.metric, actors@),
            m == transport.metric,
            route == route_ctx.route,
            route.actor.detail.start is Some,
            assigned_start == route.actor.detail.start->0.location,
            transport.metric.loc_ok(assigned_start as int),
            total == route.tour@.len(),
            0 <= i <= total,
            penalty == spec_vd_sum(m, route, actors@, *compatibility_fn, i as int),
            0 <= penalty <= i * MAX_TIME,
        decreases total - i,
    {
        proof {
            lemma_vd_sum_bounds(m, route, actors@, *compatibility_fn, i as int);
            lemma_vd_sum_bounds(m, route, actors@, *compatibility_fn, i + 1 as int);
        }
        if route_ctx.route.tour[i].job.is_some() {
            let job_loc = route_ctx.route.tour[i].place.location;
            let dist_assigned = transport.distance_approx(job_loc, assigned_start);
            let job_skills = match &route_ctx.route.tour[i].job {
                Some(info) => clone_skills(&info.skills),
                None => Vec::new(),
            };
            let the_job = Job { location: None, target_nearest_distance: None, skills: job_skills };
            let dist_nearest = match find_nearest_compatible_vehicle_dist(
                job_loc,
                &the_job,
                actors,
                compatibility_fn,
                transport,
            ) {
                Some(d) => d,
                None => dist_assigned,
            };
            proof {
                lemma_nearest_actor_dist_bounds(
                    m,
                    actors@,
                    *compatibility_fn,
                    the_job.skills@,
                    job_loc as int,
                    actors@.len() as int,
                );
            }
            let excess = if dist_assigned > dist_nearest { dist_assigned - dist_nearest } else { 0 };
            penalty = penalty + excess;
        }
        i = i + 1;
    }
    penalty
}

/// Upper bound on the number of routes of one solution.
pub const MAX_ROUTES: usize = 1_000;

/// Upper bound on the magnitude of a cached route penalty.
pub const MAX_PENALTY: i64 = 2_000_000_000_000;

/// Every route of the sequence is well-formed and admissible for the metric.
pub open spec fn routes_ok(m: TravelMetric, routes: Seq<RouteContext>) -> bool {
    forall|j: int| 0 <= j < routes.len() ==> {
        let rc = #[trigger] routes[j];
        &&& rc.route.wf()
        &&& tour_locs_ok(m, rc.route.tour@)
        &&& (rc.route.actor.detail.start is Some
            ==> m.loc_ok(rc.route.actor.detail.start->0.location as int))
    }
}

/// Summed nearest-distance penalties of the first `k` routes.
pub open spec fn spec_nearest_routes_sum(m: TravelMetric, routes: Seq<RouteContext>, k: int) -> int
    decreases k,
{
    if k <= 0 {
        0
    } else {
        spec_nearest_routes_sum(m, routes, k - 1) + spec_nearest_route_penalty(m, routes[k - 1].route)
    }
}

/// Summed vehicle-distance penalties of the first `k` routes.
pub open spec fn spec_vd_routes_sum(
    m: TravelMetric,
    routes: Seq<RouteContext>,
    actors: Seq<Actor>,
    c: ActorJobCompatibilityFn,
    k: int,
) -> int
    decreases k,
{
    if k <= 0 {
        0
    } else {
        spec_vd_routes_sum(m, routes, actors, c, k - 1)
            + spec_vd_route_penalty(m, routes[k - 1].route, actors, c)
    }
}

impl NearestDistanceObjective {
    /// Returns the solution's cached nearest-distance total, or recomputes it
    /// route by route when no total is cached.
    pub fn fitness(&self, solution: &InsertionContext) -> (r: i64)
        requires
            self.transport.wf(),
            routes_ok(self.transport.metric, solution.solution.routes@),
            solution.solution.routes@.len() <= MAX_ROUTES,
        ensures
            r == match solution.solution.state.nearest_distance_penalty {
                Some(v) => v as int,
                None => spec_nearest_routes_sum(
                    self.transport.metric,
                    solution.solution.routes@,
                    solution.solution.routes@.len() as int,
                ),
            },
    {
        match solution.solution.state.nearest_distance_penalty {
            Some(v) => v,
            None => {
                let ghost m = self.transport.metric;
                let ghost routes = solution.solution.routes@;
                let mut total: i64 = 0;
                let mut i: usize = 0;
                while i < solution.solution.routes.len()
                    invariant
                        self.transport.wf(),
                        m == self.transport.metric,
                        routes == solution.solution.routes@,
                        routes_ok(m, routes),
                        routes.len() <= MAX_ROUTES,
                        0 <= i <= routes.len(),
                        total == spec_nearest_routes_sum(m, routes, i as int),
                        0 <= total <= i * MAX_PENALTY,
                    decreases routes.len() - i,
                {
                    let p = self.compute_route_penalty(&solution.solution.routes[i]);
                    proof {
                        assert((i as int) * MAX_PENALTY + MAX_PENALTY == (i + 1) * MAX_PENALTY)
                            by (nonlinear_arith);
                        assert((i as int) * MAX_PENALTY <= MAX_ROUTES * MAX_PENALTY)
                            by (nonlinear_arith)
                            requires 0 <= i <= MAX_ROUTES;
                    }
                    total = total + p;
                    i = i + 1;
                }
                total
            },
        }
    }

    /// Estimates the penalty contribution of inserting the job into the
    /// route: zero for activity-position moves.
    pub fn estimate(&self, move_ctx: &MoveContext) -> (r: i64)
        requires
            self.transport.wf(),
            match *move_ctx {
                MoveContext::Route { route_ctx, job, .. } => {
                    &&& route_ctx.route.wf()
                    &&& tour_locs_ok(self.transport.metric, route_ctx.route.tour@)
                    &&& job.wf()
                    &&& (job.location is Some ==> self.transport.metric.loc_ok(job.location->0 as int))
                },
                MoveContext::Activity { .. } => true,
            },
        ensures
            r == match *move_ctx {
                MoveContext::Route { route_ctx, job, .. } => spec_nearest_estimate(
                    self.transport.metric,
                    route_ctx.route,
                    *job,
                ),
                MoveContext::Activity { .. } => 0,
            },
    {
        match move_ctx {
            MoveContext::Route { route_ctx, job, .. } => {
                let target = match job.target_nearest_distance {
                    Some(t) => t,
                    None => {
                        return 0;
                    },
                };
                let job_loc = match job.location {
                    Some(l) => l,
                    None => {
                        return 0;
                    },
                };
                let ghost m = self.transport.metric;
                let ghost tour = route_ctx.route.tour@;
                let total = route_ctx.route.tour.len();
                let mut best: Option<i64> = None;
                let mut k: usize = 0;
                while k < total
                    invariant
                        self.transport.wf(),
                        route_ctx.route.wf(),
                        tour_locs_ok(self.transport.metric, route_ctx.route.tour@),
                        self.transport.metric.loc_ok(job_loc as int),
                        m == self.transport.metric,
                        tour == route_ctx.route.tour@,
                        total == tour.len(),
                        0 <= k <= total,
                        match best {
                            Some(b) => spec_job_min_dist(m, tour, job_loc as int, k as int) == Some(b as int),
                            None => spec_job_min_dist(m, tour, job_loc as int, k as int) is None,
                        },
                        match best {
                            Some(b) => 0 <= b <= MAX_TIME,
                            None => true,
                        },
                    decreases total - k,
                {
                    if route_ctx.route.tour[k].job.is_some() {
                        let d = self.transport.distance_approx(job_loc, route_ctx.route.tour[k].place.location);
                        best = match best {
                            None => Some(d),
                            Some(b) => Some(if d <= b { d } else { b }),
                        };
                    }
                    k = k + 1;
                }
                match best {
                    Some(d) => if d > target { d - target } else { 0 },
                    None => 0,
                }
            },
            MoveContext::Activity { .. } => 0,
        }
    }
}

/// The estimated vehicle-distance penalty of inserting `job` into the route:
/// the excess of the distance to the route's start depot over the distance to
/// the nearest compatible actor's start depot.
pub open spec fn spec_vd_estimate(
    m: TravelMetric,
    route: Route,
    actors: Seq<Actor>,
    c: ActorJobCompatibilityFn,
    job: Job,
) -> int {
    match (job.location, route.actor.detail.start) {
        (Some(loc), Some(p)) => {
            let d_assigned = spec_base_distance(m, loc as int, p.location as int);
            let d_nearest = match spec_nearest_actor_dist(m, actors, c, job.skills@, loc as int, actors.len() as int) {
                Some(d) => d,
                None => d_assigned,
            };
            if d_assigned > d_nearest { d_assigned - d_nearest } else { 0 }
        },
        _ => 0,
    }
}

impl VehicleDistanceObjective {
    /// Returns the solution's cached vehicle-distance total, or recomputes it
    /// route by route when no total is cached.
    pub fn fitness(&self, solution: &InsertionContext) -> (r: i64)
        requires
            self.transport.wf(),
            routes_ok(self.transport.metric, solution.solution.routes@),
            fleet_locs_ok(self.transport.metric, self.actors@),
            solution.solution.routes@.len() <= MAX_ROUTES,
        ensures
            r == match solution.solution.state.vehicle_distance_penalty {
                Some(v) => v as int,
                None => spec_vd_routes_sum(
                    self.transport.metric,
                    solution.solution.routes@,
                    self.actors@,
                    self.compatibility_fn,
                    solution.solution.routes@.len() as int,
                ),
            },
    {
        match solution.solution.state.vehicle_distance_penalty {
            Some(v) => v,
            None => {
                let ghost m = self.transport.metric;
                let ghost routes = solution.solution.routes@;
                let mut total: i64 = 0;
                let mut i: usize = 0;
                while i < solution.solution.routes.len()
                    invariant
                        self.transport.wf(),
                        m == self.transport.metric,
                        routes == solution.solution.routes@,
                        routes_ok(m, routes),
                        fleet_locs_ok(m, self.actors@),
                        routes.len() <= MAX_ROUTES,
                        0 <= i <= routes.len(),
                        total == spec_vd_routes_sum(m, routes, self.actors@, self.compatibility_fn, i as int),
                        0 <= total <= i * MAX_PENALTY,
                    decreases routes.len() - i,
                {
                    let p = self.compute_route_penalty(&solution.solution.routes[i]);
                    proof {
                        assert((i as int) * MAX_PENALTY + MAX_PENALTY == (i + 1) * MAX_PENALTY)
                            by (nonlinear_arith);
                        assert((i as int) * MAX_PENALTY <= MAX_ROUTES * MAX_PENALTY)
                            by (nonlinear_arith)
                            requires 0 <= i <= MAX_ROUTES;
                    }
                    total = total + p;
                    i = i + 1;
                }
                total
            },
        }
    }

    /// Estimates the penalty contribution of inserting the job into the
    /// route: zero for activity-position moves.
    pub fn estimate(&self, move_ctx: &MoveContext) -> (r: i64)
        requires
            self.transport.wf(),
            fleet_locs_ok(self.transport.metric, self.actors@),
            match *move_ctx {
                MoveContext::Route { route_ctx, job, .. } => {
                    &&& route_ctx.route.wf()
                    &&& (job.location is Some ==> self.transport.metric.loc_ok(job.location->0 as int))
                    &&& (route_ctx.route.actor.detail.start is Some
                        ==> self.transport.metric.loc_ok(route_ctx.route.actor.detail.start->0.location as int))
                },
                MoveContext::Activity { .. } => true,
            },
        ensures
            r == match *move_ctx {
                MoveContext::Route { route_ctx, job, .. } => spec_vd_estimate(
                    self.transport.metric,
                    route_ctx.route,
                    self.actors@,
                    self.compatibility_fn,
                    *job,
                ),
                MoveContext::Activity { .. } => 0,
            },
    {
        match move_ctx {
            MoveContext::Route { route_ctx, job, .. } => {
                let job_loc = match job.location {
                    Some(l) => l,
                    None => {
                        return 0;
                    },
                };
                let assigned_start = match &route_ctx.route.actor.detail.start {
                    Some(p) => p.location,
                    None => {
                        return 0;
                    },
                };
                let dist_assigned = self.transport.distance_approx(job_loc, assigned_start);
                let dist_nearest = match find_nearest_compatible_vehicle_dist(
                    job_loc,
                    job,
                    &self.actors,
                    &self.compatibility_fn,
                    &self.transport,
                ) {
                    Some(d) => d,
                    None => dist_assigned,
                };
                proof {
                    lemma_nearest_actor_dist_bounds(
                        self.transport.metric,
                        self.actors@,
                        self.compatibility_fn,
                        job.skills@,
                        job_loc as int,
                        self.actors@.len() as int,
                    );
                }
                if dist_assigned > dist_nearest {
                    dist_assigned - dist_nearest
                } else {
                    0
                }
            },
            MoveContext::Activity { .. } => 0,
        }
    }
}

/// Route-level cached data for nearest distance calculations.
#[derive(Clone, Copy, PartialEq, Eq, Structural, Debug)]
pub struct RouteNearestDistanceData {
    /// Penalty contribution from this route.
    pub penalty: i64,
}

/// Route-level cached data for vehicle distance calculations.
#[derive(Clone, Copy, PartialEq, Eq, Structural, Debug)]
pub struct RouteVehicleDistanceData {
    /// Penalty contribution from this route.
    pub penalty: i64,
}

impl crate::model::RouteState {
    /// The cached nearest-distance data of this route, if any.
    pub fn get_nearest_distance_route_data(&self) -> (r: Option<RouteNearestDistanceData>)
        ensures
            r == match self.nearest_distance_data {
                Some(p) => Some(RouteNearestDistanceData { penalty: p }),
                None => None,
            },
    {
        match self.nearest_distance_data {
            Some(p) => Some(RouteNearestDistanceData { penalty: p }),
            None => None,
        }
    }

    /// The cached vehicle-distance data of this route, if any.
    pub fn get_vehicle_distance_route_data(&self) -> (r: Option<RouteVehicleDistanceData>)
        ensures
            r == match self.vehicle_distance_data {
                Some(p) => Some(RouteVehicleDistanceData { penalty: p }),
                None => None,
            },
    {
        match self.vehicle_distance_data {
            Some(p) => Some(RouteVehicleDistanceData { penalty: p }),
            None => None,
        }
    }
}

/// State hook of the nearest-distance feature: caches per-route penalties and
/// the solution total.
#[derive(Clone, PartialEq, Eq, Debug)]
pub struct NearestDistanceState {
    pub transport: TransportModel,
    pub job_target_fn: JobTargetFn,
}

/// State hook of the vehicle-distance feature.
#[derive(Clone, PartialEq, Eq, Debug)]
pub struct VehicleDistanceState {
    pub transport: TransportModel,
    pub actors: Vec<Actor>,
    pub compatibility_fn: ActorJobCompatibilityFn,
}

/// Summed cached nearest-distance data of the first `k` routes; a route
/// without cached data contributes zero.
pub open spec fn spec_cached_nd_sum(routes: Seq<RouteContext>, k: int) -> int
    decreases k,
{
    if k <= 0 {
        0
    } else {
        spec_cached_nd_sum(routes, k - 1) + match routes[k - 1].state.nearest_distance_data {
            Some(v) => v as int,
            None => 0,
        }
    }
}

/// Summed cached vehicle-distance data of the first `k` routes.
pub open spec fn spec_cached_vd_sum(routes: Seq<RouteContext>, k: int) -> int
    decreases k,
{
    if k <= 0 {
        0
    } else {
        spec_cached_vd_sum(routes, k - 1) + match routes[k - 1].state.vehicle_distance_data {
            Some(v) => v as int,
            None => 0,
        }
    }
}

/// Every cached penalty of the routes is within the penalty bound.
pub open spec fn cached_penalties_ok(routes: Seq<RouteContext>) -> bool {
    forall|j: int| 0 <= j < routes.len() ==> {
        let st = (#[trigger] routes[j]).state;
        &&& (st.nearest_distance_data is Some ==> -MAX_PENALTY <= st.nearest_distance_data->0 <= MAX_PENALTY)
        &&& (st.vehicle_distance_data is Some ==> -MAX_PENALTY <= st.vehicle_distance_data->0 <= MAX_PENALTY)
    }
}

impl NearestDistanceState {
    /// Computes the penalty of a single route.
    pub fn compute_route_penalty(&self, route_ctx: &RouteContext) -> (r: i64)
        requires
            self.transport.wf(),
            route_ctx.route.wf(),
            tour_locs_ok(self.transport.metric, route_ctx.route.tour@),
        ensures
            r == spec_nearest_route_penalty(self.transport.metric, route_ctx.route),
            0 <= r <= MAX_PENALTY,
    {
        nearest_route_penalty(&self.transport, route_ctx)
    }

    /// An insertion only marks the route stale; recomputation happens when
    /// the solution state is accepted.
    pub fn accept_insertion(&self, solution_ctx: &mut SolutionContext, _route_index: usize, _job: &Job)
        ensures
            *final(solution_ctx) == *old(solution_ctx),
    {
    }

    /// Recomputes and caches this route's penalty.
    pub fn accept_route_state(&self, route_ctx: &mut RouteContext)
        requires
            self.transport.wf(),
            old(route_ctx).route.wf(),
            tour_locs_ok(self.transport.metric, old(route_ctx).route.tour@),
        ensures
            final(route_ctx).route == old(route_ctx).route,
            final(route_ctx).stale == old(route_ctx).stale,
            final(route_ctx).state == (crate::model::RouteState {
                nearest_distance_data: Some(
                    spec_nearest_route_penalty(self.transport.metric, old(route_ctx).route) as i64,
                ),
                ..old(route_ctx).state
            }),
    {
        let penalty = nearest_route_penalty(&self.transport, route_ctx);
        route_ctx.state.nearest_distance_data = Some(penalty);
    }

    /// Refreshes the cached penalty of every stale route, clears its stale
    /// mark, and publishes the solution total.
    pub fn accept_solution_state(&self, solution_ctx: &mut SolutionContext)
        requires
            self.transport.wf(),
            routes_ok(self.transport.metric, old(solution_ctx).routes@),
            cached_penalties_ok(old(solution_ctx).routes@),
            old(solution_ctx).routes@.len() <= MAX_ROUTES,
        ensures
            final(solution_ctx).routes@.len() == old(solution_ctx).routes@.len(),
            forall|j: int| 0 <= j < old(solution_ctx).routes@.len() ==> {
                let new = #[trigger] final(solution_ctx).routes@[j];
                let prev = old(solution_ctx).routes@[j];
                &&& new.route == prev.route
                &&& !new.stale
                &&& new.state.nearest_distance_data == (if prev.stale {
                    Some(spec_nearest_route_penalty(self.transport.metric, prev.route) as i64)
                } else {
                    prev.state.nearest_distance_data
                })
            },
            final(solution_ctx).state.vehicle_distance_penalty
                == old(solution_ctx).state.vehicle_distance_penalty,
            final(solution_ctx).state.nearest_distance_penalty is Some,
            final(solution_ctx).state.nearest_distance_penalty->0 == spec_cached_nd_sum(
                final(solution_ctx).routes@,
                final(solution_ctx).routes@.len() as int,
            ),
    {
        let ghost routes0 = old(solution_ctx).routes@;
        let total_routes = solution_ctx.routes.len();
        let mut i: usize = 0;
        while i < total_routes
            invariant
                self.transport.wf(),
                routes_ok(self.transport.metric, routes0),
                cached_penalties_ok(routes0),
                routes0.len() <= MAX_ROUTES,
                routes0 == old(solution_ctx).routes@,
                total_routes == routes0.len(),
                solution_ctx.routes@.len() == routes0.len(),
                solution_ctx.state == old(solution_ctx).state,
                0 <= i <= total_routes,
                forall|j: int| (i as int) <= j < routes0.len()
                    ==> #[trigger] solution_ctx.routes@[j] == routes0[j],
                forall|j: int| 0 <= j < (i as int) ==> {
                    let new = #[trigger] solution_ctx.routes@[j];
                    let prev = routes0[j];
                    &&& new.route == prev.route
                    &&& !new.stale
                    &&& new.state == (crate::model::RouteState {
                        nearest_distance_data: if prev.stale {
                            Some(spec_nearest_route_penalty(self.transport.metric, prev.route) as i64)
                        } else {
                            prev.state.nearest_distance_data
                        },
                        ..prev.state
                    })
                },
                cached_penalties_ok(solution_ctx.routes@),
            decreases total_routes - i,
        {
            if solution_ctx.routes[i].stale {
                let penalty = nearest_route_penalty(&self.transport, &solution_ctx.routes[i]);
                solution_ctx.routes[i].state.nearest_distance_data = Some(penalty);
            }
            solution_ctx.routes[i].stale = false;
            i = i + 1;
        }

        let mut total: i64 = 0;
        let mut k: usize = 0;
        let ghost routes1 = solution_ctx.routes@;
        while k < total_routes
            invariant
                cached_penalties_ok(routes1),
                routes1 == solution_ctx.routes@,
                total_routes == routes1.len(),
                routes1.len() <= MAX_ROUTES,
                solution_ctx.state == old(solution_ctx).state,
                0 <= k <= total_routes,
                total == spec_cached_nd_sum(routes1, k as int),
                -(k as int) * MAX_PENALTY <= total <= (k as int) * MAX_PENALTY,
            decreases total_routes - k,
        {
            let add = match solution_ctx.routes[k].state.nearest_distance_data {
                Some(v) => v,
                None => 0,
            };
            proof {
                assert((k as int) * MAX_PENALTY + MAX_PENALTY == (k + 1) * MAX_PENALTY)
                    by (nonlinear_arith);
                assert((k as int) * MAX_PENALTY <= MAX_ROUTES * MAX_PENALTY)
                    by (nonlinear_arith)
                    requires 0 <= k <= MAX_ROUTES;
            }
            total = total + add;
            k = k + 1;
        }
        solution_ctx.state.nearest_distance_penalty = Some(total);
    }
}

impl VehicleDistanceState {
    /// Computes the penalty of a single route.
    pub fn compute_route_penalty(&self, route_ctx: &RouteContext) -> (r: i64)
        requires
            self.transport.wf(),
            route_ctx.route.wf(),
            tour_locs_ok(self.transport.metric, route_ctx.route.tour@),
            fleet_locs_ok(self.transport.metric, self.actors@),
            route_ctx.route.actor.detail.start is Some
                ==> self.transport.metric.loc_ok(route_ctx.route.actor.detail.start->0.location as int),
        ensures
            r == spec_vd_route_penalty(
                self.transport.metric,
                route_ctx.route,
                self.actors@,
                self.compatibility_fn,
            ),
            0 <= r <= MAX_PENALTY,
    {
        vd_route_penalty(&self.transport, &self.actors, &self.compatibility_fn, route_ctx)
    }

    /// An insertion only marks the route stale.
    pub fn accept_insertion(&self, solution_ctx: &mut SolutionContext, _route_index: usize, _job: &Job)
        ensures
            *final(solution_ctx) == *old(solution_ctx),
    {
    }

    /// Recomputes and caches this route's penalty.
    pub fn accept_route_state(&self, route_ctx: &mut RouteContext)
        requires
            self.transport.wf(),
            old(route_ctx).route.wf(),
            tour_locs_ok(self.transport.metric, old(route_ctx).route.tour@),
            fleet_locs_ok(self.transport.metric, self.actors@),
            old(route_ctx).route.actor.detail.start is Some
                ==> self.transport.metric.loc_ok(old(route_ctx).route.actor.detail.start->0.location as int),
        ensures
            final(route_ctx).route == old(route_ctx).route,
            final(route_ctx).stale == old(route_ctx).stale,
            final(route_ctx).state == (crate::model::RouteState {
                vehicle_distance_data: Some(
                    spec_vd_route_penalty(
                        self.transport.metric,
                        old(route_ctx).route,
                        self.actors@,
                        self.compatibility_fn,
                    ) as i64,
                ),
                ..old(route_ctx).state
            }),
    {
        let penalty = vd_route_penalty(&self.transport, &self.actors, &self.compatibility_fn, route_ctx);
        route_ctx.state.vehicle_distance_data = Some(penalty);
    }

    /// Refreshes the cached penalty of every stale route, clears its stale
    /// mark, and publishes the solution total.
    pub fn accept_solution_state(&self, solution_ctx: &mut SolutionContext)
        requires
            self.transport.wf(),
            routes_ok(self.transport.metric, old(solution_ctx).routes@),
            cached_penalties_ok(old(solution_ctx).routes@),
            fleet_locs_ok(self.transport.metric, self.actors@),
            old(solution_ctx).routes@.len() <= MAX_ROUTES,
        ensures
            final(solution_ctx).routes@.len() == old(solution_ctx).routes@.len(),
            forall|j: int| 0 <= j < old(solution_ctx).routes@.len() ==> {
                let new = #[trigger] final(solution_ctx).routes@[j];
                let prev = old(solution_ctx).routes@[j];
                &&& new.route == prev.route
                &&& !new.stale
                &&& new.state.vehicle_distance_data == (if prev.stale {
                    Some(spec_vd_route_penalty(
                        self.transport.metric,
                        prev.route,
                        self.actors@,
                        self.compatibility_fn,
                    ) as i64)
                } else {
                    prev.state.vehicle_distance_data
                })
            },
            final(solution_ctx).state.nearest_distance_penalty
                == old(solution_ctx).state.nearest_distance_penalty,
            final(solution_ctx).state.vehicle_distance_penalty is Some,
            final(solution_ctx).state.vehicle_distance_penalty->0 == spec_cached_vd_sum(
                final(solution_ctx).routes@,
                final(solution_ctx).routes@.len() as int,
            ),
    {
        let ghost routes0 = old(solution_ctx).routes@;
        let total_routes = solution_ctx.routes.len();
        let mut i: usize = 0;
        while i < total_routes
            invariant
                self.transport.wf(),
                routes_ok(self.transport.metric, routes0),
                cached_penalties_ok(routes0),
                fleet_locs_ok(self.transport.metric, self.actors@),
                routes0.len() <= MAX_ROUTES,
                routes0 == old(solution_ctx).routes@,
                total_routes == routes0.len(),
                solution_ctx.routes@.len() == routes0.len(),
                solution_ctx.state == old(solution_ctx).state,
                0 <= i <= total_routes,
                forall|j: int| (i as int) <= j < routes0.len()
                    ==> #[trigger] solution_ctx.routes@[j] == routes0[j],
                forall|j: int| 0 <= j < (i as int) ==> {
                    let new = #[trigger] solution_ctx.routes@[j];
                    let prev = routes0[j];
                    &&& new.route == prev.route
                    &&& !new.stale
                    &&& new.state == (crate::model::RouteState {
                        vehicle_distance_data: if prev.stale {
                            Some(spec_vd_route_penalty(
                                self.transport.metric,
                                prev.route,
                                self.actors@,
                                self.compatibility_fn,
                            ) as i64)
                        } else {
                            prev.state.vehicle_distance_data
                        },
                        ..prev.state
                    })
                },
                cached_penalties_ok(solution_ctx.routes@),
            decreases total_routes - i,
        {
            if solution_ctx.routes[i].stale {
                let penalty = vd_route_penalty(
                    &self.transport,
                    &self.actors,
                    &self.compatibility_fn,
                    &solution_ctx.routes[i],
                );
                solution_ctx.routes[i].state.vehicle_distance_data = Some(penalty);
            }
            solution_ctx.routes[i].stale = false;
            i = i + 1;
        }

        let mut total: i64 = 0;
        let mut k: usize = 0;
        let ghost routes1 = solution_ctx.routes@;
        while k < total_routes
            invariant
                cached_penalties_ok(routes1),
                routes1 == solution_ctx.routes@,
                total_routes == routes1.len(),
                routes1.len() <= MAX_ROUTES,
                solution_ctx.state == old(solution_ctx).state,
                0 <= k <= total_routes,
                total == spec_cached_vd_sum(routes1, k as int),
                -(k as int) * MAX_PENALTY <= total <= (k as int) * MAX_PENALTY,
            decreases total_routes - k,
        {
            let add = match solution_ctx.routes[k].state.vehicle_distance_data {
                Some(v) => v,
                None => 0,
            };
            proof {
                assert((k as int) * MAX_PENALTY + MAX_PENALTY == (k + 1) * MAX_PENALTY)
                    by (nonlinear_arith);
                assert((k as int) * MAX_PENALTY <= MAX_ROUTES * MAX_PENALTY)
                    by (nonlinear_arith)
                    requires 0 <= k <= MAX_ROUTES;
            }
            total = total + add;
            k = k + 1;
        }
        solution_ctx.state.vehicle_distance_penalty = Some(total);
    }
}

/// The constraint capability of a feature.
#[derive(Clone, PartialEq, Eq, Debug)]
pub enum FeatureConstraintKind {
    JobTimeLimits(JobTimeLimitsConstraint),
}

impl FeatureConstraintKind {
    /// Judges a move with the wrapped constraint.
    pub fn evaluate(&self, move_ctx: &MoveContext) -> (r: Option<ConstraintViolation>)
        requires
            match *self {
                FeatureConstraintKind::JobTimeLimits(c) => c.transport.wf() && c.activity.wf(),
            },
            match *move_ctx {
                MoveContext::Route { .. } => true,
                MoveContext::Activity { route_ctx, activity_ctx, .. } => {
                    &&& route_ctx.route.wf()
                    &&& activity_ctx.prev.wf()
                    &&& activity_ctx.target.wf()
                    &&& -MAX_WIN <= activity_ctx.prev.schedule.departure <= MAX_WIN
                    &&& match *self {
                        FeatureConstraintKind::JobTimeLimits(c) => {
                            &&& c.transport.metric.loc_ok(activity_ctx.prev.place.location as int)
                            &&& c.transport.metric.loc_ok(activity_ctx.target.place.location as int)
                        },
                    }
                },
            },
        ensures
            r == match *move_ctx {
                MoveContext::Route { .. } => None::<ConstraintViolation>,
                MoveContext::Activity { route_ctx, activity_ctx, .. } => match *self {
                    FeatureConstraintKind::JobTimeLimits(c) => crate::limits::spec_evaluate_activity(
                        c,
                        route_ctx.route,
                        activity_ctx.index as int,
                        *activity_ctx.prev,
                        *activity_ctx.target,
                        match activity_ctx.next {
                            Some(n) => Some(*n),
                            None => None,
                        },
                    ),
                },
            },
    {
        match self {
            FeatureConstraintKind::JobTimeLimits(c) => c.evaluate(move_ctx),
        }
    }
}

/// The objective capability of a feature.
#[derive(Clone, PartialEq, Eq, Debug)]
pub enum FeatureObjectiveKind {
    NearestDistance(NearestDistanceObjective),
    VehicleDistance(VehicleDistanceObjective),
}

impl FeatureObjectiveKind {
    /// The solution's total under the wrapped objective.
    pub fn fitness(&self, solution: &InsertionContext) -> (r: i64)
        requires
            match *self {
                FeatureObjectiveKind::NearestDistance(o) => {
                    &&& o.transport.wf()
                    &&& routes_ok(o.transport.metric, solution.solution.routes@)
                    &&& solution.solution.routes@.len() <= MAX_ROUTES
                },
                FeatureObjectiveKind::VehicleDistance(o) => {
                    &&& o.transport.wf()
                    &&& routes_ok(o.transport.metric, solution.solution.routes@)
                    &&& fleet_locs_ok(o.transport.metric, o.actors@)
                    &&& solution.solution.routes@.len() <= MAX_ROUTES
                },
            },
        ensures
            r == match *self {
                FeatureObjectiveKind::NearestDistance(o) => match solution.solution.state.nearest_distance_penalty {
                    Some(v) => v as int,
                    None => spec_nearest_routes_sum(
                        o.transport.metric,
                        solution.solution.routes@,
                        solution.solution.routes@.len() as int,
                    ),
                },
                FeatureObjectiveKind::VehicleDistance(o) => match solution.solution.state.vehicle_distance_penalty {
                    Some(v) => v as int,
                    None => spec_vd_routes_sum(
                        o.transport.metric,
                        solution.solution.routes@,
                        o.actors@,
                        o.compatibility_fn,
                        solution.solution.routes@.len() as int,
                    ),
                },
            },
    {
        match self {
            FeatureObjectiveKind::NearestDistance(o) => o.fitness(solution),
            FeatureObjectiveKind::VehicleDistance(o) => o.fitness(solution),
        }
    }

    /// The estimated penalty contribution of a candidate move.
    pub fn estimate(&self, move_ctx: &MoveContext) -> (r: i64)
        requires
            match *self {
                FeatureObjectiveKind::NearestDistance(o) => {
                    &&& o.transport.wf()
                    &&& match *move_ctx {
                        MoveContext::Route { route_ctx, job, .. } => {
                            &&& route_ctx.route.wf()
                            &&& tour_locs_ok(o.transport.metric, route_ctx.route.tour@)
                            &&& job.wf()
                            &&& (job.location is Some ==> o.transport.metric.loc_ok(job.location->0 as int))
                        },
                        MoveContext::Activity { .. } => true,
                    }
                },
                FeatureObjectiveKind::VehicleDistance(o) => {
                    &&& o.transport.wf()
                    &&& fleet_locs_ok(o.transport.metric, o.actors@)
                    &&& match *move_ctx {
                        MoveContext::Route { route_ctx, job, .. } => {
                            &&& route_ctx.route.wf()
                            &&& (job.location is Some ==> o.transport.metric.loc_ok(job.location->0 as int))
                            &&& (route_ctx.route.actor.detail.start is Some
                                ==> o.transport.metric.loc_ok(
                                    route_ctx.route.actor.detail.start->0.location as int,
                                ))
                        },
                        MoveContext::Activity { .. } => true,
                    }
                },
            },
        ensures
            r == match *self {
                FeatureObjectiveKind::NearestDistance(o) => match *move_ctx {
                    MoveContext::Route { route_ctx, job, .. } => spec_nearest_estimate(
                        o.transport.metric,
                        route_ctx.route,
                        *job,
                    ),
                    MoveContext::Activity { .. } => 0,
                },
                FeatureObjectiveKind::VehicleDistance(o) => match *move_ctx {
                    MoveContext::Route { route_ctx, job, .. } => spec_vd_estimate(
                        o.transport.metric,
                        route_ctx.route,
                        o.actors@,
                        o.compatibility_fn,
                        *job,
                    ),
                    MoveContext::Activity { .. } => 0,
                },
            },
    {
        match self {
            FeatureObjectiveKind::NearestDistance(o) => o.estimate(move_ctx),
            FeatureObjectiveKind::VehicleDistance(o) => o.estimate(move_ctx),
        }
    }
}

/// The state capability of a feature.
#[derive(Clone, PartialEq, Eq, Debug)]
pub enum FeatureStateKind {
    NearestDistance(NearestDistanceState),
    VehicleDistance(VehicleDistanceState),
}

/// A feature: a named record of optional constraint, objective and state
/// capabilities; components dispatch by presence.
#[derive(Clone, PartialEq, Eq, Debug)]
pub struct Feature {
    pub name: String,
    pub constraint: Option<FeatureConstraintKind>,
    pub objective: Option<FeatureObjectiveKind>,
    pub state: Option<FeatureStateKind>,
}

/// Provides a way to build a feature to minimise nearest distance violations.
pub struct NearestDistanceFeatureBuilder {
    pub name: String,
    pub transport: Option<TransportModel>,
    pub job_target_fn: Option<JobTargetFn>,
}

impl NearestDistanceFeatureBuilder {
    /// Creates a new builder under the given feature name.
    pub fn new(name: &str) -> (r: NearestDistanceFeatureBuilder)
        ensures
            r.name@ == name@,
            r.transport is None,
            r.job_target_fn is None,
    {
        NearestDistanceFeatureBuilder { name: name.to_owned(), transport: None, job_target_fn: None }
    }

    /// Sets the transport cost model.
    pub fn set_transport(self, transport: TransportModel) -> (r: NearestDistanceFeatureBuilder)
        ensures
            r.name == self.name,
            r.transport == Some(transport),
            r.job_target_fn == self.job_target_fn,
    {
        NearestDistanceFeatureBuilder { transport: Some(transport), ..self }
    }

    /// Sets how the threshold is read from a job.
    pub fn set_job_target_fn(self, func: JobTargetFn) -> (r: NearestDistanceFeatureBuilder)
        ensures
            r.name == self.name,
            r.transport == self.transport,
            r.job_target_fn == Some(func),
    {
        NearestDistanceFeatureBuilder { job_target_fn: Some(func), ..self }
    }

    /// Builds the feature; fails when a required collaborator is missing.
    pub fn build(self) -> (r: Result<Feature, GenericError>)
        ensures
            self.transport is Some && self.job_target_fn is Some ==> r is Ok && {
                let f = r->Ok_0;
                &&& f.name == self.name
                &&& f.constraint is None
                &&& f.objective == (Some(FeatureObjectiveKind::NearestDistance(NearestDistanceObjective {
                    transport: self.transport->0,
                    job_target_fn: self.job_target_fn->0,
                })))
                &&& (match f.state {
                    Some(FeatureStateKind::NearestDistance(st)) => st.job_target_fn == self.job_target_fn->0,
                    _ => false,
                })
            },
            self.transport is None || self.job_target_fn is None ==> r is Err,
            self.transport is None ==> r is Err
                && r->Err_0.msg@ == "transport must be set for nearest_distance feature"@,
            self.transport is Some && self.job_target_fn is None ==> r is Err
                && r->Err_0.msg@ == "job_target_fn must be set for nearest_distance feature"@,
    {
        let transport = match self.transport {
            Some(t) => t,
            None => {
                return Err(GenericError::new("transport must be set for nearest_distance feature"));
            },
        };
        let job_target_fn = match self.job_target_fn {
            Some(f) => f,
            None => {
                return Err(GenericError::new("job_target_fn must be set for nearest_distance feature"));
            },
        };
        let state = NearestDistanceState { transport: transport.clone(), job_target_fn };
        let objective = NearestDistanceObjective { transport, job_target_fn };
        Ok(Feature {
            name: self.name,
            constraint: None,
            objective: Some(FeatureObjectiveKind::NearestDistance(objective)),
            state: Some(FeatureStateKind::NearestDistance(state)),
        })
    }
}

/// Provides a way to build a feature to minimise vehicle distance penalties.
pub struct VehicleDistanceFeatureBuilder {
    pub name: String,
    pub transport: Option<TransportModel>,
    pub actors: Option<Vec<Actor>>,
    pub compatibility_fn: Option<ActorJobCompatibilityFn>,
}

impl VehicleDistanceFeatureBuilder {
    /// Creates a new builder under the given feature name.
    pub fn new(name: &str) -> (r: VehicleDistanceFeatureBuilder)
        ensures
            r.name@ == name@,
            r.transport is None,
            r.actors is None,
            r.compatibility_fn is None,
    {
        VehicleDistanceFeatureBuilder {
            name: name.to_owned(),
            transport: None,
            actors: None,
            compatibility_fn: None,
        }
    }

    /// Sets the transport cost model.
    pub fn set_transport(self, transport: TransportModel) -> (r: VehicleDistanceFeatureBuilder)
        ensures
            r.name == self.name,
            r.transport == Some(transport),
            r.actors == self.actors,
            r.compatibility_fn == self.compatibility_fn,
    {
        VehicleDistanceFeatureBuilder { transport: Some(transport), ..self }
    }

    /// Sets the fleet actors considered when finding the nearest compatible
    /// vehicle.
    pub fn set_actors(self, actors: Vec<Actor>) -> (r: VehicleDistanceFeatureBuilder)
        ensures
            r.name == self.name,
            r.transport == self.transport,
            r.actors == Some(actors),
            r.compatibility_fn == self.compatibility_fn,
    {
        VehicleDistanceFeatureBuilder { actors: Some(actors), ..self }
    }

    /// Sets the rule deciding whether an actor can serve a job.
    pub fn set_compatibility_fn(self, func: ActorJobCompatibilityFn) -> (r: VehicleDistanceFeatureBuilder)
        ensures
            r.name == self.name,
            r.transport == self.transport,
            r.actors == self.actors,
            r.compatibility_fn == Some(func),
    {
        VehicleDistanceFeatureBuilder { compatibility_fn: Some(func), ..self }
    }

    /// Builds the feature; fails when a required collaborator is missing.
    pub fn build(self) -> (r: Result<Feature, GenericError>)
        ensures
            self.transport is Some && self.actors is Some && self.compatibility_fn is Some
                ==> r is Ok && {
                    let f = r->Ok_0;
                    &&& f.name == self.name
                    &&& f.constraint is None
                    &&& f.objective == (Some(FeatureObjectiveKind::VehicleDistance(VehicleDistanceObjective {
                        transport: self.transport->0,
                        actors: self.actors->0,
                        compatibility_fn: self.compatibility_fn->0,
                    })))
                    &&& f.state is Some
                },
            self.transport is None || self.actors is None || self.compatibility_fn is None
                ==> r is Err,
            self.transport is None ==> r is Err
                && r->Err_0.msg@ == "transport must be set for vehicle_distance feature"@,
            self.transport is Some && self.actors is None ==> r is Err
                && r->Err_0.msg@ == "actors must be set for vehicle_distance feature"@,
            self.transport is Some && self.actors is Some && self.compatibility_fn is None
                ==> r is Err
                && r->Err_0.msg@ == "compatibility_fn must be set for vehicle_distance feature"@,
    {
        let transport = match self.transport {
            Some(t) => t,
            None => {
                return Err(GenericError::new("transport must be set for vehicle_distance feature"));
            },
        };
        let actors = match self.actors {
            Some(a) => a,
            None => {
                return Err(GenericError::new("actors must be set for vehicle_distance feature"));
            },
        };
        let compatibility_fn = match self.compatibility_fn {
            Some(c) => c,
            None => {
                return Err(GenericError::new("compatibility_fn must be set for vehicle_distance feature"));
            },
        };
        let state = VehicleDistanceState {
            transport: transport.clone(),
            actors: actors.clone(),
            compatibility_fn,
        };
        let objective = VehicleDistanceObjective { transport, actors, compatibility_fn };
        Ok(Feature {
            name: self.name,
            constraint: None,
            objective: Some(FeatureObjectiveKind::VehicleDistance(objective)),
            state: Some(FeatureStateKind::VehicleDistance(state)),
        })
    }
}

} // verus!
