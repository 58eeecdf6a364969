//! The route data model: places, activities, actors, routes and the keyed
//! per-route state recomputed after every schedule update.

use vstd::prelude::*;
use crate::times::{TimeWindow, TimeSpan, Schedule, MAX_TIME, time_bounded};


verus! {

/// Upper bound on the number of activities in a tour (and stops in an output
/// tour). Machine limit: keeps every accumulated sum inside `i64`.
pub const MAX_ACTIVITIES: usize = 1_000;

/// Upper bound on the number of reserved time spans of one actor.
pub const MAX_RESERVED: usize = 8;

/// Upper bound on a cost rate (cost per unit of service time).
pub const MAX_RATE: i64 = 1_000;

/// Upper bound on a start departure handed to the scheduling passes. Machine
/// limit: leaves room for the forward pass to grow schedules within
/// `MAX_SCHED`.
pub const MAX_DEP: i64 = 100_000_000_000_000;

/// A location: an index into the transport model's location set, or a point
/// on a line, depending on the travel metric.
pub type Location = usize;

/// The place an activity is served at: a location, a service duration, the
/// resolved time window, and the candidate spans the window was derived from.
#[derive(Clone, PartialEq, Eq, Debug)]
pub struct Place {
    pub location: Location,
    pub duration: i64,
    /// The currently materialised window. Rewritten by the window rebinder
    /// when the route's anchor moves.
    pub time: TimeWindow,
    /// The candidate spans of the place definition; empty for depot places.
    pub times: Vec<TimeSpan>,
}

impl Place {
    pub open spec fn wf(self) -> bool {
        &&& 0 <= self.duration <= MAX_TIME
        &&& self.time.wf()
        &&& self.time.win_ok()
        &&& self.times.len() <= MAX_RESERVED
        &&& forall|i: int| 0 <= i < self.times@.len() ==> self.times@[i].wf()
    }
}

/// What the library needs to know of the job an activity serves.
#[derive(Clone, PartialEq, Eq, Debug)]
pub struct JobInfo {
    /// Threshold for the nearest-distance objective, when the job carries one.
    pub target_nearest_distance: Option<i64>,
    /// The skills the job requires of an actor.
    pub skills: Vec<u64>,
}

/// One activity of a tour. Depot activities carry no job.
#[derive(Clone, PartialEq, Eq, Debug)]
pub struct Activity {
    pub place: Place,
    pub schedule: Schedule,
    pub job: Option<JobInfo>,
}

impl Activity {
    pub open spec fn wf(self) -> bool {
        &&& self.place.wf()
        &&& self.schedule.sched_ok()
        &&& match self.job {
            Some(j) => match j.target_nearest_distance {
                Some(d) => time_bounded(d as int),
                None => true,
            },
            None => true,
        }
    }

    pub open spec fn has_job(self) -> bool {
        self.job is Some
    }
}

/// A depot place of the actor's shift: a location with an optional earliest
/// and latest time.
#[derive(Clone, Copy, PartialEq, Eq, Structural, Debug)]
pub struct VehiclePlace {
    pub location: Location,
    pub earliest: Option<i64>,
    pub latest: Option<i64>,
}

impl VehiclePlace {
    pub open spec fn wf(self) -> bool {
        &&& (self.earliest is Some ==> time_bounded(self.earliest->0 as int))
        &&& (self.latest is Some ==> time_bounded(self.latest->0 as int))
    }
}

/// The portion of a route whose duration and distance count toward its cost.
#[derive(Clone, Copy, PartialEq, Eq, Structural, Debug)]
pub enum RouteCostSpan {
    DepotToDepot,
    DepotToLastJob,
    FirstJobToDepot,
    FirstJobToLastJob,
}

impl RouteCostSpan {
    /// The anchor of this span is the first job's arrival rather than the
    /// start departure.
    pub open spec fn anchors_on_first_job(self) -> bool {
        matches!(self, RouteCostSpan::FirstJobToDepot | RouteCostSpan::FirstJobToLastJob)
    }
}

/// Per-shift job time limits: the earliest time the first job may start and
/// the latest time the last job may be departed from.
#[derive(Clone, Copy, PartialEq, Eq, Structural, Debug)]
pub struct JobTimeConstraints {
    pub earliest_first: Option<i64>,
    pub latest_last: Option<i64>,
}

impl JobTimeConstraints {
    pub open spec fn wf(self) -> bool {
        &&& (self.earliest_first is Some ==> time_bounded(self.earliest_first->0 as int))
        &&& (self.latest_last is Some ==> time_bounded(self.latest_last->0 as int))
    }
}

/// Shift detail of an actor: optional start and end depots and an optional
/// hard end time of the shift.
#[derive(Clone, Copy, PartialEq, Eq, Structural, Debug)]
pub struct ActorDetail {
    pub start: Option<VehiclePlace>,
    pub end: Option<VehiclePlace>,
    /// Hard end time of the shift; `None` means unbounded.
    pub time_end: Option<i64>,
}

impl ActorDetail {
    pub open spec fn wf(self) -> bool {
        &&& (self.start is Some ==> self.start->0.wf())
        &&& (self.end is Some ==> self.end->0.wf())
        &&& (self.time_end is Some ==> time_bounded(self.time_end->0 as int))
    }
}

/// The actor serving a route: its shift detail, cost span, job time limits,
/// service cost rate and skills.
#[derive(Clone, PartialEq, Eq, Debug)]
pub struct Actor {
    pub detail: ActorDetail,
    /// Cost span; `None` falls back to the default `DepotToDepot`.
    pub cost_span: Option<RouteCostSpan>,
    pub job_time_constraints: Option<JobTimeConstraints>,
    /// Cost charged per unit of service time.
    pub per_service_time_cost: i64,
    pub skills: Vec<u64>,
}

impl Actor {
    pub open spec fn wf(self) -> bool {
        &&& self.detail.wf()
        &&& (self.job_time_constraints is Some ==> self.job_time_constraints->0.wf())
        &&& 0 <= self.per_service_time_cost <= MAX_RATE
    }

    /// The effective cost span, defaulting to depot-to-depot.
    pub open spec fn spec_cost_span(self) -> RouteCostSpan {
        match self.cost_span {
            Some(s) => s,
            None => RouteCostSpan::DepotToDepot,
        }
    }

    pub fn effective_cost_span(&self) -> (r: RouteCostSpan)
        ensures
            r == self.spec_cost_span(),
    {
        match self.cost_span {
            Some(s) => s,
            None => RouteCostSpan::DepotToDepot,
        }
    }
}

/// A route: an actor and the ordered tour it serves. `tour[0]` is the start
/// activity; a trailing jobless activity, when present, is the end depot.
#[derive(Clone, PartialEq, Eq, Debug)]
pub struct Route {
    pub actor: Actor,
    pub tour: Vec<Activity>,
}

impl Route {
    /// Well-formed route: a start activity exists, the tour is bounded, every
    /// activity is well-formed, and the start departure leaves the forward
    /// pass room to grow inside the schedule bound.
    pub open spec fn wf(self) -> bool {
        &&& self.actor.wf()
        &&& 1 <= self.tour.len() <= MAX_ACTIVITIES
        &&& forall|i: int| 0 <= i < self.tour@.len() ==> (#[trigger] self.tour@[i]).wf()
        &&& !self.tour@[0].has_job()
        &&& self.tour@[0].place.time.bounded()
        &&& -MAX_TIME <= self.tour@[0].schedule.departure <= MAX_DEP
    }

    pub open spec fn spec_start(self) -> Activity
        recommends self.tour.len() >= 1,
    {
        self.tour@[0]
    }

    pub open spec fn spec_end(self) -> Activity
        recommends self.tour.len() >= 1,
    {
        self.tour@[self.tour@.len() - 1]
    }

    /// The tour ends with a jobless end depot.
    pub open spec fn spec_has_end_depot(self) -> bool {
        self.tour.len() >= 2 && !self.spec_end().has_job()
    }

    pub fn total(&self) -> (r: usize)
        ensures
            r == self.tour@.len(),
    {
        self.tour.len()
    }
}

/// Keyed per-route state: per-activity latest arrivals and future waiting
/// times, and route totals. Vector lengths track the job-carrying prefix of
/// the tour after every update.
#[derive(Clone, PartialEq, Eq, Debug)]
pub struct RouteState {
    pub latest_arrivals: Vec<i64>,
    pub waiting_times: Vec<i64>,
    pub total_distance: Option<i64>,
    pub total_duration: Option<i64>,
    pub limit_duration: Option<i64>,
    /// Cached penalty of the nearest-distance objective.
    pub nearest_distance_data: Option<i64>,
    /// Cached penalty of the vehicle-distance objective.
    pub vehicle_distance_data: Option<i64>,
}

impl RouteState {
    pub fn empty() -> (r: RouteState)
        ensures
            r.latest_arrivals@.len() == 0,
            r.waiting_times@.len() == 0,
            r.total_distance is None,
            r.total_duration is None,
            r.limit_duration is None,
            r.nearest_distance_data is None,
            r.vehicle_distance_data is None,
    {
        RouteState {
            latest_arrivals: Vec::new(),
            waiting_times: Vec::new(),
            total_distance: None,
            total_duration: None,
            limit_duration: None,
            nearest_distance_data: None,
            vehicle_distance_data: None,
        }
    }

    /// The latest arrival recorded for the activity at `idx`, if any.
    pub fn get_latest_arrival_at(&self, idx: usize) -> (r: Option<i64>)
        ensures
            r == (if idx < self.latest_arrivals@.len() {
                Some(self.latest_arrivals@[idx as int])
            } else {
                None::<i64>
            }),
    {
        if idx < self.latest_arrivals.len() {
            Some(self.latest_arrivals[idx])
        } else {
            None
        }
    }
}

/// A route together with its derived state and a staleness mark for the
/// feature caches.
#[derive(Clone, PartialEq, Eq, Debug)]
pub struct RouteContext {
    pub route: Route,
    pub state: RouteState,
    pub stale: bool,
}

impl RouteContext {
    pub fn new(route: Route) -> (r: RouteContext)
        ensures
            r.route == route,
            r.stale,
    {
        RouteContext { route, state: RouteState::empty(), stale: true }
    }

    pub fn route(&self) -> (r: &Route)
        ensures
            r == self.route,
    {
        &self.route
    }

    pub fn state(&self) -> (r: &RouteState)
        ensures
            r == self.state,
    {
        &self.state
    }

    pub fn is_stale(&self) -> (r: bool)
        ensures
            r == self.stale,
    {
        self.stale
    }

    pub fn mark_stale(&mut self, stale: bool)
        ensures
            final(self).route == old(self).route,
            final(self).state == old(self).state,
            final(self).stale == stale,
    {
        self.stale = stale;
    }
}

} // verus!
