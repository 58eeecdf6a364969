//! Time primitives: windows, spans (absolute or offset-anchored), reserved
//! time descriptors and activity schedules.

use vstd::prelude::*;

verus! {

/// Upper bound on the magnitude of every timestamp, duration, distance,
/// offset and matrix entry handed to the library. Keeps all derived sums
/// comfortably inside `i64`.
pub const MAX_TIME: i64 = 1_000_000_000;

/// Upper bound on the magnitude of a derived schedule value (an arrival or a
/// departure produced by the forward pass, or a departure candidate).
pub const MAX_SCHED: i64 = 1_000_000_000_000_000;

/// Upper bound on the magnitude of a resolved time window endpoint: input
/// windows are bounded by `MAX_TIME`, and windows rebound against an anchor
/// stay within this bound.
pub const MAX_WIN: i64 = 300_000_000_000_000;

/// True when `x` is an admissible input time value.
pub open spec fn time_bounded(x: int) -> bool {
    -MAX_TIME <= x <= MAX_TIME
}

/// True when `x` is an admissible derived schedule value.
pub open spec fn sched_bounded(x: int) -> bool {
    -MAX_SCHED <= x <= MAX_SCHED
}

/// A closed time interval `[start, end]` with `start <= end`.
#[derive(Clone, Copy, PartialEq, Eq, Structural, Debug)]
pub struct TimeWindow {
    pub start: i64,
    pub end: i64,
}

impl TimeWindow {
    /// Well-formed: ordered endpoints.
    pub open spec fn wf(self) -> bool {
        self.start <= self.end
    }

    /// Both endpoints are admissible input values.
    pub open spec fn bounded(self) -> bool {
        time_bounded(self.start as int) && time_bounded(self.end as int)
    }

    /// Both endpoints are admissible derived schedule values.
    pub open spec fn sched_ok(self) -> bool {
        sched_bounded(self.start as int) && sched_bounded(self.end as int)
    }

    /// Both endpoints are admissible resolved window values.
    pub open spec fn win_ok(self) -> bool {
        -MAX_WIN <= self.start && self.end <= MAX_WIN
    }

    pub fn new(start: i64, end: i64) -> (r: TimeWindow)
        ensures
            r.start == start,
            r.end == end,
    {
        TimeWindow { start, end }
    }

    /// Inclusive intersection: the closed intervals share at least a point.
    pub open spec fn spec_intersects(self, other: TimeWindow) -> bool {
        self.start <= other.end && other.start <= self.end
    }

    pub fn intersects(&self, other: &TimeWindow) -> (r: bool)
        ensures
            r == self.spec_intersects(*other),
    {
        self.start <= other.end && other.start <= self.end
    }

    /// Exclusive intersection: the open interiors overlap.
    pub open spec fn spec_intersects_exclusive(self, other: TimeWindow) -> bool {
        self.start < other.end && other.start < self.end
    }

    pub fn intersects_exclusive(&self, other: &TimeWindow) -> (r: bool)
        ensures
            r == self.spec_intersects_exclusive(*other),
    {
        self.start < other.end && other.start < self.end
    }

    /// Length of the interval.
    pub open spec fn spec_duration(self) -> int {
        self.end - self.start
    }

    pub fn duration(&self) -> (r: i64)
        requires
            self.sched_ok(),
        ensures
            r == self.spec_duration(),
    {
        self.end - self.start
    }

    /// The overlap of two windows, when they intersect inclusively.
    pub open spec fn spec_overlapping(self, other: TimeWindow) -> Option<TimeWindow> {
        if self.spec_intersects(other) {
            Some(TimeWindow {
                start: if self.start >= other.start { self.start } else { other.start },
                end: if self.end <= other.end { self.end } else { other.end },
            })
        } else {
            None
        }
    }

    pub fn overlapping(&self, other: &TimeWindow) -> (r: Option<TimeWindow>)
        ensures
            r == self.spec_overlapping(*other),
    {
        if self.intersects(other) {
            let start = if self.start >= other.start { self.start } else { other.start };
            let end = if self.end <= other.end { self.end } else { other.end };
            Some(TimeWindow { start, end })
        } else {
            None
        }
    }
}

/// A time span of a place: either an absolute window, stable under departure
/// changes, or a pair of offsets from the route's anchor timestamp.
#[derive(Clone, Copy, PartialEq, Eq, Structural, Debug)]
pub enum TimeSpan {
    /// An absolute window `[start, end]`.
    Window(TimeWindow),
    /// Offsets `[offset_start, offset_end]` from the anchor; materialised as
    /// `[anchor + offset_start, anchor + offset_end]`.
    Offset(TimeWindow),
}

impl TimeSpan {
    pub open spec fn wf(self) -> bool {
        match self {
            TimeSpan::Window(w) => w.wf() && w.bounded(),
            TimeSpan::Offset(o) => o.wf() && o.bounded(),
        }
    }

    pub open spec fn is_offset(self) -> bool {
        matches!(self, TimeSpan::Offset(_))
    }

    /// The window this span denotes under the given anchor, as a pair of
    /// mathematical endpoints.
    pub open spec fn spec_to_time_window(self, anchor: int) -> (int, int) {
        match self {
            TimeSpan::Window(w) => (w.start as int, w.end as int),
            TimeSpan::Offset(o) => (anchor + o.start, anchor + o.end),
        }
    }

    /// Materialises the span against an anchor timestamp.
    pub fn to_time_window(&self, anchor: i64) -> (r: TimeWindow)
        requires
            self.wf(),
            sched_bounded(anchor as int),
        ensures
            r.start == self.spec_to_time_window(anchor as int).0,
            r.end == self.spec_to_time_window(anchor as int).1,
    {
        match self {
            TimeSpan::Window(w) => *w,
            TimeSpan::Offset(o) => TimeWindow { start: anchor + o.start, end: anchor + o.end },
        }
    }
}

/// A reserved interval during which the actor performs a non-job obligation
/// (a driver rest). The span gives the flexible range of the obligation; the
/// obligation itself takes place during
/// `[resolved.end, resolved.end + duration)`, the latest admissible slot.
#[derive(Clone, Copy, PartialEq, Eq, Structural, Debug)]
pub struct ReservedTimeSpan {
    pub time: TimeSpan,
    pub duration: i64,
}

impl ReservedTimeSpan {
    pub open spec fn wf(self) -> bool {
        self.time.wf() && 0 <= self.duration <= MAX_TIME
    }

    /// The half-open interval occupied by the obligation under `anchor`,
    /// as mathematical endpoints.
    pub open spec fn spec_occupied(self, anchor: int) -> (int, int) {
        let e = self.time.spec_to_time_window(anchor).1;
        (e, e + self.duration)
    }

    /// Resolves the flexible range against an anchor.
    pub fn to_reserved_time_window(&self, anchor: i64) -> (r: ReservedTimeWindow)
        requires
            self.wf(),
            sched_bounded(anchor as int),
        ensures
            r.time.start == self.time.spec_to_time_window(anchor as int).0,
            r.time.end == self.time.spec_to_time_window(anchor as int).1,
            r.duration == self.duration,
    {
        ReservedTimeWindow { time: self.time.to_time_window(anchor), duration: self.duration }
    }
}

/// A reserved time span resolved against a concrete anchor.
#[derive(Clone, Copy, PartialEq, Eq, Structural, Debug)]
pub struct ReservedTimeWindow {
    pub time: TimeWindow,
    pub duration: i64,
}

/// An activity schedule: when the actor arrives and when it leaves.
#[derive(Clone, Copy, PartialEq, Eq, Structural, Debug)]
pub struct Schedule {
    pub arrival: i64,
    pub departure: i64,
}

impl Schedule {
    pub fn new(arrival: i64, departure: i64) -> (r: Schedule)
        ensures
            r.arrival == arrival,
            r.departure == departure,
    {
        Schedule { arrival, departure }
    }

    pub open spec fn sched_ok(self) -> bool {
        sched_bounded(self.arrival as int) && sched_bounded(self.departure as int)
    }
}

} // verus!
