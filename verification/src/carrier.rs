//! Carrier motion engine. Each carrier owns a commute timer, a wait
//! timer and a commute state; once per fixed tick it either advances
//! along its current track's path or dwells at its current stop, and
//! when a wait elapses it boards the earliest track departing from that
//! stop. A handle that no longer resolves is a recoverable fault: the
//! carrier is skipped for the tick, never moved blindly.

use vstd::prelude::*;

verus! {

use crate::geometry::{Point, in_world, lerp_point, spec_lerp_point};
use crate::stops::{StopId, StopRegistry};
use crate::track::{TrackId, TrackRegistry, wf_path};
use vstd::arithmetic::div_mod::{
    lemma_div_pos_is_pos,
    lemma_mod_division_less_than_divisor,
    lemma_multiply_divide_lt,
    lemma_small_mod,
};
use vstd::arithmetic::mul::{lemma_mul_inequality, lemma_mul_nonnegative, lemma_mul_upper_bound};

/// A repeating countdown timer with millisecond resolution. When a tick
/// carries it past its period it reports completion and wraps, keeping
/// the overshoot as the start of the next period.
#[derive(Clone, Copy, Debug, PartialEq, Eq, Structural)]
pub struct RepeatTimer {
    pub elapsed_ms: u64,
    pub duration_ms: u64,
}

impl RepeatTimer {
    /// Timer invariant: a positive period, with the elapsed time
    /// strictly inside it.
    pub open spec fn wf(&self) -> bool {
        1 <= self.duration_ms && self.elapsed_ms < self.duration_ms
    }

    /// Creates a timer with the given period, starting at zero.
    pub fn new(duration_ms: u64) -> (t: RepeatTimer)
        requires
            1 <= duration_ms,
        ensures
            t.wf(),
            t.duration_ms == duration_ms,
            t.elapsed_ms == 0,
    {
        RepeatTimer { elapsed_ms: 0, duration_ms }
    }

    /// Restarts the current period.
    pub fn reset(&mut self)
        ensures
            final(self).elapsed_ms == 0,
            final(self).duration_ms == old(self).duration_ms,
    {
        self.elapsed_ms = 0;
    }

    /// Advances the timer by `delta_ms`, reporting whether the period
    /// completed during this tick.
    pub fn tick(&mut self, delta_ms: u64) -> (finished: bool)
        requires
            old(self).wf(),
        ensures
            final(self).wf(),
            final(self).duration_ms == old(self).duration_ms,
            finished == (old(self).elapsed_ms + delta_ms >= old(self).duration_ms),
            final(self).elapsed_ms == (old(self).elapsed_ms + delta_ms) % (
            old(self).duration_ms as int),
    {
        let total: u128 = self.elapsed_ms as u128 + delta_ms as u128;
        let dur: u128 = self.duration_ms as u128;
        let finished: bool = total >= dur;
        let rem: u128 = total % dur;
        proof {
            lemma_mod_division_less_than_divisor(total as int, dur as int);
        }
        self.elapsed_ms = rem as u64;
        finished
    }
}

/// A carrier's mode: traversing a specific track, or dwelling at a
/// specific stop.
#[derive(Clone, Copy, Debug, PartialEq, Eq, Structural)]
pub enum CommuteState {
    Commuting(TrackId),
    Waiting(StopId),
}

/// What one fixed tick did to a carrier.
#[derive(Clone, Copy, Debug, PartialEq, Eq, Structural)]
pub enum TickOutcome {
    /// Still commuting: the position advanced along the track's path.
    Moving,
    /// The commute timer completed: the carrier snapped to the path's
    /// end and now waits at the destination stop.
    Arrived,
    /// Still dwelling at a stop.
    Dwelling,
    /// The wait elapsed and a departing track was found: now commuting.
    Departed,
    /// The wait elapsed but no track departs from this stop: the
    /// carrier stays parked and retries after the next wait period.
    Parked,
    /// The referenced track no longer resolves; the carrier was
    /// skipped for this tick.
    DanglingTrack,
    /// The referenced stop no longer resolves; the carrier was skipped
    /// for this tick (its wait timer had already advanced).
    DanglingStop,
}

/// Index of the path leg a commute at `elapsed` out of `duration` is
/// on, treating the path as `path_len - 1` equal-duration legs.
pub open spec fn spec_segment_index(path_len: int, elapsed: int, duration: int) -> int {
    elapsed * (path_len - 1) / duration
}

/// Progress numerator within that leg, over denominator `duration`.
pub open spec fn spec_segment_numer(path_len: int, elapsed: int, duration: int) -> int {
    elapsed * (path_len - 1) % duration
}

/// The interpolated position of a commute at `elapsed` out of
/// `duration` along `path`.
pub open spec fn spec_commute_position(path: Seq<Point>, elapsed: int, duration: int) -> Point {
    let i = spec_segment_index(path.len() as int, elapsed, duration);
    let num = spec_segment_numer(path.len() as int, elapsed, duration);
    spec_lerp_point(path[i], path[i + 1], num, duration)
}

/// The direction a carrier faces on leg `i` of `path`: the leg's
/// displacement vector.
pub open spec fn spec_segment_heading(path: Seq<Point>, i: int) -> Point {
    Point { x: (path[i + 1].x - path[i].x) as i64, y: (path[i + 1].y - path[i].y) as i64 }
}

/// While a commute is underway (`0 <= elapsed < duration`), the leg
/// index addresses a real leg and the in-leg fraction is proper.
pub proof fn lemma_segment_bounds(path_len: int, elapsed: int, duration: int)
    requires
        2 <= path_len,
        1 <= duration,
        0 <= elapsed < duration,
    ensures
        0 <= spec_segment_index(path_len, elapsed, duration) <= path_len - 2,
        0 <= spec_segment_numer(path_len, elapsed, duration) < duration,
{
    let nseg = path_len - 1;
    lemma_mul_nonnegative(elapsed, nseg);
    lemma_div_pos_is_pos(elapsed * nseg, duration);
    lemma_mod_division_less_than_divisor(elapsed * nseg, duration);
    lemma_mul_inequality(elapsed, duration - 1, nseg);
    assert((duration - 1) * nseg < duration * nseg) by (nonlinear_arith)
        requires 1 <= duration, 1 <= nseg;
    lemma_multiply_divide_lt(elapsed * nseg, duration, nseg);
}

/// While commuting with `total_progress` in `[0, 1)` -- that is,
/// `elapsed` still short of `duration` -- the carrier's position is a
/// convex combination of two consecutive path waypoints: on each axis
/// it lies between them, and it never extrapolates beyond the path.
pub proof fn lemma_commute_position_between_waypoints(
    path: Seq<Point>,
    elapsed: int,
    duration: int,
)
    requires
        wf_path(path),
        1 <= duration,
        0 <= elapsed < duration,
    ensures
        ({
            let i = spec_segment_index(path.len() as int, elapsed, duration);
            let p = spec_commute_position(path, elapsed, duration);
            &&& 0 <= i < path.len() - 1
            &&& (path[i].x <= path[i + 1].x ==> path[i].x <= p.x <= path[i + 1].x)
            &&& (path[i + 1].x <= path[i].x ==> path[i + 1].x <= p.x <= path[i].x)
            &&& (path[i].y <= path[i + 1].y ==> path[i].y <= p.y <= path[i + 1].y)
            &&& (path[i + 1].y <= path[i].y ==> path[i + 1].y <= p.y <= path[i].y)
            &&& in_world(p)
        }),
{
    lemma_segment_bounds(path.len() as int, elapsed, duration);
    let i = spec_segment_index(path.len() as int, elapsed, duration);
    let num = spec_segment_numer(path.len() as int, elapsed, duration);
    crate::geometry::lemma_lerp_point_between(path[i], path[i + 1], num, duration);
}

/// A moving entity that commutes along tracks between stops.
#[derive(Clone, Copy, Debug, PartialEq, Eq, Structural)]
pub struct Carrier {
    pub commute_timer: RepeatTimer,
    pub wait_timer: RepeatTimer,
    pub state: CommuteState,
    pub position: Point,
    pub heading: Point,
}

impl Carrier {
    /// Carrier invariant: both timers well formed, the position inside
    /// the world.
    pub open spec fn wf(&self) -> bool {
        &&& self.commute_timer.wf()
        &&& self.wait_timer.wf()
        &&& in_world(self.position)
    }

    /// While waiting at a still-spawned stop, the carrier is parked
    /// exactly at that stop's position.
    pub open spec fn parked_at_stop(&self, stops: &StopRegistry) -> bool {
        self.state matches CommuteState::Waiting(sid) ==> (stops.valid(sid)
            ==> self.position == stops.pos_of(sid))
    }

    /// Spawns a carrier waiting at `stop`, parked at its position, with
    /// the given commute and wait periods. `None` exactly when the stop
    /// no longer resolves.
    pub fn spawn_at(stops: &StopRegistry, stop: StopId, commute_ms: u64, wait_ms: u64) -> (r:
        Option<Carrier>)
        requires
            stops.wf(),
            1 <= commute_ms,
            1 <= wait_ms,
        ensures
            r is Some <==> stops.valid(stop),
            r matches Some(c) ==> {
                &&& c.wf()
                &&& c.state == CommuteState::Waiting(stop)
                &&& c.position == stops.pos_of(stop)
                &&& c.parked_at_stop(stops)
                &&& c.commute_timer == RepeatTimer { elapsed_ms: 0, duration_ms: commute_ms }
                &&& c.wait_timer == RepeatTimer { elapsed_ms: 0, duration_ms: wait_ms }
                &&& c.heading == (Point { x: 1i64, y: 0i64 })
            },
    {
        match stops.lookup(stop) {
            None => None,
            Some(pos) => Some(
                Carrier {
                    commute_timer: RepeatTimer::new(commute_ms),
                    wait_timer: RepeatTimer::new(wait_ms),
                    state: CommuteState::Waiting(stop),
                    position: pos,
                    heading: Point { x: 1, y: 0 },
                },
            ),
        }
    }

    /// Advances the carrier by one fixed tick of `delta_ms`.
    ///
    /// Commuting: a dangling track handle skips the carrier unchanged.
    /// Otherwise the commute timer advances; if it completes, the
    /// carrier snaps exactly to the path's last waypoint and waits at
    /// the track's destination with a fresh wait period; if not, the
    /// carrier's position is the interpolation of the elapsed fraction
    /// along the path and it faces along the current leg.
    ///
    /// Waiting: the wait timer advances; until it completes nothing
    /// else changes. When it completes, a dangling stop handle skips
    /// the carrier for this tick; otherwise the carrier boards the
    /// earliest track departing from its stop, with a fresh commute
    /// period, or stays parked in place when there is none.
    pub fn tick(&mut self, delta_ms: u64, tracks: &TrackRegistry, stops: &StopRegistry) -> (r:
        TickOutcome)
        requires
            old(self).wf(),
            stops.wf(),
            tracks.wf(stops),
        ensures
            final(self).wf(),
            final(self).commute_timer.duration_ms == old(self).commute_timer.duration_ms,
            final(self).wait_timer.duration_ms == old(self).wait_timer.duration_ms,
            old(self).parked_at_stop(stops) ==> final(self).parked_at_stop(stops),
            match old(self).state {
                CommuteState::Commuting(tid) => if !tracks.spec_valid(tid) {
                    &&& r == TickOutcome::DanglingTrack
                    &&& *final(self) == *old(self)
                } else {
                    let t = tracks.spec_at(tid);
                    let timer = old(self).commute_timer;
                    if timer.elapsed_ms + delta_ms >= timer.duration_ms {
                        &&& r == TickOutcome::Arrived
                        &&& final(self).state == CommuteState::Waiting(t.destination)
                        &&& final(self).position == t.path@.last()
                        &&& final(self).wait_timer.elapsed_ms == 0
                        &&& final(self).commute_timer.elapsed_ms == (timer.elapsed_ms
                            + delta_ms) % (timer.duration_ms as int)
                        &&& final(self).heading == old(self).heading
                    } else {
                        let e = timer.elapsed_ms + delta_ms;
                        let dur = timer.duration_ms as int;
                        &&& r == TickOutcome::Moving
                        &&& final(self).state == old(self).state
                        &&& final(self).commute_timer.elapsed_ms == e
                        &&& final(self).position == spec_commute_position(t.path@, e, dur)
                        &&& final(self).heading == spec_segment_heading(
                            t.path@,
                            spec_segment_index(t.path@.len() as int, e, dur),
                        )
                        &&& final(self).wait_timer == old(self).wait_timer
                    }
                },
                CommuteState::Waiting(sid) => {
                    let timer = old(self).wait_timer;
                    let wrapped = (timer.elapsed_ms + delta_ms) % (timer.duration_ms as int);
                    if timer.elapsed_ms + delta_ms < timer.duration_ms {
                        &&& r == TickOutcome::Dwelling
                        &&& final(self).state == old(self).state
                        &&& final(self).position == old(self).position
                        &&& final(self).heading == old(self).heading
                        &&& final(self).wait_timer.elapsed_ms == timer.elapsed_ms + delta_ms
                        &&& final(self).commute_timer == old(self).commute_timer
                    } else if !stops.valid(sid) {
                        &&& r == TickOutcome::DanglingStop
                        &&& final(self).state == old(self).state
                        &&& final(self).position == old(self).position
                        &&& final(self).heading == old(self).heading
                        &&& final(self).wait_timer.elapsed_ms == wrapped
                        &&& final(self).commute_timer == old(self).commute_timer
                    } else {
                        match tracks.spec_first_departing(sid) {
                            Some(tid) => {
                                &&& r == TickOutcome::Departed
                                &&& final(self).state == CommuteState::Commuting(tid)
                                &&& final(self).position == old(self).position
                                &&& final(self).heading == old(self).heading
                                &&& final(self).wait_timer.elapsed_ms == wrapped
                                &&& final(self).commute_timer.elapsed_ms == 0
                            },
                            None => {
                                &&& r == TickOutcome::Parked
                                &&& final(self).state == old(self).state
                                &&& final(self).position == old(self).position
                                &&& final(self).heading == old(self).heading
                                &&& final(self).wait_timer.elapsed_ms == wrapped
                                &&& final(self).commute_timer == old(self).commute_timer
                            },
                        }
                    }
                },
            },
    {
        match self.state {
            CommuteState::Commuting(tid) => {
                match tracks.get(tid) {
                    None => TickOutcome::DanglingTrack,
                    Some(track) => {
                        proof {
                            assert(tracks.spec_tracks()[tid.index as int].wf(stops));
                        }
                        let finished: bool = self.commute_timer.tick(delta_ms);
                        if finished {
                            self.state = CommuteState::Waiting(track.destination);
                            self.position = track.path[track.path.len() - 1];
                            self.wait_timer.reset();
                            TickOutcome::Arrived
                        } else {
                            let elapsed: u64 = self.commute_timer.elapsed_ms;
                            let duration: u64 = self.commute_timer.duration_ms;
                            let plen: usize = track.path.len();
                            proof {
                                lemma_small_mod(
                                    (old(self).commute_timer.elapsed_ms + delta_ms) as nat,
                                    duration as nat,
                                );
                                lemma_segment_bounds(
                                    plen as int,
                                    elapsed as int,
                                    duration as int,
                                );
                                lemma_mul_upper_bound(
                                    elapsed as int,
                                    0xFFFF_FFFF_FFFF_FFFF,
                                    (plen - 1) as int,
                                    0xFFFF_FFFF_FFFF_FFFF,
                                );
                            }
                            let scaled: u128 = (elapsed as u128) * ((plen - 1) as u128);
                            let idx_wide: u128 = scaled / (duration as u128);
                            let num_wide: u128 = scaled % (duration as u128);
                            let idx: usize = idx_wide as usize;
                            let num: u64 = num_wide as u64;
                            let a: Point = track.path[idx];
                            let b: Point = track.path[idx + 1];
                            let pos: Point = lerp_point(a, b, num, duration);
                            self.position = pos;
                            self.heading = Point { x: b.x - a.x, y: b.y - a.y };
                            TickOutcome::Moving
                        }
                    },
                }
            },
            CommuteState::Waiting(sid) => {
                let finished: bool = self.wait_timer.tick(delta_ms);
                if !finished {
                    proof {
                        lemma_small_mod(
                            (old(self).wait_timer.elapsed_ms + delta_ms) as nat,
                            old(self).wait_timer.duration_ms as nat,
                        );
                    }
                    TickOutcome::Dwelling
                } else {
                    match stops.lookup(sid) {
                        None => TickOutcome::DanglingStop,
                        Some(_) => {
                            match tracks.find_departing(sid) {
                                Some(tid) => {
                                    self.state = CommuteState::Commuting(tid);
                                    self.commute_timer.reset();
                                    TickOutcome::Departed
                                },
                                None => TickOutcome::Parked,
                            }
                        },
                    }
                }
            },
        }
    }
}

} // verus!
