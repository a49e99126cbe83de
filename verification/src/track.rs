//! Committed tracks: immutable connections between two stops, each with
//! the polyline path a carrier follows. Tracks are appended once, on
//! completion of a placement gesture, and never mutated or removed.

use vstd::prelude::*;

verus! {

use crate::geometry::{Point, in_world};
use crate::stops::{StopId, StopRegistry};

/// Stable handle to a committed track in a `TrackRegistry`.
#[derive(Clone, Copy, Debug, PartialEq, Eq, Structural)]
pub struct TrackId {
    pub index: usize,
}

/// A committed connection between two stops.
pub struct Track {
    pub source: StopId,
    pub destination: StopId,
    pub path: Vec<Point>,
}

/// The polyline invariant of every committed track: at least two
/// waypoints, consecutive waypoints distinct, all inside the world.
pub open spec fn wf_path(path: Seq<Point>) -> bool {
    &&& path.len() >= 2
    &&& forall|i: int| 0 <= i < path.len() - 1 ==> #[trigger] path[i] != path[i + 1]
    &&& forall|i: int| 0 <= i < path.len() ==> in_world(#[trigger] path[i])
}

impl Track {
    /// Well-formedness relative to the stop registry: the path obeys the
    /// polyline invariant and, while an endpoint's stop is still
    /// spawned, the path begins or ends exactly at its position.
    pub open spec fn wf(&self, stops: &StopRegistry) -> bool {
        &&& wf_path(self.path@)
        &&& stops.valid(self.source) ==> self.path@[0] == stops.pos_of(self.source)
        &&& stops.valid(self.destination) ==> self.path@.last() == stops.pos_of(
            self.destination,
        )
    }
}

/// Append-only collection of committed tracks, addressed by handle.
pub struct TrackRegistry {
    tracks: Vec<Track>,
}

impl TrackRegistry {
    /// The committed tracks, in placement order.
    pub closed spec fn spec_tracks(&self) -> Seq<Track> {
        self.tracks@
    }

    /// True when `id` names a committed track.
    pub open spec fn spec_valid(&self, id: TrackId) -> bool {
        id.index < self.spec_tracks().len()
    }

    /// The track `id` names.
    pub open spec fn spec_at(&self, id: TrackId) -> Track
        recommends
            self.spec_valid(id),
    {
        self.spec_tracks()[id.index as int]
    }

    /// Every committed track is well formed relative to `stops`.
    pub open spec fn wf(&self, stops: &StopRegistry) -> bool {
        forall|i: int|
            0 <= i < self.spec_tracks().len() ==> (#[trigger] self.spec_tracks()[i]).wf(stops)
    }

    /// Creates an empty registry.
    pub fn new() -> (r: TrackRegistry)
        ensures
            r.spec_tracks().len() == 0,
    {
        TrackRegistry { tracks: Vec::new() }
    }

    /// Number of committed tracks.
    pub fn count(&self) -> (n: usize)
        ensures
            n == self.spec_tracks().len(),
    {
        self.tracks.len()
    }

    /// Commits a track. Only the placement controller creates tracks.
    pub(crate) fn add(&mut self, track: Track) -> (id: TrackId)
        ensures
            id.index == old(self).spec_tracks().len(),
            final(self).spec_tracks() == old(self).spec_tracks().push(track),
    {
        let id = TrackId { index: self.tracks.len() };
        self.tracks.push(track);
        id
    }

    /// Borrows the track `id` names; a stale or foreign handle misses.
    pub fn get(&self, id: TrackId) -> (r: Option<&Track>)
        ensures
            self.spec_valid(id) ==> r is Some && *r->Some_0 == self.spec_at(id),
            !self.spec_valid(id) ==> r is None,
    {
        if id.index < self.tracks.len() {
            Some(&self.tracks[id.index])
        } else {
            None
        }
    }

    /// The first track at or after index `n` whose source is `stop`.
    pub open spec fn first_departing_from(tracks: Seq<Track>, stop: StopId, n: int) -> Option<
        TrackId,
    >
        decreases tracks.len() - n,
    {
        if n < 0 || n >= tracks.len() {
            None
        } else if tracks[n].source == stop {
            Some(TrackId { index: n as usize })
        } else {
            Self::first_departing_from(tracks, stop, n + 1)
        }
    }

    /// The track a waiting carrier boards next from `stop`: the earliest
    /// committed track departing from it.
    pub open spec fn spec_first_departing(&self, stop: StopId) -> Option<TrackId> {
        Self::first_departing_from(self.spec_tracks(), stop, 0)
    }

    /// The earliest departing track matches `stop` and nothing before it
    /// does; when there is none, no track departs from `stop` at all.
    pub proof fn lemma_first_departing_characterizes(tracks: Seq<Track>, stop: StopId, n: int)
        requires
            0 <= n <= tracks.len(),
            tracks.len() <= usize::MAX,
        ensures
            Self::first_departing_from(tracks, stop, n) matches Some(tid) ==> n <= tid.index
                < tracks.len() && tracks[tid.index as int].source == stop && forall|j: int|
                n <= j < tid.index ==> (#[trigger] tracks[j]).source != stop,
            Self::first_departing_from(tracks, stop, n) is None ==> forall|j: int|
                n <= j < tracks.len() ==> (#[trigger] tracks[j]).source != stop,
        decreases tracks.len() - n,
    {
        if n < tracks.len() && tracks[n].source != stop {
            Self::lemma_first_departing_characterizes(tracks, stop, n + 1);
        }
    }

    /// Searches, in placement order, for a track departing from `stop`.
    pub fn find_departing(&self, stop: StopId) -> (r: Option<TrackId>)
        ensures
            r == self.spec_first_departing(stop),
            r matches Some(tid) ==> self.spec_valid(tid) && self.spec_at(tid).source == stop,
            r is None ==> forall|i: int|
                0 <= i < self.spec_tracks().len() ==> (#[trigger] self.spec_tracks()[i]).source
                    != stop,
    {
        let n: usize = self.tracks.len();
        proof {
            Self::lemma_first_departing_characterizes(self.spec_tracks(), stop, 0);
        }
        let mut i: usize = 0;
        while i < n
            invariant
                i <= n,
                n == self.spec_tracks().len(),
                Self::first_departing_from(self.spec_tracks(), stop, 0)
                    == Self::first_departing_from(self.spec_tracks(), stop, i as int),
            decreases n - i,
        {
            if self.tracks[i].source == stop {
                return Some(TrackId { index: i });
            }
            i = i + 1;
        }
        None
    }
}

} // verus!
