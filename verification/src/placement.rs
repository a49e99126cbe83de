//! Interactive two-click track placement. The session is `Idle` until a
//! click near a stop captures it as the pending source (`Armed`); a
//! second click near a different stop commits the elbow track and
//! returns the session to `Idle`. Clicks that resolve to no stop are
//! ignored, and self-connections never produce a track.

use vstd::prelude::*;

verus! {

use crate::WORLD_LIMIT;
use crate::geometry::{Point, build_elbow_path, in_world, spec_corner, spec_elbow_path};
use crate::stops::{StopId, StopRegistry};
use crate::track::{Track, TrackId, TrackRegistry};

/// Default snap radius, in world units: clicks and previews resolve to
/// a stop only strictly within this distance of the cursor.
pub const DEFAULT_SNAP_RADIUS: i64 = 32;

/// The stop captured by the first click of a placement gesture.
#[derive(Clone, Copy, Debug, PartialEq, Eq, Structural)]
pub struct PendingSource {
    pub source: StopId,
    pub position: Point,
}

/// The placement controller's state: idle when `pending` is `None`,
/// armed once a first click has captured a source stop. The preview is
/// visible exactly while the session is armed.
#[derive(Clone, Copy, Debug, PartialEq, Eq, Structural)]
pub struct PlacementSession {
    pub pending: Option<PendingSource>,
    pub snap_radius: i64,
}

/// What a primary click did.
#[derive(Clone, Copy, Debug, PartialEq, Eq, Structural)]
pub enum ClickOutcome {
    /// No qualifying stop near the cursor, or a self-connection was
    /// rejected: nothing changed.
    Ignored,
    /// The click captured a pending source; the session is now armed.
    Armed,
    /// The click completed the gesture: the named track was committed.
    Committed(TrackId),
}

impl PlacementSession {
    /// Session invariant relative to the stops: the snap radius is a
    /// usable world distance, and a captured source records the
    /// position its stop had -- which the stop, while still spawned,
    /// still has.
    pub open spec fn wf(&self, stops: &StopRegistry) -> bool {
        &&& 0 <= self.snap_radius <= WORLD_LIMIT
        &&& self.pending matches Some(p) ==> {
            &&& in_world(p.position)
            &&& (stops.valid(p.source) ==> stops.pos_of(p.source) == p.position)
        }
    }

    /// Creates an idle session with the given snap radius.
    pub fn new(snap_radius: i64) -> (s: PlacementSession)
        requires
            0 <= snap_radius <= WORLD_LIMIT,
        ensures
            s.pending is None,
            s.snap_radius == snap_radius,
    {
        PlacementSession { pending: None, snap_radius }
    }

    /// Handles a primary click at the current cursor position.
    ///
    /// The click resolves to the nearest stop strictly within the snap
    /// radius; with none, it is ignored in either state. When idle, the
    /// resolved stop is captured and the session arms. When armed, the
    /// resolved stop becomes the destination: a self-connection (the
    /// pending stop itself, or a coincident position) is ignored and
    /// the session stays armed, so no track is ever committed with
    /// equal endpoints; otherwise one track is committed atomically,
    /// its path the elbow polyline from the pending source's position
    /// to the destination stop's position, and the session returns to
    /// idle. Earlier tracks are never touched.
    pub fn on_primary_click(
        &mut self,
        cursor: Point,
        stops: &StopRegistry,
        tracks: &mut TrackRegistry,
    ) -> (r: ClickOutcome)
        requires
            old(self).wf(stops),
            stops.wf(),
            old(tracks).wf(stops),
            in_world(cursor),
        ensures
            final(self).wf(stops),
            final(tracks).wf(stops),
            final(self).snap_radius == old(self).snap_radius,
            match stops.spec_resolve(cursor, old(self).snap_radius as int) {
                None => {
                    &&& r == ClickOutcome::Ignored
                    &&& *final(self) == *old(self)
                    &&& final(tracks).spec_tracks() == old(tracks).spec_tracks()
                },
                Some(hit) => match old(self).pending {
                    None => {
                        &&& r == ClickOutcome::Armed
                        &&& final(self).pending == Some(
                            PendingSource { source: hit.0, position: hit.1 },
                        )
                        &&& final(tracks).spec_tracks() == old(tracks).spec_tracks()
                    },
                    Some(pend) => if hit.0 == pend.source || hit.1 == pend.position {
                        &&& r == ClickOutcome::Ignored
                        &&& *final(self) == *old(self)
                        &&& final(tracks).spec_tracks() == old(tracks).spec_tracks()
                    } else {
                        &&& r == ClickOutcome::Committed(
                            TrackId { index: old(tracks).spec_tracks().len() as usize },
                        )
                        &&& final(self).pending is None
                        &&& final(tracks).spec_tracks().len() == old(tracks).spec_tracks().len()
                            + 1
                        &&& forall|i: int|
                            0 <= i < old(tracks).spec_tracks().len()
                                ==> final(tracks).spec_tracks()[i]
                                == old(tracks).spec_tracks()[i]
                        &&& ({
                            let t = final(tracks).spec_tracks().last();
                            &&& t.source == pend.source
                            &&& t.destination == hit.0
                            &&& t.path@ == spec_elbow_path(pend.position, hit.1)
                            &&& t.path@[0] == pend.position
                            &&& t.path@.last() == hit.1
                            &&& t.path@.last() == stops.pos_of(hit.0)
                            &&& (stops.valid(pend.source) ==> t.path@[0] == stops.pos_of(
                                pend.source,
                            ))
                        })
                    },
                },
            },
    {
        let hit = stops.nearest_within(cursor, self.snap_radius);
        match hit {
            None => ClickOutcome::Ignored,
            Some((dest_id, dest_pos)) => {
                match self.pending {
                    None => {
                        self.pending = Some(
                            PendingSource { source: dest_id, position: dest_pos },
                        );
                        ClickOutcome::Armed
                    },
                    Some(pend) => {
                        if dest_id == pend.source || dest_pos == pend.position {
                            ClickOutcome::Ignored
                        } else {
                            let path = build_elbow_path(pend.position, dest_pos);
                            let track = Track {
                                source: pend.source,
                                destination: dest_id,
                                path,
                            };
                            let tid = tracks.add(track);
                            self.pending = None;
                            ClickOutcome::Committed(tid)
                        }
                    },
                }
            },
        }
    }
}

/// The live preview polyline for a session, cursor and stop registry:
/// hidden while idle; while armed, the elbow from the pending source's
/// position to the nearest qualifying stop, or to the raw cursor when
/// none qualifies.
pub open spec fn spec_preview(
    session: PlacementSession,
    cursor: Point,
    stops: &StopRegistry,
) -> Option<Seq<Point>> {
    match session.pending {
        None => None,
        Some(pend) => {
            let target = match stops.spec_resolve(cursor, session.snap_radius as int) {
                Some(hit) => hit.1,
                None => cursor,
            };
            Some(seq![pend.position, spec_corner(pend.position, target), target])
        },
    }
}

/// The view of an optional polyline, for relating the computed preview
/// to its specification.
pub open spec fn polyline_view(r: Option<Vec<Point>>) -> Option<Seq<Point>> {
    match r {
        None => None,
        Some(v) => Some(v@),
    }
}

impl PlacementSession {
    /// Recomputes the live preview polyline for the current cursor
    /// position: `None` while idle (the preview is hidden), and the
    /// two-leg elbow while armed.
    pub fn preview_path(&self, cursor: Point, stops: &StopRegistry) -> (r: Option<Vec<Point>>)
        requires
            self.wf(stops),
            stops.wf(),
            in_world(cursor),
        ensures
            polyline_view(r) == spec_preview(*self, cursor, stops),
            r is Some <==> self.pending is Some,
    {
        match self.pending {
            None => None,
            Some(pend) => {
                let target: Point = match stops.nearest_within(cursor, self.snap_radius) {
                    Some((_, p)) => p,
                    None => cursor,
                };
                let corner = crate::geometry::corner_point(pend.position, target);
                let mut line: Vec<Point> = Vec::new();
                line.push(pend.position);
                line.push(corner);
                line.push(target);
                proof {
                    assert(line@ =~= seq![
                        pend.position,
                        spec_corner(pend.position, target),
                        target,
                    ]);
                }
                Some(line)
            },
        }
    }
}

/// Recomputing the preview with an unchanged session, cursor and stop
/// registry yields an unchanged polyline: the preview is a pure
/// function of those three, so repeated updates are idempotent.
pub proof fn lemma_preview_idempotent(
    session: PlacementSession,
    cursor: Point,
    stops: &StopRegistry,
    r1: Option<Seq<Point>>,
    r2: Option<Seq<Point>>,
)
    requires
        r1 == spec_preview(session, cursor, stops),
        r2 == spec_preview(session, cursor, stops),
    ensures
        r1 == r2,
{
}

} // verus!
