use transit_core::carrier::{Carrier, CommuteState, RepeatTimer, TickOutcome};
use transit_core::geometry::{
    build_elbow_path, corner_point, dist_sq, lerp_point, stroked_segment_polygon, Point,
};
use transit_core::placement::{ClickOutcome, PlacementSession, DEFAULT_SNAP_RADIUS};
use transit_core::stops::{StopId, StopRegistry};
use transit_core::track::{TrackId, TrackRegistry};

fn pt(x: i64, y: i64) -> Point {
    Point { x, y }
}

#[test]
fn corner_is_x_dominant() {
    // |dx| = 10 >= |dy| = 4: horizontal leg first, corner at (to.x, from.y)
    assert_eq!(corner_point(pt(0, 0), pt(10, 4)), pt(10, 0));
}

#[test]
fn corner_is_y_dominant() {
    // |dx| = 3 < |dy| = 9: vertical leg first, corner at (from.x, to.y)
    assert_eq!(corner_point(pt(0, 0), pt(3, -9)), pt(0, -9));
}

#[test]
fn corner_tie_prefers_x() {
    // |dx| == |dy|: x-dominance wins the tie
    assert_eq!(corner_point(pt(2, 2), pt(7, 7)), pt(7, 2));
}

#[test]
fn corner_segments_are_axis_aligned() {
    let cases = [
        (pt(0, 0), pt(10, 4)),
        (pt(0, 0), pt(-10, 4)),
        (pt(5, 5), pt(3, -9)),
        (pt(1, 1), pt(1, 1)),
        (pt(0, 0), pt(0, 7)),
        (pt(0, 0), pt(7, 0)),
    ];
    for (from, to) in cases {
        let c = corner_point(from, to);
        assert!(c.x == from.x || c.y == from.y);
        assert!(c.x == to.x || c.y == to.y);
    }
}

#[test]
fn dist_sq_exact() {
    assert_eq!(dist_sq(pt(3, 4), pt(0, 0)), 25);
    assert_eq!(dist_sq(pt(-3, 4), pt(3, -4)), 100);
    assert_eq!(dist_sq(pt(7, 7), pt(7, 7)), 0);
}

#[test]
fn lerp_hits_endpoints_exactly() {
    let a = pt(-10, 30);
    let b = pt(50, -14);
    assert_eq!(lerp_point(a, b, 0, 5000), a);
    assert_eq!(lerp_point(a, b, 5000, 5000), b);
}

#[test]
fn lerp_midpoint_and_truncation() {
    assert_eq!(lerp_point(pt(0, 0), pt(100, 40), 1, 2), pt(50, 20));
    // truncation is toward the start point on both axes
    assert_eq!(lerp_point(pt(0, 0), pt(5, -5), 1, 3), pt(1, -1));
}

#[test]
fn elbow_path_has_corner() {
    let path = build_elbow_path(pt(0, 0), pt(10, 4));
    assert_eq!(path, vec![pt(0, 0), pt(10, 0), pt(10, 4)]);
}

#[test]
fn elbow_path_degenerates_to_straight() {
    // a purely horizontal pair needs no corner waypoint
    let path = build_elbow_path(pt(0, 0), pt(10, 0));
    assert_eq!(path, vec![pt(0, 0), pt(10, 0)]);
}

#[test]
fn stroke_outline_first_quadrant() {
    let poly = stroked_segment_polygon(pt(0, 0), pt(10, 4), 6);
    assert_eq!(
        poly,
        vec![pt(-3, 3), pt(7, 3), pt(7, 7), pt(13, 7), pt(13, -3), pt(-3, -3)]
    );
}

#[test]
fn stroke_outline_y_dominant_down() {
    let poly = stroked_segment_polygon(pt(0, 0), pt(2, -10), 6);
    assert_eq!(
        poly,
        vec![pt(-3, 3), pt(-3, -13), pt(5, -13), pt(5, -7), pt(3, -7), pt(3, 3)]
    );
}

#[test]
fn stroke_outline_edges_rectilinear() {
    let cases = [
        (pt(0, 0), pt(10, 4)),
        (pt(0, 0), pt(-10, 4)),
        (pt(0, 0), pt(10, -4)),
        (pt(0, 0), pt(-10, -4)),
        (pt(0, 0), pt(4, 10)),
        (pt(0, 0), pt(-4, -10)),
        (pt(0, 0), pt(10, 0)),
        (pt(0, 0), pt(0, 10)),
    ];
    for (from, to) in cases {
        let poly = stroked_segment_polygon(from, to, 8);
        assert_eq!(poly.len(), 6);
        for i in 0..6 {
            let p = poly[i];
            let q = poly[(i + 1) % 6];
            assert!(p.x == q.x || p.y == q.y, "edge {i} of {from:?}->{to:?} not axis-aligned");
        }
    }
}

#[test]
fn registry_spawn_lookup_despawn() {
    let mut stops = StopRegistry::new();
    let a = stops.spawn(pt(1, 2));
    let b = stops.spawn(pt(3, 4));
    assert_eq!(stops.lookup(a), Some(pt(1, 2)));
    assert_eq!(stops.lookup(b), Some(pt(3, 4)));
    assert_eq!(stops.lookup(StopId { index: 99 }), None);
    stops.despawn(a);
    assert_eq!(stops.lookup(a), None);
    // other handles keep their meaning
    assert_eq!(stops.lookup(b), Some(pt(3, 4)));
    assert_eq!(stops.slot_count(), 2);
}

#[test]
fn nearest_within_is_strict_and_tie_breaks_by_order() {
    let mut stops = StopRegistry::new();
    let a = stops.spawn(pt(0, 0));
    let b = stops.spawn(pt(8, 0));
    // equidistant from (4, 0): the earlier slot wins the tie
    assert_eq!(stops.nearest_within(pt(4, 0), 32), Some((a, pt(0, 0))));
    // closer to b
    assert_eq!(stops.nearest_within(pt(7, 0), 32), Some((b, pt(8, 0))));
    // the threshold is strict: distance exactly equal to the radius misses
    assert_eq!(stops.nearest_within(pt(0, 32), 32), None);
    assert_eq!(stops.nearest_within(pt(0, 31), 32), Some((a, pt(0, 0))));
}

#[test]
fn placement_scenario_arm_then_ignore_far_click() {
    // Scenario: a click within the snap radius of a station arms the
    // session; a click far from any stop is ignored and the session
    // stays armed with no track created.
    let mut stops = StopRegistry::new();
    let s1 = stops.spawn(pt(0, 0));
    let _p2 = stops.spawn(pt(100, 40));
    let mut tracks = TrackRegistry::new();
    let mut session = PlacementSession::new(DEFAULT_SNAP_RADIUS);
    assert!(session.pending.is_none());

    let r1 = session.on_primary_click(pt(5, -3), &stops, &mut tracks);
    assert_eq!(r1, ClickOutcome::Armed);
    let pend = session.pending.expect("armed");
    assert_eq!(pend.source, s1);
    assert_eq!(pend.position, pt(0, 0));

    let r2 = session.on_primary_click(pt(500, 500), &stops, &mut tracks);
    assert_eq!(r2, ClickOutcome::Ignored);
    assert!(session.pending.is_some(), "session stays armed");
    assert_eq!(tracks.count(), 0);
}

#[test]
fn placement_scenario_commit_track() {
    // Scenario: click the station, then click a process node: one track
    // with the elbow path is committed and the session returns to idle.
    let mut stops = StopRegistry::new();
    let s1 = stops.spawn(pt(0, 0));
    let p2 = stops.spawn(pt(100, 40));
    let mut tracks = TrackRegistry::new();
    let mut session = PlacementSession::new(DEFAULT_SNAP_RADIUS);

    assert_eq!(session.on_primary_click(pt(0, 0), &stops, &mut tracks), ClickOutcome::Armed);
    let r = session.on_primary_click(pt(101, 39), &stops, &mut tracks);
    assert_eq!(r, ClickOutcome::Committed(TrackId { index: 0 }));
    assert!(session.pending.is_none(), "session back to idle");
    assert_eq!(tracks.count(), 1);

    let track = tracks.get(TrackId { index: 0 }).expect("committed track");
    assert_eq!(track.source, s1);
    assert_eq!(track.destination, p2);
    assert_eq!(track.path, vec![pt(0, 0), pt(100, 0), pt(100, 40)]);
}

#[test]
fn placement_rejects_self_connection() {
    // Clicking the pending source again never produces a track.
    let mut stops = StopRegistry::new();
    let _s1 = stops.spawn(pt(0, 0));
    let mut tracks = TrackRegistry::new();
    let mut session = PlacementSession::new(DEFAULT_SNAP_RADIUS);

    assert_eq!(session.on_primary_click(pt(0, 0), &stops, &mut tracks), ClickOutcome::Armed);
    let r = session.on_primary_click(pt(3, 3), &stops, &mut tracks);
    assert_eq!(r, ClickOutcome::Ignored);
    assert!(session.pending.is_some(), "still armed after rejected self-connection");
    assert_eq!(tracks.count(), 0);
}

#[test]
fn placement_first_click_needs_a_stop() {
    let mut stops = StopRegistry::new();
    let _s1 = stops.spawn(pt(0, 0));
    let mut tracks = TrackRegistry::new();
    let mut session = PlacementSession::new(DEFAULT_SNAP_RADIUS);

    let r = session.on_primary_click(pt(400, 400), &stops, &mut tracks);
    assert_eq!(r, ClickOutcome::Ignored);
    assert!(session.pending.is_none());
}

#[test]
fn preview_hidden_while_idle() {
    let stops = StopRegistry::new();
    let session = PlacementSession::new(DEFAULT_SNAP_RADIUS);
    assert_eq!(session.preview_path(pt(10, 10), &stops), None);
}

#[test]
fn preview_follows_cursor_and_snaps() {
    let mut stops = StopRegistry::new();
    let _s1 = stops.spawn(pt(0, 0));
    let _p2 = stops.spawn(pt(100, 40));
    let mut tracks = TrackRegistry::new();
    let mut session = PlacementSession::new(DEFAULT_SNAP_RADIUS);
    assert_eq!(session.on_primary_click(pt(0, 0), &stops, &mut tracks), ClickOutcome::Armed);

    // far from any stop: the preview runs to the raw cursor
    let free = session.preview_path(pt(60, -200), &stops).expect("armed preview");
    assert_eq!(free, vec![pt(0, 0), pt(0, -200), pt(60, -200)]);

    // near the process node: the preview snaps to its position
    let snapped = session.preview_path(pt(98, 42), &stops).expect("armed preview");
    assert_eq!(snapped, vec![pt(0, 0), pt(100, 0), pt(100, 40)]);
}

#[test]
fn preview_update_is_idempotent() {
    // An unchanged cursor yields an unchanged preview polyline.
    let mut stops = StopRegistry::new();
    let _s1 = stops.spawn(pt(0, 0));
    let _p2 = stops.spawn(pt(100, 40));
    let mut tracks = TrackRegistry::new();
    let mut session = PlacementSession::new(DEFAULT_SNAP_RADIUS);
    assert_eq!(session.on_primary_click(pt(0, 0), &stops, &mut tracks), ClickOutcome::Armed);

    let cursor = pt(73, -12);
    let first = session.preview_path(cursor, &stops);
    let second = session.preview_path(cursor, &stops);
    assert_eq!(first, second);
}

#[test]
fn timer_wraps_and_keeps_overshoot() {
    let mut t = RepeatTimer::new(10);
    assert!(!t.tick(4));
    assert_eq!(t.elapsed_ms, 4);
    assert!(t.tick(21));
    assert_eq!(t.elapsed_ms, 5);
    assert_eq!(t.duration_ms, 10);
}

#[test]
fn carrier_spawns_waiting_at_stop() {
    let mut stops = StopRegistry::new();
    let s1 = stops.spawn(pt(0, -150));
    let c = Carrier::spawn_at(&stops, s1, 5000, 8000).expect("stop exists");
    assert_eq!(c.state, CommuteState::Waiting(s1));
    assert_eq!(c.position, pt(0, -150));
    stops.despawn(s1);
    assert!(Carrier::spawn_at(&stops, s1, 5000, 8000).is_none());
}

#[test]
fn carrier_scenario_commute_and_arrive() {
    // Scenario: a carrier waits at the station with a committed track
    // to a process node and a 5 s nominal traversal. After 2.5 s of
    // commuting its position is the 50%-progress interpolation (the
    // elbow corner); after the full 5 s it snaps exactly to the
    // destination and waits there.
    let mut stops = StopRegistry::new();
    let s1 = stops.spawn(pt(0, 0));
    let p2 = stops.spawn(pt(100, 40));
    let mut tracks = TrackRegistry::new();
    let mut session = PlacementSession::new(DEFAULT_SNAP_RADIUS);
    assert_eq!(session.on_primary_click(pt(0, 0), &stops, &mut tracks), ClickOutcome::Armed);
    assert!(matches!(
        session.on_primary_click(pt(100, 40), &stops, &mut tracks),
        ClickOutcome::Committed(_)
    ));

    let mut c = Carrier::spawn_at(&stops, s1, 5000, 8000).expect("stop exists");
    // the wait elapses: the carrier boards the only departing track
    assert_eq!(c.tick(8000, &tracks, &stops), TickOutcome::Departed);
    assert_eq!(c.state, CommuteState::Commuting(TrackId { index: 0 }));
    assert_eq!(c.position, pt(0, 0));

    // quarter progress: halfway along the first leg
    assert_eq!(c.tick(1250, &tracks, &stops), TickOutcome::Moving);
    assert_eq!(c.position, pt(50, 0));
    assert_eq!(c.heading, pt(100, 0));

    // half progress: exactly at the elbow corner
    assert_eq!(c.tick(1250, &tracks, &stops), TickOutcome::Moving);
    assert_eq!(c.position, pt(100, 0));

    // three-quarter progress: halfway up the second leg
    assert_eq!(c.tick(1250, &tracks, &stops), TickOutcome::Moving);
    assert_eq!(c.position, pt(100, 20));
    assert_eq!(c.heading, pt(0, 40));

    // the timer completes: snapped exactly to the destination
    assert_eq!(c.tick(1250, &tracks, &stops), TickOutcome::Arrived);
    assert_eq!(c.position, pt(100, 40));
    assert_eq!(c.state, CommuteState::Waiting(p2));
    assert_eq!(c.wait_timer.elapsed_ms, 0);
}

#[test]
fn carrier_position_stays_between_waypoints() {
    // While commuting, every tick leaves the carrier inside the
    // bounding interval of some pair of consecutive waypoints.
    let mut stops = StopRegistry::new();
    let s1 = stops.spawn(pt(0, 0));
    let _p2 = stops.spawn(pt(100, 40));
    let mut tracks = TrackRegistry::new();
    let mut session = PlacementSession::new(DEFAULT_SNAP_RADIUS);
    session.on_primary_click(pt(0, 0), &stops, &mut tracks);
    session.on_primary_click(pt(100, 40), &stops, &mut tracks);
    let path = [pt(0, 0), pt(100, 0), pt(100, 40)];

    let mut c = Carrier::spawn_at(&stops, s1, 5000, 8000).expect("stop exists");
    assert_eq!(c.tick(8000, &tracks, &stops), TickOutcome::Departed);
    loop {
        let outcome = c.tick(333, &tracks, &stops);
        if outcome == TickOutcome::Arrived {
            break;
        }
        assert_eq!(outcome, TickOutcome::Moving);
        let on_some_leg = path.windows(2).any(|leg| {
            let (a, b) = (leg[0], leg[1]);
            c.position.x >= a.x.min(b.x)
                && c.position.x <= a.x.max(b.x)
                && c.position.y >= a.y.min(b.y)
                && c.position.y <= a.y.max(b.y)
        });
        assert!(on_some_leg, "position {:?} left the path", c.position);
    }
}

#[test]
fn carrier_scenario_parked_without_tracks() {
    // Scenario: a carrier waiting at a stop with zero outgoing tracks
    // stays waiting, parked in place, for arbitrarily many ticks.
    let mut stops = StopRegistry::new();
    let s1 = stops.spawn(pt(7, -9));
    let tracks = TrackRegistry::new();
    let mut c = Carrier::spawn_at(&stops, s1, 5000, 8000).expect("stop exists");
    for round in 0..50 {
        let outcome = c.tick(4000, &tracks, &stops);
        if round % 2 == 0 {
            assert_eq!(outcome, TickOutcome::Dwelling);
        } else {
            assert_eq!(outcome, TickOutcome::Parked);
        }
        assert_eq!(c.state, CommuteState::Waiting(s1));
        assert_eq!(c.position, pt(7, -9));
    }
}

#[test]
fn carrier_skips_tick_on_dangling_stop() {
    let mut stops = StopRegistry::new();
    let s1 = stops.spawn(pt(0, 0));
    let tracks = TrackRegistry::new();
    let mut c = Carrier::spawn_at(&stops, s1, 5000, 8000).expect("stop exists");
    stops.despawn(s1);
    assert_eq!(c.tick(8000, &tracks, &stops), TickOutcome::DanglingStop);
    assert_eq!(c.state, CommuteState::Waiting(s1));
    assert_eq!(c.position, pt(0, 0));
    // the next wait period retries
    assert_eq!(c.tick(8000, &tracks, &stops), TickOutcome::DanglingStop);
}

#[test]
fn carrier_skips_tick_on_dangling_track() {
    let stops = StopRegistry::new();
    let tracks = TrackRegistry::new();
    let mut c = Carrier {
        commute_timer: RepeatTimer::new(5000),
        wait_timer: RepeatTimer::new(8000),
        state: CommuteState::Commuting(TrackId { index: 42 }),
        position: pt(0, 0),
        heading: pt(1, 0),
    };
    assert_eq!(c.tick(1000, &tracks, &stops), TickOutcome::DanglingTrack);
    assert_eq!(c.state, CommuteState::Commuting(TrackId { index: 42 }));
    assert_eq!(c.position, pt(0, 0));
    assert_eq!(c.commute_timer.elapsed_ms, 0, "timer untouched on a skipped tick");
}

#[test]
fn find_departing_prefers_placement_order() {
    let mut stops = StopRegistry::new();
    let s1 = stops.spawn(pt(0, 0));
    let _a = stops.spawn(pt(100, 0));
    let _b = stops.spawn(pt(0, 100));
    let mut tracks = TrackRegistry::new();
    let mut session = PlacementSession::new(DEFAULT_SNAP_RADIUS);
    // two tracks out of s1, committed in order
    session.on_primary_click(pt(0, 0), &stops, &mut tracks);
    session.on_primary_click(pt(100, 0), &stops, &mut tracks);
    session.on_primary_click(pt(0, 0), &stops, &mut tracks);
    session.on_primary_click(pt(0, 100), &stops, &mut tracks);
    assert_eq!(tracks.count(), 2);
    assert_eq!(tracks.find_departing(s1), Some(TrackId { index: 0 }));
    assert_eq!(tracks.find_departing(StopId { index: 57 }), None);
}

#[test]
fn stroke_outline_does_not_self_intersect() {
    // For genuine elbows, edges that do not meet at a vertex are
    // disjoint; axis-aligned segments make the check exact.
    fn on_seg(p: Point, a: Point, b: Point) -> bool {
        if a.x == b.x {
            p.x == a.x && p.y >= a.y.min(b.y) && p.y <= a.y.max(b.y)
        } else {
            p.y == a.y && p.x >= a.x.min(b.x) && p.x <= a.x.max(b.x)
        }
    }
    fn segs_meet(a: Point, b: Point, c: Point, d: Point) -> bool {
        let xs = [a.x, b.x, c.x, d.x];
        let ys = [a.y, b.y, c.y, d.y];
        for &x in &xs {
            for &y in &ys {
                let p = Point { x, y };
                if on_seg(p, a, b) && on_seg(p, c, d) {
                    return true;
                }
            }
        }
        false
    }
    let cases = [
        (pt(0, 0), pt(10, 4)),
        (pt(0, 0), pt(-10, 4)),
        (pt(0, 0), pt(10, -4)),
        (pt(0, 0), pt(-10, -4)),
        (pt(0, 0), pt(4, 10)),
        (pt(3, -2), pt(-1, 11)),
        (pt(5, 5), pt(6, 4)),
    ];
    for (from, to) in cases {
        let poly = stroked_segment_polygon(from, to, 6);
        for i in 0..6usize {
            for j in 0..6usize {
                let adjacent = i == j || (i + 1) % 6 == j || (j + 1) % 6 == i;
                if !adjacent {
                    assert!(
                        !segs_meet(poly[i], poly[(i + 1) % 6], poly[j], poly[(j + 1) % 6]),
                        "edges {i} and {j} of {from:?}->{to:?} intersect"
                    );
                }
            }
        }
    }
}
