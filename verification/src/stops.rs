//! Registry of stops: the entities that can serve as track endpoints
//! (stations and process nodes). Stops live in an arena and are
//! referenced by stable handles; a despawned stop leaves a hole, and a
//! lookup of its handle misses instead of dangling.

use vstd::prelude::*;

verus! {

use crate::WORLD_LIMIT;
use crate::geometry::{Point, dist_sq, in_world, spec_dist_sq};

/// Stable handle to a stop in a `StopRegistry`.
#[derive(Clone, Copy, Debug, PartialEq, Eq, Structural)]
pub struct StopId {
    pub index: usize,
}

/// Arena of stops. A slot keeps its index for the registry's lifetime;
/// despawning clears the slot without shifting the others.
pub struct StopRegistry {
    slots: Vec<Option<Point>>,
}

impl View for StopRegistry {
    type V = Seq<Option<Point>>;

    closed spec fn view(&self) -> Seq<Option<Point>> {
        self.slots@
    }
}

impl StopRegistry {
    /// Every registered position lies inside the world range.
    pub open spec fn wf(&self) -> bool {
        forall|i: int|
            0 <= i < self@.len() && (#[trigger] self@[i]) is Some ==> in_world(self@[i]->Some_0)
    }

    /// True when `id` names a stop that is currently spawned.
    pub open spec fn valid(&self, id: StopId) -> bool {
        id.index < self@.len() && self@[id.index as int] is Some
    }

    /// The position of the stop `id` names.
    pub open spec fn pos_of(&self, id: StopId) -> Point
        recommends
            self.valid(id),
    {
        self@[id.index as int]->Some_0
    }

    /// Creates an empty registry.
    pub fn new() -> (r: StopRegistry)
        ensures
            r@.len() == 0,
            r.wf(),
    {
        StopRegistry { slots: Vec::new() }
    }

    /// Registers a stop and returns its handle. Handles of stops spawned
    /// earlier keep their meaning.
    pub fn spawn(&mut self, position: Point) -> (id: StopId)
        requires
            old(self).wf(),
            in_world(position),
        ensures
            final(self).wf(),
            id.index == old(self)@.len(),
            final(self)@ == old(self)@.push(Some(position)),
            final(self).valid(id),
            final(self).pos_of(id) == position,
    {
        let id = StopId { index: self.slots.len() };
        self.slots.push(Some(position));
        id
    }

    /// Removes the stop `id` names, if any. Other stops are untouched;
    /// later lookups of `id` miss.
    pub fn despawn(&mut self, id: StopId)
        requires
            old(self).wf(),
        ensures
            final(self).wf(),
            id.index < old(self)@.len() ==> final(self)@ == old(self)@.update(
                id.index as int,
                None::<Point>,
            ),
            id.index >= old(self)@.len() ==> final(self)@ == old(self)@,
            !final(self).valid(id),
    {
        if id.index < self.slots.len() {
            self.slots[id.index] = None;
        }
    }

    /// Resolves a handle to the position of a still-spawned stop. A miss
    /// is a recoverable condition, reported as `None`.
    pub fn lookup(&self, id: StopId) -> (r: Option<Point>)
        ensures
            self.valid(id) ==> r == Some(self.pos_of(id)),
            !self.valid(id) ==> r is None,
    {
        if id.index < self.slots.len() {
            self.slots[id.index]
        } else {
            None
        }
    }

    /// Number of slots ever allocated, cleared ones included.
    pub fn slot_count(&self) -> (n: usize)
        ensures
            n == self@.len(),
    {
        self.slots.len()
    }

    /// The qualifying stop a scan of the first `n` slots settles on: one
    /// whose squared distance to `cursor` is below `r2`, preferring
    /// strictly smaller distances; on a tie the earlier slot is kept.
    pub open spec fn nearest_in_prefix(
        slots: Seq<Option<Point>>,
        cursor: Point,
        r2: int,
        n: int,
    ) -> Option<(StopId, Point)>
        decreases n,
    {
        if n <= 0 {
            None
        } else {
            let prev = Self::nearest_in_prefix(slots, cursor, r2, n - 1);
            let i = n - 1;
            if slots[i] is Some && spec_dist_sq(slots[i]->Some_0, cursor) < r2 {
                let p = slots[i]->Some_0;
                match prev {
                    None => Some((StopId { index: i as usize }, p)),
                    Some(best) => if spec_dist_sq(p, cursor) < spec_dist_sq(best.1, cursor) {
                        Some((StopId { index: i as usize }, p))
                    } else {
                        prev
                    },
                }
            } else {
                prev
            }
        }
    }

    /// The stop the whole registry resolves a cursor position to, with
    /// snap radius `radius`.
    pub open spec fn spec_resolve(&self, cursor: Point, radius: int) -> Option<(StopId, Point)> {
        Self::nearest_in_prefix(self@, cursor, radius * radius, self@.len() as int)
    }

    /// A resolved stop is a spawned stop within range, at its recorded
    /// position; a miss means no stop in the prefix qualifies at all.
    pub proof fn lemma_nearest_in_prefix_sound(
        slots: Seq<Option<Point>>,
        cursor: Point,
        r2: int,
        n: int,
    )
        requires
            0 <= n <= slots.len(),
            slots.len() <= usize::MAX,
        ensures
            Self::nearest_in_prefix(slots, cursor, r2, n) matches Some(hit) ==> hit.0.index < n
                && slots[hit.0.index as int] == Some(hit.1) && spec_dist_sq(hit.1, cursor) < r2,
            Self::nearest_in_prefix(slots, cursor, r2, n) is None ==> forall|j: int|
                0 <= j < n ==> !((#[trigger] slots[j]) is Some && spec_dist_sq(
                    slots[j]->Some_0,
                    cursor,
                ) < r2),
        decreases n,
    {
        if n > 0 {
            Self::lemma_nearest_in_prefix_sound(slots, cursor, r2, n - 1);
        }
    }

    /// Finds the stop closest to `cursor` among those within `radius`
    /// (squared Euclidean distance below `radius * radius`); ties are
    /// broken by slot order. `None` when no stop qualifies.
    pub fn nearest_within(&self, cursor: Point, radius: i64) -> (r: Option<(StopId, Point)>)
        requires
            self.wf(),
            in_world(cursor),
            0 <= radius <= WORLD_LIMIT,
        ensures
            r == self.spec_resolve(cursor, radius as int),
            r matches Some(hit) ==> self.valid(hit.0) && self.pos_of(hit.0) == hit.1
                && spec_dist_sq(hit.1, cursor) < radius * radius,
            r is None ==> forall|id: StopId|
                self.valid(id) ==> !(spec_dist_sq(#[trigger] self.pos_of(id), cursor) < radius
                    * radius),
    {
        let n: usize = self.slots.len();
        proof {
            Self::lemma_nearest_in_prefix_sound(
                self@,
                cursor,
                (radius * radius) as int,
                self@.len() as int,
            );
        }
        proof {
            assert(radius * radius <= 1_000_000_000_000_000_000 && radius * radius >= 0)
                by (nonlinear_arith)
                requires 0 <= radius <= 1_000_000_000;
        }
        let r2: i64 = radius * radius;
        let mut best: Option<(StopId, Point)> = None;
        let mut i: usize = 0;
        while i < n
            invariant
                i <= n,
                n == self@.len(),
                self.wf(),
                in_world(cursor),
                r2 == radius * radius,
                best == Self::nearest_in_prefix(self@, cursor, r2 as int, i as int),
                best is Some ==> in_world(best->Some_0.1),
            decreases n - i,
        {
            match self.slots[i] {
                Some(p) => {
                    let d: i64 = dist_sq(p, cursor);
                    if d < r2 {
                        match best {
                            None => {
                                best = Some((StopId { index: i }, p));
                            },
                            Some((_, bp)) => {
                                if d < dist_sq(bp, cursor) {
                                    best = Some((StopId { index: i }, p));
                                }
                            },
                        }
                    }
                },
                None => {},
            }
            i = i + 1;
        }
        best
    }
}

} // verus!
