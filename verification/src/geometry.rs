//! Pure geometry for the transit core: integer world positions, the
//! L-shaped elbow corner between two endpoints, squared distances for
//! snap tests, linear interpolation along a segment, and the stroked
//! outline drawn around a committed track.

use vstd::prelude::*;

verus! {

use crate::WORLD_LIMIT;
use vstd::arithmetic::div_mod::{
    lemma_div_multiples_vanish,
    lemma_div_pos_is_pos,
    lemma_multiply_divide_le,
};
use vstd::arithmetic::mul::{lemma_mul_inequality, lemma_mul_nonnegative, lemma_mul_upper_bound};

/// A position or displacement in world space, in integer world units.
#[derive(Clone, Copy, Debug, PartialEq, Eq, Structural)]
pub struct Point {
    pub x: i64,
    pub y: i64,
}

/// True when `p` lies within the world coordinate range.
pub open spec fn in_world(p: Point) -> bool {
    -WORLD_LIMIT <= p.x <= WORLD_LIMIT && -WORLD_LIMIT <= p.y <= WORLD_LIMIT
}

/// Magnitude of a coordinate difference.
pub open spec fn abs_of(v: int) -> int {
    if v >= 0 {
        v
    } else {
        -v
    }
}

/// True when the horizontal displacement from `from` to `to` is at least
/// as large as the vertical one; the elbow of such a pair runs
/// horizontally first.
pub open spec fn x_dominant(from: Point, to: Point) -> bool {
    abs_of(to.x - from.x) >= abs_of(to.y - from.y)
}

/// The corner of the L-shaped elbow between `from` and `to`: the bend
/// sits at the end of the dominant-axis leg.
pub open spec fn spec_corner(from: Point, to: Point) -> Point {
    if x_dominant(from, to) {
        Point { x: to.x, y: from.y }
    } else {
        Point { x: from.x, y: to.y }
    }
}

/// Computes the elbow corner between `from` and `to`.
pub fn corner_point(from: Point, to: Point) -> (c: Point)
    requires
        in_world(from),
        in_world(to),
    ensures
        c == spec_corner(from, to),
{
    let dx: i64 = to.x - from.x;
    let dy: i64 = to.y - from.y;
    let adx: i64 = if dx >= 0 {
        dx
    } else {
        -dx
    };
    let ady: i64 = if dy >= 0 {
        dy
    } else {
        -dy
    };
    if adx >= ady {
        Point { x: to.x, y: from.y }
    } else {
        Point { x: from.x, y: to.y }
    }
}

/// The elbow corner shares an axis with each endpoint, so both legs of
/// the path `from -> corner -> to` are axis-aligned: each leg varies
/// along a single axis. The corner is `(to.x, from.y)` exactly when the
/// pair is x-dominant, and `(from.x, to.y)` otherwise.
pub proof fn lemma_corner_segments_axis_aligned(from: Point, to: Point)
    ensures
        ({
            let c = spec_corner(from, to);
            (c.x == from.x || c.y == from.y) && (c.x == to.x || c.y == to.y)
        }),
        x_dominant(from, to) ==> spec_corner(from, to) == (Point { x: to.x, y: from.y }),
        !x_dominant(from, to) ==> spec_corner(from, to) == (Point { x: from.x, y: to.y }),
{
}

/// Squared Euclidean distance between `a` and `b`.
pub open spec fn spec_dist_sq(a: Point, b: Point) -> int {
    (a.x - b.x) * (a.x - b.x) + (a.y - b.y) * (a.y - b.y)
}

/// Computes the squared Euclidean distance between `a` and `b`.
pub fn dist_sq(a: Point, b: Point) -> (d: i64)
    requires
        in_world(a),
        in_world(b),
    ensures
        d == spec_dist_sq(a, b),
        d >= 0,
{
    let dx: i64 = a.x - b.x;
    let dy: i64 = a.y - b.y;
    proof {
        assert(dx * dx <= 4_000_000_000_000_000_000 && dx * dx >= 0) by (nonlinear_arith)
            requires -2_000_000_000 <= dx <= 2_000_000_000;
        assert(dy * dy <= 4_000_000_000_000_000_000 && dy * dy >= 0) by (nonlinear_arith)
            requires -2_000_000_000 <= dy <= 2_000_000_000;
    }
    dx * dx + dy * dy
}

/// The coordinate a fraction `num/den` of the way from `a` to `b`, with
/// the division truncated toward `a`.
pub open spec fn spec_lerp(a: int, b: int, num: int, den: int) -> int
    recommends
        1 <= den,
        0 <= num <= den,
{
    if b >= a {
        a + (b - a) * num / den
    } else {
        a - (a - b) * num / den
    }
}

/// An interpolated coordinate stays between its endpoints, and the
/// endpoints themselves are hit exactly at fractions 0 and 1.
pub proof fn lemma_lerp_bounds(a: int, b: int, num: int, den: int)
    requires
        1 <= den,
        0 <= num <= den,
    ensures
        a <= b ==> a <= spec_lerp(a, b, num, den) <= b,
        b <= a ==> b <= spec_lerp(a, b, num, den) <= a,
        num == 0 ==> spec_lerp(a, b, num, den) == a,
        num == den ==> spec_lerp(a, b, num, den) == b,
{
    let d = if b >= a {
        b - a
    } else {
        a - b
    };
    lemma_mul_nonnegative(d, num);
    lemma_div_pos_is_pos(d * num, den);
    lemma_mul_inequality(num, den, d);
    assert(num * d == d * num && den * d == d * den) by (nonlinear_arith);
    lemma_multiply_divide_le(d * num, den, d);
    if num == 0 {
        assert(d * 0 == 0) by (nonlinear_arith);
    }
    if num == den {
        lemma_div_multiples_vanish(d, den);
        assert(d * den == den * d) by (nonlinear_arith);
    }
}

/// The truncated step `d * num / den` is between 0 and `d` whenever
/// `num <= den`; the intermediate product stays below `2^95`.
proof fn lemma_step_bounds(d: int, num: int, den: int)
    requires
        0 <= d <= 2_000_000_000,
        1 <= den,
        0 <= num <= den <= 0xFFFF_FFFF_FFFF_FFFF,
    ensures
        0 <= d * num <= 2_000_000_000 * 0xFFFF_FFFF_FFFF_FFFF,
        0 <= d * num / den <= d,
{
    lemma_mul_upper_bound(d, 2_000_000_000, num, 0xFFFF_FFFF_FFFF_FFFF);
    lemma_mul_nonnegative(d, num);
    lemma_div_pos_is_pos(d * num, den);
    lemma_mul_inequality(num, den, d);
    assert(num * d == d * num && den * d == d * den) by (nonlinear_arith);
    lemma_multiply_divide_le(d * num, den, d);
}

/// Computes `spec_lerp(a, b, num, den)` for world coordinates.
pub fn lerp_coord(a: i64, b: i64, num: u64, den: u64) -> (r: i64)
    requires
        -WORLD_LIMIT <= a <= WORLD_LIMIT,
        -WORLD_LIMIT <= b <= WORLD_LIMIT,
        1 <= den,
        num <= den,
    ensures
        r == spec_lerp(a as int, b as int, num as int, den as int),
{
    if b >= a {
        let d: u64 = (b - a) as u64;
        proof {
            lemma_step_bounds(d as int, num as int, den as int);
        }
        let step_wide: u128 = (d as u128) * (num as u128) / (den as u128);
        let step: i64 = step_wide as i64;
        a + step
    } else {
        let d: u64 = (a - b) as u64;
        proof {
            lemma_step_bounds(d as int, num as int, den as int);
        }
        let step_wide: u128 = (d as u128) * (num as u128) / (den as u128);
        let step: i64 = step_wide as i64;
        a - step
    }
}

/// The point a fraction `num/den` of the way from `a` to `b`,
/// interpolated independently on each axis.
pub open spec fn spec_lerp_point(a: Point, b: Point, num: int, den: int) -> Point {
    Point {
        x: spec_lerp(a.x as int, b.x as int, num, den) as i64,
        y: spec_lerp(a.y as int, b.y as int, num, den) as i64,
    }
}

/// Computes `spec_lerp_point(a, b, num, den)` for world positions.
pub fn lerp_point(a: Point, b: Point, num: u64, den: u64) -> (p: Point)
    requires
        in_world(a),
        in_world(b),
        1 <= den,
        num <= den,
    ensures
        p == spec_lerp_point(a, b, num as int, den as int),
        in_world(p),
{
    proof {
        lemma_lerp_bounds(a.x as int, b.x as int, num as int, den as int);
        lemma_lerp_bounds(a.y as int, b.y as int, num as int, den as int);
    }
    Point { x: lerp_coord(a.x, b.x, num, den), y: lerp_coord(a.y, b.y, num, den) }
}

/// An interpolated point is a convex combination of its two endpoints:
/// on each axis it lies between the endpoint coordinates, it equals `a`
/// at fraction 0 and `b` at fraction 1, and it stays inside the world
/// range whenever the endpoints do. Interpolation never extrapolates
/// beyond the segment.
pub proof fn lemma_lerp_point_between(a: Point, b: Point, num: int, den: int)
    requires
        1 <= den,
        0 <= num <= den,
    ensures
        ({
            let p = spec_lerp_point(a, b, num, den);
            &&& (a.x <= b.x ==> a.x <= p.x <= b.x)
            &&& (b.x <= a.x ==> b.x <= p.x <= a.x)
            &&& (a.y <= b.y ==> a.y <= p.y <= b.y)
            &&& (b.y <= a.y ==> b.y <= p.y <= a.y)
            &&& (num == 0 ==> p == a)
            &&& (num == den ==> p == b)
            &&& (in_world(a) && in_world(b) ==> in_world(p))
        }),
{
    lemma_lerp_bounds(a.x as int, b.x as int, num, den);
    lemma_lerp_bounds(a.y as int, b.y as int, num, den);
}

/// The polyline a committed track follows: straight `[from, to]` when
/// the elbow corner coincides with an endpoint, else `[from, corner, to]`.
pub open spec fn spec_elbow_path(from: Point, to: Point) -> Seq<Point> {
    let c = spec_corner(from, to);
    if c == from || c == to {
        seq![from, to]
    } else {
        seq![from, c, to]
    }
}

/// Builds the elbow polyline from `from` to `to`.
pub fn build_elbow_path(from: Point, to: Point) -> (path: Vec<Point>)
    requires
        in_world(from),
        in_world(to),
        from != to,
    ensures
        path@ == spec_elbow_path(from, to),
        path@.len() >= 2,
        path@[0] == from,
        path@.last() == to,
        forall|i: int| 0 <= i < path@.len() - 1 ==> #[trigger] path@[i] != path@[i + 1],
        forall|i: int| 0 <= i < path@.len() ==> in_world(#[trigger] path@[i]),
{
    let c: Point = corner_point(from, to);
    let mut path: Vec<Point> = Vec::new();
    path.push(from);
    if c != from && c != to {
        path.push(c);
    }
    path.push(to);
    proof {
        if spec_corner(from, to) == from || spec_corner(from, to) == to {
            assert(path@ =~= seq![from, to]);
        } else {
            assert(path@ =~= seq![from, spec_corner(from, to), to]);
        }
    }
    path
}

/// Sign used to orient stroke offsets: 1 for a nonnegative displacement,
/// -1 otherwise.
pub open spec fn spec_sign(v: int) -> int {
    if v >= 0 {
        1
    } else {
        -1
    }
}

/// The closed hexagonal outline of half-width `r` around the elbow path
/// from `from` to `to`, mitered at the corner; end caps extend `r`
/// beyond each endpoint. Listed in boundary order; the last vertex
/// connects back to the first.
pub open spec fn spec_stroke_outline(from: Point, to: Point, r: int) -> Seq<Point> {
    let u = spec_sign(to.x - from.x);
    let v = spec_sign(to.y - from.y);
    if x_dominant(from, to) {
        seq![
            Point { x: (from.x - u * r) as i64, y: (from.y + v * r) as i64 },
            Point { x: (to.x - u * r) as i64, y: (from.y + v * r) as i64 },
            Point { x: (to.x - u * r) as i64, y: (to.y + v * r) as i64 },
            Point { x: (to.x + u * r) as i64, y: (to.y + v * r) as i64 },
            Point { x: (to.x + u * r) as i64, y: (from.y - v * r) as i64 },
            Point { x: (from.x - u * r) as i64, y: (from.y - v * r) as i64 },
        ]
    } else {
        seq![
            Point { x: (from.x - u * r) as i64, y: (from.y - v * r) as i64 },
            Point { x: (from.x - u * r) as i64, y: (to.y + v * r) as i64 },
            Point { x: (to.x + u * r) as i64, y: (to.y + v * r) as i64 },
            Point { x: (to.x + u * r) as i64, y: (to.y - v * r) as i64 },
            Point { x: (from.x + u * r) as i64, y: (to.y - v * r) as i64 },
            Point { x: (from.x + u * r) as i64, y: (from.y - v * r) as i64 },
        ]
    }
}

/// True when `p` and `q` lie on a common horizontal or vertical line.
pub open spec fn axis_aligned(p: Point, q: Point) -> bool {
    p.x == q.x || p.y == q.y
}

/// The stroke outline is a closed rectilinear ring: it has six vertices
/// and every edge, including the one closing the ring, is axis-aligned.
pub proof fn lemma_stroke_outline_rectilinear(from: Point, to: Point, r: int)
    ensures
        spec_stroke_outline(from, to, r).len() == 6,
        forall|i: int|
            0 <= i < 6 ==> #[trigger] axis_aligned(
                spec_stroke_outline(from, to, r)[i],
                spec_stroke_outline(from, to, r)[(i + 1) % 6],
            ),
{
    let outline = spec_stroke_outline(from, to, r);
    assert forall|i: int| 0 <= i < 6 implies #[trigger] axis_aligned(
        outline[i],
        outline[(i + 1) % 6],
    ) by {
        assert(axis_aligned(outline[0], outline[1]));
        assert(axis_aligned(outline[1], outline[2]));
        assert(axis_aligned(outline[2], outline[3]));
        assert(axis_aligned(outline[3], outline[4]));
        assert(axis_aligned(outline[4], outline[5]));
        assert(axis_aligned(outline[5], outline[0]));
    }
}

/// Builds the stroked outline of width `thickness` around the elbow
/// path from `from` to `to`. The fill colour is the renderer's concern;
/// this function fixes the vertices only.
pub fn stroked_segment_polygon(from: Point, to: Point, thickness: u64) -> (poly: Vec<Point>)
    requires
        in_world(from),
        in_world(to),
        thickness <= WORLD_LIMIT as u64,
    ensures
        poly@ == spec_stroke_outline(from, to, (thickness / 2) as int),
        poly@.len() == 6,
{
    let r: i64 = (thickness / 2) as i64;
    let u: i64 = if to.x >= from.x {
        1
    } else {
        -1
    };
    let v: i64 = if to.y >= from.y {
        1
    } else {
        -1
    };
    let dx: i64 = to.x - from.x;
    let dy: i64 = to.y - from.y;
    let adx: i64 = if dx >= 0 {
        dx
    } else {
        -dx
    };
    let ady: i64 = if dy >= 0 {
        dy
    } else {
        -dy
    };
    let mut poly: Vec<Point> = Vec::new();
    if adx >= ady {
        poly.push(Point { x: from.x - u * r, y: from.y + v * r });
        poly.push(Point { x: to.x - u * r, y: from.y + v * r });
        poly.push(Point { x: to.x - u * r, y: to.y + v * r });
        poly.push(Point { x: to.x + u * r, y: to.y + v * r });
        poly.push(Point { x: to.x + u * r, y: from.y - v * r });
        poly.push(Point { x: from.x - u * r, y: from.y - v * r });
    } else {
        poly.push(Point { x: from.x - u * r, y: from.y - v * r });
        poly.push(Point { x: from.x - u * r, y: to.y + v * r });
        poly.push(Point { x: to.x + u * r, y: to.y + v * r });
        poly.push(Point { x: to.x + u * r, y: to.y - v * r });
        poly.push(Point { x: from.x + u * r, y: to.y - v * r });
        poly.push(Point { x: from.x + u * r, y: from.y - v * r });
    }
    proof {
        assert(poly@ =~= spec_stroke_outline(from, to, (thickness / 2) as int));
    }
    poly
}

/// Membership of `p` on the closed segment from `a` to `b`, for the
/// axis-aligned segments a stroke outline is made of.
pub open spec fn on_axis_segment(p: Point, a: Point, b: Point) -> bool {
    if a.x == b.x {
        p.x == a.x && (if a.y <= b.y {
            a.y <= p.y <= b.y
        } else {
            b.y <= p.y <= a.y
        })
    } else if a.y == b.y {
        p.y == a.y && (if a.x <= b.x {
            a.x <= p.x <= b.x
        } else {
            b.x <= p.x <= a.x
        })
    } else {
        false
    }
}

/// A hexagon whose edge chain is horizontal-first and whose x and y
/// breakpoints are strictly ordered (in either direction) is a simple
/// closed ring: distinct vertices, non-adjacent edges disjoint,
/// adjacent edges sharing exactly their common vertex.
proof fn lemma_h_first_hexagon_simple(
    x0: i64,
    x1: i64,
    x2: i64,
    y0: i64,
    y1: i64,
    y2: i64,
    o: Seq<Point>,
)
    requires
        (x0 < x1 < x2) || (x2 < x1 < x0),
        (y0 < y1 < y2) || (y2 < y1 < y0),
        o == seq![
            Point { x: x0, y: y1 },
            Point { x: x1, y: y1 },
            Point { x: x1, y: y2 },
            Point { x: x2, y: y2 },
            Point { x: x2, y: y0 },
            Point { x: x0, y: y0 },
        ],
    ensures
        forall|i: int, j: int| 0 <= i < j < 6 ==> o[i] != o[j],
        forall|i: int, j: int, p: Point|
            0 <= i < 6 && 0 <= j < 6 && i != j && (i + 1) % 6 != j && (j + 1) % 6 != i ==> !(
            #[trigger] on_axis_segment(p, o[i], o[(i + 1) % 6]) && #[trigger] on_axis_segment(
                p,
                o[j],
                o[(j + 1) % 6],
            )),
        forall|i: int, p: Point|
            0 <= i < 6 && #[trigger] on_axis_segment(p, o[i], o[(i + 1) % 6]) && on_axis_segment(
                p,
                o[(i + 1) % 6],
                o[(i + 2) % 6],
            ) ==> p == o[(i + 1) % 6],
{
}

/// The vertical-first counterpart of `lemma_h_first_hexagon_simple`.
proof fn lemma_v_first_hexagon_simple(
    x0: i64,
    x1: i64,
    x2: i64,
    y0: i64,
    y1: i64,
    y2: i64,
    o: Seq<Point>,
)
    requires
        (x0 < x1 < x2) || (x2 < x1 < x0),
        (y0 < y1 < y2) || (y2 < y1 < y0),
        o == seq![
            Point { x: x0, y: y0 },
            Point { x: x0, y: y2 },
            Point { x: x2, y: y2 },
            Point { x: x2, y: y1 },
            Point { x: x1, y: y1 },
            Point { x: x1, y: y0 },
        ],
    ensures
        forall|i: int, j: int| 0 <= i < j < 6 ==> o[i] != o[j],
        forall|i: int, j: int, p: Point|
            0 <= i < 6 && 0 <= j < 6 && i != j && (i + 1) % 6 != j && (j + 1) % 6 != i ==> !(
            #[trigger] on_axis_segment(p, o[i], o[(i + 1) % 6]) && #[trigger] on_axis_segment(
                p,
                o[j],
                o[(j + 1) % 6],
            )),
        forall|i: int, p: Point|
            0 <= i < 6 && #[trigger] on_axis_segment(p, o[i], o[(i + 1) % 6]) && on_axis_segment(
                p,
                o[(i + 1) % 6],
                o[(i + 2) % 6],
            ) ==> p == o[(i + 1) % 6],
{
}

/// For a segment with a genuine elbow (both displacements nonzero) and
/// a positive half-width, the stroke outline is a simple closed
/// hexagon: its six vertices are pairwise distinct, edges that do not
/// meet at a vertex are disjoint, and consecutive edges share exactly
/// their common vertex. The outline never crosses itself.
pub proof fn lemma_stroke_outline_simple(from: Point, to: Point, r: int)
    requires
        in_world(from),
        in_world(to),
        from.x != to.x,
        from.y != to.y,
        1 <= r <= WORLD_LIMIT,
    ensures
        ({
            let o = spec_stroke_outline(from, to, r);
            &&& forall|i: int, j: int| 0 <= i < j < 6 ==> o[i] != o[j]
            &&& forall|i: int, j: int, p: Point|
                0 <= i < 6 && 0 <= j < 6 && i != j && (i + 1) % 6 != j && (j + 1) % 6 != i
                    ==> !(#[trigger] on_axis_segment(p, o[i], o[(i + 1) % 6])
                    && #[trigger] on_axis_segment(p, o[j], o[(j + 1) % 6]))
            &&& forall|i: int, p: Point|
                0 <= i < 6 && #[trigger] on_axis_segment(p, o[i], o[(i + 1) % 6])
                    && on_axis_segment(p, o[(i + 1) % 6], o[(i + 2) % 6]) ==> p == o[(i + 1) % 6]
        }),
{
    let o = spec_stroke_outline(from, to, r);
    assert(1 * r == r && (-1) * r == -r) by (nonlinear_arith);
    let ax = from.x as int;
    let ay = from.y as int;
    let cx = to.x as int;
    let cy = to.y as int;
    if x_dominant(from, to) {
        if to.x >= from.x {
            if to.y >= from.y {
                lemma_h_first_hexagon_simple(
                    (ax - r) as i64,
                    (cx - r) as i64,
                    (cx + r) as i64,
                    (ay - r) as i64,
                    (ay + r) as i64,
                    (cy + r) as i64,
                    o,
                );
            } else {
                lemma_h_first_hexagon_simple(
                    (ax - r) as i64,
                    (cx - r) as i64,
                    (cx + r) as i64,
                    (ay + r) as i64,
                    (ay - r) as i64,
                    (cy - r) as i64,
                    o,
                );
            }
        } else {
            if to.y >= from.y {
                lemma_h_first_hexagon_simple(
                    (ax + r) as i64,
                    (cx + r) as i64,
                    (cx - r) as i64,
                    (ay - r) as i64,
                    (ay + r) as i64,
                    (cy + r) as i64,
                    o,
                );
            } else {
                lemma_h_first_hexagon_simple(
                    (ax + r) as i64,
                    (cx + r) as i64,
                    (cx - r) as i64,
                    (ay + r) as i64,
                    (ay - r) as i64,
                    (cy - r) as i64,
                    o,
                );
            }
        }
    } else {
        if to.x >= from.x {
            if to.y >= from.y {
                lemma_v_first_hexagon_simple(
                    (ax - r) as i64,
                    (ax + r) as i64,
                    (cx + r) as i64,
                    (ay - r) as i64,
                    (cy - r) as i64,
                    (cy + r) as i64,
                    o,
                );
            } else {
                lemma_v_first_hexagon_simple(
                    (ax - r) as i64,
                    (ax + r) as i64,
                    (cx + r) as i64,
                    (ay + r) as i64,
                    (cy + r) as i64,
                    (cy - r) as i64,
                    o,
                );
            }
        } else {
            if to.y >= from.y {
                lemma_v_first_hexagon_simple(
                    (ax + r) as i64,
                    (ax - r) as i64,
                    (cx - r) as i64,
                    (ay - r) as i64,
                    (cy - r) as i64,
                    (cy + r) as i64,
                    o,
                );
            } else {
                lemma_v_first_hexagon_simple(
                    (ax + r) as i64,
                    (ax - r) as i64,
                    (cx - r) as i64,
                    (ay + r) as i64,
                    (cy + r) as i64,
                    (cy - r) as i64,
                    o,
                );
            }
        }
    }
}

/// Membership of `p` on the outline ring: on some edge of the six-edge
/// closed chain `o`.
pub open spec fn on_outline(o: Seq<Point>, p: Point) -> bool {
    exists|i: int| 0 <= i < 6 && #[trigger] on_axis_segment(p, o[i], o[(i + 1) % 6])
}

/// Membership of `p` on the boundary of the axis-aligned rectangle
/// `[xlo, xhi] x [ylo, yhi]`.
pub open spec fn on_box_boundary(p: Point, xlo: i64, xhi: i64, ylo: i64, yhi: i64) -> bool {
    ((p.x == xlo || p.x == xhi) && ylo <= p.y <= yhi) || ((p.y == ylo || p.y == yhi) && xlo
        <= p.x <= xhi)
}

/// A point on one edge of the six-edge chain is on the outline.
proof fn lemma_on_outline_witness(o: Seq<Point>, p: Point, i: int)
    requires
        0 <= i < 6,
        on_axis_segment(p, o[i], o[(i + 1) % 6]),
    ensures
        on_outline(o, p),
{
}

/// For a degenerate elbow -- a purely horizontal or purely vertical
/// segment -- two outline vertices coincide, but the ring the outline
/// traces is still simple: it is exactly the boundary of the rectangle
/// of half-width `r` around the segment, end caps included.
pub proof fn lemma_stroke_outline_degenerate_is_rectangle(from: Point, to: Point, r: int)
    requires
        in_world(from),
        in_world(to),
        from.x == to.x || from.y == to.y,
        from != to,
        1 <= r <= WORLD_LIMIT,
    ensures
        ({
            let o = spec_stroke_outline(from, to, r);
            let xlo = ((if from.x <= to.x {
                from.x
            } else {
                to.x
            }) - r) as i64;
            let xhi = ((if from.x <= to.x {
                to.x
            } else {
                from.x
            }) + r) as i64;
            let ylo = ((if from.y <= to.y {
                from.y
            } else {
                to.y
            }) - r) as i64;
            let yhi = ((if from.y <= to.y {
                to.y
            } else {
                from.y
            }) + r) as i64;
            forall|p: Point| #[trigger] on_outline(o, p) <==> on_box_boundary(
                p,
                xlo,
                xhi,
                ylo,
                yhi,
            )
        }),
{
    let o = spec_stroke_outline(from, to, r);
    assert(1 * r == r && (-1) * r == -r) by (nonlinear_arith);
    let xlo = ((if from.x <= to.x {
        from.x
    } else {
        to.x
    }) - r) as i64;
    let xhi = ((if from.x <= to.x {
        to.x
    } else {
        from.x
    }) + r) as i64;
    let ylo = ((if from.y <= to.y {
        from.y
    } else {
        to.y
    }) - r) as i64;
    let yhi = ((if from.y <= to.y {
        to.y
    } else {
        from.y
    }) + r) as i64;
    assert forall|p: Point| #[trigger] on_outline(o, p) implies on_box_boundary(
        p,
        xlo,
        xhi,
        ylo,
        yhi,
    ) by {
        let i = choose|i: int| 0 <= i < 6 && #[trigger] on_axis_segment(p, o[i], o[(i + 1) % 6]);
        assert(on_axis_segment(p, o[i], o[(i + 1) % 6]));
    }
    assert forall|p: Point| on_box_boundary(p, xlo, xhi, ylo, yhi) implies #[trigger] on_outline(
        o,
        p,
    ) by {
        if from.y == to.y {
            if to.x >= from.x {
                if p.y == yhi && p.x <= (to.x - r) as i64 {
                    assert(on_axis_segment(p, o[0], o[1]));
                    lemma_on_outline_witness(o, p, 0);
                } else if p.y == yhi {
                    assert(on_axis_segment(p, o[2], o[3]));
                    lemma_on_outline_witness(o, p, 2);
                } else if p.y == ylo {
                    assert(on_axis_segment(p, o[4], o[5]));
                    lemma_on_outline_witness(o, p, 4);
                } else if p.x == xlo {
                    assert(on_axis_segment(p, o[5], o[0]));
                    lemma_on_outline_witness(o, p, 5);
                } else {
                    assert(on_axis_segment(p, o[3], o[4]));
                    lemma_on_outline_witness(o, p, 3);
                }
            } else {
                if p.y == yhi && p.x >= (to.x + r) as i64 {
                    assert(on_axis_segment(p, o[0], o[1]));
                    lemma_on_outline_witness(o, p, 0);
                } else if p.y == yhi {
                    assert(on_axis_segment(p, o[2], o[3]));
                    lemma_on_outline_witness(o, p, 2);
                } else if p.y == ylo {
                    assert(on_axis_segment(p, o[4], o[5]));
                    lemma_on_outline_witness(o, p, 4);
                } else if p.x == xlo {
                    assert(on_axis_segment(p, o[3], o[4]));
                    lemma_on_outline_witness(o, p, 3);
                } else {
                    assert(on_axis_segment(p, o[5], o[0]));
                    lemma_on_outline_witness(o, p, 5);
                }
            }
        } else {
            if to.y >= from.y {
                if p.x == xhi && p.y >= (to.y - r) as i64 {
                    assert(on_axis_segment(p, o[2], o[3]));
                    lemma_on_outline_witness(o, p, 2);
                } else if p.x == xhi {
                    assert(on_axis_segment(p, o[4], o[5]));
                    lemma_on_outline_witness(o, p, 4);
                } else if p.x == xlo {
                    assert(on_axis_segment(p, o[0], o[1]));
                    lemma_on_outline_witness(o, p, 0);
                } else if p.y == yhi {
                    assert(on_axis_segment(p, o[1], o[2]));
                    lemma_on_outline_witness(o, p, 1);
                } else {
                    assert(on_axis_segment(p, o[5], o[0]));
                    lemma_on_outline_witness(o, p, 5);
                }
            } else {
                if p.x == xhi && p.y <= (to.y + r) as i64 {
                    assert(on_axis_segment(p, o[2], o[3]));
                    lemma_on_outline_witness(o, p, 2);
                } else if p.x == xhi {
                    assert(on_axis_segment(p, o[4], o[5]));
                    lemma_on_outline_witness(o, p, 4);
                } else if p.x == xlo {
                    assert(on_axis_segment(p, o[0], o[1]));
                    lemma_on_outline_witness(o, p, 0);
                } else if p.y == ylo {
                    assert(on_axis_segment(p, o[1], o[2]));
                    lemma_on_outline_witness(o, p, 1);
                } else {
                    assert(on_axis_segment(p, o[5], o[0]));
                    lemma_on_outline_witness(o, p, 5);
                }
            }
        }
    }
}

} // verus!
