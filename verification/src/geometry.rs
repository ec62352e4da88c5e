//! Wall segments, probe rays, and exact segment intersection.
//!
//! Coordinates are fixed-point integers: a world unit is `SCALE` coordinate
//! units, and every coordinate is kept within `MAX_COORD` in magnitude so that
//! all intermediate products of the intersection formulas fit in `i128`. An
//! intersection point is an exact rational, returned as a [`HitPoint`]
//! numerator pair over a positive common denominator.

use vstd::prelude::*;

verus! {

/// Coordinate units per world unit.
pub const SCALE: i64 = 256;

/// Largest coordinate magnitude the engine accepts (64 world units).
pub const MAX_COORD: i64 = 16384;

/// Display colour attached to a wall segment.
#[derive(Clone, Copy, Debug, PartialEq, Eq, Structural)]
pub enum Colour {
    Black,
    Blue,
    Green,
    Magenta,
    Red,
    White,
    Yellow,
}

/// A bounded straight wall (or a bounded probe ray) in the world plane.
///
/// The infinite line through the endpoints has slope `dy/dx` and offset
/// `line_offset/dx` (both exact rationals); a vertical segment (`dx == 0`)
/// is handled by an explicit case split, never by a division.
#[derive(Clone, Copy, Debug)]
pub struct LineSegment {
    pub start: (i64, i64),
    pub end: (i64, i64),
    pub colour: Colour,
}

/// An exact rational intersection point: `(x, y) = (x_num/den, y_num/den)`.
#[derive(Clone, Copy, Debug, PartialEq, Eq, Structural)]
pub struct HitPoint {
    pub x_num: i128,
    pub y_num: i128,
    pub den: i128,
}

/// A coordinate the engine accepts.
pub open spec fn in_world(v: i64) -> bool {
    -MAX_COORD <= v <= MAX_COORD
}

/// Well-formed segment: coordinates in range and endpoints distinct.
pub open spec fn seg_wf(s: LineSegment) -> bool {
    &&& in_world(s.start.0)
    &&& in_world(s.start.1)
    &&& in_world(s.end.0)
    &&& in_world(s.end.1)
    &&& !(s.start.0 == s.end.0 && s.start.1 == s.end.1)
}

/// Horizontal extent of the segment.
pub open spec fn seg_dx(s: LineSegment) -> int {
    s.end.0 - s.start.0
}

/// Vertical extent of the segment.
pub open spec fn seg_dy(s: LineSegment) -> int {
    s.end.1 - s.start.1
}

/// A segment whose endpoints share an x-coordinate has an infinite slope.
pub open spec fn is_vertical(s: LineSegment) -> bool {
    s.start.0 == s.end.0
}

/// Numerator of the line's y-intercept over denominator `seg_dx(s)`:
/// the infinite line through `s` is `y * seg_dx(s) == seg_dy(s) * x + line_offset(s)`.
pub open spec fn line_offset(s: LineSegment) -> int {
    s.start.1 * seg_dx(s) - seg_dy(s) * s.start.0
}

/// `x` lies in the closed interval between `a` and `b`, whichever is larger.
pub open spec fn between_int(x: int, a: int, b: int) -> bool {
    (a <= x <= b) || (b <= x <= a)
}

/// Well-formed hit point: positive denominator and magnitudes small enough
/// that a squared distance to it still fits in `i128`.
pub open spec fn hit_wf(h: HitPoint) -> bool {
    &&& 1 <= h.den <= 0x4000_0000_0000i128
    &&& -0x2000_0000_0000_0000i128 <= h.x_num <= 0x2000_0000_0000_0000i128
    &&& -0x4000_0000_0000_0000i128 <= h.y_num <= 0x4000_0000_0000_0000i128
}

impl View for HitPoint {
    type V = (int, int, int);

    open spec fn view(&self) -> (int, int, int) {
        (self.x_num as int, self.y_num as int, self.den as int)
    }
}

/// Canonical constructor result: endpoints ordered by ascending x
/// (ascending y on a vertical tie), so that the same unordered endpoint
/// pair always builds the same segment.
pub open spec fn spec_from_points(a: (i64, i64), b: (i64, i64), colour: Colour) -> LineSegment {
    if a.0 < b.0 || (a.0 == b.0 && a.1 <= b.1) {
        LineSegment { start: a, end: b, colour }
    } else {
        LineSegment { start: b, end: a, colour }
    }
}

/// `x` lies between `a` and `b` inclusive, in either order.
pub fn between(x: i64, a: i64, b: i64) -> (r: bool)
    ensures
        r == between_int(x as int, a as int, b as int),
{
    if a < b {
        a <= x && x <= b
    } else {
        b <= x && x <= a
    }
}

/// Constructing a segment from the two endpoints in either order yields the
/// very same segment, so canonicalization cannot change which rays hit it:
/// every intersection query on the two constructions agrees.
pub proof fn lemma_from_points_order_irrelevant(
    a: (i64, i64),
    b: (i64, i64),
    colour: Colour,
    other: LineSegment,
)
    requires
        !(a.0 == b.0 && a.1 == b.1),
    ensures
        spec_from_points(a, b, colour) == spec_from_points(b, a, colour),
        spec_intersection(spec_from_points(a, b, colour), other) == spec_intersection(
            spec_from_points(b, a, colour),
            other,
        ),
{
}

/// The intersection algorithm, as an exact mathematical case split.
///
/// The result is the intersection point as a rational `(x_num, y_num, den)`
/// with `den > 0`, or `None` when the lines are parallel (or coincident and
/// not both vertical), or when the crossing point falls outside either
/// segment's bounded extent. Two coincident vertical segments report the
/// shared x with a zero y, a degenerate-case sentinel.
pub open spec fn spec_intersection(a: LineSegment, b: LineSegment) -> Option<(int, int, int)> {
    if is_vertical(b) {
        if is_vertical(a) {
            if a.start.0 == b.start.0 {
                Some((a.start.0 as int, 0int, 1int))
            } else {
                None
            }
        } else {
            spec_vertical_hit(a, b)
        }
    } else if is_vertical(a) {
        spec_vertical_hit(b, a)
    } else {
        spec_general_hit(a, b)
    }
}

/// Hit of non-vertical `a` against vertical `v`: evaluate `a`'s line at the
/// shared x, accept when that x lies within `a`'s x-extent and the computed
/// y lies within `v`'s y-extent (all bounds inclusive).
pub open spec fn spec_vertical_hit(a: LineSegment, v: LineSegment) -> Option<(int, int, int)> {
    let xv = v.start.0 as int;
    let yn0 = seg_dy(a) * xv + line_offset(a);
    let d = if seg_dx(a) > 0 {
        seg_dx(a)
    } else {
        -seg_dx(a)
    };
    let yn = if seg_dx(a) > 0 {
        yn0
    } else {
        -yn0
    };
    if between_int(xv, a.start.0 as int, a.end.0 as int) && between_int(
        yn,
        v.start.1 * d,
        v.end.1 * d,
    ) {
        Some((xv * d, yn, d))
    } else {
        None
    }
}

/// Hit of two non-vertical segments: solve the two line equations for x,
/// accept when x lies within both segments' x-extents (inclusive). Parallel
/// lines (equal slopes, coincident or not) yield no intersection.
pub open spec fn spec_general_hit(a: LineSegment, b: LineSegment) -> Option<(int, int, int)> {
    let det0 = seg_dy(a) * seg_dx(b) - seg_dy(b) * seg_dx(a);
    if det0 == 0 {
        None
    } else {
        let xn0 = line_offset(b) * seg_dx(a) - line_offset(a) * seg_dx(b);
        let det = if det0 > 0 {
            det0
        } else {
            -det0
        };
        let xn = if det0 > 0 {
            xn0
        } else {
            -xn0
        };
        if between_int(xn, a.start.0 * det, a.end.0 * det) && between_int(
            xn,
            b.start.0 * det,
            b.end.0 * det,
        ) {
            let den0 = seg_dx(a) * det;
            let yn0 = seg_dy(a) * xn + line_offset(a) * det;
            if den0 > 0 {
                Some((xn * seg_dx(a), yn0, den0))
            } else {
                Some((-(xn * seg_dx(a)), -yn0, -den0))
            }
        } else {
            None
        }
    }
}

impl LineSegment {
    /// Builds a wall segment from two distinct endpoints, in canonical order.
    pub fn from_points(start: (i64, i64), end: (i64, i64), colour: Colour) -> (r: LineSegment)
        requires
            in_world(start.0),
            in_world(start.1),
            in_world(end.0),
            in_world(end.1),
            !(start.0 == end.0 && start.1 == end.1),
        ensures
            r == spec_from_points(start, end, colour),
            seg_wf(r),
    {
        if start.0 < end.0 || (start.0 == end.0 && start.1 <= end.1) {
            LineSegment { start, end, colour }
        } else {
            LineSegment { start: end, end: start, colour }
        }
    }

    /// Builds a probe ray as a bounded segment from `start` along `dir`.
    ///
    /// The caller derives `dir` from the sweep angle (a fixed probe length
    /// along the heading); the engine needs only the resulting integer
    /// direction.
    pub fn ray(start: (i64, i64), dir: (i64, i64)) -> (r: LineSegment)
        requires
            in_world(start.0),
            in_world(start.1),
            !(dir.0 == 0 && dir.1 == 0),
            -MAX_COORD <= start.0 + dir.0 <= MAX_COORD,
            -MAX_COORD <= start.1 + dir.1 <= MAX_COORD,
        ensures
            r.start == start,
            r.end.0 == start.0 + dir.0,
            r.end.1 == start.1 + dir.1,
            r.colour == Colour::White,
            seg_wf(r),
    {
        LineSegment { start, end: (start.0 + dir.0, start.1 + dir.1), colour: Colour::White }
    }

    /// Exact intersection of two bounded segments, the self-vertical case
    /// delegated to the mirrored vertical case.
    ///
    /// Returns the crossing point of the two infinite lines as an exact
    /// rational when it lies within both segments' bounded extents
    /// (inclusive at endpoints); `None` when the lines are parallel or the
    /// crossing falls outside either extent. Two vertical segments on the
    /// same line report the shared x with a zero y, a degenerate-case
    /// sentinel.
    pub fn intersects(&self, other: &LineSegment) -> (r: Option<HitPoint>)
        requires
            seg_wf(*self),
            seg_wf(*other),
        ensures
            match r {
                Some(h) => spec_intersection(*self, *other) == Some(h@) && hit_wf(h),
                None => spec_intersection(*self, *other) is None,
            },
    {
        if other.start.0 == other.end.0 {
            if self.start.0 == self.end.0 {
                if self.start.0 == other.start.0 {
                    Some(HitPoint { x_num: self.start.0 as i128, y_num: 0, den: 1 })
                } else {
                    None
                }
            } else {
                cross_with_vertical(self, other)
            }
        } else if self.start.0 == self.end.0 {
            cross_with_vertical(other, self)
        } else {
            general_cross(self, other)
        }
    }

    /// The y-coordinate of this segment's infinite line at `x`, as an exact
    /// fraction `(numerator, denominator)` with a positive denominator.
    pub fn find_y(&self, x: i64) -> (r: (i128, i128))
        requires
            seg_wf(*self),
            !is_vertical(*self),
            in_world(x),
        ensures
            r.1 > 0,
            r.0 * seg_dx(*self) == (seg_dy(*self) * x + line_offset(*self)) * r.1,
    {
        let dxa: i128 = (self.end.0 as i128) - (self.start.0 as i128);
        let dya: i128 = (self.end.1 as i128) - (self.start.1 as i128);
        proof {
            lemma_mul_bound(self.start.1 as int, dxa as int, 0x4000, 0x8000);
            lemma_mul_bound(dya as int, self.start.0 as int, 0x8000, 0x4000);
            lemma_mul_bound(dya as int, x as int, 0x8000, 0x4000);
        }
        let na: i128 = (self.start.1 as i128) * dxa - dya * (self.start.0 as i128);
        let yn0: i128 = dya * (x as i128) + na;
        let r = if dxa > 0 {
            (yn0, dxa)
        } else {
            (-yn0, -dxa)
        };
        proof {
            let num = seg_dy(*self) * x + line_offset(*self);
            if dxa <= 0 {
                assert(r.0 * seg_dx(*self) == num * r.1) by (nonlinear_arith)
                    requires
                        r.0 == -num,
                        r.1 == -seg_dx(*self),
                ;
            }
        }
        r
    }
}

/// Intersection of non-vertical `a` with vertical `v`: `a`'s line evaluated
/// at the shared x, accepted within both bounded extents.
fn cross_with_vertical(a: &LineSegment, v: &LineSegment) -> (r: Option<HitPoint>)
    requires
        seg_wf(*a),
        seg_wf(*v),
        !is_vertical(*a),
        is_vertical(*v),
    ensures
        match r {
            Some(h) => spec_vertical_hit(*a, *v) == Some(h@) && hit_wf(h),
            None => spec_vertical_hit(*a, *v) is None,
        },
{
    let xv = v.start.0;
    let dxa: i128 = (a.end.0 as i128) - (a.start.0 as i128);
    let dya: i128 = (a.end.1 as i128) - (a.start.1 as i128);
    proof {
        lemma_mul_bound(a.start.1 as int, dxa as int, 0x4000, 0x8000);
        lemma_mul_bound(dya as int, a.start.0 as int, 0x8000, 0x4000);
        lemma_mul_bound(dya as int, xv as int, 0x8000, 0x4000);
    }
    let na: i128 = (a.start.1 as i128) * dxa - dya * (a.start.0 as i128);
    let yn0: i128 = dya * (xv as i128) + na;
    let yn: i128 = if dxa > 0 {
        yn0
    } else {
        -yn0
    };
    let d: i128 = if dxa > 0 {
        dxa
    } else {
        -dxa
    };
    proof {
        lemma_mul_bound(v.start.1 as int, d as int, 0x4000, 0x8000);
        lemma_mul_bound(v.end.1 as int, d as int, 0x4000, 0x8000);
        lemma_mul_bound(xv as int, d as int, 0x4000, 0x8000);
    }
    let lo: i128 = (v.start.1 as i128) * d;
    let hi: i128 = (v.end.1 as i128) * d;
    if between(xv, a.start.0, a.end.0) && ((lo <= yn && yn <= hi) || (hi <= yn && yn <= lo)) {
        Some(HitPoint { x_num: (xv as i128) * d, y_num: yn, den: d })
    } else {
        None
    }
}

/// Intersection of two non-vertical segments: solve the two line equations
/// for x, accept within both bounded x-extents.
fn general_cross(a: &LineSegment, b: &LineSegment) -> (r: Option<HitPoint>)
    requires
        seg_wf(*a),
        seg_wf(*b),
        !is_vertical(*a),
        !is_vertical(*b),
    ensures
        match r {
            Some(h) => spec_general_hit(*a, *b) == Some(h@) && hit_wf(h),
            None => spec_general_hit(*a, *b) is None,
        },
{
    let dxa: i128 = (a.end.0 as i128) - (a.start.0 as i128);
    let dya: i128 = (a.end.1 as i128) - (a.start.1 as i128);
    let dxb: i128 = (b.end.0 as i128) - (b.start.0 as i128);
    let dyb: i128 = (b.end.1 as i128) - (b.start.1 as i128);
    proof {
        lemma_mul_bound(a.start.1 as int, dxa as int, 0x4000, 0x8000);
        lemma_mul_bound(dya as int, a.start.0 as int, 0x8000, 0x4000);
        lemma_mul_bound(b.start.1 as int, dxb as int, 0x4000, 0x8000);
        lemma_mul_bound(dyb as int, b.start.0 as int, 0x8000, 0x4000);
        lemma_mul_bound(dya as int, dxb as int, 0x8000, 0x8000);
        lemma_mul_bound(dyb as int, dxa as int, 0x8000, 0x8000);
    }
    let na: i128 = (a.start.1 as i128) * dxa - dya * (a.start.0 as i128);
    let nb: i128 = (b.start.1 as i128) * dxb - dyb * (b.start.0 as i128);
    let det0: i128 = dya * dxb - dyb * dxa;
    if det0 == 0 {
        return None;
    }
    proof {
        lemma_mul_bound(nb as int, dxa as int, 0x4000_0000, 0x8000);
        lemma_mul_bound(na as int, dxb as int, 0x4000_0000, 0x8000);
    }
    let xn0: i128 = nb * dxa - na * dxb;
    let xn: i128 = if det0 > 0 {
        xn0
    } else {
        -xn0
    };
    let det: i128 = if det0 > 0 {
        det0
    } else {
        -det0
    };
    proof {
        lemma_mul_bound(a.start.0 as int, det as int, 0x4000, 0x8000_0000);
        lemma_mul_bound(a.end.0 as int, det as int, 0x4000, 0x8000_0000);
        lemma_mul_bound(b.start.0 as int, det as int, 0x4000, 0x8000_0000);
        lemma_mul_bound(b.end.0 as int, det as int, 0x4000, 0x8000_0000);
    }
    let alo: i128 = (a.start.0 as i128) * det;
    let ahi: i128 = (a.end.0 as i128) * det;
    let blo: i128 = (b.start.0 as i128) * det;
    let bhi: i128 = (b.end.0 as i128) * det;
    if ((alo <= xn && xn <= ahi) || (ahi <= xn && xn <= alo)) && ((blo <= xn && xn <= bhi) || (
    bhi <= xn && xn <= blo)) {
        proof {
            lemma_mul_bound(dxa as int, det as int, 0x8000, 0x8000_0000);
            lemma_mul_bound(dya as int, xn as int, 0x8000, 0x4000_0000_0000);
            lemma_mul_bound(na as int, det as int, 0x4000_0000, 0x8000_0000);
            lemma_mul_bound(xn as int, dxa as int, 0x4000_0000_0000, 0x8000);
            assert(dxa * det != 0) by (nonlinear_arith)
                requires
                    dxa != 0,
                    det != 0,
            ;
        }
        let den0: i128 = dxa * det;
        let yn0: i128 = dya * xn + na * det;
        let xnum: i128 = xn * dxa;
        if den0 > 0 {
            Some(HitPoint { x_num: xnum, y_num: yn0, den: den0 })
        } else {
            Some(HitPoint { x_num: -xnum, y_num: -yn0, den: -den0 })
        }
    } else {
        None
    }
}

/// The rational point `p = (x_num, y_num, den)` lies on the infinite line
/// through segment `s`: `y * dx == dy * x + offset`, cleared of denominators.
/// For a vertical segment this reduces to `x` equalling the shared
/// x-coordinate.
pub open spec fn on_line(s: LineSegment, p: (int, int, int)) -> bool {
    p.1 * seg_dx(s) == seg_dy(s) * p.0 + line_offset(s) * p.2
}

/// `on_line` only depends on the rational point, not its sign normalization.
proof fn lemma_on_line_neg(s: LineSegment, p: (int, int, int))
    requires
        on_line(s, p),
    ensures
        on_line(s, (-p.0, -p.1, -p.2)),
{
    assert((-p.1) * seg_dx(s) == seg_dy(s) * (-p.0) + line_offset(s) * (-p.2)) by (nonlinear_arith)
        requires
            p.1 * seg_dx(s) == seg_dy(s) * p.0 + line_offset(s) * p.2,
    ;
}

/// A hit of a non-vertical segment against a vertical one lies on both lines.
proof fn lemma_vertical_hit_on_lines(a: LineSegment, v: LineSegment)
    requires
        seg_wf(a),
        seg_wf(v),
        !is_vertical(a),
        is_vertical(v),
        spec_vertical_hit(a, v) is Some,
    ensures
        ({
            let p = spec_vertical_hit(a, v)->Some_0;
            on_line(a, p) && on_line(v, p) && p.2 >= 1
        }),
{
    let xv = v.start.0 as int;
    let dxa = seg_dx(a);
    let dya = seg_dy(a);
    let na = line_offset(a);
    let yn0 = dya * xv + na;
    let q = (xv * dxa, yn0, dxa);
    assert(yn0 * seg_dx(a) == seg_dy(a) * (xv * dxa) + na * dxa) by (nonlinear_arith)
        requires
            yn0 == seg_dy(a) * xv + na,
            dxa == seg_dx(a),
    ;
    assert(yn0 * seg_dx(v) == seg_dy(v) * (xv * dxa) + line_offset(v) * dxa) by (nonlinear_arith)
        requires
            seg_dx(v) == 0,
            line_offset(v) == -(seg_dy(v) * xv),
            dxa == seg_dx(a),
    ;
    assert(on_line(a, q) && on_line(v, q));
    if dxa <= 0 {
        lemma_on_line_neg(a, q);
        lemma_on_line_neg(v, q);
        assert(xv * -dxa == -(xv * dxa)) by (nonlinear_arith);
    }
}

/// Exchange step of the crossing-point algebra, over a ring.
proof fn lemma_exchange(u: int, v: int, p: int, r: int, xn0: int, det0: int)
    by (nonlinear_arith)
    requires
        xn0 == r - p,
        det0 == u - v,
    ensures
        u * xn0 + p * det0 == v * xn0 + r * det0,
{
}

/// A hit of two non-vertical segments lies on both lines.
proof fn lemma_general_hit_on_lines(a: LineSegment, b: LineSegment)
    requires
        seg_wf(a),
        seg_wf(b),
        !is_vertical(a),
        !is_vertical(b),
        spec_general_hit(a, b) is Some,
    ensures
        ({
            let p = spec_general_hit(a, b)->Some_0;
            on_line(a, p) && on_line(b, p) && p.2 >= 1
        }),
{
    let dxa = seg_dx(a);
    let dya = seg_dy(a);
    let dxb = seg_dx(b);
    let dyb = seg_dy(b);
    let na = line_offset(a);
    let nb = line_offset(b);
    let det0 = dya * dxb - dyb * dxa;
    let xn0 = nb * dxa - na * dxb;
    let q0 = (xn0 * dxa, dya * xn0 + na * det0, dxa * det0);
    assert((dya * xn0 + na * det0) * dxa == dya * (xn0 * dxa) + na * (dxa * det0))
        by (nonlinear_arith);
    assert((dya * xn0 + na * det0) * dxb == (dya * dxb) * xn0 + (na * dxb) * det0)
        by (nonlinear_arith);
    assert(dyb * (xn0 * dxa) + nb * (dxa * det0) == (dyb * dxa) * xn0 + (nb * dxa) * det0)
        by (nonlinear_arith);
    lemma_exchange(dya * dxb, dyb * dxa, na * dxb, nb * dxa, xn0, det0);
    assert(on_line(a, q0) && on_line(b, q0));
    let det = if det0 > 0 {
        det0
    } else {
        -det0
    };
    let xn = if det0 > 0 {
        xn0
    } else {
        -xn0
    };
    let q = (xn * dxa, dya * xn + na * det, dxa * det);
    if det0 > 0 {
        assert(q == q0);
    } else {
        assert(q.0 == -q0.0 && q.1 == -q0.1 && q.2 == -q0.2) by (nonlinear_arith)
            requires
                xn == -xn0,
                det == -det0,
                q == ((xn * dxa, dya * xn + na * det, dxa * det)),
                q0 == ((xn0 * dxa, dya * xn0 + na * det0, dxa * det0)),
        ;
        lemma_on_line_neg(a, q0);
        lemma_on_line_neg(b, q0);
    }
    assert(on_line(a, q) && on_line(b, q));
    assert(dxa * det != 0) by (nonlinear_arith)
        requires
            dxa != 0,
            det != 0,
    ;
    if dxa * det <= 0 {
        lemma_on_line_neg(a, q);
        lemma_on_line_neg(b, q);
    }
}

/// Any reported intersection of two segments not both vertical is an exact
/// rational point on both infinite lines (for a vertical segment: its shared
/// x-coordinate), with a positive denominator.
pub proof fn lemma_hit_on_both_lines(a: LineSegment, b: LineSegment)
    requires
        seg_wf(a),
        seg_wf(b),
        !(is_vertical(a) && is_vertical(b)),
        spec_intersection(a, b) is Some,
    ensures
        ({
            let p = spec_intersection(a, b)->Some_0;
            on_line(a, p) && on_line(b, p) && p.2 >= 1
        }),
{
    if is_vertical(b) {
        lemma_vertical_hit_on_lines(a, b);
    } else if is_vertical(a) {
        lemma_vertical_hit_on_lines(b, a);
    } else {
        lemma_general_hit_on_lines(a, b);
    }
}

/// Scaling a closed-interval containment by any factor preserves it (the
/// interval bounds swap when the factor is negative).
proof fn lemma_between_scale(x: int, a: int, b: int, c: int)
    by (nonlinear_arith)
    requires
        between_int(x, a, b),
    ensures
        between_int(x * c, a * c, b * c),
{
}

/// Any reported intersection of two segments not both vertical lies within
/// both segments' bounded x-extents (inclusive), and within the y-extent of
/// a vertical side, cleared of the denominator `p.2`.
pub proof fn lemma_hit_within_extents(a: LineSegment, b: LineSegment)
    requires
        seg_wf(a),
        seg_wf(b),
        !(is_vertical(a) && is_vertical(b)),
        spec_intersection(a, b) is Some,
    ensures
        ({
            let p = spec_intersection(a, b)->Some_0;
            &&& between_int(p.0, a.start.0 * p.2, a.end.0 * p.2)
            &&& between_int(p.0, b.start.0 * p.2, b.end.0 * p.2)
            &&& is_vertical(a) ==> between_int(p.1, a.start.1 * p.2, a.end.1 * p.2)
            &&& is_vertical(b) ==> between_int(p.1, b.start.1 * p.2, b.end.1 * p.2)
        }),
{
    if is_vertical(b) {
        lemma_vertical_hit_extents(a, b);
    } else if is_vertical(a) {
        lemma_vertical_hit_extents(b, a);
    } else {
        lemma_general_hit_extents(a, b);
    }
}

/// Extent containment for the vertical-against-slanted case.
proof fn lemma_vertical_hit_extents(a: LineSegment, v: LineSegment)
    requires
        seg_wf(a),
        seg_wf(v),
        !is_vertical(a),
        is_vertical(v),
        spec_vertical_hit(a, v) is Some,
    ensures
        ({
            let p = spec_vertical_hit(a, v)->Some_0;
            &&& between_int(p.0, a.start.0 * p.2, a.end.0 * p.2)
            &&& between_int(p.0, v.start.0 * p.2, v.end.0 * p.2)
            &&& between_int(p.1, v.start.1 * p.2, v.end.1 * p.2)
        }),
{
    let p = spec_vertical_hit(a, v)->Some_0;
    let xv = v.start.0 as int;
    lemma_between_scale(xv, a.start.0 as int, a.end.0 as int, p.2);
    assert(xv * p.2 == p.0 && a.start.0 * p.2 == (a.start.0 as int) * p.2 && a.end.0 * p.2 == (
    a.end.0 as int) * p.2);
}

/// Extent containment for the general case.
proof fn lemma_general_hit_extents(a: LineSegment, b: LineSegment)
    requires
        seg_wf(a),
        seg_wf(b),
        !is_vertical(a),
        !is_vertical(b),
        spec_general_hit(a, b) is Some,
    ensures
        ({
            let p = spec_general_hit(a, b)->Some_0;
            &&& between_int(p.0, a.start.0 * p.2, a.end.0 * p.2)
            &&& between_int(p.0, b.start.0 * p.2, b.end.0 * p.2)
        }),
{
    let p = spec_general_hit(a, b)->Some_0;
    let dxa = seg_dx(a);
    let dya = seg_dy(a);
    let dxb = seg_dx(b);
    let dyb = seg_dy(b);
    let na = line_offset(a);
    let nb = line_offset(b);
    let det0 = dya * dxb - dyb * dxa;
    let xn0 = nb * dxa - na * dxb;
    let det = if det0 > 0 {
        det0
    } else {
        -det0
    };
    let xn = if det0 > 0 {
        xn0
    } else {
        -xn0
    };
    let den0 = dxa * det;
    let c = if den0 > 0 {
        dxa
    } else {
        -dxa
    };
    assert(between_int(xn, a.start.0 * det, a.end.0 * det));
    assert(between_int(xn, b.start.0 * det, b.end.0 * det));
    lemma_between_scale(xn, a.start.0 * det, a.end.0 * det, c);
    lemma_between_scale(xn, b.start.0 * det, b.end.0 * det, c);
    assert(xn * c == p.0 && det * c == p.2) by (nonlinear_arith)
        requires
            c == (if den0 > 0 {
                dxa
            } else {
                -dxa
            }),
            den0 == dxa * det,
            p.0 == (if den0 > 0 {
                xn * dxa
            } else {
                -(xn * dxa)
            }),
            p.2 == (if den0 > 0 {
                den0
            } else {
                -den0
            }),
    ;
    assert((a.start.0 * det) * c == a.start.0 * p.2 && (a.end.0 * det) * c == a.end.0 * p.2
        && (b.start.0 * det) * c == b.start.0 * p.2 && (b.end.0 * det) * c == b.end.0 * p.2)
        by (nonlinear_arith)
        requires
            det * c == p.2,
    ;
}

/// Intersection queries where exactly one side is vertical are symmetric:
/// either order of the query reports the same point or the same miss.
pub proof fn lemma_vertical_symmetry(a: LineSegment, b: LineSegment)
    requires
        is_vertical(a) != is_vertical(b),
    ensures
        spec_intersection(a, b) == spec_intersection(b, a),
{
}

/// A product of values bounded in magnitude is bounded by the product of the
/// bounds.
pub proof fn lemma_mul_bound(a: int, b: int, m: int, n: int)
    by (nonlinear_arith)
    requires
        -m <= a <= m,
        -n <= b <= n,
        0 <= m,
        0 <= n,
    ensures
        -(m * n) <= a * b <= m * n,
{
}

/// A square is non-negative and bounded by the square of the bound.
pub proof fn lemma_sq_bound(a: int, m: int)
    by (nonlinear_arith)
    requires
        -m <= a <= m,
        0 <= m,
    ensures
        0 <= a * a <= m * m,
{
}

/// Squared straight-line distance between two points, in squared coordinate
/// units.
pub open spec fn sq_dist_points(a: (i64, i64), b: (i64, i64)) -> int {
    (b.0 - a.0) * (b.0 - a.0) + (b.1 - a.1) * (b.1 - a.1)
}

/// Squared distance from point `o` to the rational point `p = (x_num, y_num, den)`,
/// as a numerator over the denominator `p.2 * p.2`.
pub open spec fn sq_dist_num(o: (i64, i64), p: (int, int, int)) -> int {
    let px = p.0 - o.0 * p.2;
    let py = p.1 - o.1 * p.2;
    px * px + py * py
}

/// `d` is the floor of the straight-line distance from `o` to the rational
/// point `p`, in coordinate units: `d <= dist < d + 1`, stated by squaring.
pub open spec fn is_floor_dist(o: (i64, i64), p: (int, int, int), d: int) -> bool {
    &&& 0 <= d
    &&& (d * p.2) * (d * p.2) <= sq_dist_num(o, p)
    &&& sq_dist_num(o, p) < ((d + 1) * p.2) * ((d + 1) * p.2)
}

/// The floor distance to a fixed point is unique.
pub proof fn lemma_floor_dist_unique(o: (i64, i64), p: (int, int, int), d1: int, d2: int)
    requires
        p.2 >= 1,
        is_floor_dist(o, p, d1),
        is_floor_dist(o, p, d2),
    ensures
        d1 == d2,
{
    let m = sq_dist_num(o, p);
    assert(d1 == d2) by (nonlinear_arith)
        requires
            p.2 >= 1,
            0 <= d1,
            0 <= d2,
            (d1 * p.2) * (d1 * p.2) <= m,
            m < ((d1 + 1) * p.2) * ((d1 + 1) * p.2),
            (d2 * p.2) * (d2 * p.2) <= m,
            m < ((d2 + 1) * p.2) * ((d2 + 1) * p.2),
    ;
}

/// Floor of the square root of a non-negative integer, by binary search.
fn isqrt(n: i128) -> (r: i128)
    requires
        0 <= n < 0x4000_0000_0000_0000_0000_0000_0000_0000i128,
    ensures
        0 <= r,
        r * r <= n,
        n < (r + 1) * (r + 1),
{
    let mut lo: i128 = 0;
    let mut hi: i128 = 0x8000_0000_0000_0000i128;
    proof {
        assert(hi * hi == 0x4000_0000_0000_0000_0000_0000_0000_0000i128);
    }
    while hi - lo > 1
        invariant
            0 <= lo < hi <= 0x8000_0000_0000_0000i128,
            lo * lo <= n,
            n < hi * hi,
        decreases hi - lo,
    {
        let mid: i128 = lo + (hi - lo) / 2;
        proof {
            lemma_mul_bound(mid as int, mid as int, 0x8000_0000_0000_0000i128 as int,
                0x8000_0000_0000_0000i128 as int);
        }
        if mid * mid <= n {
            lo = mid;
        } else {
            hi = mid;
        }
    }
    lo
}

/// Floor of the straight-line distance from `origin` to an exact rational
/// intersection point, in coordinate units.
pub fn dist_to_hit(origin: (i64, i64), h: &HitPoint) -> (r: i64)
    requires
        hit_wf(*h),
        in_world(origin.0),
        in_world(origin.1),
    ensures
        0 <= r,
        is_floor_dist(origin, h@, r as int),
{
    proof {
        lemma_mul_bound(origin.0 as int, h.den as int, 0x4000, 0x4000_0000_0000);
        lemma_mul_bound(origin.1 as int, h.den as int, 0x4000, 0x4000_0000_0000);
    }
    let px: i128 = h.x_num - (origin.0 as i128) * h.den;
    let py: i128 = h.y_num - (origin.1 as i128) * h.den;
    proof {
        lemma_sq_bound(px as int, 0x3000_0000_0000_0000);
        lemma_sq_bound(py as int, 0x5000_0000_0000_0000);
    }
    let m: i128 = px * px + py * py;
    let s = isqrt(m);
    proof {
        assert(s < 0x8000_0000_0000_0000i128) by (nonlinear_arith)
            requires
                0 <= s,
                s * s <= m,
                m < 0x4000_0000_0000_0000_0000_0000_0000_0000i128,
        ;
    }
    let su: u64 = s as u64;
    let du: u64 = h.den as u64;
    let q: u64 = su / du;
    proof {
        vstd::arithmetic::div_mod::lemma_fundamental_div_mod(su as int, du as int);
        vstd::arithmetic::div_mod::lemma_mod_bound(su as int, du as int);
        let qi = q as int;
        let den = h.den as int;
        assert(q == su as int / du as int);
        assert(qi * den <= su as int && su as int + 1 <= den * (qi + 1)) by (nonlinear_arith)
            requires
                1 <= den,
                su as int == den * qi + su as int % den,
                0 <= su as int % den < den,
        ;
        assert((qi * den) * (qi * den) <= m && m + 1 <= ((qi + 1) * den) * ((qi + 1) * den))
            by (nonlinear_arith)
            requires
                0 <= qi,
                1 <= den,
                qi * den <= s as int,
                s as int + 1 <= den * (qi + 1),
                (s as int) * (s as int) <= m,
                m + 1 <= (s as int + 1) * (s as int + 1),
        ;
        assert(sq_dist_num(origin, h@) == m as int);
    }
    q as i64
}

/// Floor of the straight-line distance between two points, in coordinate
/// units.
pub fn get_distance(point_a: (i64, i64), point_b: (i64, i64)) -> (r: i64)
    requires
        in_world(point_a.0),
        in_world(point_a.1),
        in_world(point_b.0),
        in_world(point_b.1),
    ensures
        0 <= r,
        r * r <= sq_dist_points(point_a, point_b),
        sq_dist_points(point_a, point_b) < (r + 1) * (r + 1),
{
    let dx: i128 = (point_b.0 as i128) - (point_a.0 as i128);
    let dy: i128 = (point_b.1 as i128) - (point_a.1 as i128);
    proof {
        lemma_sq_bound(dx as int, 0x8000);
        lemma_sq_bound(dy as int, 0x8000);
    }
    let m: i128 = dx * dx + dy * dy;
    let s = isqrt(m);
    proof {
        assert(s < 0x10000) by (nonlinear_arith)
            requires
                0 <= s,
                s * s <= m,
                m <= 0x8000_0000i128,
        ;
    }
    s as i64
}

} // verus!
