//! The ray-casting projector: nearest wall hit per probe ray, and the mapping
//! from hit distance to a drawn column height.
//!
//! For a viewer at a fixed origin, the caller sweeps one probe ray per screen
//! column across the field of view and hands each ray to [`cast_column`],
//! which tests it against every wall and keeps the nearest hit (the first
//! such wall on a tie). [`height_for_distance`] then turns the hit's floor
//! distance into the column's height: full viewport height up to five world
//! units, then a linear falloff of a tenth of the viewport per world unit,
//! rounded to the nearest row and clamped at zero.

use vstd::prelude::*;

use crate::geometry::Colour;
use crate::geometry::LineSegment;
use crate::geometry::SCALE;
use crate::geometry::dist_to_hit;
use crate::geometry::in_world;
use crate::geometry::is_floor_dist;
use crate::geometry::lemma_floor_dist_unique;
use crate::geometry::lemma_mul_bound;
use crate::geometry::seg_wf;
use crate::geometry::spec_intersection;

verus! {

/// `d` is the floor distance (in coordinate units) from `o` to the point
/// where wall `w` meets the ray.
pub open spec fn hit_dist_of(o: (i64, i64), w: LineSegment, ray: LineSegment, d: int) -> bool {
    &&& spec_intersection(w, ray) is Some
    &&& is_floor_dist(o, spec_intersection(w, ray)->Some_0, d)
}

/// The ray strikes wall `i` of `walls` at floor distance `d`, no wall is
/// struck nearer, and no earlier wall in the list is struck as near: the
/// first nearest hit.
pub open spec fn nearest_hit(
    o: (i64, i64),
    ray: LineSegment,
    walls: Seq<LineSegment>,
    i: int,
    d: int,
) -> bool {
    &&& 0 <= i < walls.len()
    &&& hit_dist_of(o, walls[i], ray, d)
    &&& forall|j: int, e: int|
        0 <= j < walls.len() && #[trigger] hit_dist_of(o, walls[j], ray, e) ==> e >= d && (j < i
            ==> e > d)
}

/// The projector's per-column outcome: `res` is `None` exactly when no wall
/// meets the ray; otherwise it carries the first nearest hit's floor
/// distance and that wall's colour.
pub open spec fn column_spec(
    o: (i64, i64),
    ray: LineSegment,
    walls: Seq<LineSegment>,
    res: Option<(i64, Colour)>,
) -> bool {
    match res {
        None => forall|i: int|
            0 <= i < walls.len() ==> spec_intersection(#[trigger] walls[i], ray) is None,
        Some((d, c)) => exists|i: int|
            #[trigger] nearest_hit(o, ray, walls, i, d as int) && walls[i].colour == c,
    }
}

/// Casts one column's probe ray against every wall and reports the nearest
/// hit's floor distance and colour, or `None` when nothing is struck.
///
/// Ties on the quantized distance keep the earliest wall in the list.
pub fn cast_column(
    origin: (i64, i64),
    ray: &LineSegment,
    walls: &Vec<LineSegment>,
) -> (r: Option<(i64, Colour)>)
    requires
        in_world(origin.0),
        in_world(origin.1),
        seg_wf(*ray),
        forall|i: int| 0 <= i < walls@.len() ==> seg_wf(#[trigger] walls@[i]),
    ensures
        column_spec(origin, *ray, walls@, r),
{
    let mut best: Option<(i64, Colour)> = None;
    let ghost mut best_i: int = 0;
    let mut k: usize = 0;
    while k < walls.len()
        invariant
            0 <= k <= walls@.len(),
            in_world(origin.0),
            in_world(origin.1),
            seg_wf(*ray),
            forall|i: int| 0 <= i < walls@.len() ==> seg_wf(#[trigger] walls@[i]),
            match best {
                None => forall|i: int|
                    0 <= i < k ==> spec_intersection(#[trigger] walls@[i], *ray) is None,
                Some((d, c)) => {
                    &&& 0 <= best_i < k
                    &&& hit_dist_of(origin, walls@[best_i], *ray, d as int)
                    &&& walls@[best_i].colour == c
                    &&& forall|j: int, e: int|
                        0 <= j < k && #[trigger] hit_dist_of(origin, walls@[j], *ray, e) ==> e
                            >= d && (j < best_i ==> e > d)
                },
            },
        decreases walls@.len() - k,
    {
        let w = &walls[k];
        if let Some(h) = w.intersects(ray) {
            let nd = dist_to_hit(origin, &h);
            match best {
                None => {
                    proof {
                        best_i = k as int;
                        assert forall|j: int, e: int|
                            0 <= j < k + 1 && #[trigger] hit_dist_of(
                                origin,
                                walls@[j],
                                *ray,
                                e,
                            ) implies e >= nd as int && (j < k as int ==> e > nd as int) by {
                            lemma_floor_dist_unique(origin, h@, e, nd as int);
                        }
                    }
                    best = Some((nd, w.colour));
                },
                Some((bd, _)) => {
                    proof {
                        assert forall|j: int, e: int|
                            0 <= j < k + 1 && #[trigger] hit_dist_of(
                                origin,
                                walls@[j],
                                *ray,
                                e,
                            ) implies (j == k as int ==> e == nd as int) && (j < k as int ==> e
                            >= bd as int && (j < best_i ==> e > bd as int)) by {
                            if j == k as int {
                                lemma_floor_dist_unique(origin, h@, e, nd as int);
                            }
                        }
                    }
                    if nd < bd {
                        best = Some((nd, w.colour));
                        proof {
                            best_i = k as int;
                        }
                    }
                },
            }
        }
        k += 1;
    }
    proof {
        match best {
            Some((d, c)) => {
                assert(nearest_hit(origin, *ray, walls@, best_i, d as int));
            },
            None => {},
        }
    }
    best
}

/// Column height in rows for a hit at floor distance `d` on a viewport of
/// `h` rows. Nothing farther than five world units shrinks; beyond that the
/// height falls linearly by a tenth of the viewport per world unit, rounded
/// to the nearest row (half away from zero) and clamped at zero once the
/// falloff would pass below nothing.
pub open spec fn spec_height(d: int, h: u16) -> int {
    if d <= 5 * SCALE {
        h as int
    } else {
        let raw = 2 * (h as int) * (15 * SCALE - d) + 10 * SCALE;
        if raw <= 0 {
            0
        } else {
            raw / (20 * SCALE)
        }
    }
}

/// Maps a hit's floor distance to the drawn column height.
pub fn height_for_distance(d: i64, h: u16) -> (r: u16)
    requires
        0 <= d,
    ensures
        r as int == spec_height(d as int, h),
        r <= h,
{
    if d <= 5 * SCALE {
        h
    } else {
        proof {
            lemma_mul_bound(
                2 * (h as int),
                15 * SCALE - d as int,
                0x20000,
                0x8000_0000_0000_0000_0000,
            );
        }
        let raw: i128 = 2 * (h as i128) * (15 * (SCALE as i128) - (d as i128)) + 10 * (
        SCALE as i128);
        if raw <= 0 {
            0
        } else {
            let q: u128 = (raw as u128) / (20 * (SCALE as u128));
            proof {
                vstd::arithmetic::div_mod::lemma_fundamental_div_mod(raw as int, 5120);
                vstd::arithmetic::div_mod::lemma_mod_bound(raw as int, 5120);
                assert(raw as int <= 5120 * (h as int) + 2560) by (nonlinear_arith)
                    requires
                        d as int >= 1281,
                        h as int >= 0,
                        raw as int == 2 * (h as int) * (3840 - d as int) + 2560,
                ;
                assert(raw as int / 5120 <= h as int) by (nonlinear_arith)
                    requires
                        0 < raw as int <= 5120 * (h as int) + 2560,
                        raw as int == 5120 * (raw as int / 5120) + raw as int % 5120,
                        0 <= raw as int % 5120 < 5120,
                ;
            }
            q as u16
        }
    }
}

/// Rows of background above (and below) a centered column of the given
/// height.
pub fn column_padding(h: u16, height: u16) -> (r: u16)
    requires
        height <= h,
    ensures
        r == (h - height) / 2,
{
    (h - height) / 2
}

/// The outcome drawn for one column: `res` is empty exactly when the ray
/// misses every wall; otherwise there is a nearest-hit distance behind the
/// reported height and colour.
pub open spec fn column_render_ok(
    o: (i64, i64),
    ray: LineSegment,
    walls: Seq<LineSegment>,
    h: u16,
    res: Option<(u16, Colour)>,
) -> bool {
    match res {
        None => column_spec(o, ray, walls, None),
        Some((ht, c)) => exists|d: i64|
            #[trigger] column_spec(o, ray, walls, Some((d, c))) && ht as int == spec_height(
                d as int,
                h,
            ),
    }
}

/// Runs one frame of the projector: one probe ray per screen column, each
/// resolved to an optional column height and colour for the renderer.
pub fn render_columns(
    origin: (i64, i64),
    rays: &Vec<LineSegment>,
    walls: &Vec<LineSegment>,
    h: u16,
) -> (r: Vec<Option<(u16, Colour)>>)
    requires
        in_world(origin.0),
        in_world(origin.1),
        forall|i: int| 0 <= i < rays@.len() ==> seg_wf(#[trigger] rays@[i]),
        forall|i: int| 0 <= i < walls@.len() ==> seg_wf(#[trigger] walls@[i]),
    ensures
        r@.len() == rays@.len(),
        forall|x: int|
            0 <= x < rays@.len() ==> column_render_ok(
                origin,
                rays@[x],
                walls@,
                h,
                #[trigger] r@[x],
            ),
{
    let mut out: Vec<Option<(u16, Colour)>> = Vec::new();
    let mut x: usize = 0;
    while x < rays.len()
        invariant
            0 <= x <= rays@.len(),
            out@.len() == x,
            in_world(origin.0),
            in_world(origin.1),
            forall|i: int| 0 <= i < rays@.len() ==> seg_wf(#[trigger] rays@[i]),
            forall|i: int| 0 <= i < walls@.len() ==> seg_wf(#[trigger] walls@[i]),
            forall|i: int|
                0 <= i < x ==> column_render_ok(origin, rays@[i], walls@, h, #[trigger] out@[i]),
        decreases rays@.len() - x,
    {
        let col = cast_column(origin, &rays[x], walls);
        match col {
            None => {
                out.push(None);
            },
            Some((d, c)) => {
                proof {
                    let i = choose|i: int|
                        nearest_hit(origin, rays@[x as int], walls@, i, d as int)
                            && walls@[i].colour == c;
                    assert(nearest_hit(origin, rays@[x as int], walls@, i, d as int));
                }
                let ht = height_for_distance(d, h);
                out.push(Some((ht, c)));
            },
        }
        x += 1;
    }
    out
}

} // verus!
