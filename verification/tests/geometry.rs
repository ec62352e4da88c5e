// Exercises the geometry engine on concrete worlds. Coordinates are in
// fixed-point units: 256 units per world unit.

use raycaster::geometry::Colour;
use raycaster::geometry::HitPoint;
use raycaster::geometry::LineSegment;
use raycaster::geometry::between;

use raycaster::geometry::get_distance;

const S: i64 = 256;

fn assert_hit_at(h: &HitPoint, x_units: i64, y_units: i64) {
    assert_eq!(h.x_num, (x_units as i128) * h.den, "hit x mismatch");
    assert_eq!(h.y_num, (y_units as i128) * h.den, "hit y mismatch");
    assert!(h.den >= 1);
}

#[test]
fn from_points_orders_endpoints_by_ascending_x() {
    let s = LineSegment::from_points((4 * S, 3 * S), (1 * S, 2 * S), Colour::Green);
    assert_eq!(s.start, (1 * S, 2 * S));
    assert_eq!(s.end, (4 * S, 3 * S));
    let v = LineSegment::from_points((2 * S, 5 * S), (2 * S, 1 * S), Colour::Yellow);
    assert_eq!(v.start, (2 * S, 1 * S));
    assert_eq!(v.end, (2 * S, 5 * S));
}

#[test]
fn from_points_either_endpoint_order_builds_the_same_segment() {
    let a = (6 * S, 1 * S);
    let b = (4 * S, 3 * S);
    let s1 = LineSegment::from_points(a, b, Colour::Black);
    let s2 = LineSegment::from_points(b, a, Colour::Black);
    assert_eq!(s1.start, s2.start);
    assert_eq!(s1.end, s2.end);
    let r = LineSegment::ray((5 * S, 0), (0, 4 * S));
    assert_eq!(s1.intersects(&r), s2.intersects(&r));
}

#[test]
fn between_is_inclusive_and_order_independent() {
    assert!(between(3, 1, 5));
    assert!(between(3, 5, 1));
    assert!(between(1, 1, 5));
    assert!(between(5, 5, 1));
    assert!(!between(0, 1, 5));
    assert!(!between(6, 5, 1));
}

#[test]
fn get_distance_on_a_perfect_triangle() {
    assert_eq!(get_distance((0, 0), (3 * S, 4 * S)), 5 * S);
    assert_eq!(get_distance((3 * S, 4 * S), (0, 0)), 5 * S);
}

#[test]
fn get_distance_floors_an_irrational_length() {
    // sqrt(2) * 256 = 362.03...
    assert_eq!(get_distance((0, 0), (S, S)), 362);
}

#[test]
fn ray_through_an_interior_point_reports_exactly_that_point() {
    // Wall from (0,4) to (4,0) in world units: the line x + y = 4.
    let wall = LineSegment::from_points((0, 4 * S), (4 * S, 0), Colour::Magenta);
    // Ray from the origin along (1,1) passes through the interior point (2,2).
    let probe = LineSegment::ray((0, 0), (4 * S, 4 * S));
    let hit = wall.intersects(&probe).expect("ray must strike the wall");
    assert_hit_at(&hit, 2 * S, 2 * S);
}

#[test]
fn ray_that_cannot_reach_the_wall_reports_no_hit() {
    let wall = LineSegment::from_points((0, 4 * S), (4 * S, 0), Colour::Magenta);
    // Pointing away from the wall entirely.
    let away = LineSegment::ray((0, 0), (-4 * S, -4 * S));
    assert_eq!(wall.intersects(&away), None);
    // Crossing the infinite line only beyond the ray's bounded extent.
    let short = LineSegment::ray((0, 0), (S, 0));
    assert_eq!(wall.intersects(&short), None);
}

#[test]
fn crossing_point_outside_the_wall_extent_is_no_hit() {
    // Wall occupies x in [0,1] world units on the line y = x.
    let wall = LineSegment::from_points((0, 0), (S, S), Colour::White);
    // This probe meets the line y = x at (2,2), outside the wall.
    let probe = LineSegment::ray((4 * S, 0), (-2 * S, 2 * S));
    assert_eq!(wall.intersects(&probe), None);
}

#[test]
fn vertical_wall_is_hit_at_its_fixed_x() {
    let wall = LineSegment::from_points((2 * S, -2 * S), (2 * S, 2 * S), Colour::Yellow);
    let probe = LineSegment::ray((0, 0), (4 * S, 0));
    let hit = probe.intersects(&wall).expect("probe must strike the wall");
    assert_hit_at(&hit, 2 * S, 0);
}

#[test]
fn vertical_intersection_is_symmetric() {
    let wall = LineSegment::from_points((2 * S, -2 * S), (2 * S, 2 * S), Colour::Yellow);
    let slanted = LineSegment::from_points((0, -S), (4 * S, S), Colour::White);
    assert_eq!(wall.intersects(&slanted), slanted.intersects(&wall));
    assert!(wall.intersects(&slanted).is_some());
    let missing = LineSegment::from_points((0, 3 * S), (S, 4 * S), Colour::White);
    assert_eq!(wall.intersects(&missing), missing.intersects(&wall));
    assert_eq!(wall.intersects(&missing), None);
}

#[test]
fn coincident_vertical_walls_report_the_degenerate_sentinel() {
    let a = LineSegment::from_points((2 * S, 0), (2 * S, S), Colour::Green);
    let b = LineSegment::from_points((2 * S, 3 * S), (2 * S, 5 * S), Colour::White);
    let hit = a.intersects(&b).expect("shared line is reported");
    assert_eq!(hit.x_num, (2 * S) as i128);
    assert_eq!(hit.y_num, 0);
    assert_eq!(hit.den, 1);
}

#[test]
fn parallel_walls_do_not_intersect() {
    let a = LineSegment::from_points((2 * S, 0), (2 * S, S), Colour::Green);
    let b = LineSegment::from_points((3 * S, 0), (3 * S, S), Colour::White);
    assert_eq!(a.intersects(&b), None);
    let c = LineSegment::from_points((0, 0), (S, S), Colour::Green);
    let d = LineSegment::from_points((0, S), (S, 2 * S), Colour::White);
    assert_eq!(c.intersects(&d), None);
}

#[test]
fn coincident_slanted_lines_report_no_intersection() {
    // Same infinite line y = x, disjoint extents: treated as no intersection.
    let a = LineSegment::from_points((0, 0), (S, S), Colour::Green);
    let b = LineSegment::from_points((2 * S, 2 * S), (3 * S, 3 * S), Colour::White);
    assert_eq!(a.intersects(&b), None);
    // Even with overlapping extents the degenerate slanted case stays empty.
    let c = LineSegment::from_points((0, 0), (3 * S, 3 * S), Colour::White);
    assert_eq!(a.intersects(&c), None);
}

#[test]
fn a_graze_at_the_corner_counts_as_a_hit() {
    let wall = LineSegment::from_points((0, 4 * S), (4 * S, 0), Colour::Magenta);
    // The probe ends exactly on the wall's corner at (4,0).
    let probe = LineSegment::ray((0, 0), (4 * S, 0));
    let hit = wall.intersects(&probe).expect("a corner graze is inclusive");
    assert_hit_at(&hit, 4 * S, 0);
}

#[test]
fn find_y_reports_the_exact_line_height() {
    // Line through (0,0) and (4,2) in world units: y = x/2.
    let wall = LineSegment::from_points((0, 0), (4 * S, 2 * S), Colour::White);
    let (num, den) = wall.find_y(3 * S);
    assert!(den > 0);
    // y at x = 3 world units is 1.5 world units = 384 coordinate units.
    assert_eq!(num, 384 * den);
}
