// Exercises the projector: nearest-hit resolution per ray and the
// distance-to-height falloff. Coordinates are in fixed-point units,
// 256 per world unit; distances are floors in the same units.

use raycaster::geometry::Colour;
use raycaster::geometry::dist_to_hit;
use raycaster::geometry::LineSegment;

use raycaster::project::cast_column;
use raycaster::project::column_padding;
use raycaster::project::height_for_distance;
use raycaster::project::render_columns;

const S: i64 = 256;

#[test]
fn height_is_full_up_to_five_world_units() {
    assert_eq!(height_for_distance(5 * S, 40), 40);
    assert_eq!(height_for_distance(4 * S, 40), 40);
    assert_eq!(height_for_distance(0, 40), 40);
}

#[test]
fn height_vanishes_at_fifteen_world_units() {
    assert_eq!(height_for_distance(15 * S, 40), 0);
    assert_eq!(height_for_distance(20 * S, 40), 0);
}

#[test]
fn height_at_ten_world_units_is_half_rounded() {
    // 40 * 0.5 = 20 exactly.
    assert_eq!(height_for_distance(10 * S, 40), 20);
    // 5 * 0.5 = 2.5 rounds half away from zero to 3.
    assert_eq!(height_for_distance(10 * S, 5), 3);
}

#[test]
fn padding_centers_the_column() {
    assert_eq!(column_padding(40, 40), 0);
    assert_eq!(column_padding(40, 30), 5);
    assert_eq!(column_padding(41, 30), 5);
}

#[test]
fn distance_to_a_hit_point_is_floored_exactly() {
    let wall = LineSegment::from_points((0, 4 * S), (4 * S, 0), Colour::Magenta);
    let probe = LineSegment::ray((0, 0), (4 * S, 4 * S));
    let hit = wall.intersects(&probe).expect("ray must strike the wall");
    // The hit is at (2,2) world units: sqrt(8) * 256 = 724.07...
    assert_eq!(dist_to_hit((0, 0), &hit), 724);
}

#[test]
fn cast_column_keeps_the_nearest_wall() {
    let far = LineSegment::from_points((-4 * S, 4 * S), (4 * S, 4 * S), Colour::White);
    let near = LineSegment::from_points((-4 * S, 2 * S), (4 * S, 2 * S), Colour::Green);
    let walls = vec![far, near];
    let probe = LineSegment::ray((0, 0), (0, 10 * S));
    let col = cast_column((0, 0), &probe, &walls).expect("the probe faces both walls");
    assert_eq!(col.0, 2 * S);
    assert_eq!(col.1, Colour::Green);
}

#[test]
fn cast_column_keeps_the_first_wall_on_a_tie() {
    let first = LineSegment::from_points((-4 * S, 2 * S), (4 * S, 2 * S), Colour::Yellow);
    let second = LineSegment::from_points((-4 * S, 2 * S), (4 * S, 2 * S), Colour::Magenta);
    let walls = vec![first, second];
    let probe = LineSegment::ray((0, 0), (0, 10 * S));
    let col = cast_column((0, 0), &probe, &walls).expect("the probe faces both walls");
    assert_eq!(col.1, Colour::Yellow);
}

#[test]
fn cast_column_reports_a_miss_when_nothing_is_ahead() {
    let wall = LineSegment::from_points((-4 * S, 2 * S), (4 * S, 2 * S), Colour::Green);
    let walls = vec![wall];
    let probe = LineSegment::ray((0, 0), (0, -10 * S));
    assert_eq!(cast_column((0, 0), &probe, &walls), None);
}

// A 90-degree fan of eleven probe directions facing straight up: horizontal
// components from -1 to 1 of the vertical reach, i.e. headings from 45 to 135
// degrees.
fn upward_fan() -> Vec<LineSegment> {
    let mut rays = Vec::new();
    let mut k: i64 = -5;
    while k <= 5 {
        rays.push(LineSegment::ray((0, 0), (k * 512, 10 * S)));
        k += 1;
    }
    rays
}

#[test]
fn a_close_wall_across_the_view_fills_every_column() {
    // The wall sits two world units ahead and spans far past the 90-degree
    // field of view, so every column shows it at full height.
    let wall = LineSegment::from_points((-60 * S, 2 * S), (60 * S, 2 * S), Colour::Green);
    let walls = vec![wall];
    let rays = upward_fan();
    let columns = render_columns((0, 0), &rays, &walls, 40);
    assert_eq!(columns.len(), rays.len());
    for col in columns {
        let (height, colour) = col.expect("every column faces the wall");
        assert_eq!(height, 40);
        assert_eq!(colour, Colour::Green);
    }
}

#[test]
fn facing_away_from_every_wall_leaves_all_columns_empty() {
    let wall = LineSegment::from_points((-60 * S, 2 * S), (60 * S, 2 * S), Colour::Green);
    let walls = vec![wall];
    let mut rays = Vec::new();
    let mut k: i64 = -5;
    while k <= 5 {
        rays.push(LineSegment::ray((0, 0), (k * 512, -10 * S)));
        k += 1;
    }
    let columns = render_columns((0, 0), &rays, &walls, 40);
    assert_eq!(columns.len(), rays.len());
    for col in columns {
        assert_eq!(col, None);
    }
}

#[test]
fn a_farther_wall_draws_a_shorter_centered_column() {
    // One wall ten world units ahead: height 20 on a 40-row viewport,
    // padded by 10 rows above and below.
    let wall = LineSegment::from_points((-4 * S, 10 * S), (4 * S, 10 * S), Colour::Magenta);
    let walls = vec![wall];
    let probe = LineSegment::ray((0, 0), (0, 12 * S));
    let columns = render_columns((0, 0), &vec![probe], &walls, 40);
    assert_eq!(columns.len(), 1);
    let (height, colour) = columns[0].expect("the probe faces the wall");
    assert_eq!(height, 20);
    assert_eq!(colour, Colour::Magenta);
    assert_eq!(column_padding(40, height), 10);
}

#[test]
fn height_just_past_five_world_units_still_rounds_to_full() {
    // One coordinate unit past the threshold shrinks by far less than half a
    // row, so rounding keeps the full height.
    assert_eq!(height_for_distance(5 * S + 1, 40), 40);
}

#[test]
fn height_falls_by_a_tenth_of_the_viewport_per_world_unit() {
    assert_eq!(height_for_distance(6 * S, 40), 36);
    assert_eq!(height_for_distance(7 * S, 40), 32);
    assert_eq!(height_for_distance(12 * S, 40), 12);
    assert_eq!(height_for_distance(14 * S, 40), 4);
}

#[test]
fn an_off_origin_viewer_measures_distance_from_itself() {
    let wall = LineSegment::from_points((-4 * S, 0), (4 * S, 0), Colour::White);
    let walls = vec![wall];
    let probe = LineSegment::ray((0, -2 * S), (0, 10 * S));
    let col = cast_column((0, -2 * S), &probe, &walls).expect("the probe faces the wall");
    assert_eq!(col.0, 2 * S);
    assert_eq!(col.1, Colour::White);
}
