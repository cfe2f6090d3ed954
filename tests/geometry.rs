use collider_gen::frame::{to_raw, to_translated};
use collider_gen::geometry::Point;
use collider_gen::heightfield::{heightfield_from_points, heights_from_points};

fn pts(v: &[(i64, i64)]) -> Vec<Point> {
    v.iter().map(|&(x, y)| Point::new(x, y)).collect()
}

#[test]
fn translation_centres_the_bounding_box() {
    let l = pts(&[(0, 0), (3, 0), (3, 3), (0, 3)]);
    assert_eq!(to_translated(&l), pts(&[(-3, -3), (3, -3), (3, 3), (-3, 3)]));
    let off = pts(&[(2, 5), (6, 5), (4, 9)]);
    assert_eq!(to_translated(&off), pts(&[(-4, -4), (4, -4), (0, 4)]));
}

#[test]
fn raw_loops_are_left_alone() {
    let l = pts(&[(2, 5), (6, 5), (4, 9)]);
    assert_eq!(to_raw(&l), l);
}

#[test]
fn translated_loop_round_trips_through_raw() {
    let t = pts(&[(-3, -3), (3, -3), (3, 3), (-3, 3)]);
    let r = to_raw(&t);
    assert_eq!(r, pts(&[(0, 0), (3, 0), (3, 3), (0, 3)]));
    assert_eq!(to_translated(&r), t);
}

#[test]
fn empty_loop_stays_empty() {
    assert!(to_translated(&vec![]).is_empty());
    assert!(to_raw(&vec![]).is_empty());
}

#[test]
fn heights_keep_topmost_point_per_column() {
    let p = pts(&[(0, 3), (0, 1), (1, 2), (2, 0)]);
    assert_eq!(heights_from_points(&p), vec![1, 2, 0]);
    let hf = heightfield_from_points(&p).unwrap();
    assert_eq!(hf.heights, vec![1, 2, 0]);
    assert_eq!(hf.x_scale, 2);
}

#[test]
fn heights_follow_encounter_order() {
    let p = pts(&[(5, 4), (1, 7), (5, 2), (3, 3), (1, 9)]);
    assert_eq!(heights_from_points(&p), vec![2, 7, 3]);
}

#[test]
fn height_count_is_distinct_column_count() {
    let p = pts(&[(0, 0), (0, 1), (0, 2), (4, 4), (4, 1), (7, 7), (0, 9)]);
    assert_eq!(heights_from_points(&p).len(), 3);
}

#[test]
fn single_column_gives_no_heightfield() {
    assert!(heightfield_from_points(&pts(&[(2, 1), (2, 0)])).is_none());
    assert!(heightfield_from_points(&vec![]).is_none());
}
