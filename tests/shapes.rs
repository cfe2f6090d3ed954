use collider_gen::geometry::Point;
use collider_gen::mask::PixelMask;
use collider_gen::pipeline::{multi_shapes, single_shape};
use collider_gen::shapes::{spans_area, synthesize, Frame, ShapeDescriptor, ShapeKind};

fn pts(v: &[(i64, i64)]) -> Vec<Point> {
    v.iter().map(|&(x, y)| Point::new(x, y)).collect()
}

fn mask_from_rows(rows: &[&str]) -> PixelMask {
    let height = rows.len() as u32;
    let width = rows[0].len() as u32;
    let cells = rows
        .iter()
        .flat_map(|r| r.chars().map(|c| c == '#'))
        .collect();
    PixelMask { width, height, cells }
}

#[test]
fn polyline_needs_points() {
    assert!(synthesize(vec![], ShapeKind::Polyline).is_none());
    match synthesize(pts(&[(1, 1)]), ShapeKind::Polyline) {
        Some(ShapeDescriptor::Polyline(v)) => assert_eq!(v, pts(&[(1, 1)])),
        _ => panic!("expected a polyline"),
    }
}

#[test]
fn convex_shapes_need_area() {
    assert!(synthesize(vec![], ShapeKind::ConvexHull).is_none());
    assert!(synthesize(pts(&[(0, 0), (4, 4)]), ShapeKind::ConvexHull).is_none());
    assert!(synthesize(pts(&[(0, 0), (4, 4)]), ShapeKind::ConvexPolygon).is_none());
    assert!(synthesize(pts(&[(0, 0), (2, 2), (4, 4), (1, 1)]), ShapeKind::ConvexPolygon).is_none());
    match synthesize(pts(&[(0, 0), (4, 0), (0, 4)]), ShapeKind::ConvexHull) {
        Some(ShapeDescriptor::ConvexHull(v)) => assert_eq!(v.len(), 3),
        _ => panic!("expected a hull"),
    }
}

#[test]
fn area_test_on_repeated_and_collinear_points() {
    assert!(!spans_area(&pts(&[(3, 3), (3, 3), (3, 3)])));
    assert!(!spans_area(&pts(&[(0, 0), (0, 5), (0, -2)])));
    assert!(spans_area(&pts(&[(0, 0), (0, 0), (1, 0), (0, 1)])));
}

#[test]
fn heightfield_shape_from_points() {
    match synthesize(pts(&[(0, 3), (0, 1), (1, 2), (2, 0)]), ShapeKind::Heightfield) {
        Some(ShapeDescriptor::Heightfield(hf)) => {
            assert_eq!(hf.heights, vec![1, 2, 0]);
            assert_eq!(hf.x_scale, 2);
        }
        _ => panic!("expected a heightfield"),
    }
}

#[test]
fn square_mask_gives_translated_polyline() {
    let m = mask_from_rows(&["####", "####", "####", "####"]);
    match single_shape(&m, ShapeKind::Polyline, Frame::Translated) {
        Some(ShapeDescriptor::Polyline(v)) => {
            let mut got: Vec<(i64, i64)> = v.iter().map(|p| (p.x, p.y)).collect();
            got.sort();
            assert_eq!(got, vec![(-3, -3), (-3, 3), (3, -3), (3, 3)]);
        }
        _ => panic!("expected a polyline"),
    }
    assert!(single_shape(&m, ShapeKind::ConvexHull, Frame::Raw).is_some());
}

#[test]
fn regions_keep_their_order_and_fail_alone() {
    let m = mask_from_rows(&["##....#", "##....#", "......#"]);
    let raw = multi_shapes(&m, ShapeKind::ConvexPolygon, Frame::Raw);
    assert_eq!(raw.len(), 2);
    let some = raw.iter().filter(|r| r.is_some()).count();
    assert_eq!(some, 1);
    let lines = multi_shapes(&m, ShapeKind::Polyline, Frame::Raw);
    assert!(lines.iter().all(|r| r.is_some()));
}

#[test]
fn transparent_mask_gives_no_shapes() {
    let m = mask_from_rows(&["...", "..."]);
    assert!(single_shape(&m, ShapeKind::Polyline, Frame::Raw).is_none());
    assert!(multi_shapes(&m, ShapeKind::Heightfield, Frame::Translated).is_empty());
}

#[test]
fn region_shapes_follow_trace_order() {
    let m = mask_from_rows(&["#.....#", "#......", "....##.", "....##."]);
    let loops = collider_gen::trace::trace_multi(&m);
    let shapes = multi_shapes(&m, ShapeKind::Polyline, Frame::Raw);
    assert_eq!(shapes.len(), loops.len());
    for (shape, l) in shapes.into_iter().zip(loops) {
        match shape {
            Some(ShapeDescriptor::Polyline(v)) => assert_eq!(v, l),
            _ => panic!("expected a polyline"),
        }
    }
}
