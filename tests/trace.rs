use collider_gen::geometry::Point;
use collider_gen::mask::PixelMask;
use collider_gen::trace::{trace_multi, trace_single};

fn mask_from_rows(rows: &[&str]) -> PixelMask {
    let height = rows.len() as u32;
    let width = rows[0].len() as u32;
    let cells = rows
        .iter()
        .flat_map(|r| r.chars().map(|c| c == '#'))
        .collect();
    PixelMask { width, height, cells }
}

fn sorted(mut v: Vec<Point>) -> Vec<(i64, i64)> {
    let mut out: Vec<(i64, i64)> = v.drain(..).map(|p| (p.x, p.y)).collect();
    out.sort();
    out
}

#[test]
fn full_square_traces_to_its_four_corners() {
    let m = mask_from_rows(&["####", "####", "####", "####"]);
    let single = trace_single(&m);
    assert_eq!(single.len(), 4);
    assert_eq!(sorted(single), vec![(0, 0), (0, 3), (3, 0), (3, 3)]);
}

#[test]
fn two_separated_squares_give_two_regions() {
    let m = mask_from_rows(&["##...##", "##...##", "......."]);
    let multi = trace_multi(&m);
    assert_eq!(multi.len(), 2);
    let single = trace_single(&m);
    assert!(!single.is_empty());
    assert_eq!(single, multi[0]);
}

#[test]
fn three_blobs_give_three_regions() {
    let m = mask_from_rows(&[
        "##.....", "##..###", "....###", ".......", "###....", "###....",
    ]);
    assert_eq!(trace_multi(&m).len(), 3);
}

#[test]
fn one_region_single_and_multi_agree() {
    let m = mask_from_rows(&["......", ".####.", ".####.", "......"]);
    let multi = trace_multi(&m);
    assert_eq!(multi.len(), 1);
    let single = trace_single(&m);
    assert_eq!(single, multi[0]);
    assert_eq!(sorted(single), vec![(1, 1), (1, 2), (4, 1), (4, 2)]);
}

#[test]
fn transparent_mask_traces_nothing() {
    let m = mask_from_rows(&["....", "...."]);
    assert!(trace_multi(&m).is_empty());
    assert!(trace_single(&m).is_empty());
}

#[test]
fn zero_sized_mask_traces_nothing() {
    let m = PixelMask { width: 0, height: 0, cells: vec![] };
    assert!(trace_multi(&m).is_empty());
    assert!(trace_single(&m).is_empty());
}

#[test]
fn traced_points_are_opaque_pixels() {
    let m = mask_from_rows(&["..#..", ".###.", "#####", ".###.", "..#.."]);
    for region in trace_multi(&m) {
        for p in region {
            assert!(m.is_opaque(p.x as u32, p.y as u32));
        }
    }
}
