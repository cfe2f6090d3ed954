use vstd::prelude::*;

use crate::geometry::Point;
use crate::mask::PixelMask;

verus! {

/// The outlines that `edges` traces in a `width` × `height` binary image whose
/// row-major pixels are `cells`: one closed loop of corner pixels per region, in
/// the order the regions are found.
pub uninterp spec fn edge_loops(width: u32, height: u32, cells: Seq<bool>) -> Seq<Seq<Point>>;

/// The points of each loop.
pub open spec fn loops_view(v: Seq<Vec<Point>>) -> Seq<Seq<Point>> {
    v.map_values(|l: Vec<Point>| l@)
}

/// `p` is an opaque pixel of `mask`.
pub open spec fn on_mask(mask: PixelMask, p: Point) -> bool {
    &&& 0 <= p.x < mask.width
    &&& 0 <= p.y < mask.height
    &&& mask.opaque_at(p.x as int, p.y as int)
}

/// Every point of every loop is an opaque pixel of `mask`.
pub open spec fn loops_on_mask(mask: PixelMask, ls: Seq<Seq<Point>>) -> bool {
    forall|i: int, j: int|
        0 <= i < ls.len() && 0 <= j < ls[i].len() ==> #[trigger] on_mask(mask, ls[i][j])
}

/// Relies on `edges::Edges::multi_raw` over `edges::BinaryImage::from_raw`: each
/// cell becomes one byte, so the binary image holds the mask's cells; every point
/// traced is a corner pixel of the image, and those are opaque.
#[verifier::external_body]
fn edges_multi_raw(mask: &PixelMask) -> (r: Vec<Vec<Point>>)
    requires
        mask.wf(),
        mask.width > 0,
        mask.height > 0,
    ensures
        loops_view(r@) == edge_loops(mask.width, mask.height, mask.cells@),
        loops_on_mask(*mask, loops_view(r@)),
{
    let bytes: Vec<u8> = mask.cells.iter().map(|&c| c as u8).collect();
    let image = edges::BinaryImage::from_raw(mask.width, mask.height, &bytes);
    edges::Edges(image).multi_raw().into_iter().map(
        |l| l.into_iter().map(|p| Point { x: p.x as i64, y: p.y as i64 }).collect(),
    ).collect()
}

/// Relies on `edges::Edges::single_raw`, which is the first loop that
/// `multi_raw` yields on the same image, and nothing when that yields none; its
/// points are corner pixels, which are opaque.
#[verifier::external_body]
fn edges_single_raw(mask: &PixelMask) -> (r: Option<Vec<Point>>)
    requires
        mask.wf(),
        mask.width > 0,
        mask.height > 0,
    ensures
        r is None <==> edge_loops(mask.width, mask.height, mask.cells@).len() == 0,
        r matches Some(l) ==> l@ == edge_loops(mask.width, mask.height, mask.cells@)[0],
        r matches Some(l) ==> forall|j: int|
            0 <= j < l@.len() ==> on_mask(*mask, #[trigger] l@[j]),
{
    let bytes: Vec<u8> = mask.cells.iter().map(|&c| c as u8).collect();
    let image = edges::BinaryImage::from_raw(mask.width, mask.height, &bytes);
    edges::Edges(image).single_raw().map(
        |l| l.into_iter().map(|p| Point { x: p.x as i64, y: p.y as i64 }).collect(),
    )
}

/// The outline loops of all opaque regions of `mask`: none for an empty image.
pub open spec fn traced_regions(mask: PixelMask) -> Seq<Seq<Point>> {
    if mask.width == 0 || mask.height == 0 {
        Seq::empty()
    } else {
        edge_loops(mask.width, mask.height, mask.cells@)
    }
}

/// The outline of the first region of `mask`, or no points where it has none.
pub open spec fn traced_single(mask: PixelMask) -> Seq<Point> {
    if traced_regions(mask).len() == 0 {
        Seq::empty()
    } else {
        traced_regions(mask)[0]
    }
}

/// One boundary loop per connected opaque region of `mask`, in the order the
/// regions are found. Every point is an opaque pixel of the mask.
pub fn trace_multi(mask: &PixelMask) -> (r: Vec<Vec<Point>>)
    requires
        mask.wf(),
    ensures
        loops_view(r@) == traced_regions(*mask),
        loops_on_mask(*mask, loops_view(r@)),
{
    if mask.width == 0 || mask.height == 0 {
        let r: Vec<Vec<Point>> = Vec::new();
        proof {
            assert(loops_view(r@) =~= Seq::<Seq<Point>>::empty());
        }
        return r;
    }
    edges_multi_raw(mask)
}

/// The boundary loop of the whole mask taken as one shape: the first region's
/// loop, and an empty loop for a fully transparent mask. Every point is an
/// opaque pixel of the mask.
pub fn trace_single(mask: &PixelMask) -> (r: Vec<Point>)
    requires
        mask.wf(),
    ensures
        r@ == traced_single(*mask),
        forall|j: int| 0 <= j < r@.len() ==> on_mask(*mask, #[trigger] r@[j]),
{
    if mask.width == 0 || mask.height == 0 {
        return Vec::new();
    }
    match edges_single_raw(mask) {
        Some(l) => l,
        None => Vec::new(),
    }
}

/// The single-shape trace is the first loop of the per-region trace; so where
/// the tracer finds exactly one region, both describe the same boundary.
pub proof fn lemma_single_is_first_region(mask: PixelMask)
    requires
        mask.wf(),
    ensures
        traced_regions(mask).len() > 0 ==> traced_single(mask) == traced_regions(mask)[0],
        traced_regions(mask).len() == 1 ==> traced_regions(mask) == seq![traced_single(mask)],
        traced_regions(mask).len() == 0 ==> traced_single(mask).len() == 0,
{
    if traced_regions(mask).len() == 1 {
        assert(traced_regions(mask) =~= seq![traced_single(mask)]);
    }
}

} // verus!
