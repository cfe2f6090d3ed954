use vstd::prelude::*;

use rayon::iter::{IntoParallelIterator, ParallelIterator};

use crate::frame::{lemma_translated_within, to_translated, translated, within_limits};
use crate::geometry::Point;
use crate::mask::PixelMask;
use crate::shapes::{synthesize, synthesized, Frame, ShapeDescriptor, ShapeKind};
use crate::trace::{
    loops_view, on_mask, trace_multi, trace_single, traced_regions, traced_single,
};

verus! {

/// `s` as given in `frame`; traced loops are in the raw frame already.
pub open spec fn in_frame(s: Seq<Point>, frame: Frame) -> Seq<Point> {
    match frame {
        Frame::Raw => s,
        Frame::Translated => translated(s),
    }
}

proof fn lemma_mask_points_within(mask: PixelMask, s: Seq<Point>)
    requires
        forall|j: int| 0 <= j < s.len() ==> on_mask(mask, #[trigger] s[j]),
    ensures
        within_limits(s),
        within_limits(translated(s)),
{
    assert forall|i: int| 0 <= i < s.len() implies 0 <= #[trigger] s[i].x <= u32::MAX && 0
        <= s[i].y <= u32::MAX by {
        assert(on_mask(mask, s[i]));
    }
    lemma_translated_within(s, u32::MAX as int);
}

/// Moves a loop of mask pixels into `frame`.
fn into_frame(pts: Vec<Point>, frame: Frame) -> (r: Vec<Point>)
    requires
        within_limits(pts@),
        within_limits(translated(pts@)),
    ensures
        r@ == in_frame(pts@, frame),
        within_limits(r@),
{
    match frame {
        Frame::Raw => pts,
        Frame::Translated => to_translated(&pts),
    }
}

/// One collider shape for the whole mask, from the single-shape trace in the
/// frame asked for.
pub fn single_shape(mask: &PixelMask, kind: ShapeKind, frame: Frame) -> (r: Option<
    ShapeDescriptor,
>)
    requires
        mask.wf(),
    ensures
        synthesized(in_frame(traced_single(*mask), frame), kind, r),
{
    let pts = trace_single(mask);
    proof {
        lemma_mask_points_within(*mask, pts@);
    }
    synthesize(into_frame(pts, frame), kind)
}

/// Relies on rayon: an indexed parallel `map` collected into a `Vec` holds one
/// result per input, in the inputs' order, each what the closure returned for
/// its input.
#[verifier::external_body]
fn synthesize_each(loops: Vec<Vec<Point>>, kind: ShapeKind) -> (r: Vec<Option<ShapeDescriptor>>)
    requires
        forall|i: int| 0 <= i < loops@.len() ==> within_limits(#[trigger] loops@[i]@),
    ensures
        r@.len() == loops@.len(),
        forall|i: int| 0 <= i < loops@.len() ==> synthesized(#[trigger] loops@[i]@, kind, r@[i]),
{
    loops.into_par_iter().map(|pts| synthesize(pts, kind)).collect()
}

/// One collider shape per opaque region of the mask, in the order the regions
/// are found, each in the frame asked for. A region that cannot make the shape
/// gets `None`, and the other regions are unaffected.
pub fn multi_shapes(mask: &PixelMask, kind: ShapeKind, frame: Frame) -> (r: Vec<
    Option<ShapeDescriptor>,
>)
    requires
        mask.wf(),
    ensures
        r@.len() == traced_regions(*mask).len(),
        forall|i: int|
            0 <= i < r@.len() ==> synthesized(
                in_frame(#[trigger] traced_regions(*mask)[i], frame),
                kind,
                r@[i],
            ),
{
    let mut regions = trace_multi(mask);
    let ghost ls = loops_view(regions@);
    let mut framed: Vec<Vec<Point>> = Vec::new();
    while regions.len() > 0
        invariant
            framed@.len() + regions@.len() == ls.len(),
            forall|i: int|
                0 <= i < regions@.len() ==> #[trigger] regions@[i]@ == ls[framed@.len() + i],
            forall|i: int| 0 <= i < framed@.len() ==> #[trigger] framed@[i]@ == in_frame(ls[i], frame),
            forall|i: int| 0 <= i < framed@.len() ==> within_limits(#[trigger] framed@[i]@),
            forall|i: int, j: int|
                0 <= i < ls.len() && 0 <= j < ls[i].len() ==> #[trigger] on_mask(*mask, ls[i][j]),
        decreases regions@.len(),
    {
        let ghost before = regions@;
        let pts = regions.remove(0);
        proof {
            assert(regions@ == before.remove(0));
            let k = framed@.len() as int;
            assert(pts@ == ls[k]);
            assert forall|j: int| 0 <= j < pts@.len() implies on_mask(*mask, #[trigger] pts@[j]) by {
                assert(on_mask(*mask, ls[k][j]));
            }
            lemma_mask_points_within(*mask, pts@);
            assert forall|i: int| 0 <= i < regions@.len() implies #[trigger] regions@[i]@ == ls[k
                + 1 + i] by {
                assert(regions@[i] == before[i + 1]);
                assert(before[i + 1]@ == ls[k + (i + 1)]);
            }
        }
        let moved = into_frame(pts, frame);
        framed.push(moved);
    }
    let r = synthesize_each(framed, kind);
    proof {
        assert forall|i: int| 0 <= i < r@.len() implies synthesized(
            in_frame(#[trigger] traced_regions(*mask)[i], frame),
            kind,
            r@[i],
        ) by {
            assert(traced_regions(*mask)[i] == ls[i]);
            assert(framed@[i]@ == in_frame(ls[i], frame));
        }
    }
    r
}

} // verus!
