use vstd::prelude::*;

use crate::geometry::Point;

verus! {

/// Largest magnitude of a coordinate that the frame changes accept.
pub const COORD_LIMIT: i64 = 0x100_0000_0000;

/// Every coordinate of `s` lies within `COORD_LIMIT` of zero.
pub open spec fn within_limits(s: Seq<Point>) -> bool {
    forall|i: int|
        0 <= i < s.len() ==> -COORD_LIMIT <= #[trigger] s[i].x <= COORD_LIMIT && -COORD_LIMIT
            <= s[i].y <= COORD_LIMIT
}

pub open spec fn xs(s: Seq<Point>) -> Seq<int> {
    s.map_values(|p: Point| p.x as int)
}

pub open spec fn ys(s: Seq<Point>) -> Seq<int> {
    s.map_values(|p: Point| p.y as int)
}

pub open spec fn seq_min(s: Seq<int>) -> int
    decreases s.len(),
{
    if s.len() <= 1 {
        s[0]
    } else {
        let m = seq_min(s.drop_last());
        if s.last() < m {
            s.last()
        } else {
            m
        }
    }
}

pub open spec fn seq_max(s: Seq<int>) -> int
    decreases s.len(),
{
    if s.len() <= 1 {
        s[0]
    } else {
        let m = seq_max(s.drop_last());
        if s.last() > m {
            s.last()
        } else {
            m
        }
    }
}

/// All points lie in the raw frame: no coordinate is negative.
pub open spec fn is_raw(s: Seq<Point>) -> bool {
    forall|i: int| #![trigger s[i]] 0 <= i < s.len() ==> s[i].x >= 0 && s[i].y >= 0
}

/// The loop in the translated frame: each coordinate doubled, less the sum of
/// the bounding box's two bounds on that axis. The units are half pixels, so the
/// box's centre lands exactly on the origin.
pub open spec fn translated(s: Seq<Point>) -> Seq<Point> {
    if s.len() == 0 {
        s
    } else {
        let cx = seq_min(xs(s)) + seq_max(xs(s));
        let cy = seq_min(ys(s)) + seq_max(ys(s));
        Seq::new(s.len(), |i: int| Point { x: (2 * s[i].x - cx) as i64, y: (2 * s[i].y - cy) as i64 })
    }
}

/// The loop in the raw frame: itself where no coordinate is negative; otherwise
/// the loop moved so that its bounding box starts at the origin, in whole pixels.
pub open spec fn raw_of(s: Seq<Point>) -> Seq<Point> {
    if is_raw(s) {
        s
    } else {
        let mx = seq_min(xs(s));
        let my = seq_min(ys(s));
        Seq::new(s.len(), |i: int| Point { x: ((s[i].x - mx) / 2) as i64, y: ((s[i].y - my) / 2) as i64 })
    }
}

/// A loop as the translated frame yields it: its bounding box is centred on the
/// origin, and along each axis its coordinates are all even or all odd.
pub open spec fn is_translated(s: Seq<Point>) -> bool {
    s.len() > 0 ==> {
        &&& seq_min(xs(s)) + seq_max(xs(s)) == 0
        &&& seq_min(ys(s)) + seq_max(ys(s)) == 0
        &&& forall|i: int|
            0 <= i < s.len() ==> (#[trigger] s[i].x - seq_min(xs(s))) % 2 == 0 && (s[i].y
                - seq_min(ys(s))) % 2 == 0
    }
}

proof fn lemma_min_max(s: Seq<int>)
    requires
        s.len() > 0,
    ensures
        forall|i: int| 0 <= i < s.len() ==> seq_min(s) <= #[trigger] s[i] <= seq_max(s),
        exists|i: int| 0 <= i < s.len() && #[trigger] s[i] == seq_min(s),
        exists|i: int| 0 <= i < s.len() && #[trigger] s[i] == seq_max(s),
    decreases s.len(),
{
    if s.len() > 1 {
        let t = s.drop_last();
        lemma_min_max(t);
        assert forall|i: int| 0 <= i < s.len() implies seq_min(s) <= #[trigger] s[i] <= seq_max(
            s,
        ) by {
            if i < t.len() {
                assert(s[i] == t[i]);
            }
        }
        if s.last() < seq_min(t) {
            assert(s[s.len() - 1] == seq_min(s));
        } else {
            let k = choose|k: int| 0 <= k < t.len() && t[k] == seq_min(t);
            assert(s[k] == seq_min(s));
        }
        if s.last() > seq_max(t) {
            assert(s[s.len() - 1] == seq_max(s));
        } else {
            let k = choose|k: int| 0 <= k < t.len() && t[k] == seq_max(t);
            assert(s[k] == seq_max(s));
        }
    } else {
        assert(s[0] == seq_min(s));
        assert(s[0] == seq_max(s));
    }
}

/// A bound that every element respects and some element reaches is the minimum.
proof fn lemma_min_is(s: Seq<int>, m: int, k: int)
    requires
        0 <= k < s.len(),
        s[k] == m,
        forall|i: int| 0 <= i < s.len() ==> m <= #[trigger] s[i],
    ensures
        seq_min(s) == m,
{
    lemma_min_max(s);
}

proof fn lemma_max_is(s: Seq<int>, m: int, k: int)
    requires
        0 <= k < s.len(),
        s[k] == m,
        forall|i: int| 0 <= i < s.len() ==> #[trigger] s[i] <= m,
    ensures
        seq_max(s) == m,
{
    lemma_min_max(s);
}

/// `to_raw` leaves a loop that is already in the raw frame as it is, and
/// translating what it returns for a loop in the translated frame gives that
/// loop back.
pub proof fn lemma_frame_round_trip(s: Seq<Point>)
    requires
        within_limits(s),
    ensures
        is_raw(s) ==> raw_of(s) == s,
        is_translated(s) ==> translated(raw_of(s)) == s,
{
    if s.len() > 0 && is_translated(s) {
        lemma_min_max(xs(s));
        lemma_min_max(ys(s));
        let mnx = seq_min(xs(s));
        let mxx = seq_max(xs(s));
        let mny = seq_min(ys(s));
        let mxy = seq_max(ys(s));
        assert forall|i: int| 0 <= i < s.len() implies mnx <= #[trigger] s[i].x <= mxx && mny
            <= s[i].y <= mxy by {
            assert(xs(s)[i] == s[i].x);
            assert(ys(s)[i] == s[i].y);
        }
        let r = raw_of(s);
        if is_raw(s) {
            let kx = choose|k: int| 0 <= k < xs(s).len() && xs(s)[k] == mnx;
            let ky = choose|k: int| 0 <= k < ys(s).len() && ys(s)[k] == mny;
            assert(xs(s)[kx] == s[kx].x);
            assert(ys(s)[ky] == s[ky].y);
            assert(0 <= kx < s.len() && 0 <= ky < s.len());
            assert(s[kx].x >= 0);
            assert(s[ky].x >= 0 && s[ky].y >= 0);
            assert(translated(s) =~= s);
        } else {
            let kx = choose|k: int| 0 <= k < xs(s).len() && xs(s)[k] == mnx;
            let ky = choose|k: int| 0 <= k < ys(s).len() && ys(s)[k] == mny;
            let jx = choose|k: int| 0 <= k < xs(s).len() && xs(s)[k] == mxx;
            let jy = choose|k: int| 0 <= k < ys(s).len() && ys(s)[k] == mxy;
            assert forall|i: int| 0 <= i < s.len() implies 0 <= #[trigger] xs(r)[i] <= (mxx - mnx)
                / 2 && 0 <= ys(r)[i] <= (mxy - mny) / 2 && 2 * xs(r)[i] == s[i].x - mnx && 2
                * ys(r)[i] == s[i].y - mny by {
                assert(xs(s)[i] == s[i].x);
                assert(ys(s)[i] == s[i].y);
            }
            assert(xs(r)[kx] == 0);
            assert(ys(r)[ky] == 0);
            assert(xs(r)[jx] == (mxx - mnx) / 2);
            assert(ys(r)[jy] == (mxy - mny) / 2);
            lemma_min_is(xs(r), 0, kx);
            lemma_min_is(ys(r), 0, ky);
            lemma_max_is(xs(r), (mxx - mnx) / 2, jx);
            lemma_max_is(ys(r), (mxy - mny) / 2, jy);
            assert forall|i: int| 0 <= i < s.len() implies #[trigger] translated(r)[i] == s[i] by {
                assert(xs(r)[i] == r[i].x);
                assert(ys(r)[i] == r[i].y);
            }
            assert(translated(r) =~= s);
        }
    }
}

/// The least and greatest x, then the least and greatest y, of a non-empty loop.
fn bounding_box(pts: &Vec<Point>) -> (r: (i64, i64, i64, i64))
    requires
        pts@.len() > 0,
    ensures
        r.0 == seq_min(xs(pts@)),
        r.1 == seq_max(xs(pts@)),
        r.2 == seq_min(ys(pts@)),
        r.3 == seq_max(ys(pts@)),
{
    let mut min_x = pts[0].x;
    let mut max_x = pts[0].x;
    let mut min_y = pts[0].y;
    let mut max_y = pts[0].y;
    let mut i: usize = 1;
    proof {
        assert(xs(pts@.subrange(0, 1)) =~= seq![pts@[0].x as int]);
        assert(ys(pts@.subrange(0, 1)) =~= seq![pts@[0].y as int]);
    }
    while i < pts.len()
        invariant
            1 <= i <= pts@.len(),
            min_x == seq_min(xs(pts@.subrange(0, i as int))),
            max_x == seq_max(xs(pts@.subrange(0, i as int))),
            min_y == seq_min(ys(pts@.subrange(0, i as int))),
            max_y == seq_max(ys(pts@.subrange(0, i as int))),
        decreases pts@.len() - i,
    {
        let p = pts[i];
        proof {
            let a = pts@.subrange(0, i as int);
            let b = pts@.subrange(0, i + 1);
            assert(xs(b).drop_last() =~= xs(a));
            assert(ys(b).drop_last() =~= ys(a));
            assert(xs(b).last() == p.x);
            assert(ys(b).last() == p.y);
        }
        if p.x < min_x {
            min_x = p.x;
        }
        if p.x > max_x {
            max_x = p.x;
        }
        if p.y < min_y {
            min_y = p.y;
        }
        if p.y > max_y {
            max_y = p.y;
        }
        i = i + 1;
    }
    proof {
        assert(pts@.subrange(0, pts@.len() as int) =~= pts@);
    }
    (min_x, max_x, min_y, max_y)
}

proof fn lemma_bounds_within(s: Seq<Point>)
    requires
        s.len() > 0,
        within_limits(s),
    ensures
        -COORD_LIMIT <= seq_min(xs(s)) <= seq_max(xs(s)) <= COORD_LIMIT,
        -COORD_LIMIT <= seq_min(ys(s)) <= seq_max(ys(s)) <= COORD_LIMIT,
        forall|i: int|
            0 <= i < s.len() ==> seq_min(xs(s)) <= #[trigger] s[i].x <= seq_max(xs(s)) && seq_min(
                ys(s),
            ) <= s[i].y <= seq_max(ys(s)),
{
    lemma_min_max(xs(s));
    lemma_min_max(ys(s));
    assert forall|i: int| 0 <= i < s.len() implies seq_min(xs(s)) <= #[trigger] s[i].x <= seq_max(
        xs(s),
    ) && seq_min(ys(s)) <= s[i].y <= seq_max(ys(s)) by {
        assert(xs(s)[i] == s[i].x);
        assert(ys(s)[i] == s[i].y);
    }
    let ky = choose|k: int| 0 <= k < ys(s).len() && ys(s)[k] == seq_min(ys(s));
    let jy = choose|k: int| 0 <= k < ys(s).len() && ys(s)[k] == seq_max(ys(s));
    let kx = choose|k: int| 0 <= k < xs(s).len() && xs(s)[k] == seq_min(xs(s));
    let jx = choose|k: int| 0 <= k < xs(s).len() && xs(s)[k] == seq_max(xs(s));
    assert(s[ky].x == xs(s)[ky] && s[jy].x == xs(s)[jy]);
    assert(s[kx].x == xs(s)[kx] && s[jx].x == xs(s)[jx]);
}

/// The loop in the translated frame, centred on its bounding box, in half-pixel
/// units. Order and winding are kept.
pub fn to_translated(pts: &Vec<Point>) -> (r: Vec<Point>)
    requires
        within_limits(pts@),
    ensures
        r@ == translated(pts@),
        is_translated(r@),
{
    if pts.len() == 0 {
        return Vec::new();
    }
    let (min_x, max_x, min_y, max_y) = bounding_box(pts);
    proof {
        lemma_bounds_within(pts@);
    }
    let cx = min_x + max_x;
    let cy = min_y + max_y;
    let mut r: Vec<Point> = Vec::new();
    let mut i: usize = 0;
    while i < pts.len()
        invariant
            0 <= i <= pts@.len(),
            within_limits(pts@),
            cx == seq_min(xs(pts@)) + seq_max(xs(pts@)),
            cy == seq_min(ys(pts@)) + seq_max(ys(pts@)),
            -2 * COORD_LIMIT <= cx <= 2 * COORD_LIMIT,
            -2 * COORD_LIMIT <= cy <= 2 * COORD_LIMIT,
            r@ =~= translated(pts@).subrange(0, i as int),
        decreases pts@.len() - i,
    {
        let p = pts[i];
        r.push(Point { x: 2 * p.x - cx, y: 2 * p.y - cy });
        i = i + 1;
    }
    proof {
        assert(translated(pts@).subrange(0, pts@.len() as int) =~= translated(pts@));
        lemma_translated_form(pts@);
    }
    r
}

proof fn lemma_translated_form(s: Seq<Point>)
    requires
        within_limits(s),
    ensures
        is_translated(translated(s)),
{
    if s.len() > 0 {
        lemma_bounds_within(s);
        let t = translated(s);
        let mnx = seq_min(xs(s));
        let mxx = seq_max(xs(s));
        let mny = seq_min(ys(s));
        let mxy = seq_max(ys(s));
        lemma_min_max(xs(s));
        lemma_min_max(ys(s));
        let kx = choose|k: int| 0 <= k < xs(s).len() && xs(s)[k] == mnx;
        let ky = choose|k: int| 0 <= k < ys(s).len() && ys(s)[k] == mny;
        let jx = choose|k: int| 0 <= k < xs(s).len() && xs(s)[k] == mxx;
        let jy = choose|k: int| 0 <= k < ys(s).len() && ys(s)[k] == mxy;
        assert forall|i: int| 0 <= i < s.len() implies mnx - mxx <= #[trigger] xs(t)[i] <= mxx
            - mnx && mny - mxy <= ys(t)[i] <= mxy - mny && xs(t)[i] == 2 * s[i].x - mnx - mxx
            && ys(t)[i] == 2 * s[i].y - mny - mxy by {
            assert(xs(s)[i] == s[i].x);
            assert(ys(s)[i] == s[i].y);
        }
        lemma_min_is(xs(t), mnx - mxx, kx);
        lemma_min_is(ys(t), mny - mxy, ky);
        lemma_max_is(xs(t), mxx - mnx, jx);
        lemma_max_is(ys(t), mxy - mny, jy);
        assert forall|i: int| 0 <= i < t.len() implies (#[trigger] t[i].x - seq_min(xs(t))) % 2
            == 0 && (t[i].y - seq_min(ys(t))) % 2 == 0 by {
            assert(xs(t)[i] == t[i].x);
            assert(ys(t)[i] == t[i].y);
            assert(xs(s)[i] == s[i].x);
            assert(ys(s)[i] == s[i].y);
        }
    }
}

/// The loop in the raw frame: unchanged where no coordinate is negative, else
/// moved so its bounding box starts at the origin and brought back from half
/// pixels to whole ones.
pub fn to_raw(pts: &Vec<Point>) -> (r: Vec<Point>)
    requires
        within_limits(pts@),
    ensures
        r@ == raw_of(pts@),
        within_limits(r@),
        is_raw(r@),
{
    let mut all_raw = true;
    let mut i: usize = 0;
    while i < pts.len()
        invariant
            0 <= i <= pts@.len(),
            all_raw == forall|k: int| #![trigger pts@[k]] 0 <= k < i ==> pts@[k].x >= 0 && pts@[k].y >= 0,
        decreases pts@.len() - i,
    {
        if pts[i].x < 0 || pts[i].y < 0 {
            all_raw = false;
        }
        i = i + 1;
    }
    if all_raw {
        return pts.clone();
    }
    let (min_x, _max_x, min_y, _max_y) = bounding_box(pts);
    proof {
        lemma_bounds_within(pts@);
    }
    let mut r: Vec<Point> = Vec::new();
    let mut i: usize = 0;
    while i < pts.len()
        invariant
            0 <= i <= pts@.len(),
            !is_raw(pts@),
            within_limits(pts@),
            min_x == seq_min(xs(pts@)),
            min_y == seq_min(ys(pts@)),
            forall|k: int|
                0 <= k < pts@.len() ==> min_x <= #[trigger] pts@[k].x && min_y <= pts@[k].y,
            -COORD_LIMIT <= min_x <= COORD_LIMIT,
            -COORD_LIMIT <= min_y <= COORD_LIMIT,
            r@ =~= raw_of(pts@).subrange(0, i as int),
        decreases pts@.len() - i,
    {
        let p = pts[i];
        r.push(Point { x: (p.x - min_x) / 2, y: (p.y - min_y) / 2 });
        i = i + 1;
    }
    proof {
        assert(raw_of(pts@).subrange(0, pts@.len() as int) =~= raw_of(pts@));
    }
    r
}

/// Loops of pixel coordinates stay within the limits once translated.
pub proof fn lemma_translated_within(s: Seq<Point>, m: int)
    requires
        0 <= m <= COORD_LIMIT,
        forall|i: int| 0 <= i < s.len() ==> 0 <= #[trigger] s[i].x <= m && 0 <= s[i].y <= m,
    ensures
        within_limits(s),
        within_limits(translated(s)),
{
    if s.len() > 0 {
        lemma_bounds_within(s);
        let t = translated(s);
        lemma_min_max(xs(s));
        lemma_min_max(ys(s));
        let kx = choose|k: int| 0 <= k < xs(s).len() && xs(s)[k] == seq_min(xs(s));
        let ky = choose|k: int| 0 <= k < ys(s).len() && ys(s)[k] == seq_min(ys(s));
        let jx = choose|k: int| 0 <= k < xs(s).len() && xs(s)[k] == seq_max(xs(s));
        let jy = choose|k: int| 0 <= k < ys(s).len() && ys(s)[k] == seq_max(ys(s));
        assert(s[kx].x == xs(s)[kx] && s[jx].x == xs(s)[jx]);
        assert(s[ky].x == xs(s)[ky] && s[jy].x == xs(s)[jy]);
        assert(s[ky].y == ys(s)[ky] && s[jy].y == ys(s)[jy]);
        assert forall|i: int| 0 <= i < t.len() implies -COORD_LIMIT <= #[trigger] t[i].x
            <= COORD_LIMIT && -COORD_LIMIT <= t[i].y <= COORD_LIMIT by {
            assert(s[i].x == xs(s)[i]);
        }
    }
}

} // verus!
