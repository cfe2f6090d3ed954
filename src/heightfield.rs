use vstd::prelude::*;

use crate::geometry::Point;

verus! {

/// Index of the first `x` in `c`, or -1 where `c` holds none.
pub open spec fn find_col(c: Seq<i64>, x: i64) -> int
    decreases c.len(),
{
    if c.len() == 0 {
        -1
    } else {
        let k = find_col(c.drop_last(), x);
        if k >= 0 {
            k
        } else if c.last() == x {
            c.len() - 1
        } else {
            -1
        }
    }
}

/// The distinct x coordinates of `s`, in the order they are first met.
pub open spec fn columns(s: Seq<Point>) -> Seq<i64>
    decreases s.len(),
{
    if s.len() == 0 {
        Seq::empty()
    } else {
        let c = columns(s.drop_last());
        if find_col(c, s.last().x) >= 0 {
            c
        } else {
            c.push(s.last().x)
        }
    }
}

/// For each column of `columns(s)`, the least y of the points of `s` in it.
pub open spec fn column_heights(s: Seq<Point>) -> Seq<i64>
    decreases s.len(),
{
    if s.len() == 0 {
        Seq::empty()
    } else {
        let t = s.drop_last();
        let h = column_heights(t);
        let p = s.last();
        let k = find_col(columns(t), p.x);
        if k < 0 {
            h.push(p.y)
        } else if p.y < h[k] {
            h.update(k, p.y)
        } else {
            h
        }
    }
}

proof fn lemma_find_col(c: Seq<i64>, x: i64)
    ensures
        -1 <= find_col(c, x) < c.len(),
        find_col(c, x) >= 0 ==> c[find_col(c, x)] == x,
        forall|j: int| 0 <= j < c.len() && (find_col(c, x) < 0 || j < find_col(c, x)) ==> #[trigger] c[j] != x,
    decreases c.len(),
{
    if c.len() > 0 {
        let t = c.drop_last();
        lemma_find_col(t, x);
        assert forall|j: int| 0 <= j < c.len() && (find_col(c, x) < 0 || j < find_col(c, x)) implies #[trigger] c[j] != x by {
            if j < t.len() {
                assert(c[j] == t[j]);
            }
        }
    }
}

/// `j` is where a scan from the front stops: the first `x`, or the end.
proof fn lemma_find_col_at(c: Seq<i64>, x: i64, j: int)
    requires
        0 <= j <= c.len(),
        forall|k: int| 0 <= k < j ==> #[trigger] c[k] != x,
        j < c.len() ==> c[j] == x,
    ensures
        find_col(c, x) == (if j == c.len() { -1 } else { j }),
{
    lemma_find_col(c, x);
    let f = find_col(c, x);
    if f >= 0 {
        assert(c[f] == x);
    }
    if j < c.len() {
        assert(c[j] == x);
    }
}

proof fn lemma_columns(s: Seq<Point>)
    ensures
        column_heights(s).len() == columns(s).len(),
        columns(s).no_duplicates(),
        forall|x: i64| columns(s).contains(x) <==> exists|i: int| 0 <= i < s.len() && #[trigger] s[i].x == x,
    decreases s.len(),
{
    if s.len() > 0 {
        let t = s.drop_last();
        lemma_columns(t);
        let c = columns(t);
        let x = s.last().x;
        lemma_find_col(c, x);
        if find_col(c, x) < 0 {
            assert(!c.contains(x));
        }
        assert forall|y: i64| columns(s).contains(y) <==> exists|i: int| 0 <= i < s.len() && #[trigger] s[i].x == y by {
            if columns(s).contains(y) {
                if c.contains(y) {
                    let i = choose|i: int| 0 <= i < t.len() && #[trigger] t[i].x == y;
                    assert(s[i].x == y);
                } else {
                    assert(columns(s) == c.push(x));
                    let k = choose|k: int| 0 <= k < columns(s).len() && columns(s)[k] == y;
                    assert(k == c.len());
                    assert(s[s.len() - 1].x == y);
                }
            }
            if exists|i: int| 0 <= i < s.len() && #[trigger] s[i].x == y {
                let i = choose|i: int| 0 <= i < s.len() && #[trigger] s[i].x == y;
                if i < t.len() {
                    assert(t[i].x == y);
                    assert(c.contains(y));
                    let k = choose|k: int| 0 <= k < c.len() && c[k] == y;
                    if find_col(c, x) < 0 {
                        assert(columns(s)[k] == y);
                    }
                } else if find_col(c, x) >= 0 {
                    assert(c[find_col(c, x)] == y);
                } else {
                    assert(columns(s)[c.len() as int] == y);
                }
            }
        }
    }
}

/// The heights of a point set: one per distinct x column, whatever order and
/// repetition the points come in.
pub proof fn lemma_one_height_per_column(s: Seq<Point>)
    ensures
        column_heights(s).len() == columns(s).len(),
        columns(s).no_duplicates(),
        columns(s).to_set() == s.map_values(|p: Point| p.x).to_set(),
{
    lemma_columns(s);
    let xs = s.map_values(|p: Point| p.x);
    assert forall|x: i64| #[trigger] columns(s).to_set().contains(x) <==> xs.to_set().contains(x) by {
        if xs.contains(x) {
            let i = choose|i: int| 0 <= i < xs.len() && xs[i] == x;
            assert(s[i].x == x);
        }
        if exists|i: int| 0 <= i < s.len() && #[trigger] s[i].x == x {
            let i = choose|i: int| 0 <= i < s.len() && #[trigger] s[i].x == x;
            assert(xs[i] == x);
        }
    }
    assert(columns(s).to_set() =~= xs.to_set());
}

/// Each height is the y of a point in its column, and no point of that column
/// lies above it: the topmost point of the column.
pub proof fn lemma_height_is_column_minimum(s: Seq<Point>)
    ensures
        forall|k: int|
            #![trigger columns(s)[k]]
            0 <= k < columns(s).len() ==> exists|i: int|
                #![trigger s[i]]
                0 <= i < s.len() && s[i].x == columns(s)[k] && s[i].y == column_heights(s)[k],
        forall|k: int, i: int|
            0 <= k < columns(s).len() && 0 <= i < s.len() && #[trigger] s[i].x == #[trigger] columns(
                s,
            )[k] ==> column_heights(s)[k] <= s[i].y,
    decreases s.len(),
{
    lemma_columns(s);
    if s.len() > 0 {
        let t = s.drop_last();
        lemma_height_is_column_minimum(t);
        lemma_columns(t);
        let c = columns(t);
        let h = column_heights(t);
        let p = s.last();
        let n = s.len() - 1;
        lemma_find_col(c, p.x);
        let f = find_col(c, p.x);
        assert forall|k: int| #![trigger columns(s)[k]] 0 <= k < columns(s).len() implies exists|i: int|
            #![trigger s[i]]
            0 <= i < s.len() && s[i].x == columns(s)[k] && s[i].y == column_heights(s)[k] by {
            if k < c.len() && !(k == f && p.y < h[k]) {
                assert(c[k] == columns(t)[k]);
                let i = choose|i: int| #![trigger t[i]] 0 <= i < t.len() && t[i].x == c[k] && t[i].y == h[k];
                assert(s[i] == t[i]);
                assert(columns(s)[k] == c[k]);
            } else {
                assert(s[n] == p);
                assert(columns(s)[k] == p.x);
            }
        }
        assert forall|k: int, i: int|
            0 <= k < columns(s).len() && 0 <= i < s.len() && #[trigger] s[i].x == #[trigger] columns(
                s,
            )[k] implies column_heights(s)[k] <= s[i].y by {
            if i < n {
                assert(s[i] == t[i]);
                if k < c.len() {
                    assert(columns(s)[k] == c[k]);
                    assert(h[k] <= t[i].y);
                } else {
                    assert(columns(s)[k] == p.x);
                    assert(c.contains(p.x)) by {
                        assert(exists|j: int| 0 <= j < t.len() && #[trigger] t[j].x == p.x);
                    }
                }
            } else {
                assert(s[i] == p);
                if k < c.len() {
                    assert(columns(s)[k] == c[k]);
                    assert(c.no_duplicates());
                    assert(k == f);
                }
            }
        }
    }
}

/// For each distinct x column of `points`, in the order the columns are first
/// met, the least y among the points in that column.
pub fn heights_from_points(points: &Vec<Point>) -> (r: Vec<i64>)
    ensures
        r@ == column_heights(points@),
{
    let mut cols: Vec<i64> = Vec::new();
    let mut heights: Vec<i64> = Vec::new();
    let mut i: usize = 0;
    while i < points.len()
        invariant
            0 <= i <= points@.len(),
            cols@ == columns(points@.subrange(0, i as int)),
            heights@ == column_heights(points@.subrange(0, i as int)),
            heights@.len() == cols@.len(),
        decreases points@.len() - i,
    {
        let p = points[i];
        let mut j: usize = 0;
        while j < cols.len() && cols[j] != p.x
            invariant
                0 <= j <= cols@.len(),
                forall|k: int| 0 <= k < j ==> #[trigger] cols@[k] != p.x,
            decreases cols@.len() - j,
        {
            j = j + 1;
        }
        proof {
            let b = points@.subrange(0, i + 1);
            assert(b.drop_last() =~= points@.subrange(0, i as int));
            assert(b.last() == p);
            lemma_find_col_at(cols@, p.x, j as int);
            lemma_columns(b);
        }
        if j == cols.len() {
            cols.push(p.x);
            heights.push(p.y);
        } else if p.y < heights[j] {
            heights.set(j, p.y);
        }
        i = i + 1;
    }
    proof {
        assert(points@.subrange(0, points@.len() as int) =~= points@);
    }
    heights
}

/// A height array with the horizontal span it covers.
#[derive(Clone, Debug)]
pub struct Heightfield {
    pub heights: Vec<i64>,
    /// The number of columns less one.
    pub x_scale: u64,
}

/// The heightfield of `points`: its column heights, and a scale of one less
/// than their count. Fewer than two columns give no heightfield, as such a
/// scale would span nothing.
pub fn heightfield_from_points(points: &Vec<Point>) -> (r: Option<Heightfield>)
    ensures
        r is None <==> columns(points@).len() < 2,
        r matches Some(hf) ==> hf.heights@ == column_heights(points@) && hf.x_scale
            == columns(points@).len() - 1,
{
    let heights = heights_from_points(points);
    proof {
        lemma_columns(points@);
    }
    if heights.len() < 2 {
        return None;
    }
    let x_scale = (heights.len() - 1) as u64;
    Some(Heightfield { heights, x_scale })
}

} // verus!
