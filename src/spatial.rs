//! The spatial mapper: from a pointer position to the grid intersection it
//! snaps to, and from that intersection to the indices of a cell.
//!
//! Positions are in a centred frame: the origin is the middle of the grid and
//! `y` grows upwards. Coordinates are whole pixels.

use vstd::prelude::*;
use crate::grid::CellIndex;

verus! {

/// A position in the centred frame.
#[derive(Debug, Clone, Copy, PartialEq, Eq, Structural)]
pub struct Point {
    pub x: i32,
    pub y: i32,
}

/// The square of the Euclidean distance between `a` and `b`; it orders points
/// exactly as the distance does.
pub open spec fn dist2(a: Point, b: Point) -> int {
    (a.x - b.x) * (a.x - b.x) + (a.y - b.y) * (a.y - b.y)
}

/// Where `q` goes in `s`: after the leading run of points that are no farther
/// from `p` than `q` is.
pub open spec fn slot(p: Point, s: Seq<Point>, q: Point) -> int
    decreases s.len(),
{
    if s.len() == 0 {
        0
    } else if dist2(p, s[0]) > dist2(p, q) {
        0
    } else {
        1 + slot(p, s.drop_first(), q)
    }
}

/// `s` with `q` inserted at its slot.
pub open spec fn insert_by_distance(p: Point, s: Seq<Point>, q: Point) -> Seq<Point> {
    s.insert(slot(p, s, q), q)
}

/// `pts` sorted by distance to `p`; points at equal distance keep the order
/// they have in `pts` (a stable insertion sort).
pub open spec fn sorted_by_distance(p: Point, pts: Seq<Point>) -> Seq<Point>
    decreases pts.len(),
{
    if pts.len() == 0 {
        Seq::empty()
    } else {
        insert_by_distance(p, sorted_by_distance(p, pts.drop_last()), pts.last())
    }
}

/// Every point of `s` is at least as close to `p` as the points after it.
pub open spec fn is_sorted_by_distance(p: Point, s: Seq<Point>) -> bool {
    forall|i: int, j: int| 0 <= i < j < s.len() ==> dist2(p, #[trigger] s[i]) <= dist2(p, #[trigger] s[j])
}

/// The first `n` items of `s`, or all of them where `s` is shorter.
pub open spec fn prefix(s: Seq<Point>, n: int) -> Seq<Point> {
    if n < s.len() {
        s.take(n)
    } else {
        s
    }
}

proof fn lemma_slot_bounds(p: Point, s: Seq<Point>, q: Point)
    ensures
        0 <= slot(p, s, q) <= s.len(),
        forall|j: int| 0 <= j < slot(p, s, q) ==> dist2(p, #[trigger] s[j]) <= dist2(p, q),
        slot(p, s, q) < s.len() ==> dist2(p, s[slot(p, s, q)]) > dist2(p, q),
    decreases s.len(),
{
    if s.len() > 0 && dist2(p, s[0]) <= dist2(p, q) {
        lemma_slot_bounds(p, s.drop_first(), q);
        assert forall|j: int| 0 <= j < slot(p, s, q) implies dist2(p, #[trigger] s[j]) <= dist2(p, q) by {
            if j > 0 {
                assert(s[j] == s.drop_first()[j - 1]);
            }
        }
    }
}

/// The slot is the first position whose point is farther than `q`.
proof fn lemma_slot_is(p: Point, s: Seq<Point>, q: Point, k: int)
    requires
        0 <= k <= s.len(),
        forall|j: int| 0 <= j < k ==> dist2(p, #[trigger] s[j]) <= dist2(p, q),
        k < s.len() ==> dist2(p, s[k]) > dist2(p, q),
    ensures
        slot(p, s, q) == k,
    decreases s.len(),
{
    if s.len() > 0 && k > 0 {
        assert forall|j: int| 0 <= j < k - 1 implies dist2(p, #[trigger] s.drop_first()[j]) <= dist2(p, q) by {
            assert(s.drop_first()[j] == s[j + 1]);
        }
        lemma_slot_is(p, s.drop_first(), q, k - 1);
    }
}

proof fn lemma_sorted_by_distance(p: Point, pts: Seq<Point>)
    ensures
        sorted_by_distance(p, pts).len() == pts.len(),
        is_sorted_by_distance(p, sorted_by_distance(p, pts)),
    decreases pts.len(),
{
    if pts.len() > 0 {
        let s = sorted_by_distance(p, pts.drop_last());
        let q = pts.last();
        lemma_sorted_by_distance(p, pts.drop_last());
        lemma_slot_bounds(p, s, q);
        let k = slot(p, s, q);
        let t = s.insert(k, q);
        s.insert_ensures(k, q);
        assert forall|i: int, j: int| 0 <= i < j < t.len() implies dist2(p, #[trigger] t[i]) <= dist2(
            p,
            #[trigger] t[j],
        ) by {
            if j < k {
            } else if j == k {
            } else if i < k {
                assert(t[j] == s[j - 1]);
                assert(dist2(p, s[k]) <= dist2(p, s[j - 1]) || k == j - 1);
            } else if i == k {
                assert(t[j] == s[j - 1]);
                assert(dist2(p, s[k]) <= dist2(p, s[j - 1]) || k == j - 1);
            } else {
                assert(t[i] == s[i - 1]);
                assert(t[j] == s[j - 1]);
            }
        }
    }
}

/// Keeping the first `n` points before or after an insertion agrees.
proof fn lemma_prefix_insert(p: Point, s: Seq<Point>, q: Point, n: int)
    requires
        n >= 0,
    ensures
        ({
            let b = prefix(s, n);
            let k = slot(p, b, q);
            prefix(insert_by_distance(p, s, q), n) == if k < n {
                prefix(b.insert(k, q), n)
            } else {
                b
            }
        }),
{
    let b = prefix(s, n);
    let m = slot(p, s, q);
    lemma_slot_bounds(p, s, q);
    s.insert_ensures(m, q);
    if m < b.len() || (m == b.len() && b.len() < n) {
        assert forall|j: int| 0 <= j < m implies dist2(p, #[trigger] b[j]) <= dist2(p, q) by {
            assert(b[j] == s[j]);
        }
        if m < b.len() {
            assert(b[m] == s[m]);
        }
        lemma_slot_is(p, b, q, m);
        b.insert_ensures(m, q);
        assert(prefix(s.insert(m, q), n) =~= prefix(b.insert(m, q), n));
    } else {
        assert forall|j: int| 0 <= j < b.len() implies dist2(p, #[trigger] b[j]) <= dist2(p, q) by {
            assert(b[j] == s[j]);
        }
        lemma_slot_is(p, b, q, b.len() as int);
        assert(prefix(s.insert(m, q), n) =~= b);
    }
}

/// Squared distance between two points.
fn distance_squared(a: Point, b: Point) -> (r: i128)
    ensures
        r == dist2(a, b),
{
    let dx: i128 = a.x as i128 - b.x as i128;
    let dy: i128 = a.y as i128 - b.y as i128;
    assert(dx * dx <= 0x1_0000_0000 * 0x1_0000_0000) by (nonlinear_arith)
        requires
            -0x1_0000_0000 <= dx <= 0x1_0000_0000,
    ;
    assert(dy * dy <= 0x1_0000_0000 * 0x1_0000_0000) by (nonlinear_arith)
        requires
            -0x1_0000_0000 <= dy <= 0x1_0000_0000,
    ;
    assert(0 <= dx * dx && 0 <= dy * dy) by (nonlinear_arith);
    dx * dx + dy * dy
}

/// The `n` points of `points` closest to `in_point`, nearest first; points at
/// equal distance keep their order in `points`.
pub fn closest_n_points(in_point: Point, points: &Vec<Point>, n: usize) -> (r: Vec<Point>)
    requires
        n <= points@.len(),
    ensures
        r@ == sorted_by_distance(in_point, points@).take(n as int),
        r@.len() == n,
        is_sorted_by_distance(in_point, r@),
{
    let mut best: Vec<Point> = Vec::new();
    let mut i: usize = 0;
    while i < points.len()
        invariant
            i <= points@.len(),
            n <= points@.len(),
            best@ == prefix(sorted_by_distance(in_point, points@.take(i as int)), n as int),
        decreases points@.len() - i,
    {
        let q = points[i];
        let dq = distance_squared(in_point, q);
        let ghost s = sorted_by_distance(in_point, points@.take(i as int));
        proof {
            assert(points@.take(i as int + 1).drop_last() =~= points@.take(i as int));
            lemma_prefix_insert(in_point, s, q, n as int);
            lemma_slot_bounds(in_point, best@, q);
        }
        let mut k: usize = 0;
        while k < best.len() && distance_squared(in_point, best[k]) <= dq
            invariant
                k <= best@.len(),
                dq == dist2(in_point, q),
                forall|j: int| 0 <= j < k ==> dist2(in_point, #[trigger] best@[j]) <= dq,
            decreases best@.len() - k,
        {
            k = k + 1;
        }
        proof {
            lemma_slot_is(in_point, best@, q, k as int);
        }
        if k < n {
            best.insert(k, q);
            if best.len() > n {
                best.pop();
            }
            assert(best@ =~= prefix(
                sorted_by_distance(in_point, points@.take(i as int + 1)),
                n as int,
            ));
        }
        i = i + 1;
    }
    proof {
        assert(points@.take(points@.len() as int) =~= points@);
        lemma_sorted_by_distance(in_point, points@);
    }
    best
}

pub open spec fn min_i32(a: i32, b: i32) -> i32 {
    if a <= b {
        a
    } else {
        b
    }
}

/// The coordinate-wise minimum of the first four points of `s`: the lower
/// left corner of the cell they surround.
pub open spec fn lower_left(s: Seq<Point>) -> Point {
    Point {
        x: min_i32(min_i32(s[0].x, s[1].x), min_i32(s[2].x, s[3].x)),
        y: min_i32(min_i32(s[0].y, s[1].y), min_i32(s[2].y, s[3].y)),
    }
}

fn smaller(a: i32, b: i32) -> (r: i32)
    ensures
        r == min_i32(a, b),
{
    if a <= b {
        a
    } else {
        b
    }
}

/// Snaps `in_point` to the grid: the coordinate-wise minimum of the four grid
/// points closest to it.
pub fn snap_to_grid(in_point: Point, grid_points: &Vec<Point>) -> (r: Point)
    requires
        4 <= grid_points@.len(),
    ensures
        r == lower_left(sorted_by_distance(in_point, grid_points@).take(4)),
{
    let closest = closest_n_points(in_point, grid_points, 4);
    let x = smaller(smaller(closest[0].x, closest[1].x), smaller(closest[2].x, closest[3].x));
    let y = smaller(smaller(closest[0].y, closest[1].y), smaller(closest[2].y, closest[3].y));
    Point { x, y }
}

/// Whether `p` lies outside the `width` by `height` rectangle centred on the
/// origin (points on its border are inside).
pub open spec fn outside_area(p: Point, width: int, height: int) -> bool {
    2 * p.x > width || 2 * p.x < -width || 2 * p.y > height || 2 * p.y < -height
}

/// The row index of `x`: `x` mapped linearly from `[-width/2, width/2]` onto
/// `[0, num_cells_x]`, rounded down; the right border `width/2` itself belongs
/// to the last row.
pub open spec fn cell_x_of(x: int, width: int, num_cells_x: int) -> int {
    let linear = (num_cells_x * (2 * x + width)) / (2 * width);
    if linear < num_cells_x {
        linear
    } else {
        num_cells_x - 1
    }
}

/// The index within a row of `y`: `y` mapped linearly from
/// `[-height/2, height/2]` onto `[num_cells_y - 1, 0]`, rounded down.
pub open spec fn cell_y_of(y: int, height: int, num_cells_y: int) -> int {
    ((num_cells_y - 1) * (height - 2 * y)) / (2 * height)
}

/// Maps a snapped point to the cell it belongs to, on a grid `width` by
/// `height` pixels wide and `num_cells_x` by `num_cells_y` cells. Points
/// outside the grid's area are rejected with `None`, never clamped.
pub fn coordinate_to_index(
    snapped: Point,
    width: u32,
    height: u32,
    num_cells_x: usize,
    num_cells_y: usize,
) -> (r: Option<CellIndex>)
    requires
        0 < width,
        0 < height,
        0 < num_cells_x,
        0 < num_cells_y,
    ensures
        r is None <==> outside_area(snapped, width as int, height as int),
        r matches Some(c) ==> c.x == cell_x_of(snapped.x as int, width as int, num_cells_x as int)
            && c.y == cell_y_of(snapped.y as int, height as int, num_cells_y as int),
        r matches Some(c) ==> c.x < num_cells_x && c.y < num_cells_y,
{
    let w: i64 = width as i64;
    let h: i64 = height as i64;
    let twice_x: i64 = 2 * (snapped.x as i64);
    let twice_y: i64 = 2 * (snapped.y as i64);
    if twice_x > w || twice_x < -w || twice_y > h || twice_y < -h {
        return None;
    }
    let along_x: u128 = (twice_x + w) as u128;
    let along_y: u128 = (h - twice_y) as u128;
    let nx: u128 = num_cells_x as u128;
    let ny: u128 = (num_cells_y - 1) as u128;
    let span_x: u128 = 2 * (w as u128);
    let span_y: u128 = 2 * (h as u128);
    proof {
        assert(nx * along_x <= nx * span_x) by (nonlinear_arith)
            requires
                along_x <= span_x,
        ;
        assert(nx * span_x <= 0x1_0000_0000_0000_0000 * 0x2_0000_0000) by (nonlinear_arith)
            requires
                nx < 0x1_0000_0000_0000_0000,
                span_x <= 0x2_0000_0000,
        ;
        assert(ny * along_y <= ny * span_y) by (nonlinear_arith)
            requires
                along_y <= span_y,
        ;
        assert(ny * span_y <= 0x1_0000_0000_0000_0000 * 0x2_0000_0000) by (nonlinear_arith)
            requires
                ny < 0x1_0000_0000_0000_0000,
                span_y <= 0x2_0000_0000,
        ;
    }
    let cx: u128 = nx * along_x / span_x;
    let cy: u128 = ny * along_y / span_y;
    proof {
        assert(cx <= nx) by (nonlinear_arith)
            requires
                cx as int == (nx as int * along_x as int) / (span_x as int),
                nx * along_x <= nx * span_x,
                span_x > 0,
        ;
        assert(cy <= ny) by (nonlinear_arith)
            requires
                cy as int == (ny as int * along_y as int) / (span_y as int),
                ny * along_y <= ny * span_y,
                span_y > 0,
        ;
    }
    let last_x: u128 = nx - 1;
    let x_index: u128 = if cx < nx {
        cx
    } else {
        last_x
    };
    Some(CellIndex { x: x_index as usize, y: cy as usize })
}

} // verus!
