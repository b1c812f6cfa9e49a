//! The geometry of the drawn grid: its line intersections, which pointer
//! positions snap to, and its lines.

use vstd::prelude::*;
use crate::spatial::Point;

verus! {

/// The side of a cell in pixels, which is also the spacing of the grid lines.
pub const CELL_SIZE: usize = 8;

/// `lo`, `lo + step`, `lo + 2 * step`, ... while below `hi`.
pub open spec fn axis(lo: int, hi: int, step: int) -> Seq<int>
    decreases if lo < hi {
        hi - lo
    } else {
        0
    },
{
    if step <= 0 || lo >= hi {
        Seq::empty()
    } else {
        seq![lo] + axis(lo + step, hi, step)
    }
}

/// The points `(x, y)` for each `x` of `xs`.
pub open spec fn lattice_row(xs: Seq<int>, y: int) -> Seq<Point> {
    xs.map_values(|x: int| Point { x: x as i32, y: y as i32 })
}

/// The points of `xs` by `ys`, one row of `xs` for each `y` of `ys` in order.
pub open spec fn lattice(xs: Seq<int>, ys: Seq<int>) -> Seq<Point>
    decreases ys.len(),
{
    if ys.len() == 0 {
        Seq::empty()
    } else {
        lattice(xs, ys.drop_last()) + lattice_row(xs, ys.last())
    }
}

/// A line segment of the drawn grid.
#[derive(Debug, Clone, Copy, PartialEq, Eq, Structural)]
pub struct GridLine {
    pub start_x: i32,
    pub start_y: i32,
    pub end_x: i32,
    pub end_y: i32,
}

pub open spec fn horizontal(y: int, half_width: int) -> GridLine {
    GridLine { start_x: -half_width as i32, start_y: y as i32, end_x: half_width as i32, end_y: y as i32 }
}

pub open spec fn vertical(x: int, half_height: int) -> GridLine {
    GridLine { start_x: x as i32, start_y: -half_height as i32, end_x: x as i32, end_y: half_height as i32 }
}

proof fn lemma_axis_bounds(lo: int, hi: int, step: int)
    ensures
        forall|i: int| 0 <= i < axis(lo, hi, step).len() ==> lo <= #[trigger] axis(lo, hi, step)[i] < hi,
    decreases if lo < hi {
        hi - lo
    } else {
        0
    },
{
    if step > 0 && lo < hi {
        lemma_axis_bounds(lo + step, hi, step);
        let s = axis(lo, hi, step);
        assert forall|i: int| 0 <= i < s.len() implies lo <= #[trigger] s[i] < hi by {
            if i > 0 {
                assert(s[i] == axis(lo + step, hi, step)[i - 1]);
            }
        }
    }
}

/// The values of `axis(lo, hi, step)`.
fn axis_values(lo: i32, hi: i32, step: usize) -> (r: Vec<i32>)
    requires
        0 < step,
    ensures
        r@.map_values(|v: i32| v as int) == axis(lo as int, hi as int, step as int),
{
    let mut r: Vec<i32> = Vec::new();
    let mut v: i128 = lo as i128;
    while v < hi as i128
        invariant
            0 < step,
            lo <= v,
            r@.map_values(|t: i32| t as int) + axis(v as int, hi as int, step as int) == axis(
                lo as int,
                hi as int,
                step as int,
            ),
        decreases if v < hi {
            hi - v
        } else {
            0
        },
    {
        let ghost before = r@;
        r.push(v as i32);
        assert(r@.map_values(|t: i32| t as int) =~= before.map_values(|t: i32| t as int).push(v as int));
        assert(axis(v as int, hi as int, step as int) == seq![v as int] + axis(
            v + step,
            hi as int,
            step as int,
        ));
        assert(r@.map_values(|t: i32| t as int) + axis(v + step, hi as int, step as int) =~= before.map_values(
            |t: i32| t as int,
        ) + axis(v as int, hi as int, step as int));
        v = v + step as i128;
    }
    assert(axis(v as int, hi as int, step as int) =~= Seq::empty());
    assert(r@.map_values(|t: i32| t as int) =~= r@.map_values(|t: i32| t as int) + axis(
        v as int,
        hi as int,
        step as int,
    ));
    r
}

/// The intersections of a grid of spacing `step` over `[-width, width)` by
/// `[-height, height)`, row by row from the lowest `y`.
pub fn grid_points(width: i32, height: i32, step: usize) -> (r: Vec<Point>)
    requires
        0 <= width,
        0 <= height,
        0 < step,
    ensures
        r@ == lattice(axis(-width as int, width as int, step as int), axis(-height as int, height as int, step as int)),
{
    let xs = axis_values(-width, width, step);
    let ys = axis_values(-height, height, step);
    let ghost xs_int = xs@.map_values(|v: i32| v as int);
    let ghost ys_int = ys@.map_values(|v: i32| v as int);
    proof {
        lemma_axis_bounds(-width as int, width as int, step as int);
        lemma_axis_bounds(-height as int, height as int, step as int);
    }
    let mut r: Vec<Point> = Vec::new();
    let mut j: usize = 0;
    while j < ys.len()
        invariant
            xs_int == xs@.map_values(|v: i32| v as int),
            ys_int == ys@.map_values(|v: i32| v as int),
            j <= ys@.len(),
            r@ == lattice(xs_int, ys_int.take(j as int)),
        decreases ys@.len() - j,
    {
        let y = ys[j];
        let ghost start = r@;
        let mut i: usize = 0;
        while i < xs.len()
            invariant
                xs_int == xs@.map_values(|v: i32| v as int),
                i <= xs@.len(),
                r@ == start + lattice_row(xs_int, y as int).take(i as int),
            decreases xs@.len() - i,
        {
            r.push(Point { x: xs[i], y });
            assert(r@ =~= start + lattice_row(xs_int, y as int).take(i as int + 1));
            i = i + 1;
        }
        assert(ys_int.take(j as int + 1).drop_last() =~= ys_int.take(j as int));
        assert(lattice_row(xs_int, y as int).take(xs@.len() as int) =~= lattice_row(xs_int, y as int));
        j = j + 1;
    }
    assert(ys_int.take(ys@.len() as int) =~= ys_int);
    r
}

/// The lines of a grid of spacing `step` over a `width` by `height` area
/// centred on the origin: the horizontal lines from the lowest `y` up, then
/// the vertical lines from the lowest `x` rightwards.
pub fn create_grid(width: i32, height: i32, step_size: usize) -> (r: Vec<GridLine>)
    requires
        0 <= width,
        0 <= height,
        0 < step_size,
    ensures
        r@ == axis(-(height / 2) as int, (height / 2) as int, step_size as int).map_values(
            |y: int| horizontal(y, (width / 2) as int),
        ) + axis(-(width / 2) as int, (width / 2) as int, step_size as int).map_values(
            |x: int| vertical(x, (height / 2) as int),
        ),
{
    let half_w: i32 = width / 2;
    let half_h: i32 = height / 2;
    let ys = axis_values(-half_h, half_h, step_size);
    let xs = axis_values(-half_w, half_w, step_size);
    let ghost ys_int = ys@.map_values(|v: i32| v as int);
    let ghost xs_int = xs@.map_values(|v: i32| v as int);
    let ghost hs = ys_int.map_values(|y: int| horizontal(y, half_w as int));
    let ghost vs = xs_int.map_values(|x: int| vertical(x, half_h as int));
    let mut r: Vec<GridLine> = Vec::new();
    let mut j: usize = 0;
    while j < ys.len()
        invariant
            ys_int == ys@.map_values(|v: i32| v as int),
            hs == ys_int.map_values(|y: int| horizontal(y, half_w as int)),
            0 <= half_w,
            j <= ys@.len(),
            r@ == hs.take(j as int),
        decreases ys@.len() - j,
    {
        r.push(GridLine { start_x: -half_w, start_y: ys[j], end_x: half_w, end_y: ys[j] });
        assert(r@ =~= hs.take(j as int + 1));
        j = j + 1;
    }
    let mut i: usize = 0;
    while i < xs.len()
        invariant
            xs_int == xs@.map_values(|v: i32| v as int),
            vs == xs_int.map_values(|x: int| vertical(x, half_h as int)),
            0 <= half_h,
            hs.len() == ys@.len(),
            i <= xs@.len(),
            r@ == hs + vs.take(i as int),
        decreases xs@.len() - i,
    {
        r.push(GridLine { start_x: xs[i], start_y: -half_h, end_x: xs[i], end_y: half_h });
        assert(r@ =~= hs + vs.take(i as int + 1));
        i = i + 1;
    }
    assert(vs.take(xs@.len() as int) =~= vs);
    r
}

} // verus!
