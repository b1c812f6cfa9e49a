//! Known patterns and what one generation does to them, on grids of any size.

use vstd::prelude::*;
use crate::life::{
    clipped,
    count_alive,
    in_bounds,
    live_neighbours,
    neighbour_candidates,
    next_generation,
};

verus! {

/// 1 where `(a, b)` lies on the grid and is alive, else 0.
pub open spec fn alive_at(g: Seq<Seq<bool>>, nx: int, ny: int, a: int, b: int) -> nat {
    if in_bounds((a, b), nx, ny) && g[a][b] {
        1
    } else {
        0
    }
}

/// How many of the first `k` positions of `s` are on the grid and alive.
spec fn count_first(g: Seq<Seq<bool>>, nx: int, ny: int, s: Seq<(int, int)>, k: int) -> nat
    decreases k,
{
    if k <= 0 {
        0
    } else {
        count_first(g, nx, ny, s, k - 1) + alive_at(g, nx, ny, s[k - 1].0, s[k - 1].1)
    }
}

proof fn lemma_count_first(g: Seq<Seq<bool>>, nx: int, ny: int, s: Seq<(int, int)>, k: int)
    requires
        0 <= k <= s.len(),
    ensures
        count_alive(g, clipped(s.take(k), nx, ny)) == count_first(g, nx, ny, s, k),
    decreases k,
{
    if k > 0 {
        lemma_count_first(g, nx, ny, s, k - 1);
        let t = s.take(k);
        assert(t.drop_last() =~= s.take(k - 1));
        let rest = clipped(t.drop_last(), nx, ny);
        if in_bounds(t.last(), nx, ny) {
            assert(rest.push(t.last()).drop_last() =~= rest);
        }
    }
}

/// The live neighbours of `(x, y)`, one term for each of the eight positions
/// around it.
proof fn lemma_live_neighbours_sum(g: Seq<Seq<bool>>, nx: int, ny: int, x: int, y: int)
    ensures
        live_neighbours(g, nx, ny, x, y) == alive_at(g, nx, ny, x - 1, y - 1) + alive_at(g, nx, ny, x, y - 1)
            + alive_at(g, nx, ny, x + 1, y - 1) + alive_at(g, nx, ny, x - 1, y + 1) + alive_at(
            g,
            nx,
            ny,
            x,
            y + 1,
        ) + alive_at(g, nx, ny, x + 1, y + 1) + alive_at(g, nx, ny, x - 1, y) + alive_at(
            g,
            nx,
            ny,
            x + 1,
            y,
        ),
{
    let s = neighbour_candidates(x, y);
    lemma_count_first(g, nx, ny, s, 8);
    assert(s.take(8) =~= s);
    reveal_with_fuel(count_first, 9);
}

/// The grid of `nx` by `ny` cells whose live cells are those of the 2 by 2
/// block with lowest corner `(x0, y0)`.
pub open spec fn block_grid(nx: int, ny: int, x0: int, y0: int) -> Seq<Seq<bool>> {
    Seq::new(
        nx as nat,
        |a: int| Seq::new(ny as nat, |b: int| x0 <= a <= x0 + 1 && y0 <= b <= y0 + 1),
    )
}

/// A 2 by 2 block with no other live cell is a still life: one generation
/// leaves it as it is.
pub proof fn block_is_still_life(nx: int, ny: int, x0: int, y0: int)
    requires
        0 <= x0,
        0 <= y0,
        x0 + 1 < nx,
        y0 + 1 < ny,
    ensures
        next_generation(block_grid(nx, ny, x0, y0), nx, ny) == block_grid(nx, ny, x0, y0),
{
    let g = block_grid(nx, ny, x0, y0);
    let next = next_generation(g, nx, ny);
    assert forall|a: int, b: int| 0 <= a < nx && 0 <= b < ny implies next[a][b] == g[a][b] by {
        lemma_live_neighbours_sum(g, nx, ny, a, b);
    }
    assert(next =~~= g);
}

/// The grid whose live cells are `(x0, y0 - 1)`, `(x0, y0)` and
/// `(x0, y0 + 1)`: three in a row along `y`.
pub open spec fn blinker_along_y(nx: int, ny: int, x0: int, y0: int) -> Seq<Seq<bool>> {
    Seq::new(nx as nat, |a: int| Seq::new(ny as nat, |b: int| a == x0 && y0 - 1 <= b <= y0 + 1))
}

/// The grid whose live cells are `(x0 - 1, y0)`, `(x0, y0)` and
/// `(x0 + 1, y0)`: three in a row along `x`.
pub open spec fn blinker_along_x(nx: int, ny: int, x0: int, y0: int) -> Seq<Seq<bool>> {
    Seq::new(nx as nat, |a: int| Seq::new(ny as nat, |b: int| x0 - 1 <= a <= x0 + 1 && b == y0))
}

/// A blinker away from the edges oscillates with period two: three cells in a
/// row along `y` turn into three along `x` through the same middle cell, and
/// back.
pub proof fn blinker_oscillates(nx: int, ny: int, x0: int, y0: int)
    requires
        1 <= x0,
        1 <= y0,
        x0 + 1 < nx,
        y0 + 1 < ny,
    ensures
        next_generation(blinker_along_y(nx, ny, x0, y0), nx, ny) == blinker_along_x(nx, ny, x0, y0),
        next_generation(blinker_along_x(nx, ny, x0, y0), nx, ny) == blinker_along_y(nx, ny, x0, y0),
        next_generation(next_generation(blinker_along_y(nx, ny, x0, y0), nx, ny), nx, ny)
            == blinker_along_y(nx, ny, x0, y0),
{
    let row = blinker_along_y(nx, ny, x0, y0);
    let col = blinker_along_x(nx, ny, x0, y0);
    let after_row = next_generation(row, nx, ny);
    let after_col = next_generation(col, nx, ny);
    assert forall|a: int, b: int| 0 <= a < nx && 0 <= b < ny implies after_row[a][b] == col[a][b] by {
        lemma_live_neighbours_sum(row, nx, ny, a, b);
    }
    assert(after_row =~~= col);
    assert forall|a: int, b: int| 0 <= a < nx && 0 <= b < ny implies after_col[a][b] == row[a][b] by {
        lemma_live_neighbours_sum(col, nx, ny, a, b);
    }
    assert(after_col =~~= row);
}

} // verus!
