//! The simulation engine: Moore neighbourhoods clipped to the grid, and one
//! generation of Conway's rule computed from a fixed snapshot.

use vstd::prelude::*;
use crate::grid::{Cell, CellIndex, Cells, CellsRow, dead_grid, is_grid};

verus! {

/// The `k`-th offset `(dx, dy)` of the Moore neighbourhood, in listing order:
/// the three cells at `y - 1` (from `x - 1` to `x + 1`), the three at `y + 1`,
/// then `(x - 1, y)` and `(x + 1, y)`.
pub open spec fn neighbour_offset(k: int) -> (int, int) {
    if k == 0 {
        (-1, -1)
    } else if k == 1 {
        (0, -1)
    } else if k == 2 {
        (1, -1)
    } else if k == 3 {
        (-1, 1)
    } else if k == 4 {
        (0, 1)
    } else if k == 5 {
        (1, 1)
    } else if k == 6 {
        (-1, 0)
    } else {
        (1, 0)
    }
}

/// The eight cells around `(x, y)`, in listing order, before clipping.
pub open spec fn neighbour_candidates(x: int, y: int) -> Seq<(int, int)> {
    Seq::new(8, |k: int| (x + neighbour_offset(k).0, y + neighbour_offset(k).1))
}

pub open spec fn in_bounds(p: (int, int), nx: int, ny: int) -> bool {
    0 <= p.0 < nx && 0 <= p.1 < ny
}

/// The positions of `s` that lie inside the `nx` by `ny` rectangle, in order.
pub open spec fn clipped(s: Seq<(int, int)>, nx: int, ny: int) -> Seq<(int, int)>
    decreases s.len(),
{
    if s.len() == 0 {
        Seq::empty()
    } else {
        let rest = clipped(s.drop_last(), nx, ny);
        if in_bounds(s.last(), nx, ny) {
            rest.push(s.last())
        } else {
            rest
        }
    }
}

/// The neighbours of `(x, y)` on an `nx` by `ny` grid: no wrapping, cells past
/// an edge are simply absent.
pub open spec fn neighbours(x: int, y: int, nx: int, ny: int) -> Seq<(int, int)> {
    clipped(neighbour_candidates(x, y), nx, ny)
}

/// How many of the positions in `s` hold a live cell of `g`.
pub open spec fn count_alive(g: Seq<Seq<bool>>, s: Seq<(int, int)>) -> nat
    decreases s.len(),
{
    if s.len() == 0 {
        0
    } else {
        count_alive(g, s.drop_last()) + if g[s.last().0][s.last().1] {
            1nat
        } else {
            0nat
        }
    }
}

/// The number of live neighbours of `(x, y)`.
pub open spec fn live_neighbours(g: Seq<Seq<bool>>, nx: int, ny: int, x: int, y: int) -> nat {
    count_alive(g, neighbours(x, y, nx, ny))
}

/// Conway's rule: a live cell survives with two or three live neighbours, a
/// dead cell is born with exactly three.
pub open spec fn next_state(alive: bool, live: nat) -> bool {
    if alive {
        live == 2 || live == 3
    } else {
        live == 3
    }
}

/// The generation after `g`, every cell decided from `g` alone.
pub open spec fn next_generation(g: Seq<Seq<bool>>, nx: int, ny: int) -> Seq<Seq<bool>> {
    Seq::new(
        nx as nat,
        |x: int| Seq::new(ny as nat, |y: int| next_state(g[x][y], live_neighbours(g, nx, ny, x, y))),
    )
}

pub open spec fn index_pair(c: CellIndex) -> (int, int) {
    (c.x as int, c.y as int)
}

proof fn lemma_clipped_in_bounds(s: Seq<(int, int)>, nx: int, ny: int)
    ensures
        clipped(s, nx, ny).len() <= s.len(),
        forall|i: int|
            0 <= i < clipped(s, nx, ny).len() ==> in_bounds(#[trigger] clipped(s, nx, ny)[i], nx, ny),
    decreases s.len(),
{
    if s.len() > 0 {
        lemma_clipped_in_bounds(s.drop_last(), nx, ny);
    }
}

proof fn lemma_count_dead(g: Seq<Seq<bool>>, nx: int, ny: int, s: Seq<(int, int)>)
    requires
        g == dead_grid(nx, ny),
        forall|i: int| 0 <= i < s.len() ==> in_bounds(#[trigger] s[i], nx, ny),
    ensures
        count_alive(g, s) == 0,
    decreases s.len(),
{
    if s.len() > 0 {
        lemma_count_dead(g, nx, ny, s.drop_last());
    }
}

/// The exec form of `neighbour_offset`.
fn offset_at(k: usize) -> (r: (i8, i8))
    requires
        k < 8,
    ensures
        (r.0 as int, r.1 as int) == neighbour_offset(k as int),
{
    if k == 0 {
        (-1, -1)
    } else if k == 1 {
        (0, -1)
    } else if k == 2 {
        (1, -1)
    } else if k == 3 {
        (-1, 1)
    } else if k == 4 {
        (0, 1)
    } else if k == 5 {
        (1, 1)
    } else if k == 6 {
        (-1, 0)
    } else {
        (1, 0)
    }
}

/// Lists the neighbours of `(x, y)` that lie on the grid.
pub fn get_neighbours_indices(x: usize, y: usize, cells: &Cells) -> (r: Vec<CellIndex>)
    requires
        cells.wf(),
        x < cells.num_cells_x,
        y < cells.num_cells_y,
    ensures
        r@.map_values(|c: CellIndex| index_pair(c)) == neighbours(
            x as int,
            y as int,
            cells.num_cells_x as int,
            cells.num_cells_y as int,
        ),
{
    let nx = cells.num_cells_x;
    let ny = cells.num_cells_y;
    let ghost cands = neighbour_candidates(x as int, y as int);
    let mut r: Vec<CellIndex> = Vec::new();
    let mut k: usize = 0;
    while k < 8
        invariant
            k <= 8,
            nx == cells.num_cells_x,
            ny == cells.num_cells_y,
            x < nx,
            y < ny,
            cands == neighbour_candidates(x as int, y as int),
            r@.map_values(|c: CellIndex| index_pair(c)) == clipped(cands.take(k as int), nx as int, ny as int),
        decreases 8 - k,
    {
        let (dx, dy) = offset_at(k);
        let fits_x = if dx < 0 {
            x > 0
        } else if dx > 0 {
            x + 1 < nx
        } else {
            true
        };
        let fits_y = if dy < 0 {
            y > 0
        } else if dy > 0 {
            y + 1 < ny
        } else {
            true
        };
        let ghost prefix = cands.take(k as int + 1);
        assert(prefix.drop_last() =~= cands.take(k as int));
        assert(prefix.last() == cands[k as int]);
        if fits_x && fits_y {
            let cx = if dx < 0 {
                x - 1
            } else if dx > 0 {
                x + 1
            } else {
                x
            };
            let cy = if dy < 0 {
                y - 1
            } else if dy > 0 {
                y + 1
            } else {
                y
            };
            let ghost before = r@;
            r.push(CellIndex { x: cx, y: cy });
            assert(r@.map_values(|c: CellIndex| index_pair(c)) =~= before.map_values(
                |c: CellIndex| index_pair(c),
            ).push((cx as int, cy as int)));
        }
        k = k + 1;
    }
    assert(cands.take(8) =~= cands);
    r
}

/// Computes the next generation of `cells`. The input is read only: every
/// neighbour count is taken from the generation being replaced.
pub fn game_of_life(cells: &Cells) -> (r: Cells)
    requires
        cells.wf(),
    ensures
        r.wf(),
        r.num_cells_x == cells.num_cells_x,
        r.num_cells_y == cells.num_cells_y,
        r@ == next_generation(cells@, cells.num_cells_x as int, cells.num_cells_y as int),
{
    let nx = cells.num_cells_x;
    let ny = cells.num_cells_y;
    let ghost g = cells@;
    let ghost next = next_generation(g, nx as int, ny as int);
    let mut rows: Vec<CellsRow> = Vec::new();
    let mut i: usize = 0;
    while i < nx
        invariant
            cells.wf(),
            nx == cells.num_cells_x,
            ny == cells.num_cells_y,
            g == cells@,
            next == next_generation(g, nx as int, ny as int),
            i <= nx,
            rows@.len() == i,
            forall|a: int| 0 <= a < i ==> (#[trigger] rows@[a]).values@.len() == ny,
            forall|a: int| 0 <= a < i ==> (#[trigger] rows@[a])@ == next[a],
        decreases nx - i,
    {
        let mut values: Vec<Cell> = Vec::new();
        let mut j: usize = 0;
        while j < ny
            invariant
                cells.wf(),
                nx == cells.num_cells_x,
                ny == cells.num_cells_y,
                g == cells@,
                next == next_generation(g, nx as int, ny as int),
                i < nx,
                j <= ny,
                values@.len() == j,
                forall|b: int| 0 <= b < j ==> (#[trigger] values@[b]).is_alive == next[i as int][b],
            decreases ny - j,
        {
            let indices = get_neighbours_indices(i, j, cells);
            let ghost s = neighbours(i as int, j as int, nx as int, ny as int);
            proof {
                lemma_clipped_in_bounds(neighbour_candidates(i as int, j as int), nx as int, ny as int);
                assert(indices@.len() == s.len());
            }
            let mut alive: usize = 0;
            let mut m: usize = 0;
            while m < indices.len()
                invariant
                    cells.wf(),
                    nx == cells.num_cells_x,
                    ny == cells.num_cells_y,
                    g == cells@,
                    s == neighbours(i as int, j as int, nx as int, ny as int),
                    indices@.map_values(|c: CellIndex| index_pair(c)) == s,
                    forall|t: int| 0 <= t < s.len() ==> in_bounds(#[trigger] s[t], nx as int, ny as int),
                    m <= indices@.len(),
                    alive <= m,
                    alive == count_alive(g, s.take(m as int)),
                decreases indices@.len() - m,
            {
                let c = indices[m];
                assert(s[m as int] == index_pair(c));
                assert(s.take(m as int + 1).drop_last() =~= s.take(m as int));
                if cells.get(c.x, c.y) {
                    alive = alive + 1;
                }
                m = m + 1;
            }
            assert(s.take(s.len() as int) =~= s);
            let current = cells.get(i, j);
            let next_alive = if current {
                alive == 2 || alive == 3
            } else {
                alive == 3
            };
            values.push(Cell { is_alive: next_alive });
            j = j + 1;
        }
        let row = CellsRow { values };
        assert(row@ =~= next[i as int]);
        rows.push(row);
        i = i + 1;
    }
    let r = Cells { rows, num_cells_x: nx, num_cells_y: ny };
    assert(r@ =~= next);
    r
}

/// An all-dead grid stays all-dead: the empty grid is a fixed point of the
/// generation step.
pub proof fn dead_grid_is_fixed_point(nx: nat, ny: nat)
    ensures
        next_generation(dead_grid(nx as int, ny as int), nx as int, ny as int) == dead_grid(
            nx as int,
            ny as int,
        ),
{
    let g = dead_grid(nx as int, ny as int);
    assert forall|x: int, y: int| 0 <= x < nx && 0 <= y < ny implies live_neighbours(
        g,
        nx as int,
        ny as int,
        x,
        y,
    ) == 0 by {
        lemma_clipped_in_bounds(neighbour_candidates(x, y), nx as int, ny as int);
        lemma_count_dead(g, nx as int, ny as int, neighbours(x, y, nx as int, ny as int));
    }
    assert(next_generation(g, nx as int, ny as int) =~~= g);
}

/// A live cell without a live neighbour is dead one generation later.
pub proof fn isolated_cell_dies(g: Seq<Seq<bool>>, nx: int, ny: int, x: int, y: int)
    requires
        is_grid(g, nx, ny),
        0 <= x < nx,
        0 <= y < ny,
        live_neighbours(g, nx, ny, x, y) == 0,
    ensures
        !next_generation(g, nx, ny)[x][y],
{
}

/// The generation step depends on the grid alone: two calls on grids with the
/// same cells give the same cells.
pub proof fn next_generation_is_deterministic(a: Cells, b: Cells)
    requires
        a.wf(),
        b.wf(),
        a.num_cells_x == b.num_cells_x,
        a.num_cells_y == b.num_cells_y,
        a@ == b@,
    ensures
        next_generation(a@, a.num_cells_x as int, a.num_cells_y as int) == next_generation(
            b@,
            b.num_cells_x as int,
            b.num_cells_y as int,
        ),
{
}

} // verus!
