//! The grid store: a rectangle of cells, each alive or dead.

use vstd::prelude::*;

verus! {

/// A newly seeded grid has each cell alive with chance
/// `ALIVE_NUMERATOR / ALIVE_DENOMINATOR`.
pub const ALIVE_NUMERATOR: u32 = 1;
pub const ALIVE_DENOMINATOR: u32 = 100;

/// `rand::rngs::ThreadRng`, the generator that seeds a grid, carried as an
/// opaque value.
#[verifier::external_type_specification]
#[verifier::external_body]
pub struct ExThreadRng(rand::rngs::ThreadRng);

/// Relies on `rand::thread_rng`: hands out the generator of this thread.
#[verifier::external_body]
fn thread_generator() -> rand::rngs::ThreadRng {
    rand::thread_rng()
}

/// Relies on `rand::Rng::gen_ratio`: `true` with chance
/// `numerator / denominator`, always `true` when the two are equal and always
/// `false` when `numerator` is zero. It panics when `denominator` is zero or
/// below `numerator`.
#[verifier::external_body]
fn draw_ratio(rng: &mut rand::rngs::ThreadRng, numerator: u32, denominator: u32) -> (r: bool)
    requires
        0 < denominator,
        numerator <= denominator,
    ensures
        numerator == 0 ==> !r,
        numerator == denominator ==> r,
{
    rand::Rng::gen_ratio(rng, numerator, denominator)
}

/// The position of one cell: `x` selects the row, `y` the place within it.
#[derive(Debug, Clone, Copy, PartialEq, Eq, Structural)]
pub struct CellIndex {
    pub x: usize,
    pub y: usize,
}

/// A single cell.
#[derive(Debug, Clone, Copy, PartialEq, Eq, Structural)]
pub struct Cell {
    pub is_alive: bool,
}

/// One row of cells, indexed by `y`.
#[derive(Debug, Clone)]
pub struct CellsRow {
    pub values: Vec<Cell>,
}

/// A grid of `num_cells_x` rows of `num_cells_y` cells each.
#[derive(Debug, Clone)]
pub struct Cells {
    pub rows: Vec<CellsRow>,
    pub num_cells_x: usize,
    pub num_cells_y: usize,
}

impl View for CellsRow {
    type V = Seq<bool>;

    open spec fn view(&self) -> Seq<bool> {
        self.values@.map_values(|c: Cell| c.is_alive)
    }
}

impl View for Cells {
    type V = Seq<Seq<bool>>;

    open spec fn view(&self) -> Seq<Seq<bool>> {
        self.rows@.map_values(|r: CellsRow| r@)
    }
}

/// `g` has `nx` rows of `ny` cells each.
pub open spec fn is_grid(g: Seq<Seq<bool>>, nx: int, ny: int) -> bool {
    &&& g.len() == nx
    &&& forall|x: int| 0 <= x < nx ==> (#[trigger] g[x]).len() == ny
}

/// The grid of `nx` rows of `ny` cells in which every cell is dead.
pub open spec fn dead_grid(nx: int, ny: int) -> Seq<Seq<bool>> {
    Seq::new(nx as nat, |x: int| Seq::new(ny as nat, |y: int| false))
}

impl Cells {
    /// The rows and their cells match the recorded dimensions.
    pub open spec fn wf(&self) -> bool {
        &&& self.rows@.len() == self.num_cells_x
        &&& forall|x: int|
            0 <= x < self.num_cells_x ==> (#[trigger] self.rows@[x]).values@.len()
                == self.num_cells_y
    }

    /// Whether the cell at `(x, y)` is alive.
    pub fn get(&self, x: usize, y: usize) -> (r: bool)
        requires
            self.wf(),
            x < self.num_cells_x,
            y < self.num_cells_y,
        ensures
            r == self@[x as int][y as int],
    {
        self.rows[x].values[y].is_alive
    }

    /// Makes the cell at `(x, y)` alive or dead; every other cell is kept.
    pub fn set(&mut self, x: usize, y: usize, value: bool)
        requires
            old(self).wf(),
            x < old(self).num_cells_x,
            y < old(self).num_cells_y,
        ensures
            final(self).wf(),
            final(self).num_cells_x == old(self).num_cells_x,
            final(self).num_cells_y == old(self).num_cells_y,
            final(self)@ == old(self)@.update(x as int, old(self)@[x as int].update(y as int, value)),
    {
        self.rows[x].values[y] = Cell { is_alive: value };
        assert(self.rows@[x as int]@ =~= old(self)@[x as int].update(y as int, value));
        assert(self@ =~= old(self)@.update(x as int, old(self)@[x as int].update(y as int, value)));
    }
}

/// A grid of the given dimensions in which every cell is dead.
pub fn get_all_cells_as_dead(num_cells_x: usize, num_cells_y: usize) -> (r: Cells)
    ensures
        r.wf(),
        r.num_cells_x == num_cells_x,
        r.num_cells_y == num_cells_y,
        r@ == dead_grid(num_cells_x as int, num_cells_y as int),
{
    let mut rows: Vec<CellsRow> = Vec::new();
    let mut x: usize = 0;
    while x < num_cells_x
        invariant
            x <= num_cells_x,
            rows@.len() == x,
            forall|i: int| 0 <= i < x ==> (#[trigger] rows@[i]).values@.len() == num_cells_y,
            forall|i: int| 0 <= i < x ==> (#[trigger] rows@[i])@ == Seq::new(num_cells_y as nat, |y: int| false),
        decreases num_cells_x - x,
    {
        let mut values: Vec<Cell> = Vec::new();
        let mut y: usize = 0;
        while y < num_cells_y
            invariant
                y <= num_cells_y,
                values@.len() == y,
                forall|j: int| 0 <= j < y ==> !(#[trigger] values@[j]).is_alive,
            decreases num_cells_y - y,
        {
            values.push(Cell { is_alive: false });
            y = y + 1;
        }
        let row = CellsRow { values };
        assert(row@ =~= Seq::new(num_cells_y as nat, |y: int| false));
        rows.push(row);
        x = x + 1;
    }
    let r = Cells { rows, num_cells_x, num_cells_y };
    assert(r@ =~= dead_grid(num_cells_x as int, num_cells_y as int));
    r
}

/// The grid of `nx` rows of `ny` cells whose cell `(x, y)` is
/// `draws[x * ny + y]`: the draws laid out row after row.
pub open spec fn grid_of_draws(nx: int, ny: int, draws: Seq<bool>) -> Seq<Seq<bool>> {
    Seq::new(nx as nat, |x: int| Seq::new(ny as nat, |y: int| draws[x * ny + y]))
}

proof fn lemma_flat_index(x: int, y: int, nx: int, ny: int)
    requires
        0 <= x < nx,
        0 <= y < ny,
    ensures
        0 <= x * ny + y < nx * ny,
        x * ny + ny == (x + 1) * ny,
{
    assert(0 <= x * ny + y < nx * ny) by (nonlinear_arith)
        requires
            0 <= x < nx,
            0 <= y < ny,
    ;
    assert(x * ny + ny == (x + 1) * ny) by (nonlinear_arith);
}

/// A grid of the given dimensions whose cells are `draws`, row after row:
/// cell `(x, y)` is `draws[x * num_cells_y + y]`.
pub fn cells_from_draws(num_cells_x: usize, num_cells_y: usize, draws: &Vec<bool>) -> (r: Cells)
    requires
        draws@.len() == num_cells_x * num_cells_y,
    ensures
        r.wf(),
        r.num_cells_x == num_cells_x,
        r.num_cells_y == num_cells_y,
        r@ == grid_of_draws(num_cells_x as int, num_cells_y as int, draws@),
        forall|x: int, y: int|
            0 <= x < num_cells_x && 0 <= y < num_cells_y ==> r@[x][y] == draws@[x * num_cells_y + y],
{
    let ghost ny = num_cells_y as int;
    let n: usize = draws.len();
    let mut rows: Vec<CellsRow> = Vec::new();
    let mut k: usize = 0;
    let mut x: usize = 0;
    while x < num_cells_x
        invariant
            ny == num_cells_y,
            draws@.len() == num_cells_x * num_cells_y,
            n == draws@.len(),
            x <= num_cells_x,
            k == x * ny,
            rows@.len() == x,
            forall|a: int| 0 <= a < x ==> (#[trigger] rows@[a]).values@.len() == num_cells_y,
            forall|a: int|
                0 <= a < x ==> (#[trigger] rows@[a])@ == Seq::new(num_cells_y as nat, |b: int| draws@[a * ny + b]),
        decreases num_cells_x - x,
    {
        let mut values: Vec<Cell> = Vec::new();
        let mut y: usize = 0;
        while y < num_cells_y
            invariant
                ny == num_cells_y,
                draws@.len() == num_cells_x * num_cells_y,
                n == draws@.len(),
                x < num_cells_x,
                y <= num_cells_y,
                k == x * ny + y,
                values@.len() == y,
                forall|b: int| 0 <= b < y ==> (#[trigger] values@[b]).is_alive == draws@[x * ny + b],
            decreases num_cells_y - y,
        {
            proof {
                lemma_flat_index(x as int, y as int, num_cells_x as int, ny);
            }
            values.push(Cell { is_alive: draws[k] });
            k = k + 1;
            y = y + 1;
        }
        proof {
            if num_cells_y > 0 {
                lemma_flat_index(x as int, 0, num_cells_x as int, ny);
            } else {
                assert(x * ny + ny == (x + 1) * ny) by (nonlinear_arith)
                    requires
                        ny == 0,
                ;
            }
        }
        let row = CellsRow { values };
        assert(row@ =~= Seq::new(num_cells_y as nat, |b: int| draws@[x * ny + b]));
        rows.push(row);
        x = x + 1;
    }
    let r = Cells { rows, num_cells_x, num_cells_y };
    assert(r@ =~= grid_of_draws(num_cells_x as int, num_cells_y as int, draws@));
    r
}

/// A grid of the given dimensions. With `randomize` each cell is alive or
/// dead by an independent random draw, the draws laid out by
/// `cells_from_draws`; without it every cell is dead.
pub fn init_cells(num_cells_x: usize, num_cells_y: usize, randomize: bool) -> (r: Cells)
    ensures
        r.wf(),
        r.num_cells_x == num_cells_x,
        r.num_cells_y == num_cells_y,
        !randomize ==> r@ == dead_grid(num_cells_x as int, num_cells_y as int),
{
    let mut generator = thread_generator();
    let ghost ny = num_cells_y as int;
    let mut draws: Vec<bool> = Vec::new();
    let mut x: usize = 0;
    while x < num_cells_x
        invariant
            ny == num_cells_y,
            x <= num_cells_x,
            draws@.len() == x * ny,
            !randomize ==> forall|i: int| 0 <= i < draws@.len() ==> !(#[trigger] draws@[i]),
        decreases num_cells_x - x,
    {
        let mut y: usize = 0;
        while y < num_cells_y
            invariant
                ny == num_cells_y,
                x < num_cells_x,
                y <= num_cells_y,
                draws@.len() == x * ny + y,
                !randomize ==> forall|i: int| 0 <= i < draws@.len() ==> !(#[trigger] draws@[i]),
            decreases num_cells_y - y,
        {
            let is_alive = if randomize {
                draw_ratio(&mut generator, ALIVE_NUMERATOR, ALIVE_DENOMINATOR)
            } else {
                false
            };
            draws.push(is_alive);
            y = y + 1;
        }
        assert(x * ny + ny == (x + 1) * ny) by (nonlinear_arith);
        x = x + 1;
    }
    let r = cells_from_draws(num_cells_x, num_cells_y, &draws);
    if !randomize {
        assert forall|a: int, b: int| 0 <= a < num_cells_x && 0 <= b < num_cells_y implies !r@[a][b] by {
            lemma_flat_index(a, b, num_cells_x as int, ny);
        }
        assert(r@ =~~= dead_grid(num_cells_x as int, num_cells_y as int));
    }
    r
}

} // verus!
