//! The simulation: a grid with a dead border, its seeding, the transition to
//! the next generation and the detection of a steady state.

use vstd::prelude::*;
use crate::grid::{
    alive, border_dead, cells, initial_cell, initial_grid, is_border, is_grid,
    lemma_initial_grid_well_formed, lemma_next_grid_well_formed, live_neighbours, next_cell,
    next_grid, stable, width_of,
};
use crate::rng::{lcg, seed_after};
use crate::clock::current_time_seed;

verus! {

/// Rows of the simulated grid.
pub const HEIGHT: usize = 10;

/// Columns of the simulated grid.
pub const WIDTH: usize = 10;

/// Frames shown per second.
pub const FPS_LIMIT: u64 = 30;

/// The pause between two frames, in milliseconds.
pub const FRAME_MILLIS: u64 = 1000 / FPS_LIMIT;

/// Why a simulation could not be set up.
#[derive(Debug, Clone, Copy, PartialEq, Eq, Structural)]
pub enum LifeError {
    /// Fewer than two rows or fewer than two columns.
    InvalidDimensions,
    /// Rows of different lengths.
    UnevenRows,
    /// A cell of the outermost rows or columns is alive.
    LiveBorder,
    /// The system clock reads a time before the Unix epoch.
    ClockBeforeEpoch,
}

/// The cells, if any, of an optional grid.
pub open spec fn opt_cells(g: Option<Vec<Vec<bool>>>) -> Option<Seq<Seq<bool>>> {
    match g {
        Some(v) => Some(cells(v)),
        None => None,
    }
}

/// Whether two grids hold the same rows, cell for cell.
fn same_cells(a: &Vec<Vec<bool>>, b: &Vec<Vec<bool>>) -> (r: bool)
    ensures
        r == (cells(*a) == cells(*b)),
{
    if a.len() != b.len() {
        assert(cells(*a).len() != cells(*b).len());
        return false;
    }
    for i in 0..a.len()
        invariant
            a.len() == b.len(),
            forall|k: int| 0 <= k < i ==> #[trigger] a[k]@ == b[k]@,
    {
        let ra = &a[i];
        let rb = &b[i];
        if ra.len() != rb.len() {
            assert(cells(*a)[i as int].len() != cells(*b)[i as int].len());
            return false;
        }
        for j in 0..ra.len()
            invariant
                a.len() == b.len(),
                0 <= i < a.len(),
                ra@ == a[i as int]@,
                rb@ == b[i as int]@,
                ra.len() == rb.len(),
                forall|l: int| 0 <= l < j ==> #[trigger] ra[l] == rb[l],
        {
            if ra[j] != rb[j] {
                assert(cells(*a)[i as int][j as int] != cells(*b)[i as int][j as int]);
                return false;
            }
        }
        assert(ra@ =~= rb@);
    }
    assert(cells(*a) =~= cells(*b));
    true
}

/// The grid that seeding an `height` by `width` grid with `seed` gives.
fn seeded_cells(height: usize, width: usize, seed: u64) -> (r: Vec<Vec<bool>>)
    requires
        height >= 2,
        width >= 2,
    ensures
        cells(r) == initial_grid(height as int, width as int, seed),
{
    let ghost g = initial_grid(height as int, width as int, seed);
    let ghost start = seed;
    let mut seed: u64 = seed;
    let mut grid: Vec<Vec<bool>> = Vec::new();
    for i in 0..height
        invariant
            height >= 2,
            width >= 2,
            g == initial_grid(height as int, width as int, start),
            grid.len() == i,
            seed == seed_after(start, (i * width) as nat),
            forall|k: int| 0 <= k < i ==> #[trigger] grid[k]@ == g[k],
    {
        let mut row: Vec<bool> = Vec::new();
        for j in 0..width
            invariant
                height >= 2,
                width >= 2,
                0 <= i < height,
                row.len() == j,
                seed == seed_after(start, (i * width + j) as nat),
                forall|l: int| 0 <= l < j ==> #[trigger] row[l] == initial_cell(
                    height as int,
                    width as int,
                    start,
                    i as int,
                    l,
                ),
        {
            seed = lcg(seed);
            let border: bool = i == 0 || i == height - 1 || j == 0 || j == width - 1;
            row.push(!border && seed % 2 == 0);
        }
        assert(row@ =~= g[i as int]);
        grid.push(row);
        assert((i * width + width) as nat == ((i + 1) * width) as nat) by (nonlinear_arith);
    }
    assert(cells(grid) =~= g);
    grid
}

/// A Game of Life whose outermost rows and columns are always dead.
pub struct GameOfLife {
    height: usize,
    width: usize,
    grid: Vec<Vec<bool>>,
}

impl View for GameOfLife {
    type V = Seq<Seq<bool>>;

    closed spec fn view(&self) -> Seq<Seq<bool>> {
        cells(self.grid)
    }
}

impl GameOfLife {
    /// Number of rows.
    pub closed spec fn rows(&self) -> int {
        self.height as int
    }

    /// Number of columns.
    pub closed spec fn cols(&self) -> int {
        self.width as int
    }

    /// At least two rows and two columns, every row as wide as the grid,
    /// every border cell dead.
    pub open spec fn wf(&self) -> bool {
        &&& self.rows() >= 2
        &&& self.cols() >= 2
        &&& is_grid(self@, self.rows(), self.cols())
        &&& border_dead(self@)
    }

    /// A simulation of `height` rows and `width` columns seeded from the
    /// clock.
    pub fn new(height: usize, width: usize) -> (r: Result<GameOfLife, LifeError>)
        ensures
            (height < 2 || width < 2) <==> r == Err::<GameOfLife, LifeError>(
                LifeError::InvalidDimensions,
            ),
            r is Err ==> r->Err_0 == LifeError::InvalidDimensions || r->Err_0
                == LifeError::ClockBeforeEpoch,
            r is Ok ==> r->Ok_0.wf() && r->Ok_0.rows() == height && r->Ok_0.cols() == width
                && exists|seed: u64| r->Ok_0@ == initial_grid(height as int, width as int, seed),
    {
        if height < 2 || width < 2 {
            return Err(LifeError::InvalidDimensions);
        }
        match current_time_seed() {
            Some(seed) => GameOfLife::with_seed(height, width, seed),
            None => Err(LifeError::ClockBeforeEpoch),
        }
    }

    /// A simulation of `height` rows and `width` columns seeded from `seed`.
    pub fn with_seed(height: usize, width: usize, seed: u64) -> (r: Result<GameOfLife, LifeError>)
        ensures
            (height < 2 || width < 2) <==> r == Err::<GameOfLife, LifeError>(
                LifeError::InvalidDimensions,
            ),
            r is Ok ==> r->Ok_0.wf() && r->Ok_0.rows() == height && r->Ok_0.cols() == width
                && r->Ok_0@ == initial_grid(height as int, width as int, seed),
            r is Err ==> r->Err_0 == LifeError::InvalidDimensions,
    {
        if height < 2 || width < 2 {
            return Err(LifeError::InvalidDimensions);
        }
        let game = GameOfLife { height, width, grid: seeded_cells(height, width, seed) };
        proof {
            lemma_initial_grid_well_formed(height as int, width as int, seed);
        }
        Ok(game)
    }

    /// Seeds the grid again from `seed`, keeping its dimensions.
    pub fn init_grid(&mut self, seed: u64)
        requires
            old(self).wf(),
        ensures
            final(self).wf(),
            final(self).rows() == old(self).rows(),
            final(self).cols() == old(self).cols(),
            final(self)@ == initial_grid(old(self).rows(), old(self).cols(), seed),
    {
        self.grid = seeded_cells(self.height, self.width, seed);
        proof {
            lemma_initial_grid_well_formed(self.rows(), self.cols(), seed);
        }
    }

    /// A simulation over the given rows of cells.
    pub fn from_cells(grid: Vec<Vec<bool>>) -> (r: Result<GameOfLife, LifeError>)
        ensures
            (cells(grid).len() < 2 || width_of(cells(grid)) < 2) <==> r == Err::<GameOfLife, LifeError>(
                LifeError::InvalidDimensions,
            ),
            r == Err::<GameOfLife, LifeError>(LifeError::UnevenRows) <==> (cells(grid).len() >= 2
                && width_of(cells(grid)) >= 2 && !is_grid(
                cells(grid),
                cells(grid).len() as int,
                width_of(cells(grid)),
            )),
            r == Err::<GameOfLife, LifeError>(LifeError::LiveBorder) <==> (cells(grid).len() >= 2
                && width_of(cells(grid)) >= 2 && is_grid(
                cells(grid),
                cells(grid).len() as int,
                width_of(cells(grid)),
            ) && !border_dead(cells(grid))),
            r is Ok <==> (cells(grid).len() >= 2 && width_of(cells(grid)) >= 2 && is_grid(
                cells(grid),
                cells(grid).len() as int,
                width_of(cells(grid)),
            ) && border_dead(cells(grid))),
            r is Ok ==> r->Ok_0.wf() && r->Ok_0@ == cells(grid),
    {
        let ghost g = cells(grid);
        let height: usize = grid.len();
        if height < 2 || grid[0].len() < 2 {
            return Err(LifeError::InvalidDimensions);
        }
        let width: usize = grid[0].len();
        for i in 0..height
            invariant
                g == cells(grid),
                height == grid.len(),
                height >= 2,
                width >= 2,
                width == width_of(g),
                forall|k: int| 0 <= k < i ==> #[trigger] g[k].len() == width,
        {
            if grid[i].len() != width {
                assert(g[i as int].len() != width);
                return Err(LifeError::UnevenRows);
            }
        }
        assert(is_grid(g, height as int, width as int));
        for i in 0..height
            invariant
                g == cells(grid),
                height == grid.len(),
                height >= 2,
                width >= 2,
                width == width_of(g),
                is_grid(g, height as int, width as int),
                forall|k: int, l: int|
                    0 <= k < i && 0 <= l < width && is_border(height as int, width as int, k, l)
                        ==> !#[trigger] g[k][l],
        {
            assert(g[i as int].len() == width);
            for j in 0..width
                invariant
                    g == cells(grid),
                    height == grid.len(),
                    height >= 2,
                    width >= 2,
                    width == width_of(g),
                    0 <= i < height,
                    grid[i as int].len() == width,
                    is_grid(g, height as int, width as int),
                    forall|k: int, l: int|
                        0 <= k < i && 0 <= l < width && is_border(height as int, width as int, k, l)
                            ==> !#[trigger] g[k][l],
                    forall|l: int|
                        0 <= l < j && is_border(height as int, width as int, i as int, l)
                            ==> !#[trigger] g[i as int][l],
            {
                let border: bool = i == 0 || i == height - 1 || j == 0 || j == width - 1;
                if border && grid[i][j] {
                    assert(g[i as int][j as int]);
                    return Err(LifeError::LiveBorder);
                }
            }
        }
        Ok(GameOfLife { height, width, grid })
    }

    /// Number of rows.
    pub fn height(&self) -> (r: usize)
        ensures
            r == self.rows(),
    {
        self.height
    }

    /// Number of columns.
    pub fn width(&self) -> (r: usize)
        ensures
            r == self.cols(),
    {
        self.width
    }

    /// The current generation.
    pub fn grid(&self) -> (r: &Vec<Vec<bool>>)
        ensures
            cells(*r) == self@,
    {
        &self.grid
    }

    fn cell(&self, i: usize, j: usize) -> (r: usize)
        requires
            self.wf(),
            i < self.rows(),
            j < self.cols(),
        ensures
            r == alive(self@, i as int, j as int),
    {
        assert(self@[i as int].len() == self.cols());
        if self.grid[i][j] {
            1
        } else {
            0
        }
    }

    /// Number of live cells around the interior cell `(i, j)`.
    pub fn count_neighbours(&self, i: usize, j: usize) -> (r: usize)
        requires
            self.wf(),
            1 <= i < self.rows() - 1,
            1 <= j < self.cols() - 1,
        ensures
            r == live_neighbours(self@, i as int, j as int),
    {
        let mut counter: usize = 0;
        counter += self.cell(i - 1, j - 1);
        counter += self.cell(i - 1, j);
        counter += self.cell(i - 1, j + 1);
        counter += self.cell(i, j - 1);
        counter += self.cell(i, j + 1);
        counter += self.cell(i + 1, j - 1);
        counter += self.cell(i + 1, j);
        counter += self.cell(i + 1, j + 1);
        counter
    }

    /// The next generation, as a fresh grid of the same dimensions.
    pub fn get_next_state(&self) -> (r: Vec<Vec<bool>>)
        requires
            self.wf(),
        ensures
            cells(r) == next_grid(self@),
    {
        let ghost g = self@;
        let mut new_state: Vec<Vec<bool>> = Vec::new();
        for i in 0..self.height
            invariant
                self.wf(),
                g == self@,
                new_state.len() == i,
                forall|k: int| 0 <= k < i ==> #[trigger] new_state[k]@ == next_grid(g)[k],
        {
            let mut row: Vec<bool> = Vec::new();
            for j in 0..self.width
                invariant
                    self.wf(),
                    g == self@,
                    0 <= i < self.rows(),
                    row.len() == j,
                    forall|l: int| 0 <= l < j ==> #[trigger] row[l] == next_cell(g, i as int, l),
            {
                let live: bool = if i == 0 || i == self.height - 1 || j == 0 || j == self.width - 1 {
                    false
                } else {
                    let neighbours: usize = self.count_neighbours(i, j);
                    if self.grid[i][j] {
                        neighbours == 2 || neighbours == 3
                    } else {
                        neighbours == 3
                    }
                };
                row.push(live);
            }
            assert(row@ =~= next_grid(g)[i as int]);
            new_state.push(row);
        }
        assert(cells(new_state) =~= next_grid(g));
        new_state
    }

    /// Whether `previous_state`, the current generation and `next_state` are
    /// the same, cell for cell; false when there is no previous generation.
    pub fn check_stable(
        &self,
        previous_state: &Option<Vec<Vec<bool>>>,
        next_state: &Vec<Vec<bool>>,
    ) -> (r: bool)
        ensures
            r == stable(opt_cells(*previous_state), self@, cells(*next_state)),
            previous_state is None ==> !r,
    {
        match previous_state {
            None => false,
            Some(prev) => same_cells(prev, &self.grid) && same_cells(next_state, &self.grid),
        }
    }

    /// One tick of the run: computes the next generation and returns true
    /// when it confirms a steady state, leaving everything as it was;
    /// otherwise the current generation becomes `previous_state` and the next
    /// one takes its place.
    pub fn step(&mut self, previous_state: &mut Option<Vec<Vec<bool>>>) -> (stopped: bool)
        requires
            old(self).wf(),
        ensures
            stopped == stable(opt_cells(*old(previous_state)), old(self)@, next_grid(old(self)@)),
            final(self).wf(),
            final(self).rows() == old(self).rows(),
            final(self).cols() == old(self).cols(),
            stopped ==> final(self)@ == old(self)@ && *final(previous_state) == *old(
                previous_state,
            ),
            !stopped ==> final(self)@ == next_grid(old(self)@) && opt_cells(*final(previous_state))
                == Some(old(self)@),
    {
        let mut next_state = self.get_next_state();
        if self.check_stable(previous_state, &next_state) {
            return true;
        }
        proof {
            lemma_next_grid_well_formed(self@, self.rows(), self.cols());
        }
        std::mem::swap(&mut self.grid, &mut next_state);
        *previous_state = Some(next_state);
        false
    }
}

} // verus!
