//! The mathematical model of a grid: cells, border, neighbourhood and the
//! transition rule, all over `Seq<Seq<bool>>`.

use vstd::prelude::*;
use crate::rng::seed_after;

verus! {

/// The cells of a grid stored as rows of cells.
pub open spec fn cells(g: Vec<Vec<bool>>) -> Seq<Seq<bool>> {
    Seq::new(g.len() as nat, |i: int| g[i]@)
}

/// The number of columns of a grid, read from its first row.
pub open spec fn width_of(g: Seq<Seq<bool>>) -> int {
    if g.len() == 0 {
        0
    } else {
        g[0].len() as int
    }
}

/// `g` has `h` rows of `w` cells each.
pub open spec fn is_grid(g: Seq<Seq<bool>>, h: int, w: int) -> bool {
    &&& g.len() == h
    &&& forall|i: int| 0 <= i < h ==> #[trigger] g[i].len() == w
}

/// Whether `(i, j)` lies in the outermost rows or columns of an `h` by `w` grid.
pub open spec fn is_border(h: int, w: int, i: int, j: int) -> bool {
    i == 0 || i == h - 1 || j == 0 || j == w - 1
}

/// Every border cell of `g` is dead.
pub open spec fn border_dead(g: Seq<Seq<bool>>) -> bool {
    forall|i: int, j: int|
        0 <= i < g.len() && 0 <= j < g[i].len() && is_border(g.len() as int, width_of(g), i, j)
            ==> !#[trigger] g[i][j]
}

/// Every cell of `g` is dead.
pub open spec fn all_dead(g: Seq<Seq<bool>>) -> bool {
    forall|i: int, j: int| 0 <= i < g.len() && 0 <= j < g[i].len() ==> !#[trigger] g[i][j]
}

/// 1 for a live cell, 0 for a dead one.
pub open spec fn alive(g: Seq<Seq<bool>>, i: int, j: int) -> int {
    if g[i][j] {
        1
    } else {
        0
    }
}

/// The number of live cells among the eight cells around `(i, j)`.
pub open spec fn live_neighbours(g: Seq<Seq<bool>>, i: int, j: int) -> int {
    alive(g, i - 1, j - 1) + alive(g, i - 1, j) + alive(g, i - 1, j + 1) + alive(g, i, j - 1)
        + alive(g, i, j + 1) + alive(g, i + 1, j - 1) + alive(g, i + 1, j) + alive(g, i + 1, j + 1)
}

/// The rule of life: a live cell stays alive with two or three live
/// neighbours, a dead cell comes alive with exactly three.
pub open spec fn lives_next(alive_now: bool, neighbours: int) -> bool {
    if alive_now {
        neighbours == 2 || neighbours == 3
    } else {
        neighbours == 3
    }
}

/// The state of cell `(i, j)` in the generation after `g`: border cells are
/// dead, interior cells follow the rule of life.
pub open spec fn next_cell(g: Seq<Seq<bool>>, i: int, j: int) -> bool {
    !is_border(g.len() as int, width_of(g), i, j) && lives_next(g[i][j], live_neighbours(g, i, j))
}

/// The generation after `g`, of the same dimensions.
pub open spec fn next_grid(g: Seq<Seq<bool>>) -> Seq<Seq<bool>> {
    Seq::new(g.len(), |i: int| Seq::new(width_of(g) as nat, |j: int| next_cell(g, i, j)))
}

/// Whether three consecutive generations are the same, cell for cell; never
/// so without a previous generation.
pub open spec fn stable(
    previous: Option<Seq<Seq<bool>>>,
    current: Seq<Seq<bool>>,
    next: Seq<Seq<bool>>,
) -> bool {
    match previous {
        Some(p) => p == current && next == current,
        None => false,
    }
}

/// The state that seeding gives cell `(i, j)` of an `h` by `w` grid: the
/// generator is advanced once per cell in row-major order and the cell lives
/// when the new value is even; border cells are then forced dead.
pub open spec fn initial_cell(h: int, w: int, seed: u64, i: int, j: int) -> bool {
    !is_border(h, w, i, j) && seed_after(seed, (i * w + j + 1) as nat) % 2 == 0
}

/// The grid that seeding with `seed` gives.
pub open spec fn initial_grid(h: int, w: int, seed: u64) -> Seq<Seq<bool>> {
    Seq::new(h as nat, |i: int| Seq::new(w as nat, |j: int| initial_cell(h, w, seed, i, j)))
}

/// The next generation has the dimensions of the current one and a dead
/// border.
pub proof fn lemma_next_grid_well_formed(g: Seq<Seq<bool>>, h: int, w: int)
    requires
        is_grid(g, h, w),
        h >= 2,
        w >= 2,
    ensures
        is_grid(next_grid(g), h, w),
        width_of(next_grid(g)) == w,
        border_dead(next_grid(g)),
{
}

/// Each cell of the next generation follows the rule of life: a live
/// interior cell survives with two or three live neighbours and dies with
/// fewer or more; a dead interior cell comes alive with exactly three; a
/// border cell is dead.
pub proof fn lemma_next_grid_rule(g: Seq<Seq<bool>>, h: int, w: int, i: int, j: int)
    requires
        is_grid(g, h, w),
        h >= 2,
        w >= 2,
        0 <= i < h,
        0 <= j < w,
    ensures
        is_border(h, w, i, j) ==> !next_grid(g)[i][j],
        !is_border(h, w, i, j) && g[i][j] ==> (next_grid(g)[i][j] <==> (live_neighbours(g, i, j)
            == 2 || live_neighbours(g, i, j) == 3)),
        !is_border(h, w, i, j) && g[i][j] && (live_neighbours(g, i, j) < 2 || live_neighbours(
            g,
            i,
            j,
        ) > 3) ==> !next_grid(g)[i][j],
        !is_border(h, w, i, j) && !g[i][j] ==> (next_grid(g)[i][j] <==> live_neighbours(g, i, j)
            == 3),
{
}

/// The next generation depends on the current cells alone.
pub proof fn lemma_next_grid_deterministic(a: Seq<Seq<bool>>, b: Seq<Seq<bool>>)
    requires
        a == b,
    ensures
        next_grid(a) == next_grid(b),
{
}

/// A grid with no live cell maps to itself, and is confirmed stable as soon
/// as a previous generation exists: never on the first comparison, always
/// on the second.
pub proof fn lemma_dead_grid_is_stable(g: Seq<Seq<bool>>, h: int, w: int)
    requires
        is_grid(g, h, w),
        h >= 2,
        w >= 2,
        all_dead(g),
    ensures
        next_grid(g) == g,
        !stable(None, g, next_grid(g)),
        stable(Some(g), g, next_grid(g)),
{
    assert forall|i: int| 0 <= i < h implies #[trigger] next_grid(g)[i] == g[i] by {
        assert(next_grid(g)[i] =~= g[i]);
    }
    assert(next_grid(g) =~= g);
}

/// A grid whose only live cell is the interior cell `(i, j)` dies out in one
/// generation, and the dead grid is then stable.
pub proof fn lemma_isolated_cell_dies(g: Seq<Seq<bool>>, h: int, w: int, i: int, j: int)
    requires
        is_grid(g, h, w),
        h >= 2,
        w >= 2,
        !is_border(h, w, i, j),
        0 <= i < h,
        0 <= j < w,
        g[i][j],
        forall|a: int, b: int|
            0 <= a < h && 0 <= b < w && (a != i || b != j) ==> !#[trigger] g[a][b],
    ensures
        !next_grid(g)[i][j],
        all_dead(next_grid(g)),
        stable(Some(next_grid(g)), next_grid(g), next_grid(next_grid(g))),
{
    lemma_next_grid_well_formed(g, h, w);
    assert forall|a: int, b: int|
        0 <= a < h && 0 <= b < w implies !#[trigger] next_grid(g)[a][b] by {
        if !is_border(h, w, a, b) {
            assert(live_neighbours(g, a, b) <= 1);
        }
    }
    lemma_dead_grid_is_stable(next_grid(g), h, w);
}

/// Seeding gives a grid of the requested dimensions whose border cells are
/// all dead, whatever the seed.
pub proof fn lemma_initial_grid_well_formed(h: int, w: int, seed: u64)
    requires
        h >= 2,
        w >= 2,
    ensures
        is_grid(initial_grid(h, w, seed), h, w),
        width_of(initial_grid(h, w, seed)) == w,
        border_dead(initial_grid(h, w, seed)),
{
}

} // verus!
