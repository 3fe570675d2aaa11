//! The text of one frame: a character per cell, a line per row, and a blank
//! line after the grid.

use vstd::prelude::*;
use vstd::string::StringExecFns;
use crate::grid::{cells, is_grid};
use crate::life::GameOfLife;

verus! {

/// The glyph of a cell.
pub open spec fn glyph(live: bool) -> char {
    if live {
        '#'
    } else {
        '.'
    }
}

/// One row: its glyphs and a line break.
pub open spec fn row_text(r: Seq<bool>) -> Seq<char> {
    Seq::new(r.len(), |j: int| glyph(r[j])) + seq!['\n']
}

/// The rows of `g`, one after another.
pub open spec fn rows_text(g: Seq<Seq<bool>>) -> Seq<char>
    decreases g.len(),
{
    if g.len() == 0 {
        Seq::empty()
    } else {
        rows_text(g.drop_last()) + row_text(g.last())
    }
}

/// The text of a frame showing `g`: its rows, then a blank line.
pub open spec fn frame_text(g: Seq<Seq<bool>>) -> Seq<char> {
    rows_text(g) + seq!['\n']
}

impl GameOfLife {
    /// The current generation as text, `#` for a live cell and `.` for a
    /// dead one.
    pub fn render(&self) -> (r: String)
        requires
            self.wf(),
        ensures
            r@ == frame_text(self@),
    {
        let grid = self.grid();
        let ghost g = self@;
        let mut out = String::new();
        for i in 0..grid.len()
            invariant
                cells(*grid) == g,
                out@ == rows_text(g.take(i as int)),
        {
            let row = &grid[i];
            let ghost before = out@;
            for j in 0..row.len()
                invariant
                    cells(*grid) == g,
                    0 <= i < grid.len(),
                    row@ == g[i as int],
                    out@ == before + Seq::new(j as nat, |k: int| glyph(row@[k])),
            {
                proof {
                    reveal_strlit("#");
                    reveal_strlit(".");
                    assert("#"@ =~= seq!['#']);
                    assert("."@ =~= seq!['.']);
                }
                if row[j] {
                    out.append("#");
                } else {
                    out.append(".");
                }
                assert(out@ =~= before + Seq::new((j + 1) as nat, |k: int| glyph(row@[k])));
            }
            proof {
                reveal_strlit("\n");
                assert("\n"@ =~= seq!['\n']);
            }
            out.append("\n");
            assert(g.take(i + 1).drop_last() =~= g.take(i as int));
            assert(g.take(i + 1).last() == g[i as int]);
            assert(out@ =~= before + row_text(g[i as int]));
            assert(out@ =~= rows_text(g.take(i + 1)));
        }
        assert(g.take(grid.len() as int) =~= g);
        proof {
            reveal_strlit("\n");
            assert("\n"@ =~= seq!['\n']);
        }
        out.append("\n");
        out
    }
}

} // verus!
