//! The grid of a pattern: one palette index for each cell.

use crate::models::LabPoint;
use crate::palette_index::{classified, PaletteIndex};
use vstd::prelude::*;

verus! {

/// A rectangular array of palette indices. The cell in column `gx` and row
/// `gy` stands at position `gx * rows + gy`: columns follow one another, each
/// from top to bottom.
#[derive(Debug)]
pub struct GemGrid {
    pub cols: u32,
    pub rows: u32,
    pub cells: Vec<usize>,
}

impl GemGrid {
    /// A grid has at least one column and one row and holds one index of a
    /// palette of `colors` colours for each cell; the number of cells fits a
    /// count.
    pub open spec fn wf(&self, colors: nat) -> bool {
        &&& self.cols >= 1
        &&& self.rows >= 1
        &&& self.cells@.len() == self.cols * self.rows
        &&& self.cells@.len() <= u32::MAX
        &&& forall|k: int| 0 <= k < self.cells@.len() ==> (#[trigger] self.cells@[k]) < colors
    }

    /// The position of the cell in column `gx` and row `gy`.
    pub open spec fn position(&self, gx: int, gy: int) -> int {
        gx * self.rows + gy
    }

    /// The palette index of the cell in column `gx` and row `gy`.
    pub fn cell(&self, gx: u32, gy: u32) -> (color: usize)
        requires
            self.cells@.len() == self.cols * self.rows,
            gx < self.cols,
            gy < self.rows,
        ensures
            0 <= self.position(gx as int, gy as int) < self.cells@.len(),
            color == self.cells@[self.position(gx as int, gy as int)],
    {
        proof {
            let x = gx as int;
            let r = self.rows as int;
            lemma_position_in_range(self.cols as int, r, x, gy as int);
            assert(0 <= x * r <= 0xffff_ffff * 0xffff_ffff) by (nonlinear_arith)
                requires
                    0 <= x <= 0xffff_ffff,
                    0 <= r <= 0xffff_ffff,
            ;
        }
        let len = self.cells.len();
        let at: u64 = gx as u64 * self.rows as u64 + gy as u64;
        assert(at == self.position(gx as int, gy as int) && at < len);
        self.cells[at as usize]
    }
}

/// A cell's position lies within the grid.
pub proof fn lemma_position_in_range(cols: int, rows: int, gx: int, gy: int)
    requires
        0 <= gx < cols,
        0 <= gy < rows,
    ensures
        0 <= gx * rows + gy < cols * rows,
        0 <= gx * rows <= gx * rows + gy,
{
    assert(gx * rows + rows <= cols * rows) by (nonlinear_arith)
        requires
            gx + 1 <= cols,
            rows >= 0,
    ;
    assert(0 <= gx * rows) by (nonlinear_arith)
        requires
            gx >= 0,
            rows >= 0,
    ;
}

/// Assigns each cell the palette colour nearest to its sample. `samples`
/// holds one point for each cell, in the grid's order of positions.
pub fn quantize(samples: &Vec<LabPoint>, cols: u32, rows: u32, palette: &PaletteIndex) -> (grid:
    GemGrid)
    requires
        palette.wf(),
        cols >= 1,
        rows >= 1,
        samples@.len() == cols * rows,
        samples@.len() <= u32::MAX,
    ensures
        grid.cols == cols,
        grid.rows == rows,
        grid.cells@ == classified(palette.points(), samples@),
        grid.wf(palette.colors().len()),
{
    let cells = palette.classify(samples);
    GemGrid { cols, rows, cells }
}

} // verus!
