//! The pattern raster: a white page with the grid of coloured cells centred
//! in its printable region, each cell with a ring in its ink colour.

use crate::codec::{draw_ring, painted_within, ring_drawn};
use crate::error::PatternError;
use crate::grid::{lemma_position_in_range, GemGrid};
use crate::layout::LayoutPlan;
use crate::models::DmcColorPrecomputed;
use crate::palette_index::PaletteIndex;
use crate::raster::{
    in_square, square_filled, uniform_pixels, Raster, Rgba, MAX_IMAGE_BYTES,
};
use vstd::prelude::*;

verus! {

/// The colour of the empty page.
pub open spec fn white() -> Rgba {
    Rgba { r: 255, g: 255, b: 255, a: 255 }
}

/// The colour of a cell of this palette colour.
pub open spec fn fill_of(color: DmcColorPrecomputed) -> Rgba {
    Rgba { r: color.r, g: color.g, b: color.b, a: 255 }
}

/// The colour of what is drawn on a cell of this palette colour.
pub open spec fn ink_of(color: DmcColorPrecomputed) -> Rgba {
    Rgba { r: color.blended_r, g: color.blended_g, b: color.blended_b, a: 255 }
}

impl LayoutPlan {
    /// Width of the grid of cells.
    pub open spec fn art_width(&self) -> int {
        self.cols * self.cell_px
    }

    /// Height of the grid of cells.
    pub open spec fn art_height(&self) -> int {
        self.rows * self.cell_px
    }

    /// Left edge of the grid: the margin and half of what the grid leaves
    /// of the printable width.
    pub open spec fn origin_x(&self) -> int {
        self.margin_px + (self.printable_width_px - self.art_width()) / 2
    }

    /// Top edge of the grid: the margin and half of what the grid leaves of
    /// the printable height.
    pub open spec fn origin_y(&self) -> int {
        self.margin_px + (self.printable_height_px - self.art_height()) / 2
    }

    /// Left edge of the cells in column `gx`.
    pub open spec fn cell_x(&self, gx: int) -> int {
        self.origin_x() + gx * self.cell_px
    }

    /// Top edge of the cells in row `gy`.
    pub open spec fn cell_y(&self, gy: int) -> int {
        self.origin_y() + gy * self.cell_px
    }

    /// Whether pixel `(i, j)` belongs to the cell in column `gx` and row `gy`.
    pub open spec fn in_cell(&self, gx: int, gy: int, i: int, j: int) -> bool {
        in_square(self.cell_x(gx), self.cell_y(gy), self.cell_px as int, i, j)
    }

    /// Whether pixel `(i, j)` belongs to the grid of cells.
    pub open spec fn in_art(&self, i: int, j: int) -> bool {
        &&& self.origin_x() <= i < self.origin_x() + self.art_width()
        &&& self.origin_y() <= j < self.origin_y() + self.art_height()
    }

    /// Whether pixel `(i, j)` of the page belongs to the margin band.
    pub open spec fn in_margin(&self, i: int, j: int) -> bool {
        ||| i < self.margin_px
        ||| i >= self.page_width_px - self.margin_px
        ||| j < self.margin_px
        ||| j >= self.page_height_px - self.margin_px
    }

    /// Whether a cell is wide enough for its ring.
    pub open spec fn has_ring(&self) -> bool {
        self.cell_px >= 4
    }

    /// Radius of a cell's ring: two pixels less than half the cell.
    pub open spec fn ring_radius(&self) -> int {
        self.cell_px / 2 - 2
    }

    /// Centre of the cells in column `gx`, on the x axis.
    pub open spec fn center_x(&self, gx: int) -> int {
        self.cell_x(gx) + self.cell_px / 2
    }

    /// Centre of the cells in row `gy`, on the y axis.
    pub open spec fn center_y(&self, gy: int) -> int {
        self.cell_y(gy) + self.cell_px / 2
    }

    /// The top left pixel of the cell in column `gx` and row `gy`.
    pub fn cell_origin(&self, gx: u32, gy: u32) -> (origin: (u32, u32))
        requires
            self.wf(),
            gx < self.cols,
            gy < self.rows,
        ensures
            origin.0 == self.cell_x(gx as int),
            origin.1 == self.cell_y(gy as int),
            self.margin_px <= origin.0,
            self.margin_px <= origin.1,
            origin.0 + self.cell_px <= self.page_width_px - self.margin_px,
            origin.1 + self.cell_px <= self.page_height_px - self.margin_px,
    {
        proof {
            lemma_grid_within_printable(*self);
            lemma_cell_within_grid(*self, gx as int, gy as int);
        }
        let art_width: u32 = self.cols * self.cell_px;
        let art_height: u32 = self.rows * self.cell_px;
        let x: u32 = self.margin_px + (self.printable_width_px - art_width) / 2 + gx * self.cell_px;
        let y: u32 = self.margin_px + (self.printable_height_px - art_height) / 2 + gy
            * self.cell_px;
        (x, y)
    }

    /// The centre pixel of the cell in column `gx` and row `gy`.
    pub fn cell_center(&self, gx: u32, gy: u32) -> (center: (u32, u32))
        requires
            self.wf(),
            gx < self.cols,
            gy < self.rows,
        ensures
            center.0 == self.center_x(gx as int),
            center.1 == self.center_y(gy as int),
            self.in_cell(gx as int, gy as int, center.0 as int, center.1 as int),
    {
        let (x, y) = self.cell_origin(gx, gy);
        (x + self.cell_px / 2, y + self.cell_px / 2)
    }
}

/// The grid of cells lies in the printable region, with what it leaves of
/// the region split evenly: the right and bottom parts are as wide as the
/// left and top parts, or one pixel wider.
pub proof fn lemma_grid_within_printable(plan: LayoutPlan)
    requires
        plan.wf(),
    ensures
        0 < plan.art_width() <= plan.final_width_px,
        0 < plan.art_height() <= plan.final_height_px,
        plan.margin_px <= plan.origin_x(),
        plan.margin_px <= plan.origin_y(),
        plan.origin_x() + plan.art_width() <= plan.page_width_px - plan.margin_px,
        plan.origin_y() + plan.art_height() <= plan.page_height_px - plan.margin_px,
        ({
            let left = plan.origin_x() - plan.margin_px;
            let right = plan.page_width_px - plan.margin_px - plan.origin_x() - plan.art_width();
            right == left || right == left + 1
        }),
        ({
            let top = plan.origin_y() - plan.margin_px;
            let bottom = plan.page_height_px - plan.margin_px - plan.origin_y()
                - plan.art_height();
            bottom == top || bottom == top + 1
        }),
{
    let cell = plan.cell_px as int;
    vstd::arithmetic::div_mod::lemma_fundamental_div_mod(plan.final_width_px as int, cell);
    vstd::arithmetic::div_mod::lemma_fundamental_div_mod(plan.final_height_px as int, cell);
    vstd::arithmetic::div_mod::lemma_mod_bound(plan.final_width_px as int, cell);
    vstd::arithmetic::div_mod::lemma_mod_bound(plan.final_height_px as int, cell);
    assert(plan.cols * cell == cell * plan.cols && plan.rows * cell == cell * plan.rows)
        by (nonlinear_arith);
    assert(plan.cols * cell > 0 && plan.rows * cell > 0) by (nonlinear_arith)
        requires
            plan.cols >= 1,
            plan.rows >= 1,
            cell >= 1,
    ;
}

/// Every cell lies in the grid of cells.
pub proof fn lemma_cell_within_grid(plan: LayoutPlan, gx: int, gy: int)
    requires
        0 <= gx < plan.cols,
        0 <= gy < plan.rows,
    ensures
        plan.origin_x() <= plan.cell_x(gx),
        plan.origin_y() <= plan.cell_y(gy),
        plan.cell_x(gx) + plan.cell_px <= plan.origin_x() + plan.art_width(),
        plan.cell_y(gy) + plan.cell_px <= plan.origin_y() + plan.art_height(),
        0 <= gx * plan.cell_px,
        0 <= gy * plan.cell_px,
{
    let cell = plan.cell_px as int;
    assert(0 <= gx * cell && gx * cell + cell <= plan.cols * cell) by (nonlinear_arith)
        requires
            0 <= gx,
            gx + 1 <= plan.cols,
            cell >= 0,
    ;
    assert(0 <= gy * cell && gy * cell + cell <= plan.rows * cell) by (nonlinear_arith)
        requires
            0 <= gy,
            gy + 1 <= plan.rows,
            cell >= 0,
    ;
}

/// A pixel belongs to one cell at most.
pub proof fn lemma_cells_disjoint(
    plan: LayoutPlan,
    gx1: int,
    gy1: int,
    gx2: int,
    gy2: int,
    i: int,
    j: int,
)
    requires
        plan.in_cell(gx1, gy1, i, j),
        plan.in_cell(gx2, gy2, i, j),
    ensures
        gx1 == gx2,
        gy1 == gy2,
{
    let cell = plan.cell_px as int;
    if gx1 < gx2 {
        assert(gx1 * cell + cell <= gx2 * cell) by (nonlinear_arith)
            requires
                gx1 + 1 <= gx2,
                cell >= 0,
        ;
    }
    if gx2 < gx1 {
        assert(gx2 * cell + cell <= gx1 * cell) by (nonlinear_arith)
            requires
                gx2 + 1 <= gx1,
                cell >= 0,
        ;
    }
    if gy1 < gy2 {
        assert(gy1 * cell + cell <= gy2 * cell) by (nonlinear_arith)
            requires
                gy1 + 1 <= gy2,
                cell >= 0,
        ;
    }
    if gy2 < gy1 {
        assert(gy2 * cell + cell <= gy1 * cell) by (nonlinear_arith)
            requires
                gy2 + 1 <= gy1,
                cell >= 0,
        ;
    }
}

/// The pixel bytes of the page after the cell in column `gx` and row `gy`
/// was painted in `color`: the cell's square in the fill colour, then, where
/// the cell is wide enough, its ring in the ink colour.
pub open spec fn cell_painted(
    plan: LayoutPlan,
    pixels: Seq<u8>,
    gx: int,
    gy: int,
    color: DmcColorPrecomputed,
) -> Seq<u8> {
    let squared = square_filled(
        plan.page_width_px as int,
        pixels,
        plan.cell_x(gx),
        plan.cell_y(gy),
        plan.cell_px as int,
        fill_of(color),
    );
    if plan.has_ring() {
        ring_drawn(
            plan.page_width_px,
            plan.page_height_px,
            squared,
            plan.center_x(gx) as i32,
            plan.center_y(gy) as i32,
            plan.ring_radius() as i32,
            ink_of(color).r,
            ink_of(color).g,
            ink_of(color).b,
            ink_of(color).a,
        )
    } else {
        squared
    }
}

/// The pixel bytes of the page after the first `n` cells were painted, in
/// the grid's order of positions.
pub open spec fn pattern_pixels(
    plan: LayoutPlan,
    cells: Seq<usize>,
    colors: Seq<DmcColorPrecomputed>,
    n: nat,
) -> Seq<u8>
    decreases n,
{
    if n == 0 {
        uniform_pixels(plan.page_width_px as int, plan.page_height_px as int, white())
    } else {
        let k = n - 1;
        cell_painted(
            plan,
            pattern_pixels(plan, cells, colors, k as nat),
            k / plan.rows as int,
            k % plan.rows as int,
            colors[cells[k] as int],
        )
    }
}

/// Whether the cell in column `gx` and row `gy` comes before the cell in
/// column `at_x` and row `at_y` in the grid's order.
pub open spec fn painted_before(gx: int, gy: int, at_x: int, at_y: int) -> bool {
    gx < at_x || (gx == at_x && gy < at_y)
}

/// Whether the page shows the cells that come before `(at_x, at_y)` and
/// nothing else: outside the grid it is white, and each pixel of a cell that
/// was painted has that cell's fill or ink colour.
pub open spec fn shows_cells(
    page: Raster,
    plan: LayoutPlan,
    cells: Seq<usize>,
    colors: Seq<DmcColorPrecomputed>,
    at_x: int,
    at_y: int,
) -> bool {
    &&& forall|i: int, j: int|
        page.contains(i, j) && !plan.in_art(i, j) ==> #[trigger] page.pixel_at(i, j) == white()
    &&& forall|gx: int, gy: int, i: int, j: int|
        0 <= gx < plan.cols && 0 <= gy < plan.rows && painted_before(gx, gy, at_x, at_y)
            && #[trigger] plan.in_cell(gx, gy, i, j) ==> {
            let color = colors[cells[gx * plan.rows + gy] as int];
            page.pixel_at(i, j) == fill_of(color) || page.pixel_at(i, j) == ink_of(color)
        }
}

/// Paints one cell: its square in the fill colour and, where the cell is
/// wide enough, its ring in the ink colour.
fn paint_cell(
    page: &mut Raster,
    plan: &LayoutPlan,
    gx: u32,
    gy: u32,
    color: &DmcColorPrecomputed,
    Ghost(cells): Ghost<Seq<usize>>,
    Ghost(colors): Ghost<Seq<DmcColorPrecomputed>>,
)
    requires
        plan.wf(),
        old(page).wf(),
        old(page).width == plan.page_width_px,
        old(page).height == plan.page_height_px,
        gx < plan.cols,
        gy < plan.rows,
        cells.len() == plan.cols * plan.rows,
        *color == colors[cells[gx * plan.rows + gy] as int],
        shows_cells(*old(page), *plan, cells, colors, gx as int, gy as int),
    ensures
        final(page).wf(),
        final(page).width == plan.page_width_px,
        final(page).height == plan.page_height_px,
        final(page).pixels@ == cell_painted(*plan, old(page).pixels@, gx as int, gy as int, *color),
        shows_cells(*final(page), *plan, cells, colors, gx as int, gy + 1),
{
    let fill = Rgba { r: color.r, g: color.g, b: color.b, a: 255 };
    let ink = Rgba { r: color.blended_r, g: color.blended_g, b: color.blended_b, a: 255 };
    let (x0, y0) = plan.cell_origin(gx, gy);
    let cell = plan.cell_px;
    page.fill_square(x0, y0, cell, fill);
    let ghost squared = *page;
    let ghost cx = plan.center_x(gx as int);
    let ghost cy = plan.center_y(gy as int);
    let ghost radius = plan.ring_radius();
    if cell >= 4 {
        let half: u32 = cell / 2;
        draw_ring(page, (x0 + half) as i32, (y0 + half) as i32, (half - 2) as i32, ink);
    }
    proof {
        lemma_grid_within_printable(*plan);
        lemma_cell_within_grid(*plan, gx as int, gy as int);
        let after = *page;
        let before = *old(page);
        // The ring, where there is one, stays within the cell.
        assert forall|i: int, j: int| before.contains(i, j) implies #[trigger] after.pixel_at(i, j)
            == squared.pixel_at(i, j) || (after.pixel_at(i, j) == ink && plan.in_cell(
            gx as int,
            gy as int,
            i,
            j,
        )) by {
            if cell >= 4 {
                assert(painted_within(squared, after, cx, cy, radius, ink));
                assert(squared.contains(i, j));
            }
        }
        assert forall|i: int, j: int| after.contains(i, j) && !plan.in_art(i, j) implies #[trigger] after.pixel_at(
            i,
            j,
        ) == white() by {
            assert(before.pixel_at(i, j) == white());
            assert(!plan.in_cell(gx as int, gy as int, i, j));
            assert(squared.pixel_at(i, j) == before.pixel_at(i, j));
        }
        assert forall|ex: int, ey: int, i: int, j: int|
            0 <= ex < plan.cols && 0 <= ey < plan.rows && painted_before(
                ex,
                ey,
                gx as int,
                gy + 1,
            ) && #[trigger] plan.in_cell(ex, ey, i, j) implies ({
            let c = colors[cells[ex * plan.rows + ey] as int];
            after.pixel_at(i, j) == fill_of(c) || after.pixel_at(i, j) == ink_of(c)
        }) by {
            lemma_cell_within_grid(*plan, ex, ey);
            assert(before.contains(i, j));
            if ex == gx && ey == gy {
                assert(squared.pixel_at(i, j) == fill);
            } else {
                if plan.in_cell(gx as int, gy as int, i, j) {
                    lemma_cells_disjoint(*plan, ex, ey, gx as int, gy as int, i, j);
                }
                assert(painted_before(ex, ey, gx as int, gy as int));
                assert(squared.pixel_at(i, j) == before.pixel_at(i, j));
            }
        }
    }
}

/// The pattern raster without its labels: the page, white, with the grid of
/// cells centred in its printable region, each cell in its palette colour
/// with a ring in that colour's ink. Nothing is painted on the margin band.
///
/// Fails with `ImageTooLarge` exactly where the page would take more than
/// `MAX_IMAGE_BYTES`.
pub fn render_pattern(grid: &GemGrid, palette: &PaletteIndex, plan: &LayoutPlan) -> (result: Result<
    Raster,
    PatternError,
>)
    requires
        palette.wf(),
        grid.wf(palette.colors().len()),
        plan.wf(),
        grid.cols == plan.cols,
        grid.rows == plan.rows,
    ensures
        result is Err <==> 4 * (plan.page_width_px * plan.page_height_px) > MAX_IMAGE_BYTES,
        result matches Err(e) ==> e == PatternError::ImageTooLarge,
        result matches Ok(page) ==> {
            &&& page.wf()
            &&& page.width == plan.page_width_px
            &&& page.height == plan.page_height_px
            &&& page.pixels@ == pattern_pixels(
                *plan,
                grid.cells@,
                palette.colors(),
                (plan.cols * plan.rows) as nat,
            )
            &&& shows_cells(
                page,
                *plan,
                grid.cells@,
                palette.colors(),
                plan.cols as int,
                0,
            )
            &&& forall|i: int, j: int|
                page.contains(i, j) && plan.in_margin(i, j) ==> #[trigger] page.pixel_at(i, j)
                    == white()
        },
{
    let width: u128 = plan.page_width_px as u128;
    let height: u128 = plan.page_height_px as u128;
    assert(width * height <= 0xffff_ffff * 0xffff_ffff) by (nonlinear_arith)
        requires
            width <= 0xffff_ffff,
            height <= 0xffff_ffff,
    ;
    let bytes: u128 = 4 * (width * height);
    if bytes > MAX_IMAGE_BYTES as u128 {
        return Err(PatternError::ImageTooLarge);
    }
    let blank = Rgba { r: 255, g: 255, b: 255, a: 255 };
    let mut page = Raster::filled(plan.page_width_px, plan.page_height_px, blank);
    let cols = plan.cols;
    let rows = plan.rows;
    let ghost cells = grid.cells@;
    let ghost colors = palette.colors();
    let mut gx: u32 = 0;
    while gx < cols
        invariant
            gx <= cols,
            cols == plan.cols,
            rows == plan.rows,
            plan.wf(),
            palette.wf(),
            grid.wf(palette.colors().len()),
            grid.cols == plan.cols,
            grid.rows == plan.rows,
            cells == grid.cells@,
            colors == palette.colors(),
            page.wf(),
            page.width == plan.page_width_px,
            page.height == plan.page_height_px,
            page.pixels@ == pattern_pixels(*plan, cells, colors, (gx * rows) as nat),
            shows_cells(page, *plan, cells, colors, gx as int, 0),
        decreases cols - gx,
    {
        let mut gy: u32 = 0;
        while gy < rows
            invariant
                gx < cols,
                gy <= rows,
                cols == plan.cols,
                rows == plan.rows,
                plan.wf(),
                palette.wf(),
                grid.wf(palette.colors().len()),
                grid.cols == plan.cols,
                grid.rows == plan.rows,
                cells == grid.cells@,
                colors == palette.colors(),
                page.wf(),
                page.width == plan.page_width_px,
                page.height == plan.page_height_px,
                page.pixels@ == pattern_pixels(*plan, cells, colors, (gx * rows + gy) as nat),
                shows_cells(page, *plan, cells, colors, gx as int, gy as int),
            decreases rows - gy,
        {
            let index = grid.cell(gx, gy);
            let color = palette.color(index);
            proof {
                let k = gx * rows + gy;
                lemma_position_in_range(cols as int, rows as int, gx as int, gy as int);
                vstd::arithmetic::div_mod::lemma_fundamental_div_mod_converse(
                    k,
                    rows as int,
                    gx as int,
                    gy as int,
                );
            }
            paint_cell(&mut page, plan, gx, gy, color, Ghost(cells), Ghost(colors));
            gy = gy + 1;
        }
        proof {
            assert((gx + 1) * rows == gx * rows + rows) by (nonlinear_arith);
            // With the column's last cell painted, the next column begins.
            assert forall|ex: int, ey: int|
                0 <= ex < plan.cols && 0 <= ey < plan.rows && painted_before(ex, ey, gx + 1, 0)
                implies painted_before(ex, ey, gx as int, rows as int) by {}
        }
        gx = gx + 1;
    }
    proof {
        lemma_grid_within_printable(*plan);
        assert forall|i: int, j: int| page.contains(i, j) && plan.in_margin(i, j) implies #[trigger] page.pixel_at(
            i,
            j,
        ) == white() by {
            assert(!plan.in_art(i, j));
        }
    }
    Ok(page)
}

} // verus!
