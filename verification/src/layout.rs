//! Page geometry: from physical page, margin and cell sizes and the image's
//! pixel dimensions to the printable region, the fitted or cropped image and
//! the grid resolution.
//!
//! Physical lengths are whole micrometres; pixels are counted at 300 per inch.

use crate::error::PatternError;
use crate::models::ImageFitOption;
use vstd::prelude::*;

verus! {

/// Pixels per inch of every raster that is produced.
pub const DPI: u64 = 300;

/// Micrometres in one inch.
pub const UM_PER_INCH: u64 = 25_400;

/// Width of the default page (A4), in micrometres.
pub const A4_WIDTH_UM: u32 = 210_000;

/// Height of the default page (A4), in micrometres.
pub const A4_HEIGHT_UM: u32 = 297_000;

/// Side of one gem cell, in micrometres, where nothing else is asked for.
pub const GEM_SIZE_UM: u32 = 2_700;

/// The number of pixels that the longest length spans.
pub const MAX_PAGE_PX: u32 = 50_727_960;

/// What the caller asks for: page, margin, cell size and fit mode.
#[derive(Clone, Copy, Debug, PartialEq, Eq, Structural)]
pub struct LayoutSpec {
    /// Page width in micrometres, as given (before orientation is matched).
    pub page_width_um: u32,
    /// Page height in micrometres, as given.
    pub page_height_um: u32,
    /// Margin on each of the four sides, in micrometres.
    pub margin_um: u32,
    /// Side of one cell, in micrometres.
    pub cell_um: u32,
    /// Whether the image is contained in the printable region or covers it.
    pub fit: ImageFitOption,
}

/// The geometry of one conversion, all of it in pixels but the page's
/// physical size.
#[derive(Clone, Copy, Debug, PartialEq, Eq, Structural)]
pub struct LayoutPlan {
    /// Page width in micrometres, after orientation was matched to the image.
    pub page_width_um: u32,
    /// Page height in micrometres, after orientation was matched to the image.
    pub page_height_um: u32,
    pub page_width_px: u32,
    pub page_height_px: u32,
    pub margin_px: u32,
    /// Page width less both margins.
    pub printable_width_px: u32,
    /// Page height less both margins.
    pub printable_height_px: u32,
    /// Width of the uniformly scaled image, before any cropping.
    pub scaled_width_px: u64,
    /// Height of the uniformly scaled image, before any cropping.
    pub scaled_height_px: u64,
    /// Columns cut off at the left of the scaled image (as many, or one
    /// more, go at the right).
    pub crop_x: u64,
    /// Rows cut off at the top of the scaled image.
    pub crop_y: u64,
    /// Width of the image as it stands in the printable region.
    pub final_width_px: u32,
    /// Height of the image as it stands in the printable region.
    pub final_height_px: u32,
    /// Side of one cell.
    pub cell_px: u32,
    /// Number of cell columns.
    pub cols: u32,
    /// Number of cell rows.
    pub rows: u32,
}

/// `num / den` rounded to the nearest integer, halves upwards.
pub open spec fn round_div(num: nat, den: nat) -> nat {
    (2 * num + den) / (2 * den)
}

/// The number of pixels that a length spans, rounded to the nearest pixel.
pub open spec fn px_of_um(um: nat) -> nat {
    round_div(um * DPI as nat, UM_PER_INCH as nat)
}

/// Whether a rectangle is wider than it is high.
pub open spec fn is_landscape(width: nat, height: nat) -> bool {
    width > height
}

/// Whether the image is relatively wider than the region
/// (`img_w / img_h > region_w / region_h`, without the division).
pub open spec fn wider_than(img_w: nat, img_h: nat, region_w: nat, region_h: nat) -> bool {
    img_w * region_h > region_w * img_h
}

impl LayoutSpec {
    /// Whether the page is turned for an image of these dimensions: its
    /// orientation (landscape or not) differs from the image's.
    pub open spec fn turns_page(&self, img_w: nat, img_h: nat) -> bool {
        is_landscape(img_w, img_h) != is_landscape(
            self.page_width_um as nat,
            self.page_height_um as nat,
        )
    }

    /// Page width in micrometres once its orientation matches the image's.
    pub open spec fn oriented_width_um(&self, img_w: nat, img_h: nat) -> u32 {
        if self.turns_page(img_w, img_h) {
            self.page_height_um
        } else {
            self.page_width_um
        }
    }

    /// Page height in micrometres once its orientation matches the image's.
    pub open spec fn oriented_height_um(&self, img_w: nat, img_h: nat) -> u32 {
        if self.turns_page(img_w, img_h) {
            self.page_width_um
        } else {
            self.page_height_um
        }
    }

    /// Whether the doubled margin reaches across the page on either axis.
    pub open spec fn margins_too_large(&self, img_w: nat, img_h: nat) -> bool {
        let m = px_of_um(self.margin_um as nat);
        ||| 2 * m >= px_of_um(self.oriented_width_um(img_w, img_h) as nat)
        ||| 2 * m >= px_of_um(self.oriented_height_um(img_w, img_h) as nat)
    }

    /// Width of the printable region; meaningful where the margins fit.
    pub open spec fn printable_width(&self, img_w: nat, img_h: nat) -> nat {
        (px_of_um(self.oriented_width_um(img_w, img_h) as nat) - 2 * px_of_um(
            self.margin_um as nat,
        )) as nat
    }

    /// Height of the printable region; meaningful where the margins fit.
    pub open spec fn printable_height(&self, img_w: nat, img_h: nat) -> nat {
        (px_of_um(self.oriented_height_um(img_w, img_h) as nat) - 2 * px_of_um(
            self.margin_um as nat,
        )) as nat
    }

    /// Whether the width is the axis on which the scaled image equals the
    /// printable region: for `Fit` the axis that limits the image, for `Crop`
    /// the axis that does not overflow.
    pub open spec fn width_is_pinned(&self, img_w: nat, img_h: nat) -> bool {
        let wider = wider_than(
            img_w,
            img_h,
            self.printable_width(img_w, img_h),
            self.printable_height(img_w, img_h),
        );
        match self.fit {
            ImageFitOption::Fit => wider,
            ImageFitOption::Crop => !wider,
        }
    }

    /// Width of the uniformly scaled image.
    pub open spec fn scaled_width(&self, img_w: nat, img_h: nat) -> nat {
        if self.width_is_pinned(img_w, img_h) {
            self.printable_width(img_w, img_h)
        } else {
            round_div(self.printable_height(img_w, img_h) * img_w, img_h)
        }
    }

    /// Height of the uniformly scaled image.
    pub open spec fn scaled_height(&self, img_w: nat, img_h: nat) -> nat {
        if self.width_is_pinned(img_w, img_h) {
            round_div(self.printable_width(img_w, img_h) * img_h, img_w)
        } else {
            self.printable_height(img_w, img_h)
        }
    }

    /// Width of the image as it stands on the page: the scaled width, cut
    /// down to the printable region where the mode is `Crop`.
    pub open spec fn final_width(&self, img_w: nat, img_h: nat) -> nat {
        match self.fit {
            ImageFitOption::Fit => self.scaled_width(img_w, img_h),
            ImageFitOption::Crop => self.printable_width(img_w, img_h),
        }
    }

    /// Height of the image as it stands on the page.
    pub open spec fn final_height(&self, img_w: nat, img_h: nat) -> nat {
        match self.fit {
            ImageFitOption::Fit => self.scaled_height(img_w, img_h),
            ImageFitOption::Crop => self.printable_height(img_w, img_h),
        }
    }

    /// Whether no grid can be laid out although the margins fit: the image
    /// has no pixels, a cell is narrower than half a pixel, or the image on
    /// the page is smaller than one cell on either axis.
    pub open spec fn grid_too_small(&self, img_w: nat, img_h: nat) -> bool {
        let cell = px_of_um(self.cell_um as nat);
        ||| img_w == 0
        ||| img_h == 0
        ||| cell == 0
        ||| self.final_width(img_w, img_h) < cell
        ||| self.final_height(img_w, img_h) < cell
    }

    /// The layout for an image of `img_w` by `img_h` pixels, or why there is
    /// none. Margins are judged before the grid.
    pub open spec fn layout_of(&self, img_w: nat, img_h: nat) -> Result<LayoutPlan, PatternError> {
        if self.margins_too_large(img_w, img_h) {
            Err(PatternError::MarginsTooLarge)
        } else if self.grid_too_small(img_w, img_h) {
            Err(PatternError::GridTooSmall)
        } else {
            let cell = px_of_um(self.cell_um as nat);
            let scaled_w = self.scaled_width(img_w, img_h);
            let scaled_h = self.scaled_height(img_w, img_h);
            let final_w = self.final_width(img_w, img_h);
            let final_h = self.final_height(img_w, img_h);
            Ok(
                LayoutPlan {
                    page_width_um: self.oriented_width_um(img_w, img_h),
                    page_height_um: self.oriented_height_um(img_w, img_h),
                    page_width_px: px_of_um(self.oriented_width_um(img_w, img_h) as nat) as u32,
                    page_height_px: px_of_um(self.oriented_height_um(img_w, img_h) as nat) as u32,
                    margin_px: px_of_um(self.margin_um as nat) as u32,
                    printable_width_px: self.printable_width(img_w, img_h) as u32,
                    printable_height_px: self.printable_height(img_w, img_h) as u32,
                    scaled_width_px: scaled_w as u64,
                    scaled_height_px: scaled_h as u64,
                    crop_x: ((scaled_w - final_w) / 2) as u64,
                    crop_y: ((scaled_h - final_h) / 2) as u64,
                    final_width_px: final_w as u32,
                    final_height_px: final_h as u32,
                    cell_px: cell as u32,
                    cols: (final_w / cell) as u32,
                    rows: (final_h / cell) as u32,
                },
            )
        }
    }

    /// A request with the default cell size, on the page given or, where a
    /// side is not given, on A4.
    pub fn new(
        margin_um: u32,
        fit: ImageFitOption,
        custom_width_um: Option<u32>,
        custom_height_um: Option<u32>,
    ) -> (spec: LayoutSpec)
        ensures
            spec.margin_um == margin_um,
            spec.fit == fit,
            spec.cell_um == GEM_SIZE_UM,
            spec.page_width_um == match custom_width_um {
                Some(w) => w,
                None => A4_WIDTH_UM,
            },
            spec.page_height_um == match custom_height_um {
                Some(h) => h,
                None => A4_HEIGHT_UM,
            },
    {
        let page_width_um = match custom_width_um {
            Some(w) => w,
            None => A4_WIDTH_UM,
        };
        let page_height_um = match custom_height_um {
            Some(h) => h,
            None => A4_HEIGHT_UM,
        };
        LayoutSpec { page_width_um, page_height_um, margin_um, cell_um: GEM_SIZE_UM, fit }
    }
}

impl LayoutPlan {
    /// What holds of every plan that `plan_layout` hands out.
    pub open spec fn wf(&self) -> bool {
        &&& self.page_width_px <= MAX_PAGE_PX
        &&& self.page_height_px <= MAX_PAGE_PX
        &&& 2 * self.margin_px < self.page_width_px
        &&& 2 * self.margin_px < self.page_height_px
        &&& self.printable_width_px == self.page_width_px - 2 * self.margin_px
        &&& self.printable_height_px == self.page_height_px - 2 * self.margin_px
        &&& self.final_width_px <= self.printable_width_px
        &&& self.final_height_px <= self.printable_height_px
        &&& self.crop_x + self.final_width_px <= self.scaled_width_px
        &&& self.crop_y + self.final_height_px <= self.scaled_height_px
        &&& self.cell_px >= 1
        &&& self.cols >= 1
        &&& self.rows >= 1
        &&& self.cols == self.final_width_px / self.cell_px
        &&& self.rows == self.final_height_px / self.cell_px
    }
}

/// `round_div(num, den)` is within half of `den` of the quotient.
pub proof fn lemma_round_div_nearest(num: nat, den: nat)
    requires
        den > 0,
    ensures
        2 * den * round_div(num, den) <= 2 * num + den < 2 * den * (round_div(num, den) + 1),
{
    let d = 2 * den;
    let a = 2 * num + den;
    vstd::arithmetic::div_mod::lemma_fundamental_div_mod(a as int, d as int);
    vstd::arithmetic::div_mod::lemma_mod_bound(a as int, d as int);
    assert(d * (a / d) == d * round_div(num, den));
    assert(2 * den * (round_div(num, den) + 1) == d * (a / d) + d) by (nonlinear_arith)
        requires
            d == 2 * den,
            a / d == round_div(num, den),
    ;
}

/// A quotient that does not exceed `bound` rounds to at most `bound`.
pub proof fn lemma_round_div_at_most(num: nat, den: nat, bound: nat)
    requires
        den > 0,
        num <= bound * den,
    ensures
        round_div(num, den) <= bound,
{
    lemma_round_div_nearest(num, den);
    let r = round_div(num, den);
    if r > bound {
        assert(2 * den * r >= 2 * den * (bound + 1)) by (nonlinear_arith)
            requires
                r >= bound + 1,
                den > 0,
        ;
        assert(2 * den * (bound + 1) == 2 * (bound * den) + 2 * den) by (nonlinear_arith);
    }
}

/// A quotient that is at least `bound` rounds to at least `bound`.
pub proof fn lemma_round_div_at_least(num: nat, den: nat, bound: nat)
    requires
        den > 0,
        num >= bound * den,
    ensures
        round_div(num, den) >= bound,
{
    lemma_round_div_nearest(num, den);
    let r = round_div(num, den);
    if r < bound {
        assert(2 * den * (r + 1) <= 2 * den * bound) by (nonlinear_arith)
            requires
                r + 1 <= bound,
                den > 0,
        ;
        assert(2 * den * bound == 2 * (bound * den)) by (nonlinear_arith);
    }
}

/// Rounding keeps the order of the quotients.
pub proof fn lemma_round_div_monotonic(a: nat, b: nat, den: nat)
    requires
        den > 0,
        a <= b,
    ensures
        round_div(a, den) <= round_div(b, den),
{
    vstd::arithmetic::div_mod::lemma_div_is_ordered(
        (2 * a + den) as int,
        (2 * b + den) as int,
        (2 * den) as int,
    );
}

/// The pixel count of a length grows with the length.
pub proof fn lemma_px_monotonic(a: nat, b: nat)
    requires
        a <= b,
    ensures
        px_of_um(a) <= px_of_um(b),
{
    assert(a * DPI as nat <= b * DPI as nat) by (nonlinear_arith)
        requires
            a <= b,
    ;
    lemma_round_div_monotonic(a * DPI as nat, b * DPI as nat, UM_PER_INCH as nat);
}

/// The image on the page never exceeds the printable region with `Fit`, and
/// equals it with `Crop`; the scaled image covers what is kept of it.
pub proof fn lemma_final_within_printable(spec: LayoutSpec, img_w: nat, img_h: nat)
    requires
        img_w > 0,
        img_h > 0,
    ensures
        spec.final_width(img_w, img_h) <= spec.printable_width(img_w, img_h),
        spec.final_height(img_w, img_h) <= spec.printable_height(img_w, img_h),
        spec.final_width(img_w, img_h) <= spec.scaled_width(img_w, img_h),
        spec.final_height(img_w, img_h) <= spec.scaled_height(img_w, img_h),
        spec.fit == ImageFitOption::Crop ==> {
            &&& spec.final_width(img_w, img_h) == spec.printable_width(img_w, img_h)
            &&& spec.final_height(img_w, img_h) == spec.printable_height(img_w, img_h)
        },
{
    let pw = spec.printable_width(img_w, img_h);
    let ph = spec.printable_height(img_w, img_h);
    if wider_than(img_w, img_h, pw, ph) {
        lemma_round_div_at_most(pw * img_h, img_w, ph);
        lemma_round_div_at_least(ph * img_w, img_h, pw);
    } else {
        lemma_round_div_at_most(ph * img_w, img_h, pw);
        lemma_round_div_at_least(pw * img_h, img_w, ph);
    }
}

/// The page is turned to the image's orientation: both sides are kept, a
/// page that is not square ends up landscape exactly where the image is, and
/// in pixels the page's longer side never lies across the image's.
pub proof fn lemma_page_follows_image(spec: LayoutSpec, img_w: nat, img_h: nat)
    ensures
        ({
            let w = spec.oriented_width_um(img_w, img_h);
            let h = spec.oriented_height_um(img_w, img_h);
            &&& (w == spec.page_width_um && h == spec.page_height_um) || (w == spec.page_height_um
                && h == spec.page_width_um)
            &&& spec.page_width_um != spec.page_height_um ==> is_landscape(w as nat, h as nat)
                == is_landscape(img_w, img_h)
            &&& is_landscape(img_w, img_h) ==> px_of_um(w as nat) >= px_of_um(h as nat)
            &&& !is_landscape(img_w, img_h) ==> px_of_um(w as nat) <= px_of_um(h as nat)
        }),
{
    let w = spec.oriented_width_um(img_w, img_h);
    let h = spec.oriented_height_um(img_w, img_h);
    if w <= h {
        lemma_px_monotonic(w as nat, h as nat);
    }
    if h <= w {
        lemma_px_monotonic(h as nat, w as nat);
    }
}

/// A margin as wide as either side of the page leaves nothing to print on:
/// the layout fails with `MarginsTooLarge`, whatever the image.
pub proof fn lemma_margin_of_a_side_is_too_large(spec: LayoutSpec, img_w: nat, img_h: nat)
    requires
        spec.margin_um >= spec.page_width_um || spec.margin_um >= spec.page_height_um,
    ensures
        spec.layout_of(img_w, img_h) == Err::<LayoutPlan, PatternError>(
            PatternError::MarginsTooLarge,
        ),
{
    lemma_page_follows_image(spec, img_w, img_h);
    if spec.margin_um >= spec.page_width_um {
        lemma_px_monotonic(spec.page_width_um as nat, spec.margin_um as nat);
    } else {
        lemma_px_monotonic(spec.page_height_um as nat, spec.margin_um as nat);
    }
}

/// A page whose printable region is narrower or lower than one cell holds
/// no grid: where the margins fit, the layout fails with `GridTooSmall`.
pub proof fn lemma_region_below_a_cell_is_too_small(spec: LayoutSpec, img_w: nat, img_h: nat)
    requires
        !spec.margins_too_large(img_w, img_h),
        spec.printable_width(img_w, img_h) < px_of_um(spec.cell_um as nat)
            || spec.printable_height(img_w, img_h) < px_of_um(spec.cell_um as nat),
    ensures
        spec.layout_of(img_w, img_h) == Err::<LayoutPlan, PatternError>(
            PatternError::GridTooSmall,
        ),
{
    if img_w > 0 && img_h > 0 {
        lemma_final_within_printable(spec, img_w, img_h);
    }
}

/// `num / den` rounded to the nearest integer, halves upwards.
fn rounded_quotient(num: u64, den: u64) -> (q: u64)
    requires
        0 < den <= u32::MAX,
        num <= 0x3fff_ffff_ffff_ffff,
    ensures
        q == round_div(num as nat, den as nat),
{
    (2 * num + den) / (2 * den)
}

/// The number of pixels that `um` micrometres span.
pub fn um_to_px(um: u32) -> (px: u32)
    ensures
        px == px_of_um(um as nat),
        px <= MAX_PAGE_PX,
{
    let q = rounded_quotient(um as u64 * DPI, UM_PER_INCH);
    assert(q == (600 * um + 25_400) / 50_800);
    q as u32
}

/// Lays out the page for an image of `img_w` by `img_h` pixels.
///
/// Fails with `MarginsTooLarge` exactly where the doubled margin reaches
/// across the page, and otherwise with `GridTooSmall` exactly where the image
/// on the page has no room for one cell.
pub fn plan_layout(img_w: u32, img_h: u32, spec: &LayoutSpec) -> (result: Result<
    LayoutPlan,
    PatternError,
>)
    ensures
        result == spec.layout_of(img_w as nat, img_h as nat),
        result matches Ok(plan) ==> plan.wf(),
        result matches Ok(plan) ==> (spec.fit == ImageFitOption::Fit ==> {
            &&& plan.scaled_width_px == plan.final_width_px
            &&& plan.scaled_height_px == plan.final_height_px
            &&& plan.crop_x == 0
            &&& plan.crop_y == 0
        }),
        result matches Ok(plan) ==> (spec.fit == ImageFitOption::Crop ==> {
            &&& plan.final_width_px == plan.printable_width_px
            &&& plan.final_height_px == plan.printable_height_px
        }),
{
    let image_landscape = img_w > img_h;
    let page_landscape = spec.page_width_um > spec.page_height_um;
    let (page_width_um, page_height_um) = if image_landscape != page_landscape {
        (spec.page_height_um, spec.page_width_um)
    } else {
        (spec.page_width_um, spec.page_height_um)
    };
    let page_width_px = um_to_px(page_width_um);
    let page_height_px = um_to_px(page_height_um);
    let margin_px = um_to_px(spec.margin_um);
    if 2 * margin_px >= page_width_px || 2 * margin_px >= page_height_px {
        return Err(PatternError::MarginsTooLarge);
    }
    let printable_width_px: u32 = page_width_px - 2 * margin_px;
    let printable_height_px: u32 = page_height_px - 2 * margin_px;
    let cell_px = um_to_px(spec.cell_um);
    if img_w == 0 || img_h == 0 || cell_px == 0 {
        return Err(PatternError::GridTooSmall);
    }
    let ghost iw = img_w as nat;
    let ghost ih = img_h as nat;
    let ghost pw = printable_width_px as nat;
    let ghost ph = printable_height_px as nat;
    assert(pw == spec.printable_width(iw, ih));
    assert(ph == spec.printable_height(iw, ih));
    assert(pw * ih <= MAX_PAGE_PX * 0xffff_ffff && ph * iw <= MAX_PAGE_PX * 0xffff_ffff && iw * ph
        == ph * iw) by (nonlinear_arith)
        requires
            pw <= MAX_PAGE_PX,
            ph <= MAX_PAGE_PX,
            iw <= 0xffff_ffff,
            ih <= 0xffff_ffff,
    ;
    let wider = img_w as u64 * printable_height_px as u64 > printable_width_px as u64
        * img_h as u64;
    let pinned = match spec.fit {
        ImageFitOption::Fit => wider,
        ImageFitOption::Crop => !wider,
    };
    assert(pinned == spec.width_is_pinned(iw, ih));
    let scaled_width_px: u64 = if pinned {
        printable_width_px as u64
    } else {
        rounded_quotient(printable_height_px as u64 * img_w as u64, img_h as u64)
    };
    let scaled_height_px: u64 = if pinned {
        rounded_quotient(printable_width_px as u64 * img_h as u64, img_w as u64)
    } else {
        printable_height_px as u64
    };
    assert(scaled_width_px == spec.scaled_width(iw, ih));
    assert(scaled_height_px == spec.scaled_height(iw, ih));
    proof {
        lemma_final_within_printable(*spec, iw, ih);
    }
    let (final_width_px, final_height_px): (u32, u32) = match spec.fit {
        ImageFitOption::Fit => (scaled_width_px as u32, scaled_height_px as u32),
        ImageFitOption::Crop => (printable_width_px, printable_height_px),
    };
    assert(final_width_px == spec.final_width(iw, ih));
    assert(final_height_px == spec.final_height(iw, ih));
    if final_width_px < cell_px || final_height_px < cell_px {
        return Err(PatternError::GridTooSmall);
    }
    let cols: u32 = final_width_px / cell_px;
    let rows: u32 = final_height_px / cell_px;
    let crop_x: u64 = (scaled_width_px - final_width_px as u64) / 2;
    let crop_y: u64 = (scaled_height_px - final_height_px as u64) / 2;
    proof {
        vstd::arithmetic::div_mod::lemma_div_non_zero(final_width_px as int, cell_px as int);
        vstd::arithmetic::div_mod::lemma_div_non_zero(final_height_px as int, cell_px as int);
    }
    Ok(
        LayoutPlan {
            page_width_um,
            page_height_um,
            page_width_px,
            page_height_px,
            margin_px,
            printable_width_px,
            printable_height_px,
            scaled_width_px,
            scaled_height_px,
            crop_x,
            crop_y,
            final_width_px,
            final_height_px,
            cell_px,
            cols,
            rows,
        },
    )
}

} // verus!
