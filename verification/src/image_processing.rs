//! The conversion: from the image as it arrives, in a data URI, to one
//! colour sample for each cell of the grid, the grid of palette indices, its
//! legend and the rasters of both; and from a finished raster to the data URI
//! of its PNG file.
//!
//! Two steps are the caller's, since they are floating-point work: the place
//! of a colour in the perceptual space, which the conversion asks of a
//! function that it is given, and the texts on the rasters, for which it
//! hands out the places.

use crate::codec::{
    base64_decoded, base64_encoded, crop, decode_base64, decode_image, decoded_image,
    encode_base64, encode_png, nearest_resized, png_encoded, resize_nearest,
};
use crate::compose::{pattern_pixels, render_pattern, shows_cells, white};
use crate::error::PatternError;
use crate::grid::{quantize, GemGrid};
use crate::layout::{plan_layout, LayoutPlan, LayoutSpec};
use crate::legend::{build_legend, total_count, views_of, Legend};
use crate::legend_sheet::{
    colors_are_hex, legend_pixels, render_legend, LegendLayout, LINE_HEIGHT_PX, MAX_SHEET_PX,
};
use crate::models::{Color, DmcColorPrecomputed, GemCount, LabPoint};
use crate::palette_index::{classified, points_of, PaletteIndex};
use crate::selection::{select_palette, selected_places};
use crate::raster::{cropped_pixels, Raster, Rgba, MAX_IMAGE_BYTES};
use vstd::prelude::*;
use vstd::slice::slice_subrange;
use vstd::string::{StringExecFns, StringSliceAdditionalSpecFns};

verus! {

/// The byte of a comma.
pub const COMMA: u8 = 44;

/// The number of bytes before the first comma, or all of them where there
/// is no comma.
pub open spec fn first_comma(data: Seq<u8>) -> int
    decreases data.len(),
{
    if data.len() == 0 || data[0] == COMMA {
        0
    } else {
        1 + first_comma(data.drop_first())
    }
}

/// The payload of a data URI: the bytes between the first comma and the
/// second, or the end where there is no second; `None` without a comma.
pub open spec fn payload_of(data: Seq<u8>) -> Option<Seq<u8>> {
    let start = first_comma(data) + 1;
    if start > data.len() {
        None
    } else {
        let rest = data.skip(start);
        Some(rest.take(first_comma(rest)))
    }
}

/// The place of the first comma at or behind `from`, or the length of the
/// bytes where none follows.
fn find_comma(data: &[u8], from: usize) -> (at: usize)
    requires
        from <= data@.len(),
    ensures
        at == from + first_comma(data@.skip(from as int)),
        from <= at <= data@.len(),
{
    let mut at: usize = from;
    while at < data.len() && data[at] != COMMA
        invariant
            from <= at <= data@.len(),
            from + first_comma(data@.skip(from as int)) == at + first_comma(data@.skip(at as int)),
        decreases data@.len() - at,
    {
        proof {
            assert(data@.skip(at as int).drop_first() == data@.skip(at + 1));
        }
        at = at + 1;
    }
    proof {
        let rest = data@.skip(at as int);
        if at < data@.len() {
            assert(rest[0] == COMMA);
        }
    }
    at
}

/// The payload of a data URI.
pub fn data_uri_payload(data: &[u8]) -> (payload: Option<&[u8]>)
    ensures
        payload is Some <==> payload_of(data@) is Some,
        payload matches Some(bytes) ==> payload_of(data@) == Some(bytes@),
{
    assert(data@.skip(0) == data@);
    let comma = find_comma(data, 0);
    if comma >= data.len() {
        return None;
    }
    let end = find_comma(data, comma + 1);
    let payload = slice_subrange(data, comma + 1, end);
    proof {
        let rest = data@.skip(comma + 1);
        assert(rest.take(first_comma(rest)) == data@.subrange(comma + 1, end as int));
    }
    Some(payload)
}

impl LayoutPlan {
    /// Whether the images of this layout can be held: the scaled image and
    /// the image of the source's width by the scaled height, at sixteen
    /// bytes for each pixel while they are resampled, stay within
    /// `MAX_IMAGE_BYTES`. `img_w` is the width of the source image.
    pub open spec fn fits(&self, img_w: nat) -> bool {
        &&& 16 * (img_w * self.scaled_height_px) <= MAX_IMAGE_BYTES
        &&& 16 * (self.scaled_width_px * self.scaled_height_px) <= MAX_IMAGE_BYTES
    }

    /// Whether the images of this layout can be held.
    pub fn check_fits(&self, img_w: u32) -> (fits: bool)
        ensures
            fits == self.fits(img_w as nat),
    {
        let pixels: u64 = (MAX_IMAGE_BYTES / 16) as u64;
        product_within(img_w as u64, self.scaled_height_px, pixels) && product_within(
            self.scaled_width_px,
            self.scaled_height_px,
            pixels,
        )
    }

    /// The pixel bytes of the grid's samples, one pixel for each cell: the
    /// source image scaled to the layout's scaled size, cut to its final
    /// size, and resampled to one pixel for each cell.
    pub open spec fn sampled_pixels(&self, img_w: u32, img_h: u32, pixels: Seq<u8>) -> Seq<u8> {
        let scaled = nearest_resized(
            img_w,
            img_h,
            pixels,
            self.scaled_width_px as u32,
            self.scaled_height_px as u32,
        );
        let framed = cropped_pixels(
            self.scaled_width_px as int,
            scaled,
            self.crop_x as int,
            self.crop_y as int,
            self.final_width_px as int,
            self.final_height_px as int,
        );
        nearest_resized(self.final_width_px, self.final_height_px, framed, self.cols, self.rows)
    }
}

/// Whether the product of two numbers stays within a limit.
fn product_within(a: u64, b: u64, limit: u64) -> (within: bool)
    requires
        limit <= u32::MAX,
    ensures
        within == (a * b <= limit),
{
    if a == 0 || b == 0 {
        assert(a * b == 0) by (nonlinear_arith)
            requires
                a == 0 || b == 0,
        ;
        true
    } else if a > limit || b > limit {
        assert(a * b > limit) by (nonlinear_arith)
            requires
                a >= 1,
                b >= 1,
                a > limit || b > limit,
        ;
        false
    } else {
        assert(a * b <= 0xffff_ffff * 0xffff_ffff) by (nonlinear_arith)
            requires
                a <= 0xffff_ffff,
                b <= 0xffff_ffff,
        ;
        a * b <= limit
    }
}

/// None of the images of a layout that fits has more pixels than the
/// scaled image, and the cells can be counted in 32 bits.
proof fn lemma_fitting_plan_is_small(plan: LayoutPlan, img_w: nat)
    requires
        plan.wf(),
        plan.fits(img_w),
    ensures
        plan.scaled_width_px <= MAX_IMAGE_BYTES,
        plan.scaled_height_px <= MAX_IMAGE_BYTES,
        plan.cols * plan.rows <= plan.scaled_width_px * plan.scaled_height_px,
        plan.final_width_px * plan.rows <= plan.scaled_width_px * plan.scaled_height_px,
        plan.cols * plan.rows <= MAX_IMAGE_BYTES,
{
    let fw = plan.final_width_px as int;
    let fh = plan.final_height_px as int;
    let sw = plan.scaled_width_px as int;
    let sh = plan.scaled_height_px as int;
    let rows = plan.rows as int;
    let cols = plan.cols as int;
    let cell = plan.cell_px as int;
    vstd::arithmetic::div_mod::lemma_div_is_ordered_by_denominator(fw, 1, cell);
    vstd::arithmetic::div_mod::lemma_div_is_ordered_by_denominator(fh, 1, cell);
    assert(1 <= cols <= fw <= sw && 1 <= rows <= fh <= sh);
    assert(fw * rows <= sw * sh && cols * rows <= sw * sh && sw <= sw * sh && sh <= sw * sh)
        by (nonlinear_arith)
        requires
            1 <= rows <= fh <= sh,
            1 <= cols <= fw <= sw,
    ;
}

/// The layout of a conversion and the colour sample of each cell.
#[derive(Debug)]
pub struct SampledImage {
    pub plan: LayoutPlan,
    /// One pixel for each cell: the cell in column `gx` and row `gy` has
    /// pixel `(gx, gy)`.
    pub cells: Raster,
}

impl SampledImage {
    /// The samples are those of the layout's grid, and can be counted in 32
    /// bits.
    pub open spec fn wf(&self) -> bool {
        &&& self.plan.wf()
        &&& self.cells.wf()
        &&& self.cells.width == self.plan.cols
        &&& self.cells.height == self.plan.rows
        &&& self.plan.cols * self.plan.rows <= u32::MAX
    }

    /// The colour of each cell's sample, in the grid's order of positions:
    /// columns follow one another, each from top to bottom.
    pub fn cell_colors(&self) -> (colors: Vec<Rgba>)
        requires
            self.wf(),
        ensures
            colors@.len() == self.plan.cols * self.plan.rows,
            forall|gx: int, gy: int|
                0 <= gx < self.plan.cols && 0 <= gy < self.plan.rows ==> colors@[gx
                    * self.plan.rows + gy] == #[trigger] self.cells.pixel_at(gx, gy),
    {
        let cols = self.plan.cols;
        let rows = self.plan.rows;
        let mut colors: Vec<Rgba> = Vec::new();
        let mut gx: u32 = 0;
        while gx < cols
            invariant
                self.wf(),
                cols == self.plan.cols,
                rows == self.plan.rows,
                gx <= cols,
                colors@.len() == gx * rows,
                forall|x: int, y: int|
                    0 <= x < gx && 0 <= y < rows ==> colors@[x * rows + y]
                        == #[trigger] self.cells.pixel_at(x, y),
            decreases cols - gx,
        {
            let mut gy: u32 = 0;
            while gy < rows
                invariant
                    self.wf(),
                    cols == self.plan.cols,
                    rows == self.plan.rows,
                    gx < cols,
                    gy <= rows,
                    colors@.len() == gx * rows + gy,
                    forall|x: int, y: int|
                        0 <= x < gx && 0 <= y < rows ==> colors@[x * rows + y]
                            == #[trigger] self.cells.pixel_at(x, y),
                    forall|y: int|
                        0 <= y < gy ==> colors@[gx * rows + y] == #[trigger] self.cells.pixel_at(
                            gx as int,
                            y,
                        ),
                decreases rows - gy,
            {
                let color = self.cells.get_pixel(gx, gy);
                let ghost before = colors@;
                colors.push(color);
                proof {
                    assert forall|x: int, y: int| 0 <= x < gx && 0 <= y < rows implies colors@[x
                        * rows + y] == #[trigger] self.cells.pixel_at(x, y) by {
                        crate::grid::lemma_position_in_range(gx as int, rows as int, x, y);
                        assert(before[x * rows + y] == self.cells.pixel_at(x, y));
                    }
                    assert forall|y: int| 0 <= y < gy + 1 implies colors@[gx * rows + y]
                        == #[trigger] self.cells.pixel_at(gx as int, y) by {
                        if y < gy {
                            assert(before[gx * rows + y] == self.cells.pixel_at(gx as int, y));
                        }
                    }
                }
                gy = gy + 1;
            }
            proof {
                assert((gx + 1) * rows == gx * rows + rows) by (nonlinear_arith);
            }
            gx = gx + 1;
        }
        colors
    }
}

/// What `sample_image` yields for the bytes of a data URI: the layout and
/// the pixel bytes of the cells' samples, or why there are none.
pub open spec fn sampling_of(data: Seq<u8>, spec: LayoutSpec) -> Result<
    (LayoutPlan, Seq<u8>),
    PatternError,
> {
    match payload_of(data) {
        None => Err(PatternError::InvalidImageData),
        Some(text) => match base64_decoded(text) {
            None => Err(PatternError::InvalidImageData),
            Some(file) => match decoded_image(file) {
                None => Err(PatternError::InvalidImageData),
                Some((width, height, pixels)) => match spec.layout_of(width as nat, height as nat) {
                    Err(e) => Err(e),
                    Ok(plan) => if plan.fits(width as nat) {
                        Ok((plan, plan.sampled_pixels(width, height, pixels)))
                    } else {
                        Err(PatternError::ImageTooLarge)
                    },
                },
            },
        },
    }
}

/// Takes one colour sample for each cell of the grid from a decoded image
/// laid out by `plan`.
pub fn sample_cells(image: &Raster, plan: &LayoutPlan) -> (cells: Raster)
    requires
        image.wf(),
        image.width > 0,
        image.height > 0,
        plan.wf(),
        plan.fits(image.width as nat),
    ensures
        cells.wf(),
        cells.width == plan.cols,
        cells.height == plan.rows,
        cells.pixels@ == plan.sampled_pixels(image.width, image.height, image.pixels@),
{
    proof {
        lemma_fitting_plan_is_small(*plan, image.width as nat);
    }
    let scaled_width = plan.scaled_width_px as u32;
    let scaled_height = plan.scaled_height_px as u32;
    let scaled = resize_nearest(image, scaled_width, scaled_height);
    let framed = crop(
        scaled,
        plan.crop_x as u32,
        plan.crop_y as u32,
        plan.final_width_px,
        plan.final_height_px,
    );
    resize_nearest(&framed, plan.cols, plan.rows)
}

/// Decodes the image of a data URI, lays it out on the page and takes one
/// colour sample for each cell of the grid.
///
/// Fails with `InvalidImageData` where the text holds no comma, no valid
/// base64 behind it, or no image in the decoded bytes; with the layout's
/// error where the page has no room; with `ImageTooLarge` where the scaled
/// image would take more than `MAX_IMAGE_BYTES`.
pub fn sample_image(image_data: &str, spec: &LayoutSpec) -> (result: Result<
    SampledImage,
    PatternError,
>)
    ensures
        match result {
            Ok(sampled) => sampled.wf() && sampling_of(image_data.spec_bytes(), *spec) == Ok::<
                (LayoutPlan, Seq<u8>),
                PatternError,
            >((sampled.plan, sampled.cells.pixels@)),
            Err(e) => sampling_of(image_data.spec_bytes(), *spec) == Err::<
                (LayoutPlan, Seq<u8>),
                PatternError,
            >(e),
        },
{
    let text = match data_uri_payload(image_data.as_bytes()) {
        Some(text) => text,
        None => return Err(PatternError::InvalidImageData),
    };
    let file = match decode_base64(text) {
        Ok(file) => file,
        Err(_) => return Err(PatternError::InvalidImageData),
    };
    let image = match decode_image(file.as_slice()) {
        Ok(image) => image,
        Err(_) => return Err(PatternError::InvalidImageData),
    };
    let plan = match plan_layout(image.width, image.height, spec) {
        Ok(plan) => plan,
        Err(e) => return Err(e),
    };
    if !plan.check_fits(image.width) {
        return Err(PatternError::ImageTooLarge);
    }
    proof {
        lemma_fitting_plan_is_small(plan, image.width as nat);
    }
    let cells = sample_cells(&image, &plan);
    Ok(SampledImage { plan, cells })
}

/// A pattern: the layout, the colour sample of each cell and its place in
/// the perceptual space, the grid of palette indices and the legend.
#[derive(Debug)]
pub struct Pattern {
    pub sampled: SampledImage,
    /// The place in the perceptual space of each cell's sample, in the
    /// grid's order of positions.
    pub samples: Vec<LabPoint>,
    pub grid: GemGrid,
    pub legend: Legend,
}

impl Pattern {
    /// Whether this is a pattern of the image in the data URI `data`, laid
    /// out by `spec`, over the palette `colors`: the samples are those of the
    /// image, each sample's place in the perceptual space is one that
    /// `to_lab` gives for the sample's colour, each cell holds the palette
    /// colour nearest to that place, and the legend is that of the grid.
    pub open spec fn is_pattern_of<F: Fn(Rgba) -> LabPoint>(
        &self,
        data: Seq<u8>,
        spec: LayoutSpec,
        colors: Seq<DmcColorPrecomputed>,
        to_lab: F,
    ) -> bool {
        &&& self.sampled.wf()
        &&& sampling_of(data, spec) == Ok::<(LayoutPlan, Seq<u8>), PatternError>(
            (self.sampled.plan, self.sampled.cells.pixels@),
        )
        &&& self.samples@.len() == self.sampled.plan.cols * self.sampled.plan.rows
        &&& forall|gx: int, gy: int|
            0 <= gx < self.sampled.plan.cols && 0 <= gy < self.sampled.plan.rows ==> call_ensures(
                to_lab,
                (#[trigger] self.sampled.cells.pixel_at(gx, gy),),
                self.samples@[gx * self.sampled.plan.rows + gy],
            )
        &&& self.grid.cols == self.sampled.plan.cols
        &&& self.grid.rows == self.sampled.plan.rows
        &&& self.grid.wf(colors.len())
        &&& self.grid.cells@ == classified(points_of(colors), self.samples@)
        &&& self.legend.is_legend_of(self.grid.cells@, colors)
        &&& forall|k: int|
            0 <= k < self.grid.cells@.len() ==> self.legend.order@.contains(
                #[trigger] self.grid.cells@[k],
            )
        &&& total_count(views_of(self.legend.counts@)) == self.grid.cols * self.grid.rows
    }
}

/// Converts an image to a pattern: decodes and lays it out, takes one colour
/// sample for each cell, asks `to_lab` for each sample's place in the
/// perceptual space and gives each cell the nearest colour of the palette.
/// The legend's counts add up to the number of cells.
///
/// Fails as `sample_image` does, and on the same inputs.
pub fn plan_and_quantize<F: Fn(Rgba) -> LabPoint>(
    image_data: &str,
    palette: &PaletteIndex,
    spec: &LayoutSpec,
    to_lab: F,
) -> (result: Result<Pattern, PatternError>)
    requires
        palette.wf(),
        palette.has_distinct_ids(),
        forall|color: Rgba| call_requires(to_lab, (color,)),
    ensures
        match result {
            Ok(pattern) => pattern.is_pattern_of(
                image_data.spec_bytes(),
                *spec,
                palette.colors(),
                to_lab,
            ),
            Err(e) => sampling_of(image_data.spec_bytes(), *spec) == Err::<
                (LayoutPlan, Seq<u8>),
                PatternError,
            >(e),
        },
{
    let sampled = match sample_image(image_data, spec) {
        Ok(sampled) => sampled,
        Err(e) => return Err(e),
    };
    let colors = sampled.cell_colors();
    let cols = sampled.plan.cols;
    let rows = sampled.plan.rows;
    let mut samples: Vec<LabPoint> = Vec::new();
    let mut k: usize = 0;
    while k < colors.len()
        invariant
            k <= colors@.len(),
            samples@.len() == k,
            forall|color: Rgba| call_requires(to_lab, (color,)),
            forall|i: int|
                0 <= i < k ==> call_ensures(to_lab, (colors@[i],), #[trigger] samples@[i]),
        decreases colors@.len() - k,
    {
        let sample = to_lab(colors[k]);
        samples.push(sample);
        k = k + 1;
    }
    proof {
        assert forall|gx: int, gy: int| 0 <= gx < cols && 0 <= gy < rows implies call_ensures(
            to_lab,
            (#[trigger] sampled.cells.pixel_at(gx, gy),),
            samples@[gx * rows + gy],
        ) by {
            crate::grid::lemma_position_in_range(cols as int, rows as int, gx, gy);
            assert(colors@[gx * rows + gy] == sampled.cells.pixel_at(gx, gy));
        }
    }
    let grid = quantize(&samples, cols, rows, palette);
    let legend = build_legend(&grid, palette);
    Ok(Pattern { sampled, samples, grid, legend })
}

/// The colours of `reference` that `selected` names, in the order of the
/// selection and each once.
pub open spec fn selection_of(
    reference: Seq<DmcColorPrecomputed>,
    selected: Seq<Color>,
) -> Seq<DmcColorPrecomputed> {
    Seq::new(
        selected_places(reference, selected).len(),
        |i: int| reference[selected_places(reference, selected)[i]],
    )
}

/// Why `generate_gem_art` fails, if it does. The stages are judged in this
/// order: the palette, the image and its layout, the page.
pub open spec fn failure_of(
    reference: Seq<DmcColorPrecomputed>,
    selected: Seq<Color>,
    data: Seq<u8>,
    spec: LayoutSpec,
) -> Option<PatternError> {
    if selected_places(reference, selected).len() == 0 {
        Some(PatternError::EmptyPalette)
    } else {
        match sampling_of(data, spec) {
            Err(e) => Some(e),
            Ok((plan, _)) => if 4 * (plan.page_width_px * plan.page_height_px) > MAX_IMAGE_BYTES {
                Some(PatternError::ImageTooLarge)
            } else {
                None
            },
        }
    }
}

/// What a conversion yields: the palette, the pattern and the pattern's
/// raster, on which the labels are still to be drawn.
#[derive(Debug)]
pub struct GemArt {
    pub palette: PaletteIndex,
    pub pattern: Pattern,
    pub page: Raster,
}

impl GemArt {
    /// Whether this is what a conversion of the image in the data URI
    /// `data` yields: the palette is the selection, the pattern is a pattern
    /// of the image over it, and the page shows the pattern's cells, each
    /// painted in its colour with its ring, on white.
    pub open spec fn is_art_of<F: Fn(Rgba) -> LabPoint>(
        &self,
        reference: Seq<DmcColorPrecomputed>,
        selected: Seq<Color>,
        data: Seq<u8>,
        spec: LayoutSpec,
        to_lab: F,
    ) -> bool {
        let plan = self.pattern.sampled.plan;
        let colors = self.palette.colors();
        &&& failure_of(reference, selected, data, spec) is None
        &&& self.palette.wf()
        &&& self.palette.has_distinct_ids()
        &&& colors == selection_of(reference, selected)
        &&& self.pattern.is_pattern_of(data, spec, colors, to_lab)
        &&& self.page.wf()
        &&& self.page.width == plan.page_width_px
        &&& self.page.height == plan.page_height_px
        &&& self.page.pixels@ == pattern_pixels(
            plan,
            self.pattern.grid.cells@,
            colors,
            (plan.cols * plan.rows) as nat,
        )
        &&& shows_cells(self.page, plan, self.pattern.grid.cells@, colors, plan.cols as int, 0)
        &&& forall|i: int, j: int|
            self.page.contains(i, j) && plan.in_margin(i, j) ==> #[trigger] self.page.pixel_at(i, j)
                == white()
    }

    /// Whether two conversions yielded the same: the same palette, layout,
    /// samples, grid, legend with its ranks and labels, and the same page,
    /// hence the same data URI.
    pub open spec fn agrees_with(&self, other: GemArt) -> bool {
        &&& self.palette.colors() == other.palette.colors()
        &&& self.pattern.sampled.plan == other.pattern.sampled.plan
        &&& self.pattern.sampled.cells.width == other.pattern.sampled.cells.width
        &&& self.pattern.sampled.cells.height == other.pattern.sampled.cells.height
        &&& self.pattern.sampled.cells.pixels@ == other.pattern.sampled.cells.pixels@
        &&& self.pattern.samples@ == other.pattern.samples@
        &&& self.pattern.grid.cols == other.pattern.grid.cols
        &&& self.pattern.grid.rows == other.pattern.grid.rows
        &&& self.pattern.grid.cells@ == other.pattern.grid.cells@
        &&& self.pattern.legend.order@ == other.pattern.legend.order@
        &&& views_of(self.pattern.legend.counts@) == views_of(other.pattern.legend.counts@)
        &&& self.pattern.legend.ranks@ == other.pattern.legend.ranks@
        &&& self.pattern.legend.labels@.len() == other.pattern.legend.labels@.len()
        &&& forall|i: int|
            0 <= i < self.pattern.legend.labels@.len() ==> (
            #[trigger] self.pattern.legend.labels@[i])@ == other.pattern.legend.labels@[i]@
        &&& self.page.width == other.page.width
        &&& self.page.height == other.page.height
        &&& self.page.pixels@ == other.page.pixels@
        &&& payload_of_image(self.page.width, self.page.height, self.page.pixels@)
            == payload_of_image(other.page.width, other.page.height, other.page.pixels@)
    }
}

/// Whether `result` is what `generate_gem_art` may return on these inputs:
/// the error that `failure_of` names, or a conversion's yield where it names
/// none.
pub open spec fn is_outcome_of<F: Fn(Rgba) -> LabPoint>(
    result: Result<GemArt, PatternError>,
    reference: Seq<DmcColorPrecomputed>,
    selected: Seq<Color>,
    data: Seq<u8>,
    spec: LayoutSpec,
    to_lab: F,
) -> bool {
    match result {
        Ok(art) => art.is_art_of(reference, selected, data, spec, to_lab),
        Err(e) => failure_of(reference, selected, data, spec) == Some(e),
    }
}

/// Whether `to_lab` gives one place in the perceptual space for each colour.
pub open spec fn gives_one_place<F: Fn(Rgba) -> LabPoint>(to_lab: F) -> bool {
    forall|color: Rgba, x: LabPoint, y: LabPoint|
        call_ensures(to_lab, (color,), x) && call_ensures(to_lab, (color,), y) ==> x == y
}

/// Two runs on the same inputs end alike: with a conversion of colours to
/// places that gives one place for each colour, they fail with the same
/// error or yield the same palette, grid, legend, labels and page.
pub proof fn lemma_conversion_is_determined<F: Fn(Rgba) -> LabPoint>(
    first: Result<GemArt, PatternError>,
    second: Result<GemArt, PatternError>,
    reference: Seq<DmcColorPrecomputed>,
    selected: Seq<Color>,
    data: Seq<u8>,
    spec: LayoutSpec,
    to_lab: F,
)
    requires
        is_outcome_of(first, reference, selected, data, spec, to_lab),
        is_outcome_of(second, reference, selected, data, spec, to_lab),
        gives_one_place(to_lab),
    ensures
        first is Ok <==> second is Ok,
        first is Err ==> first->Err_0 == second->Err_0,
        first is Ok ==> first->Ok_0.agrees_with(second->Ok_0),
{
    if first is Ok {
        let a = first->Ok_0;
        let b = second->Ok_0;
        let colors = a.palette.colors();
        let plan = a.pattern.sampled.plan;
        let cols = plan.cols as int;
        let rows = plan.rows as int;
        assert(b.pattern.sampled.plan == plan);
        assert(a.pattern.sampled.cells.pixels@ == b.pattern.sampled.cells.pixels@);
        assert forall|k: int| 0 <= k < a.pattern.samples@.len() implies a.pattern.samples@[k]
            == b.pattern.samples@[k] by {
            let gx = k / rows;
            let gy = k % rows;
            vstd::arithmetic::div_mod::lemma_fundamental_div_mod(k, rows);
            vstd::arithmetic::div_mod::lemma_mod_bound(k, rows);
            assert(rows * gx == gx * rows) by (nonlinear_arith);
            assert(0 <= gx < cols) by (nonlinear_arith)
                requires
                    0 <= k < cols * rows,
                    k == gx * rows + gy,
                    0 <= gy < rows,
            ;
            let color = a.pattern.sampled.cells.pixel_at(gx, gy);
            assert(color == b.pattern.sampled.cells.pixel_at(gx, gy));
            assert(call_ensures(to_lab, (color,), a.pattern.samples@[gx * rows + gy]));
            assert(call_ensures(to_lab, (color,), b.pattern.samples@[gx * rows + gy]));
        }
        assert(a.pattern.samples@ =~= b.pattern.samples@);
        let order = a.pattern.legend.order@;
        assert(b.pattern.legend.order@ == order);
        let ranks = a.pattern.legend.ranks;
        assert(ranks@.len() == ranks.len() <= usize::MAX);
        assert forall|c: int| 0 <= c < ranks@.len() implies ranks@[c]
            == b.pattern.legend.ranks@[c] by {
            if order.contains(c as usize) {
                let i = choose|i: int| 0 <= i < order.len() && order[i] == c as usize;
                assert(ranks@[order[i] as int] == i + 1);
                assert(b.pattern.legend.ranks@[order[i] as int] == i + 1);
            } else {
                assert(ranks@[c] == 0);
                assert(b.pattern.legend.ranks@[c] == 0);
            }
        }
        assert(a.pattern.legend.ranks@ =~= b.pattern.legend.ranks@);
    }
}

/// Runs a conversion: selects the palette, converts the image to a pattern
/// and paints the pattern's raster. The stages run one after the other, and
/// the first that fails ends the run with its error.
pub fn generate_gem_art<F: Fn(Rgba) -> LabPoint>(
    image_data: &str,
    selected_colors: &Vec<Color>,
    reference_colors: &Vec<DmcColorPrecomputed>,
    spec: &LayoutSpec,
    to_lab: F,
) -> (result: Result<GemArt, PatternError>)
    requires
        forall|color: Rgba| call_requires(to_lab, (color,)),
    ensures
        is_outcome_of(
            result,
            reference_colors@,
            selected_colors@,
            image_data.spec_bytes(),
            *spec,
            to_lab,
        ),
{
    let palette = match PaletteIndex::new(select_palette(reference_colors, selected_colors)) {
        Ok(palette) => palette,
        Err(e) => return Err(e),
    };
    let pattern = match plan_and_quantize(image_data, &palette, spec, to_lab) {
        Ok(pattern) => pattern,
        Err(e) => return Err(e),
    };
    let page = match render_pattern(&pattern.grid, &palette, &pattern.sampled.plan) {
        Ok(page) => page,
        Err(e) => return Err(e),
    };
    Ok(GemArt { palette, pattern, page })
}

/// The standard legend sheet for text of height `text_height_px`: A4, 2480
/// by 3507 pixels, with a margin of 118 pixels and three columns of 40 lines.
pub open spec fn a4_sheet(text_height_px: u32) -> LegendLayout {
    LegendLayout {
        page_width_px: 2480,
        page_height_px: 3507,
        margin_px: 118,
        line_height_px: LINE_HEIGHT_PX,
        column_width_px: 748,
        rows_per_column: 40,
        text_height_px,
    }
}

/// Paints the standard legend sheet of a list of counts: one disc for each
/// entry, in the entry's colour, at the entry's line. The labels and texts
/// of the lines are still to be drawn.
pub fn generate_text_image(gem_counts: &Vec<GemCount>, text_height_px: u32) -> (page: Raster)
    requires
        text_height_px <= MAX_SHEET_PX,
        colors_are_hex(views_of(gem_counts@)),
    ensures
        page.wf(),
        page.width == 2480,
        page.height == 3507,
        page.pixels@ == legend_pixels(
            a4_sheet(text_height_px),
            views_of(gem_counts@),
            gem_counts@.len(),
        ),
{
    let layout = LegendLayout::a4(text_height_px);
    render_legend(gem_counts, &layout).unwrap()
}

/// The data URI of a PNG file: the media type and the file in base64.
pub open spec fn data_uri_of(file: Seq<u8>) -> Seq<char> {
    "data:image/png;base64,"@ + base64_encoded(file)
}

/// Whether the base64 text of `len` bytes, four characters for each three
/// bytes begun, can be allocated.
pub open spec fn text_fits(len: nat) -> bool {
    4 * ((len + 2) / 3) <= isize::MAX
}

/// What `encode_data_uri` yields for an image: the data URI of its PNG
/// file, `EncodingFailed` where the encoder refuses the image, and
/// `ImageTooLarge` where the file's base64 text cannot be allocated.
pub open spec fn payload_of_image(width: u32, height: u32, pixels: Seq<u8>) -> Result<
    Seq<char>,
    PatternError,
> {
    match png_encoded(width, height, pixels) {
        None => Err(PatternError::EncodingFailed),
        Some(file) => if text_fits(file.len()) {
            Ok(data_uri_of(file))
        } else {
            Err(PatternError::ImageTooLarge)
        },
    }
}

/// Encodes a raster as a PNG file in a data URI.
pub fn encode_data_uri(image: &Raster) -> (result: Result<String, PatternError>)
    requires
        image.wf(),
    ensures
        match result {
            Ok(uri) => payload_of_image(image.width, image.height, image.pixels@) == Ok::<
                Seq<char>,
                PatternError,
            >(uri@),
            Err(e) => payload_of_image(image.width, image.height, image.pixels@) == Err::<
                Seq<char>,
                PatternError,
            >(e),
        },
{
    let file = match encode_png(image) {
        Ok(file) => file,
        Err(_) => return Err(PatternError::EncodingFailed),
    };
    let groups: u128 = (file.len() as u128 + 2) / 3;
    if 4 * groups > isize::MAX as u128 {
        return Err(PatternError::ImageTooLarge);
    }
    let text = encode_base64(file.as_slice());
    let mut uri = String::from_str("data:image/png;base64,");
    uri.append(text.as_str());
    Ok(uri)
}

} // verus!
