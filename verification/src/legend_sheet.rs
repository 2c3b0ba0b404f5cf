//! The legend sheet: a white page that lists the colours of a pattern, one
//! line for each, in columns that fill from top to bottom.
//!
//! A line shows a disc in the colour, the colour's label, and the text
//! `#<identifier>: <count> cells`. The discs are painted here; the places of
//! the texts are handed out for the caller to draw them.
//!
//! The sheet's lengths count in whole pixels: a pixel that a length only
//! begins is left off, so that A4 is 2480 by 3507 pixels.

use crate::codec::{disc_drawn, draw_disc};
use crate::compose::white;
use crate::error::PatternError;
use crate::layout::{A4_HEIGHT_UM, A4_WIDTH_UM, DPI, UM_PER_INCH};
use crate::models::{GemCount, GemCountView};
use crate::raster::{uniform_pixels, Raster, Rgba, MAX_IMAGE_BYTES};
use vstd::prelude::*;
use vstd::string::{StrSliceExecFns, StringExecFns};

verus! {

/// Margin of the legend sheet, in micrometres.
pub const LEGEND_MARGIN_UM: u32 = 10_000;

/// Distance from one line of the legend to the next, in pixels.
pub const LINE_HEIGHT_PX: u32 = 80;

/// Number of columns across the printable width.
pub const LEGEND_COLUMNS: u32 = 3;

/// Radius of a line's disc, in pixels.
pub const DISC_RADIUS_PX: u32 = 15;

/// Distance from a line's left edge to the centre of its disc, in pixels.
pub const DISC_OFFSET_PX: u32 = 20;

/// Distance from a line's left edge to its label, in pixels.
pub const LABEL_OFFSET_PX: u32 = 50;

/// Distance from a line's left edge to its text, in pixels.
pub const TEXT_OFFSET_PX: u32 = 100;

/// The largest width, height and text height of a legend sheet, in pixels.
pub const MAX_SHEET_PX: u32 = 0x3f_ffff;

/// The number of whole pixels that a length spans.
pub open spec fn whole_px_of_um(um: nat) -> nat {
    um * DPI as nat / UM_PER_INCH as nat
}

/// The number of whole pixels that `um` micrometres span.
pub fn um_to_whole_px(um: u32) -> (px: u32)
    ensures
        px == whole_px_of_um(um as nat),
{
    let px: u64 = um as u64 * DPI / UM_PER_INCH;
    px as u32
}

/// The geometry of a legend sheet.
#[derive(Clone, Copy, Debug, PartialEq, Eq, Structural)]
pub struct LegendLayout {
    pub page_width_px: u32,
    pub page_height_px: u32,
    pub margin_px: u32,
    pub line_height_px: u32,
    pub column_width_px: u32,
    /// The number of lines that a column holds.
    pub rows_per_column: u32,
    /// Height of a line's text; a line's disc is centred at half of it.
    pub text_height_px: u32,
}

impl LegendLayout {
    /// The page is no larger than a sheet can be and has room for one line
    /// at least, and a column holds as many lines as fit between the margins.
    pub open spec fn wf(&self) -> bool {
        &&& self.page_width_px <= MAX_SHEET_PX
        &&& self.page_height_px <= MAX_SHEET_PX
        &&& self.text_height_px <= MAX_SHEET_PX
        &&& 2 * self.margin_px <= self.page_width_px
        &&& 2 * self.margin_px <= self.page_height_px
        &&& self.line_height_px >= 1
        &&& self.rows_per_column >= 1
        &&& self.rows_per_column == (self.page_height_px - 2 * self.margin_px)
            / self.line_height_px as int
    }

    /// The column of line `i`: columns fill one after the other.
    pub open spec fn column_of(&self, i: nat) -> nat {
        i / self.rows_per_column as nat
    }

    /// The row of line `i` in its column.
    pub open spec fn row_of(&self, i: nat) -> nat {
        i % self.rows_per_column as nat
    }

    /// Left edge of line `i`.
    pub open spec fn line_x(&self, i: nat) -> int {
        self.margin_px + self.column_of(i) * self.column_width_px
    }

    /// Top edge of line `i`.
    pub open spec fn line_y(&self, i: nat) -> int {
        self.margin_px + self.row_of(i) * self.line_height_px
    }

    /// Whether line `i` begins on the page; lines of columns that begin
    /// right of the page are not shown.
    pub open spec fn on_page(&self, i: nat) -> bool {
        self.line_x(i) < self.page_width_px
    }

    /// The standard sheet: A4 with a margin of 10 mm, each in whole pixels,
    /// three columns, lines 80 pixels apart.
    pub fn a4(text_height_px: u32) -> (layout: LegendLayout)
        requires
            text_height_px <= MAX_SHEET_PX,
        ensures
            layout.wf(),
            layout.page_width_px == whole_px_of_um(A4_WIDTH_UM as nat),
            layout.page_height_px == whole_px_of_um(A4_HEIGHT_UM as nat),
            layout.margin_px == whole_px_of_um(LEGEND_MARGIN_UM as nat),
            layout.page_width_px == 2480,
            layout.page_height_px == 3507,
            layout.margin_px == 118,
            layout.line_height_px == LINE_HEIGHT_PX,
            layout.column_width_px == 748,
            layout.rows_per_column == 40,
            layout.text_height_px == text_height_px,
    {
        let page_width_px = um_to_whole_px(A4_WIDTH_UM);
        let page_height_px = um_to_whole_px(A4_HEIGHT_UM);
        let margin_px = um_to_whole_px(LEGEND_MARGIN_UM);
        proof {
            assert(DPI == 300 && UM_PER_INCH == 25_400);
            assert(page_width_px == (210_000 * 300) / 25_400);
            assert(page_height_px == (297_000 * 300) / 25_400);
            assert(margin_px == (10_000 * 300) / 25_400);
        }
        LegendLayout {
            page_width_px,
            page_height_px,
            margin_px,
            line_height_px: LINE_HEIGHT_PX,
            column_width_px: (page_width_px - 2 * margin_px) / LEGEND_COLUMNS,
            rows_per_column: (page_height_px - 2 * margin_px) / LINE_HEIGHT_PX,
            text_height_px,
        }
    }

    /// The top left pixel of line `i`, where the line begins on the page.
    pub fn line_origin(&self, i: usize) -> (origin: Option<(u32, u32)>)
        requires
            self.wf(),
        ensures
            origin is Some <==> self.on_page(i as nat),
            origin matches Some((x, y)) ==> x == self.line_x(i as nat) && y == self.line_y(
                i as nat,
            ) && y + self.line_height_px <= self.page_height_px - self.margin_px,
    {
        let column: u128 = (i / self.rows_per_column as usize) as u128;
        let row: u32 = (i % self.rows_per_column as usize) as u32;
        proof {
            lemma_rows_fit(*self, i as nat);
        }
        let column_width: u128 = self.column_width_px as u128;
        assert(column * column_width <= 0xffff_ffff_ffff_ffff * 0xffff_ffff) by (nonlinear_arith)
            requires
                0 <= column <= 0xffff_ffff_ffff_ffff,
                0 <= column_width <= 0xffff_ffff,
        ;
        let x: u128 = self.margin_px as u128 + column * column_width;
        if x >= self.page_width_px as u128 {
            return None;
        }
        let y: u32 = self.margin_px + row * self.line_height_px;
        Some((x as u32, y))
    }
}

/// Every line lies between the top and the bottom margin, and a column is
/// full: one more line below its last would reach into the bottom margin.
pub proof fn lemma_rows_fit(layout: LegendLayout, i: nat)
    requires
        layout.wf(),
    ensures
        layout.row_of(i) < layout.rows_per_column,
        layout.margin_px <= layout.line_y(i),
        layout.line_y(i) + layout.line_height_px <= layout.page_height_px - layout.margin_px,
        layout.margin_px + layout.rows_per_column * layout.line_height_px + layout.line_height_px
            > layout.page_height_px - layout.margin_px,
        0 <= layout.column_of(i) * layout.column_width_px,
        0 <= layout.row_of(i) * layout.line_height_px <= layout.page_height_px,
{
    let rows = layout.rows_per_column as int;
    let line = layout.line_height_px as int;
    let room = layout.page_height_px - 2 * layout.margin_px;
    let row = layout.row_of(i) as int;
    vstd::arithmetic::div_mod::lemma_mod_bound(i as int, rows);
    vstd::arithmetic::div_mod::lemma_fundamental_div_mod(room, line);
    vstd::arithmetic::div_mod::lemma_mod_bound(room, line);
    assert(line * rows == rows * line) by (nonlinear_arith);
    assert(0 <= row * line && row * line + line <= rows * line) by (nonlinear_arith)
        requires
            0 <= row,
            row + 1 <= rows,
            line >= 0,
    ;
    assert(0 <= layout.column_of(i) * layout.column_width_px) by (nonlinear_arith)
        requires
            layout.column_of(i) >= 0,
            layout.column_width_px >= 0,
    ;
}

/// The value of a hex digit, in either case.
pub open spec fn hex_digit(c: char) -> Option<int> {
    if '0' <= c <= '9' {
        Some(c as int - 48)
    } else if 'a' <= c <= 'f' {
        Some(c as int - 87)
    } else if 'A' <= c <= 'F' {
        Some(c as int - 55)
    } else {
        None
    }
}

/// The byte that the two hex digits at `at` and behind it stand for.
pub open spec fn hex_pair(s: Seq<char>, at: int) -> Option<u8> {
    match (hex_digit(s[at]), hex_digit(s[at + 1])) {
        (Some(high), Some(low)) => Some((16 * high + low) as u8),
        _ => None,
    }
}

/// The opaque colour that a text of six hex digits `rrggbb` stands for;
/// what follows the six digits does not count.
pub open spec fn hex_color(s: Seq<char>) -> Option<Rgba> {
    if s.len() < 6 {
        None
    } else {
        match (hex_pair(s, 0), hex_pair(s, 2), hex_pair(s, 4)) {
            (Some(r), Some(g), Some(b)) => Some(Rgba { r, g, b, a: 255 }),
            _ => None,
        }
    }
}

/// The value of a hex digit.
fn hex_digit_value(c: char) -> (value: Option<u8>)
    ensures
        value is Some <==> hex_digit(c) is Some,
        value matches Some(v) ==> hex_digit(c) == Some(v as int) && v < 16,
{
    let u: u32 = c as u32;
    if 48 <= u && u <= 57 {
        Some((u - 48) as u8)
    } else if 97 <= u && u <= 102 {
        Some((u - 87) as u8)
    } else if 65 <= u && u <= 70 {
        Some((u - 55) as u8)
    } else {
        None
    }
}

/// The byte that the two hex digits at `at` and behind it stand for.
fn hex_pair_value(s: &str, at: usize) -> (value: Option<u8>)
    requires
        at + 1 < s@.len(),
        at < 6,
    ensures
        value == hex_pair(s@, at as int),
{
    let high = hex_digit_value(s.get_char(at));
    let low = hex_digit_value(s.get_char(at + 1));
    match (high, low) {
        (Some(h), Some(l)) => Some(16 * h + l),
        _ => None,
    }
}

/// The colour that a text of six hex digits stands for.
pub fn parse_hex_color(hex: &str) -> (color: Option<Rgba>)
    ensures
        color == hex_color(hex@),
{
    if hex.unicode_len() < 6 {
        return None;
    }
    let r = hex_pair_value(hex, 0);
    let g = hex_pair_value(hex, 2);
    let b = hex_pair_value(hex, 4);
    match (r, g, b) {
        (Some(r), Some(g), Some(b)) => Some(Rgba { r, g, b, a: 255 }),
        _ => None,
    }
}

/// The decimal digit for `d` in `0..10`.
pub open spec fn digit(d: int) -> char {
    (48 + d) as char
}

/// The number in decimal digits.
pub open spec fn decimal_of(n: nat) -> Seq<char>
    decreases n,
{
    if n < 10 {
        seq![digit(n as int)]
    } else {
        decimal_of(n / 10).push(digit((n % 10) as int))
    }
}

/// The text of a legend line: `#<identifier>: <count> cells`.
pub open spec fn legend_line_of(entry: GemCountView) -> Seq<char> {
    "#"@ + entry.floss + ": "@ + decimal_of(entry.count) + " cells"@
}

/// The number in decimal digits.
pub fn decimal_text(num: u32) -> (text: String)
    ensures
        text@ == decimal_of(num as nat),
{
    let mut text = String::new();
    let mut n: u32 = num;
    while n >= 10
        invariant
            decimal_of(num as nat) == decimal_of(n as nat) + text@,
        decreases n,
    {
        let c: char = (48u8 + (n % 10) as u8) as char;
        proof {
            let front = decimal_of((n / 10) as nat);
            assert(c == digit((n % 10) as int));
            assert(front.push(c) + text@ == front + (seq![c] + text@));
        }
        text.insert(0, c);
        n = n / 10;
    }
    let c: char = (48u8 + n as u8) as char;
    proof {
        assert(c == digit(n as int));
    }
    text.insert(0, c);
    text
}

/// The text of an entry's legend line.
pub fn legend_line(entry: &GemCount) -> (text: String)
    ensures
        text@ == legend_line_of(entry@),
{
    let mut text = String::from_str("#");
    text.append(entry.floss.as_str());
    text.append(": ");
    let count = decimal_text(entry.count);
    text.append(count.as_str());
    text.append(" cells");
    text
}

/// Whether every entry's colour is a text of six hex digits.
pub open spec fn colors_are_hex(entries: Seq<GemCountView>) -> bool {
    forall|i: int| 0 <= i < entries.len() ==> hex_color((#[trigger] entries[i]).hex) is Some
}

/// Whether every entry's colour is a text of six hex digits.
pub fn check_colors_are_hex(counts: &Vec<GemCount>) -> (valid: bool)
    ensures
        valid == colors_are_hex(crate::legend::views_of(counts@)),
{
    let mut i: usize = 0;
    while i < counts.len()
        invariant
            i <= counts@.len(),
            forall|k: int| 0 <= k < i ==> hex_color((#[trigger] counts@[k])@.hex) is Some,
        decreases counts@.len() - i,
    {
        if parse_hex_color(counts[i].hex.as_str()).is_none() {
            assert(crate::legend::views_of(counts@)[i as int] == counts@[i as int]@);
            return false;
        }
        i = i + 1;
    }
    assert forall|k: int| 0 <= k < counts@.len() implies hex_color(
        (#[trigger] crate::legend::views_of(counts@)[k]).hex,
    ) is Some by {
        assert(hex_color(counts@[k]@.hex) is Some);
    }
    true
}

/// The pixel bytes of the sheet after the disc of line `i` was drawn, where
/// the line begins on the page.
pub open spec fn line_painted(
    layout: LegendLayout,
    pixels: Seq<u8>,
    i: nat,
    entry: GemCountView,
) -> Seq<u8> {
    if layout.on_page(i) {
        let color = hex_color(entry.hex)->Some_0;
        disc_drawn(
            layout.page_width_px,
            layout.page_height_px,
            pixels,
            (layout.line_x(i) + DISC_OFFSET_PX) as i32,
            (layout.line_y(i) + layout.text_height_px / 2) as i32,
            DISC_RADIUS_PX as i32,
            color.r,
            color.g,
            color.b,
            color.a,
        )
    } else {
        pixels
    }
}

/// The pixel bytes of the sheet after the discs of the first `n` entries
/// were drawn.
pub open spec fn legend_pixels(layout: LegendLayout, entries: Seq<GemCountView>, n: nat) -> Seq<u8>
    decreases n,
{
    if n == 0 {
        uniform_pixels(layout.page_width_px as int, layout.page_height_px as int, white())
    } else {
        line_painted(
            layout,
            legend_pixels(layout, entries, (n - 1) as nat),
            (n - 1) as nat,
            entries[n - 1],
        )
    }
}

/// The legend sheet without its texts: the page, white, with one disc in
/// the colour of each entry whose line begins on the page.
///
/// Fails with `ImageTooLarge` exactly where the page would take more than
/// `MAX_IMAGE_BYTES`.
pub fn render_legend(counts: &Vec<GemCount>, layout: &LegendLayout) -> (result: Result<
    Raster,
    PatternError,
>)
    requires
        layout.wf(),
        colors_are_hex(crate::legend::views_of(counts@)),
    ensures
        result is Err <==> 4 * (layout.page_width_px * layout.page_height_px) > MAX_IMAGE_BYTES,
        result matches Err(e) ==> e == PatternError::ImageTooLarge,
        result matches Ok(page) ==> {
            &&& page.wf()
            &&& page.width == layout.page_width_px
            &&& page.height == layout.page_height_px
            &&& page.pixels@ == legend_pixels(
                *layout,
                crate::legend::views_of(counts@),
                counts@.len(),
            )
        },
{
    let width: u128 = layout.page_width_px as u128;
    let height: u128 = layout.page_height_px as u128;
    assert(width * height <= 0xffff_ffff * 0xffff_ffff) by (nonlinear_arith)
        requires
            width <= 0xffff_ffff,
            height <= 0xffff_ffff,
    ;
    if 4 * (width * height) > MAX_IMAGE_BYTES as u128 {
        return Err(PatternError::ImageTooLarge);
    }
    let blank = Rgba { r: 255, g: 255, b: 255, a: 255 };
    let mut page = Raster::filled(layout.page_width_px, layout.page_height_px, blank);
    let ghost entries = crate::legend::views_of(counts@);
    let mut i: usize = 0;
    while i < counts.len()
        invariant
            i <= counts@.len(),
            layout.wf(),
            entries == crate::legend::views_of(counts@),
            colors_are_hex(entries),
            page.wf(),
            page.width == layout.page_width_px,
            page.height == layout.page_height_px,
            page.pixels@ == legend_pixels(*layout, entries, i as nat),
        decreases counts@.len() - i,
    {
        proof {
            assert(entries[i as int] == counts@[i as int]@);
            assert(hex_color(entries[i as int].hex) is Some);
        }
        match layout.line_origin(i) {
            Some((x, y)) => {
                let color = parse_hex_color(counts[i].hex.as_str()).unwrap();
                draw_disc(
                    &mut page,
                    (x + DISC_OFFSET_PX) as i32,
                    (y + layout.text_height_px / 2) as i32,
                    DISC_RADIUS_PX as i32,
                    color,
                );
            },
            None => {},
        }
        i = i + 1;
    }
    Ok(page)
}

} // verus!
