use gem_art::compose::render_pattern;
use gem_art::error::PatternError;
use gem_art::grid::GemGrid;
use gem_art::layout::{plan_layout, LayoutSpec};
use gem_art::legend_sheet::{
    check_colors_are_hex, decimal_text, legend_line, parse_hex_color, render_legend,
    um_to_whole_px, LegendLayout, DISC_OFFSET_PX, DISC_RADIUS_PX, LABEL_OFFSET_PX,
    LINE_HEIGHT_PX, TEXT_OFFSET_PX,
};
use gem_art::models::{DmcColorPrecomputed, GemCount, ImageFitOption};
use gem_art::palette_index::PaletteIndex;
use gem_art::raster::{Raster, Rgba};

const WHITE: Rgba = Rgba { r: 255, g: 255, b: 255, a: 255 };

fn rgba(r: u8, g: u8, b: u8) -> Rgba {
    Rgba { r, g, b, a: 255 }
}

fn entry(floss: &str, fill: (u8, u8, u8), ink: (u8, u8, u8)) -> DmcColorPrecomputed {
    DmcColorPrecomputed {
        floss: floss.to_string(),
        dmc_name: String::new(),
        r: fill.0,
        g: fill.1,
        b: fill.2,
        hex: format!("{:02X}{:02X}{:02X}", fill.0, fill.1, fill.2),
        lab_l: 0,
        lab_a: 0,
        lab_b: 0,
        blended_r: ink.0,
        blended_g: ink.1,
        blended_b: ink.2,
    }
}

fn count(floss: &str, count: u32, hex: &str) -> GemCount {
    GemCount { floss: floss.to_string(), count, hex: hex.to_string() }
}

#[test]
fn filled_raster_has_one_colour() {
    let image = Raster::filled(3, 2, rgba(9, 8, 7));
    assert_eq!((image.width, image.height), (3, 2));
    assert_eq!(image.pixels, [9u8, 8, 7, 255].repeat(6));
    assert_eq!(image.get_pixel(2, 1), rgba(9, 8, 7));
    assert!(Raster::filled(0, 5, WHITE).pixels.is_empty());
}

#[test]
fn put_pixel_changes_one_pixel() {
    let mut image = Raster::filled(3, 2, WHITE);
    image.put_pixel(1, 1, Rgba { r: 1, g: 2, b: 3, a: 4 });
    let mut expected = [255u8; 24].to_vec();
    expected[16..20].copy_from_slice(&[1, 2, 3, 4]);
    assert_eq!(image.pixels, expected);
    assert_eq!(image.get_pixel(1, 1), Rgba { r: 1, g: 2, b: 3, a: 4 });
    assert_eq!(image.get_pixel(0, 1), WHITE);
}

#[test]
fn fill_square_paints_the_square_only() {
    let mut image = Raster::filled(5, 4, WHITE);
    image.fill_square(1, 2, 2, rgba(10, 20, 30));
    for x in 0..5 {
        for y in 0..4 {
            let inside = (1..3).contains(&x) && (2..4).contains(&y);
            assert_eq!(image.get_pixel(x, y), if inside { rgba(10, 20, 30) } else { WHITE });
        }
    }
    image.fill_square(4, 0, 0, rgba(0, 0, 0));
    assert_eq!(image.get_pixel(4, 0), WHITE);
}

#[test]
fn pattern_is_centred_between_the_margins() {
    // A page of 118 pixels with a margin of 12: two cells of 32 in 94 pixels.
    let spec = LayoutSpec::new(1_000, ImageFitOption::Fit, Some(10_000), Some(10_000));
    let plan = plan_layout(10, 10, &spec).unwrap();
    assert_eq!((plan.page_width_px, plan.margin_px, plan.cols, plan.rows), (118, 12, 2, 2));
    assert_eq!(plan.cell_origin(0, 0), (27, 27));
    assert_eq!(plan.cell_origin(1, 0), (59, 27));
    assert_eq!(plan.cell_origin(0, 1), (27, 59));
    assert_eq!(plan.cell_center(1, 1), (75, 75));

    let red = entry("1", (200, 0, 0), (255, 255, 255));
    let blue = entry("2", (0, 0, 200), (1, 2, 3));
    let palette = PaletteIndex::new(vec![red, blue]).unwrap();
    let grid = GemGrid { cols: 2, rows: 2, cells: vec![0, 1, 1, 0] };
    let page = render_pattern(&grid, &palette, &plan).unwrap();
    assert_eq!((page.width, page.height), (118, 118));
    assert_eq!(page.pixels.len(), 4 * 118 * 118);

    for x in 0..118u32 {
        for y in 0..118u32 {
            let pixel = page.get_pixel(x, y);
            let in_art = (27..91).contains(&x) && (27..91).contains(&y);
            if !in_art {
                assert_eq!(pixel, WHITE);
            } else {
                let color = grid.cell((x - 27) / 32, (y - 27) / 32);
                let (fill, ink) = if color == 0 {
                    (rgba(200, 0, 0), rgba(255, 255, 255))
                } else {
                    (rgba(0, 0, 200), rgba(1, 2, 3))
                };
                assert!(pixel == fill || pixel == ink);
            }
        }
    }
    // Cell corners and centres are filled; the ring of radius 14 is in ink.
    assert_eq!(page.get_pixel(27, 27), rgba(200, 0, 0));
    assert_eq!(page.get_pixel(58, 58), rgba(200, 0, 0));
    assert_eq!(page.get_pixel(43, 43), rgba(200, 0, 0));
    assert_eq!(page.get_pixel(59, 27), rgba(0, 0, 200));
    assert_eq!(page.get_pixel(27, 90), rgba(0, 0, 200));
    assert_eq!(page.get_pixel(90, 90), rgba(200, 0, 0));
    assert_eq!(page.get_pixel(43, 29), rgba(255, 255, 255));
    assert_eq!(page.get_pixel(57, 43), rgba(255, 255, 255));
    assert_eq!(page.get_pixel(75, 29), rgba(1, 2, 3));
    assert_eq!(page.get_pixel(43, 89), rgba(1, 2, 3));
}

#[test]
fn narrow_cells_have_no_ring() {
    let mut spec = LayoutSpec::new(0, ImageFitOption::Fit, Some(1_000), Some(1_000));
    spec.cell_um = 254;
    let plan = plan_layout(4, 4, &spec).unwrap();
    assert_eq!((plan.page_width_px, plan.cell_px, plan.cols, plan.rows), (12, 3, 4, 4));
    let palette = PaletteIndex::new(vec![entry("1", (5, 6, 7), (250, 251, 252))]).unwrap();
    let grid = GemGrid { cols: 4, rows: 4, cells: vec![0; 16] };
    let page = render_pattern(&grid, &palette, &plan).unwrap();
    assert_eq!(page.pixels, [5u8, 6, 7, 255].repeat(144));
}

#[test]
fn leftover_is_split_evenly() {
    for page_um in [10_000u32, 12_345, 33_333, 210_000] {
        for margin_um in [0u32, 700, 2_000] {
            let spec = LayoutSpec::new(margin_um, ImageFitOption::Crop, Some(page_um), Some(page_um));
            if let Ok(plan) = plan_layout(7, 7, &spec) {
                let (left, top) = plan.cell_origin(0, 0);
                let (last_x, last_y) = plan.cell_origin(plan.cols - 1, plan.rows - 1);
                let right = plan.page_width_px - (last_x + plan.cell_px);
                let bottom = plan.page_height_px - (last_y + plan.cell_px);
                assert!(left >= plan.margin_px && top >= plan.margin_px);
                assert!(right >= plan.margin_px && bottom >= plan.margin_px);
                assert!(right == left || right == left + 1);
                assert!(bottom == top || bottom == top + 1);
            }
        }
    }
}

#[test]
fn standard_sheet_is_a4_in_three_columns() {
    let layout = LegendLayout::a4(55);
    assert_eq!((layout.page_width_px, layout.page_height_px), (2_480, 3_507));
    assert_eq!(layout.margin_px, 118);
    assert_eq!(layout.line_height_px, 80);
    assert_eq!(layout.column_width_px, 748);
    assert_eq!(layout.rows_per_column, 40);
    assert_eq!(layout.text_height_px, 55);
    assert_eq!((DISC_OFFSET_PX, DISC_RADIUS_PX, LABEL_OFFSET_PX, TEXT_OFFSET_PX), (20, 15, 50, 100));
    assert_eq!(LINE_HEIGHT_PX, 80);
}

#[test]
fn lines_fill_a_column_and_wrap_to_the_next() {
    let layout = LegendLayout::a4(55);
    assert_eq!(layout.line_origin(0), Some((118, 118)));
    assert_eq!(layout.line_origin(1), Some((118, 198)));
    assert_eq!(layout.line_origin(39), Some((118, 3_238)));
    assert_eq!(layout.line_origin(40), Some((866, 118)));
    assert_eq!(layout.line_origin(49), Some((866, 838)));
    assert_eq!(layout.line_origin(80), Some((1_614, 118)));
    assert_eq!(layout.line_origin(119), Some((1_614, 3_238)));
    // A fourth column begins in the right margin; a fifth is off the page.
    assert_eq!(layout.line_origin(120), Some((2_362, 118)));
    assert_eq!(layout.line_origin(160), None);
    assert_eq!(layout.line_origin(usize::MAX), None);
}

#[test]
fn lines_follow_the_wrapping_rule() {
    let layout = LegendLayout::a4(55);
    let max_y = layout.page_height_px - layout.margin_px;
    let (mut x, mut y) = (layout.margin_px, layout.margin_px);
    for i in 0..130 {
        if y + layout.line_height_px > max_y {
            y = layout.margin_px;
            x += layout.column_width_px;
        }
        assert_eq!(layout.line_origin(i), Some((x, y)));
        y += layout.line_height_px;
    }
}

#[test]
fn hex_colours_are_six_hex_digits() {
    assert_eq!(parse_hex_color("FF0000"), Some(rgba(255, 0, 0)));
    assert_eq!(parse_hex_color("00ff7f"), Some(rgba(0, 255, 127)));
    assert_eq!(parse_hex_color("aBcDeF"), Some(rgba(0xab, 0xcd, 0xef)));
    assert_eq!(parse_hex_color("0123456789"), Some(rgba(0x01, 0x23, 0x45)));
    assert_eq!(parse_hex_color(""), None);
    assert_eq!(parse_hex_color("12345"), None);
    assert_eq!(parse_hex_color("GG0000"), None);
    assert_eq!(parse_hex_color("#FF000"), None);
    assert_eq!(parse_hex_color("+F0000"), None);
    assert_eq!(parse_hex_color("0000\u{e9}0"), None);
    assert!(check_colors_are_hex(&vec![count("1", 1, "000000"), count("2", 1, "ffffff")]));
    assert!(!check_colors_are_hex(&vec![count("1", 1, "000000"), count("2", 1, "fffff")]));
    assert!(check_colors_are_hex(&Vec::new()));
}

#[test]
fn numbers_are_written_in_decimal() {
    assert_eq!(decimal_text(0), "0");
    assert_eq!(decimal_text(7), "7");
    assert_eq!(decimal_text(10), "10");
    assert_eq!(decimal_text(8_400), "8400");
    assert_eq!(decimal_text(u32::MAX), "4294967295");
    for n in (0..100_000u32).step_by(37) {
        assert_eq!(decimal_text(n), n.to_string());
    }
}

#[test]
fn legend_line_names_identifier_and_count() {
    assert_eq!(legend_line(&count("310", 100, "000000")), "#310: 100 cells");
    assert_eq!(legend_line(&count("B5200 ", 1, "FFFFFF")), "#B5200 : 1 cells");
    assert_eq!(legend_line(&count("", 0, "")), "#: 0 cells");
}

#[test]
fn test_generate_text_image() {
    let gem_counts = vec![count("310", 100, "000000"), count("B5200", 50, "FFFFFF")];
    let page = gem_art::image_processing::generate_text_image(&gem_counts, 55);
    assert_eq!(page.pixels, render_legend(&gem_counts, &LegendLayout::a4(55)).unwrap().pixels);
    let text_image_url = gem_art::image_processing::encode_data_uri(&page).unwrap();
    assert!(!text_image_url.is_empty(), "Generated text image URL should not be empty");
    // Each line has its disc: the first black at (138, 145), the second white.
    assert_eq!(page.get_pixel(138, 145), rgba(0, 0, 0));
    assert_eq!(page.get_pixel(138, 145 - 15), rgba(0, 0, 0));
    assert_eq!(page.get_pixel(138 + 15, 145), rgba(0, 0, 0));
    assert_eq!(page.get_pixel(138, 145 - 16), WHITE);
    assert_eq!(page.get_pixel(138, 225), WHITE);
    assert_eq!(page.get_pixel(0, 0), WHITE);
}

#[test]
fn test_generate_text_image_column_layout() {
    let mut gem_counts = Vec::new();
    for i in 1..=50 {
        gem_counts.push(count(&format!("DMC \u{634}\u{6cc}\u{62e}{}", i), i as u32, "000000"));
    }
    let layout = LegendLayout::a4(55);
    let page = gem_art::image_processing::generate_text_image(&gem_counts, 55);
    let text_image_url = gem_art::image_processing::encode_data_uri(&page).unwrap();
    assert!(!text_image_url.is_empty(), "Generated text image URL should not be empty");

    let a4_width_mm = 210.0;
    let a4_height_mm = 297.0;
    let dpi = 300.0;
    let mm_per_inch = 25.4;
    let pixels_per_mm = dpi / mm_per_inch;
    let expected_width_px = (a4_width_mm as f32 * pixels_per_mm as f32).round() as u32;
    let expected_height_px = (a4_height_mm as f32 * pixels_per_mm as f32).round() as u32;
    assert!(
        (page.width as f32 - expected_width_px as f32).abs() < 2.0,
        "Generated text image width mismatch"
    );
    assert!(
        (page.height as f32 - expected_height_px as f32).abs() < 2.0,
        "Generated text image height mismatch"
    );
    // Fifty entries reach into the second column.
    for i in [0usize, 39, 40, 49] {
        let (x, y) = layout.line_origin(i).unwrap();
        assert_eq!(page.get_pixel(x + 20, y + 27), rgba(0, 0, 0));
    }
    let (x, y) = layout.line_origin(50).unwrap();
    assert_eq!(page.get_pixel(x + 20, y + 27), WHITE);
    assert_eq!(
        legend_line(&gem_counts[49]),
        "#DMC \u{634}\u{6cc}\u{62e}50: 50 cells"
    );
}

#[test]
fn lines_off_the_page_are_not_drawn() {
    let counts: Vec<GemCount> = (0..170).map(|i| count(&i.to_string(), 1, "102030")).collect();
    let layout = LegendLayout::a4(40);
    let page = render_legend(&counts, &layout).unwrap();
    assert_eq!((page.width, page.height), (2_480, 3_507));
    let (x, y) = layout.line_origin(120).unwrap();
    assert_eq!(page.get_pixel(x + 20, y + 20), rgba(0x10, 0x20, 0x30));
    assert_eq!(layout.line_origin(169), None);
}

#[test]
fn page_past_the_memory_budget_is_too_large() {
    // Two metres are 23622 pixels; the page would take over two thousand million bytes.
    let spec = LayoutSpec::new(0, ImageFitOption::Fit, Some(2_000_000), Some(2_000_000));
    let plan = plan_layout(10, 10, &spec).unwrap();
    assert_eq!((plan.page_width_px, plan.cols, plan.rows), (23_622, 738, 738));
    let palette = PaletteIndex::new(vec![entry("1", (5, 6, 7), (250, 251, 252))]).unwrap();
    let grid = GemGrid { cols: 738, rows: 738, cells: vec![0; 738 * 738] };
    assert_eq!(render_pattern(&grid, &palette, &plan).err(), Some(PatternError::ImageTooLarge));

    let layout = LegendLayout {
        page_width_px: 30_000,
        page_height_px: 30_000,
        margin_px: 0,
        line_height_px: 80,
        column_width_px: 10_000,
        rows_per_column: 375,
        text_height_px: 40,
    };
    let counts = vec![count("1", 1, "000000")];
    assert_eq!(render_legend(&counts, &layout).err(), Some(PatternError::ImageTooLarge));
}

#[test]
fn custom_sheet_is_laid_out_by_its_own_sizes() {
    let layout = LegendLayout {
        page_width_px: 300,
        page_height_px: 200,
        margin_px: 10,
        line_height_px: 50,
        column_width_px: 100,
        rows_per_column: 3,
        text_height_px: 20,
    };
    assert_eq!(layout.line_origin(0), Some((10, 10)));
    assert_eq!(layout.line_origin(2), Some((10, 110)));
    assert_eq!(layout.line_origin(3), Some((110, 10)));
    assert_eq!(layout.line_origin(8), Some((210, 110)));
    assert_eq!(layout.line_origin(9), None);
    let counts: Vec<GemCount> = (0..10).map(|i| count(&i.to_string(), 1, "0000FF")).collect();
    let page = render_legend(&counts, &layout).unwrap();
    assert_eq!((page.width, page.height), (300, 200));
    assert_eq!(page.get_pixel(230, 120), rgba(0, 0, 255));
    assert_eq!(page.get_pixel(230, 120 + 16), WHITE);
    assert_eq!(page.get_pixel(299, 199), WHITE);
}

#[test]
fn legend_sheet_counts_whole_pixels() {
    // 297 mm are 3507.87 pixels and 210 mm are 2480.31: what is begun is left off.
    assert_eq!(um_to_whole_px(297_000), 3_507);
    assert_eq!(um_to_whole_px(210_000), 2_480);
    assert_eq!(um_to_whole_px(10_000), 118);
    assert_eq!(um_to_whole_px(0), 0);
    assert_eq!(um_to_whole_px(84), 0);
    assert_eq!(um_to_whole_px(85), 1);
    assert_eq!(um_to_whole_px(u32::MAX), 50_727_960);
    for mm in [1.0f32, 10.0, 210.0, 297.0] {
        assert_eq!(um_to_whole_px((mm * 1000.0) as u32), (mm * (300.0 / 25.4)) as u32);
    }
}

#[test]
fn empty_legend_is_a_white_page() {
    let page = gem_art::image_processing::generate_text_image(&Vec::new(), 55);
    assert_eq!((page.width, page.height), (2_480, 3_507));
    assert_eq!(page.pixels.len(), 4 * 2_480 * 3_507);
    assert!(page.pixels.iter().all(|b| *b == 255));
    let url = gem_art::image_processing::encode_data_uri(&page).unwrap();
    let prefix = "data:image/png;base64,";
    assert!(url.starts_with(prefix));
    let file = base64::Engine::decode(
        &base64::engine::general_purpose::STANDARD,
        &url[prefix.len()..],
    )
    .unwrap();
    let decoded = image::load_from_memory(&file).unwrap().into_rgba8();
    assert_eq!((decoded.width(), decoded.height()), (2_480, 3_507));
    assert!(decoded.pixels().all(|p| p.0 == [255, 255, 255, 255]));
}
