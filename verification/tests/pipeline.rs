use base64::engine::general_purpose;
use base64::Engine;
use gem_art::error::PatternError;
use gem_art::image_processing::{encode_data_uri, plan_and_quantize, sample_image};
use gem_art::layout::LayoutSpec;
use gem_art::legend::count_usage;
use gem_art::models::{Color, DmcColorPrecomputed, GemCount, ImageFitOption, LabPoint};
use gem_art::palette_index::PaletteIndex;
use image::{DynamicImage, GenericImage, Rgba};
use palette::{IntoColor, Lab, Srgb};
use std::io::Cursor;

fn lab_of(r: u8, g: u8, b: u8) -> LabPoint {
    let lab: Lab = Srgb::new(r as f32 / 255.0, g as f32 / 255.0, b as f32 / 255.0).into_color();
    LabPoint {
        l: (lab.l * 1000.0).round() as i32,
        a: (lab.a * 1000.0).round() as i32,
        b: (lab.b * 1000.0).round() as i32,
    }
}

fn mm_to_um(mm: f32) -> u32 {
    (mm as f64 * 1000.0).round() as u32
}

fn reference_colors(colors: &Vec<Color>) -> Vec<DmcColorPrecomputed> {
    colors
        .iter()
        .map(|c| {
            let lab = lab_of(c.r, c.g, c.b);
            let ink = if (c.r as u32 + c.g as u32 + c.b as u32) > 382 { 0 } else { 255 };
            DmcColorPrecomputed {
                floss: c.floss_number.clone(),
                dmc_name: c.value.clone(),
                r: c.r,
                g: c.g,
                b: c.b,
                hex: c.hex.clone(),
                lab_l: lab.l,
                lab_a: lab.a,
                lab_b: lab.b,
                blended_r: ink,
                blended_g: ink,
                blended_b: ink,
            }
        })
        .collect()
}

fn generate_gem_art(
    image_data: &str,
    selected_colors: &Vec<Color>,
    margin_mm: f32,
    fit_option: &ImageFitOption,
    custom_width_mm: Option<f32>,
    custom_height_mm: Option<f32>,
) -> Result<(String, Vec<GemCount>), String> {
    let all = reference_colors(selected_colors);
    let spec = LayoutSpec::new(
        mm_to_um(margin_mm),
        *fit_option,
        custom_width_mm.map(mm_to_um),
        custom_height_mm.map(mm_to_um),
    );
    let art = gem_art::image_processing::generate_gem_art(
        image_data,
        selected_colors,
        &all,
        &spec,
        |c| lab_of(c.r, c.g, c.b),
    )
    .map_err(|e| e.message())?;
    let uri = encode_data_uri(&art.page).map_err(|e| e.message())?;
    Ok((uri, art.pattern.legend.counts))
}

fn data_url_of(img: &DynamicImage) -> String {
    let mut buf = Vec::new();
    img.write_to(&mut Cursor::new(&mut buf), image::ImageOutputFormat::Png)
        .expect("Failed to write image to buffer");
    format!("data:image/png;base64,{}", general_purpose::STANDARD.encode(&buf))
}

fn color(floss: &str, hex: &str, r: u8, g: u8, b: u8) -> Color {
    Color {
        floss_number: floss.to_string(),
        hex: hex.to_string(),
        r,
        g,
        b,
        value: format!("#{}", hex),
    }
}

fn decoded(url: &str) -> DynamicImage {
    let data = general_purpose::STANDARD.decode(url.split(",").nth(1).unwrap()).unwrap();
    image::load_from_memory(&data).unwrap()
}

#[test]
fn test_generate_gem_art_invalid_input() {
    let invalid_image_data = "data:image/png;base64,invalid_base64_string";
    let colors = vec![color("1", "FFFFFF", 255, 255, 255)];
    let margin_mm = 10.0;
    let fit_option = ImageFitOption::Fit;
    let custom_width_mm = Some(210.0);
    let custom_height_mm = Some(297.0);

    let result = generate_gem_art(
        invalid_image_data,
        &colors,
        margin_mm,
        &fit_option,
        custom_width_mm,
        custom_height_mm,
    );

    assert!(result.is_err(), "generate_gem_art should return an error for invalid input");
    let error_message = result.unwrap_err();
    println!("Actual error message: {}", error_message);
    assert!(
        error_message.contains("Invalid image data")
            || error_message.contains("InvalidLength")
            || error_message.contains("Invalid first character")
            || error_message.contains("Encoded text cannot have a 6-bit remainder"),
        "Error message should indicate invalid image data"
    );
}

#[test]
fn test_generate_gem_art_output_verification() {
    let mut img = DynamicImage::new_rgba8(1, 1);
    img.put_pixel(0, 0, Rgba([255, 0, 0, 255]));
    let image_data_url = data_url_of(&img);

    let colors = vec![color("666", "FF0000", 255, 0, 0)];
    let margin_mm = 0.0;
    let fit_option = ImageFitOption::Fit;
    let custom_width_mm = Some(2.7);
    let custom_height_mm = Some(2.7);

    let (gem_image_url, gem_counts) = generate_gem_art(
        &image_data_url,
        &colors,
        margin_mm,
        &fit_option,
        custom_width_mm,
        custom_height_mm,
    )
    .unwrap();

    assert_eq!(gem_counts.len(), 1, "Expected one gem count entry");
    assert_eq!(gem_counts[0].floss, "666", "Expected floss number 666");
    assert_eq!(gem_counts[0].count, 1, "Expected gem count of 1");
    assert_eq!(gem_counts[0].hex, "FF0000", "Expected hex color FF0000");

    let generated_img = decoded(&gem_image_url);

    let dpi = 300.0;
    let mm_per_inch = 25.4;
    let pixels_per_mm = dpi / mm_per_inch;
    let expected_gem_size_px = ((2.7f32) * pixels_per_mm).round() as u32;

    assert_eq!(generated_img.width(), expected_gem_size_px, "Generated image width mismatch");
    assert_eq!(generated_img.height(), expected_gem_size_px, "Generated image height mismatch");
}

fn final_canvas(width_mm: f32, height_mm: f32, img_width: u32, img_height: u32) -> (u32, u32) {
    let dpi = 300.0;
    let mm_per_inch = 25.4;
    let pixels_per_mm: f32 = dpi / mm_per_inch;
    let mut canvas_width_mm = width_mm;
    let mut canvas_height_mm = height_mm;
    let is_image_landscape = img_width > img_height;
    let is_canvas_landscape = canvas_width_mm > canvas_height_mm;
    if is_image_landscape != is_canvas_landscape {
        std::mem::swap(&mut canvas_width_mm, &mut canvas_height_mm);
    }
    (
        (canvas_width_mm * pixels_per_mm).round() as u32,
        (canvas_height_mm * pixels_per_mm).round() as u32,
    )
}

#[test]
fn test_generate_gem_art_fit_option() {
    let colors = vec![color("1", "FF0000", 255, 0, 0), color("2", "00FF00", 0, 255, 0)];
    let margin_mm = 0.0;

    let mut landscape_img = DynamicImage::new_rgba8(100, 50);
    landscape_img.put_pixel(0, 0, Rgba([255, 0, 0, 255]));
    let landscape_img_data_url = data_url_of(&landscape_img);

    let (gem_image_url, _) = generate_gem_art(
        &landscape_img_data_url,
        &colors,
        margin_mm,
        &ImageFitOption::Fit,
        Some(210.0),
        Some(297.0),
    )
    .unwrap();
    let generated_img = decoded(&gem_image_url);
    let (a4_width_px_s1, a4_height_px_s1) = final_canvas(210.0, 297.0, 100, 50);
    assert_eq!(generated_img.width(), a4_width_px_s1, "Landscape image final canvas width mismatch");
    assert_eq!(
        generated_img.height(),
        a4_height_px_s1,
        "Landscape image final canvas height mismatch"
    );

    let mut portrait_img = DynamicImage::new_rgba8(50, 100);
    portrait_img.put_pixel(0, 0, Rgba([0, 255, 0, 255]));
    let portrait_img_data_url = data_url_of(&portrait_img);

    let (gem_image_url, _) = generate_gem_art(
        &portrait_img_data_url,
        &colors,
        margin_mm,
        &ImageFitOption::Fit,
        Some(297.0),
        Some(210.0),
    )
    .unwrap();
    let generated_img = decoded(&gem_image_url);
    let (a4_width_px_s2, a4_height_px_s2) = final_canvas(297.0, 210.0, 50, 100);
    assert_eq!(generated_img.width(), a4_width_px_s2, "Portrait image final canvas width mismatch");
    assert_eq!(
        generated_img.height(),
        a4_height_px_s2,
        "Portrait image final canvas height mismatch"
    );
}

#[test]
fn test_generate_gem_art_crop_option() {
    let colors = vec![color("1", "FF0000", 255, 0, 0), color("2", "00FF00", 0, 255, 0)];
    let margin_mm = 0.0;

    let mut landscape_img = DynamicImage::new_rgba8(100, 50);
    landscape_img.put_pixel(0, 0, Rgba([255, 0, 0, 255]));
    let landscape_img_data_url = data_url_of(&landscape_img);

    let (gem_image_url, _) = generate_gem_art(
        &landscape_img_data_url,
        &colors,
        margin_mm,
        &ImageFitOption::Crop,
        Some(210.0),
        Some(297.0),
    )
    .unwrap();
    let generated_img = decoded(&gem_image_url);
    let (a4_width_px_s1, a4_height_px_s1) = final_canvas(210.0, 297.0, 100, 50);
    assert_eq!(generated_img.width(), a4_width_px_s1, "Landscape image crop width mismatch");
    assert_eq!(generated_img.height(), a4_height_px_s1, "Landscape image crop height mismatch");

    let mut portrait_img = DynamicImage::new_rgba8(50, 100);
    portrait_img.put_pixel(0, 0, Rgba([0, 255, 0, 255]));
    let portrait_img_data_url = data_url_of(&portrait_img);

    let (gem_image_url, _) = generate_gem_art(
        &portrait_img_data_url,
        &colors,
        margin_mm,
        &ImageFitOption::Crop,
        Some(297.0),
        Some(210.0),
    )
    .unwrap();
    let generated_img = decoded(&gem_image_url);
    let (a4_width_px_s2, a4_height_px_s2) = final_canvas(297.0, 210.0, 50, 100);
    assert_eq!(generated_img.width(), a4_width_px_s2, "Portrait image crop width mismatch");
    assert_eq!(generated_img.height(), a4_height_px_s2, "Portrait image crop height mismatch");
}

#[test]
fn test_generate_gem_art_margin_application() {
    let colors = vec![color("1", "FF0000", 255, 0, 0)];
    let dpi = 300.0;
    let mm_per_inch = 25.4;
    let pixels_per_mm = dpi / mm_per_inch;
    let gem_size_mm = 2.7;
    let gem_size_px = ((gem_size_mm as f32) * pixels_per_mm).round() as u32;

    let custom_width_mm = Some(100.0);
    let custom_height_mm = Some(100.0);

    let mut img = DynamicImage::new_rgba8(100, 100);
    img.put_pixel(0, 0, Rgba([255, 0, 0, 255]));
    let image_data_url = data_url_of(&img);

    let margin_mm_0 = 0.0;
    let (_, gem_counts_0) = generate_gem_art(
        &image_data_url,
        &colors,
        margin_mm_0,
        &ImageFitOption::Fit,
        custom_width_mm,
        custom_height_mm,
    )
    .unwrap();

    let canvas_width_px_0 = (custom_width_mm.unwrap() * pixels_per_mm as f32).round() as u32;
    let canvas_height_px_0 = (custom_height_mm.unwrap() * pixels_per_mm as f32).round() as u32;
    let printable_width_px_0 =
        canvas_width_px_0 - (2 * (margin_mm_0 * pixels_per_mm as f32).round() as u32);
    let printable_height_px_0 =
        canvas_height_px_0 - (2 * (margin_mm_0 * pixels_per_mm as f32).round() as u32);
    let expected_num_gems_x_0 = printable_width_px_0 / gem_size_px;
    let expected_num_gems_y_0 = printable_height_px_0 / gem_size_px;
    assert_eq!(
        gem_counts_0[0].count,
        expected_num_gems_x_0 * expected_num_gems_y_0,
        "0mm margin: Total gem count mismatch"
    );

    let margin_mm_10 = 10.0;
    let (_, gem_counts_10) = generate_gem_art(
        &image_data_url,
        &colors,
        margin_mm_10,
        &ImageFitOption::Fit,
        custom_width_mm,
        custom_height_mm,
    )
    .unwrap();

    let canvas_width_px_10 = (custom_width_mm.unwrap() * pixels_per_mm as f32).round() as u32;
    let canvas_height_px_10 = (custom_height_mm.unwrap() * pixels_per_mm as f32).round() as u32;
    let margin_px_10 = (margin_mm_10 * pixels_per_mm as f32).round() as u32;
    let printable_width_px_10 = canvas_width_px_10 - (2 * margin_px_10);
    let printable_height_px_10 = canvas_height_px_10 - (2 * margin_px_10);
    let expected_num_gems_x_10 = printable_width_px_10 / gem_size_px;
    let expected_num_gems_y_10 = printable_height_px_10 / gem_size_px;
    assert_eq!(
        gem_counts_10[0].count,
        expected_num_gems_x_10 * expected_num_gems_y_10,
        "10mm margin: Total gem count mismatch"
    );

    assert!(
        gem_counts_10[0].count < gem_counts_0[0].count,
        "Gem count with margin should be less than without margin"
    );
}

#[test]
fn test_generate_gem_art_edge_cases() {
    let colors = vec![color("1", "FF0000", 255, 0, 0)];
    let margin_mm = 0.0;
    let fit_option = ImageFitOption::Fit;

    let mut small_img = DynamicImage::new_rgba8(1, 1);
    small_img.put_pixel(0, 0, Rgba([255, 0, 0, 255]));
    let small_image_data_url = data_url_of(&small_img);

    let result = generate_gem_art(
        &small_image_data_url,
        &colors,
        margin_mm,
        &fit_option,
        Some(0.1),
        Some(0.1),
    );
    assert!(result.is_err(), "Should return error for image too small");
    assert!(
        result.unwrap_err().contains("Image dimensions are too small"),
        "Error message should indicate image dimensions are too small"
    );

    let mut normal_img = DynamicImage::new_rgba8(100, 100);
    normal_img.put_pixel(0, 0, Rgba([255, 0, 0, 255]));
    let normal_image_data_url = data_url_of(&normal_img);

    let result = generate_gem_art(
        &normal_image_data_url,
        &colors,
        100.0,
        &fit_option,
        Some(10.0),
        Some(10.0),
    );
    assert!(result.is_err(), "Should return error for margins too large");
    assert!(
        result.unwrap_err().contains("Image dimensions are too small"),
        "Error message should indicate image dimensions are too small"
    );
}

#[test]
fn empty_selection_gives_empty_palette() {
    let mut img = DynamicImage::new_rgba8(4, 4);
    img.put_pixel(0, 0, Rgba([255, 0, 0, 255]));
    let result =
        generate_gem_art(&data_url_of(&img), &Vec::new(), 0.0, &ImageFitOption::Fit, None, None);
    assert_eq!(result.unwrap_err(), PatternError::EmptyPalette.message());
}

#[test]
fn text_without_comma_is_invalid_image_data() {
    let spec = LayoutSpec::new(0, ImageFitOption::Fit, None, None);
    assert_eq!(sample_image("no comma here", &spec).unwrap_err(), PatternError::InvalidImageData);
}

#[test]
fn base64_of_no_image_is_invalid_image_data() {
    let spec = LayoutSpec::new(0, ImageFitOption::Fit, None, None);
    let text = format!("data:image/png;base64,{}", general_purpose::STANDARD.encode(b"not an image"));
    assert_eq!(sample_image(&text, &spec).unwrap_err(), PatternError::InvalidImageData);
}

#[test]
fn payload_ends_at_second_comma() {
    let mut img = DynamicImage::new_rgba8(2, 2);
    img.put_pixel(0, 0, Rgba([255, 0, 0, 255]));
    let url = format!("{},trailing", data_url_of(&img));
    let spec = LayoutSpec::new(0, ImageFitOption::Fit, Some(10_000), Some(10_000));
    let sampled = sample_image(&url, &spec).unwrap();
    assert_eq!((sampled.plan.cols, sampled.plan.rows), (3, 3));
}

#[test]
fn samples_are_one_pixel_for_each_cell() {
    let mut img = DynamicImage::new_rgba8(100, 50);
    for x in 0..100 {
        for y in 0..50 {
            img.put_pixel(x, y, Rgba([10, 200, 30, 255]));
        }
    }
    let spec = LayoutSpec::new(0, ImageFitOption::Fit, None, None);
    let sampled = sample_image(&data_url_of(&img), &spec).unwrap();
    assert_eq!((sampled.plan.cols, sampled.plan.rows), (109, 54));
    assert_eq!((sampled.cells.width, sampled.cells.height), (109, 54));
    assert_eq!(sampled.cells.pixels.len(), 4 * 109 * 54);
    let colors = sampled.cell_colors();
    assert_eq!(colors.len(), 109 * 54);
    assert!(colors.iter().all(|c| (c.r, c.g, c.b, c.a) == (10, 200, 30, 255)));
}

#[test]
fn cell_colors_follow_columns() {
    // Left half red, right half blue: the first columns' cells are red.
    let mut img = DynamicImage::new_rgba8(64, 32);
    for x in 0..64 {
        for y in 0..32 {
            let c = if x < 32 { Rgba([255, 0, 0, 255]) } else { Rgba([0, 0, 255, 255]) };
            img.put_pixel(x, y, c);
        }
    }
    let spec = LayoutSpec::new(0, ImageFitOption::Fit, Some(20_000), Some(10_000));
    let sampled = sample_image(&data_url_of(&img), &spec).unwrap();
    assert_eq!((sampled.plan.page_width_px, sampled.plan.page_height_px), (236, 118));
    assert_eq!((sampled.plan.cols, sampled.plan.rows), (7, 3));
    let colors = sampled.cell_colors();
    assert_eq!(colors.len(), 21);
    for gy in 0..3 {
        assert_eq!(colors[gy].r, 255);
        assert_eq!(colors[6 * 3 + gy].b, 255);
        assert_eq!(colors[6 * 3 + gy].r, 0);
    }
}

#[test]
fn crop_keeps_the_middle_of_the_image() {
    // Thirds in red, green and blue on a square page: cropping keeps the green.
    let mut img = DynamicImage::new_rgba8(300, 100);
    for x in 0..300 {
        for y in 0..100 {
            let c = if x < 100 {
                Rgba([255, 0, 0, 255])
            } else if x < 200 {
                Rgba([0, 255, 0, 255])
            } else {
                Rgba([0, 0, 255, 255])
            };
            img.put_pixel(x, y, c);
        }
    }
    let colors = vec![
        color("1", "FF0000", 255, 0, 0),
        color("2", "00FF00", 0, 255, 0),
        color("3", "0000FF", 0, 0, 255),
    ];
    let (_, counts) = generate_gem_art(
        &data_url_of(&img),
        &colors,
        0.0,
        &ImageFitOption::Crop,
        Some(30.0),
        Some(30.0),
    )
    .unwrap();
    assert_eq!(counts.len(), 1);
    assert_eq!(counts[0].floss, "2");
    assert_eq!(counts[0].count, 11 * 11);

    let (_, fitted) = generate_gem_art(
        &data_url_of(&img),
        &colors,
        0.0,
        &ImageFitOption::Fit,
        Some(30.0),
        Some(30.0),
    )
    .unwrap();
    assert_eq!(fitted.len(), 3);
}

#[test]
fn counts_add_up_to_the_cells() {
    let mut img = DynamicImage::new_rgba8(40, 30);
    for x in 0..40 {
        for y in 0..30 {
            let v = ((x * 7 + y * 13) % 256) as u8;
            img.put_pixel(x, y, Rgba([v, 255 - v, (x * 5) as u8, 255]));
        }
    }
    let colors = vec![
        color("310", "000000", 0, 0, 0),
        color("B5200", "FFFFFF", 255, 255, 255),
        color("666", "FF0000", 255, 0, 0),
        color("700", "00FF00", 0, 255, 0),
    ];
    let (_, counts) = generate_gem_art(
        &data_url_of(&img),
        &colors,
        5.0,
        &ImageFitOption::Fit,
        Some(80.0),
        Some(60.0),
    )
    .unwrap();
    let total: u32 = counts.iter().map(|c| c.count).sum();
    // 80 mm by 60 mm less 5 mm on each side: 827 by 591 pixels; the image
    // fits by height at 788 by 591 pixels, 24 by 18 cells.
    assert_eq!(total, 24 * 18);
    for pair in counts.windows(2) {
        assert!(pair[0].count >= pair[1].count);
    }
}

#[test]
fn same_inputs_same_outputs() {
    let mut img = DynamicImage::new_rgba8(30, 30);
    for x in 0..30 {
        for y in 0..30 {
            img.put_pixel(x, y, Rgba([(x * 8) as u8, (y * 8) as u8, 100, 255]));
        }
    }
    let colors = vec![
        color("1", "FF0000", 255, 0, 0),
        color("2", "00FF00", 0, 255, 0),
        color("3", "0000FF", 0, 0, 255),
    ];
    let url = data_url_of(&img);
    let first =
        generate_gem_art(&url, &colors, 2.0, &ImageFitOption::Crop, Some(40.0), Some(50.0)).unwrap();
    let second =
        generate_gem_art(&url, &colors, 2.0, &ImageFitOption::Crop, Some(40.0), Some(50.0)).unwrap();
    assert_eq!(first.0, second.0);
    assert_eq!(first.1, second.1);
}

#[test]
fn data_uri_holds_the_raster_as_png() {
    let page = gem_art::raster::Raster::filled(
        5,
        3,
        gem_art::raster::Rgba { r: 1, g: 2, b: 3, a: 255 },
    );
    let uri = encode_data_uri(&page).unwrap();
    assert!(uri.starts_with("data:image/png;base64,"));
    let img = decoded(&uri).into_rgba8();
    assert_eq!((img.width(), img.height()), (5, 3));
    assert_eq!(img.into_raw(), page.pixels);
}

#[test]
fn raster_without_pixels_cannot_be_encoded() {
    let page = gem_art::raster::Raster { width: 0, height: 0, pixels: Vec::new() };
    assert_eq!(encode_data_uri(&page).unwrap_err(), PatternError::EncodingFailed);
}

#[test]
fn pattern_holds_samples_grid_and_legend() {
    // Left half red, right half blue, on a page of seven by three cells.
    let mut img = DynamicImage::new_rgba8(64, 32);
    for x in 0..64 {
        for y in 0..32 {
            let c = if x < 32 { Rgba([250, 5, 5, 255]) } else { Rgba([5, 5, 250, 255]) };
            img.put_pixel(x, y, c);
        }
    }
    let colors = vec![color("Blue", "0000FF", 0, 0, 255), color("Red", "FF0000", 255, 0, 0)];
    let palette = PaletteIndex::new(reference_colors(&colors)).unwrap();
    let spec = LayoutSpec::new(0, ImageFitOption::Fit, Some(20_000), Some(10_000));
    let pattern =
        plan_and_quantize(&data_url_of(&img), &palette, &spec, |c| lab_of(c.r, c.g, c.b)).unwrap();
    assert_eq!((pattern.grid.cols, pattern.grid.rows), (7, 3));
    assert_eq!(pattern.samples.len(), 21);
    assert_eq!(pattern.samples[0], lab_of(250, 5, 5));
    assert_eq!(pattern.samples[20], lab_of(5, 5, 250));
    let reds = pattern.grid.cells.iter().filter(|c| **c == 1).count();
    let blues = pattern.grid.cells.iter().filter(|c| **c == 0).count();
    assert_eq!(reds + blues, 21);
    assert_eq!(pattern.grid.cells[0], 1);
    assert_eq!(pattern.grid.cells[20], 0);
    assert_eq!(pattern.legend.counts, count_usage(&pattern.grid, &palette));
    assert_eq!(pattern.legend.counts.iter().map(|c| c.count).sum::<u32>(), 21);
    assert_eq!(pattern.legend.counts[0].count as usize, reds.max(blues));
    assert_eq!(pattern.legend.labels, vec!["A", "B"]);
}

#[test]
fn pattern_fails_as_sampling_does() {
    let palette =
        PaletteIndex::new(reference_colors(&vec![color("1", "000000", 0, 0, 0)])).unwrap();
    let spec = LayoutSpec::new(0, ImageFitOption::Fit, None, None);
    let result = plan_and_quantize("no comma", &palette, &spec, |c| lab_of(c.r, c.g, c.b));
    assert_eq!(result.err(), Some(PatternError::InvalidImageData));
    let mut img = DynamicImage::new_rgba8(5, 5);
    img.put_pixel(0, 0, Rgba([0, 0, 0, 255]));
    let spec = LayoutSpec::new(200_000, ImageFitOption::Fit, None, None);
    let result =
        plan_and_quantize(&data_url_of(&img), &palette, &spec, |c| lab_of(c.r, c.g, c.b));
    assert_eq!(result.err(), Some(PatternError::MarginsTooLarge));
    let spec = LayoutSpec::new(0, ImageFitOption::Fit, Some(1_000), Some(1_000));
    let result =
        plan_and_quantize(&data_url_of(&img), &palette, &spec, |c| lab_of(c.r, c.g, c.b));
    assert_eq!(result.err(), Some(PatternError::GridTooSmall));
}

#[test]
fn image_past_the_memory_budget_is_too_large() {
    // Cropped onto A4, a strip of 2000 by 1 would be scaled to 4960000 by 2480.
    let mut img = DynamicImage::new_rgba8(2_000, 1);
    img.put_pixel(0, 0, Rgba([255, 0, 0, 255]));
    let url = data_url_of(&img);
    let crop = LayoutSpec::new(0, ImageFitOption::Crop, None, None);
    assert_eq!(sample_image(&url, &crop).unwrap_err(), PatternError::ImageTooLarge);
    // Fitted, the same strip is lower than one cell.
    let fit = LayoutSpec::new(0, ImageFitOption::Fit, None, None);
    assert_eq!(sample_image(&url, &fit).unwrap_err(), PatternError::GridTooSmall);
}

#[test]
fn stages_fail_in_their_order() {
    let reference = reference_colors(&vec![color("310", "000000", 0, 0, 0)]);
    let spec = LayoutSpec::new(200_000, ImageFitOption::Fit, None, None);
    let run = |data: &str, selected: &Vec<Color>, spec: &LayoutSpec| {
        gem_art::image_processing::generate_gem_art(data, selected, &reference, spec, |c| {
            lab_of(c.r, c.g, c.b)
        })
        .map(|art| (art.page.width, art.page.height, art.palette.len()))
    };
    // No colour selected: the palette fails before the image is looked at.
    assert_eq!(run("no comma", &Vec::new(), &spec), Err(PatternError::EmptyPalette));
    assert_eq!(
        run("no comma", &vec![color("311", "000000", 0, 0, 0)], &spec),
        Err(PatternError::EmptyPalette)
    );
    // The image fails before the layout.
    let selected = vec![color(" 310 ", "000000", 0, 0, 0)];
    assert_eq!(run("no comma", &selected, &spec), Err(PatternError::InvalidImageData));
    let mut img = DynamicImage::new_rgba8(8, 8);
    img.put_pixel(0, 0, Rgba([0, 0, 0, 255]));
    let url = data_url_of(&img);
    assert_eq!(run(&url, &selected, &spec), Err(PatternError::MarginsTooLarge));
    // A page of two metres can be laid out but not painted.
    let wide = LayoutSpec::new(0, ImageFitOption::Fit, Some(2_000_000), Some(2_000_000));
    assert_eq!(run(&url, &selected, &wide), Err(PatternError::ImageTooLarge));
    let fine = LayoutSpec::new(0, ImageFitOption::Fit, Some(20_000), Some(20_000));
    assert_eq!(run(&url, &selected, &fine), Ok((236, 236, 1)));
}

#[test]
fn samples_are_those_of_scaling_cutting_and_resampling() {
    let mut img = DynamicImage::new_rgba8(37, 23);
    for x in 0..37 {
        for y in 0..23 {
            img.put_pixel(x, y, Rgba([(x * 6) as u8, (y * 11) as u8, ((x + y) * 4) as u8, 255]));
        }
    }
    for fit in [ImageFitOption::Fit, ImageFitOption::Crop] {
        let spec = LayoutSpec::new(3_000, fit, Some(90_000), Some(70_000));
        let sampled = sample_image(&data_url_of(&img), &spec).unwrap();
        let plan = sampled.plan;
        let scaled = img.resize_exact(
            plan.scaled_width_px as u32,
            plan.scaled_height_px as u32,
            image::imageops::FilterType::Nearest,
        );
        let framed = scaled.crop_imm(
            plan.crop_x as u32,
            plan.crop_y as u32,
            plan.final_width_px,
            plan.final_height_px,
        );
        let cells = framed.resize_exact(plan.cols, plan.rows, image::imageops::FilterType::Nearest);
        assert_eq!((plan.cols, plan.rows), (cells.width(), cells.height()));
        assert_eq!(sampled.cells.pixels, cells.into_rgba8().into_raw());
        assert!(sampled.cells.pixels.chunks(4).any(|p| p[0] != sampled.cells.pixels[0]));
    }
}
