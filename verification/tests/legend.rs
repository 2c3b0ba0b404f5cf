use gem_art::grid::GemGrid;
use gem_art::ident::{id_precedes, number_value, text_precedes};
use gem_art::legend::{build_legend, color_ranks, count_usage, legend_labels, usage_order};
use gem_art::models::{DmcColorPrecomputed, GemCount};
use gem_art::palette_index::PaletteIndex;

fn entry(floss: &str, hex: &str) -> DmcColorPrecomputed {
    DmcColorPrecomputed {
        floss: floss.to_string(),
        dmc_name: String::new(),
        r: 0,
        g: 0,
        b: 0,
        hex: hex.to_string(),
        lab_l: 0,
        lab_a: 0,
        lab_b: 0,
        blended_r: 0,
        blended_g: 0,
        blended_b: 0,
    }
}

fn palette(ids: &[&str]) -> PaletteIndex {
    PaletteIndex::new(ids.iter().map(|id| entry(id, &format!("{:0>6}", id.trim()))).collect())
        .unwrap()
}

fn grid(cols: u32, rows: u32, cells: Vec<usize>) -> GemGrid {
    assert_eq!(cells.len(), (cols * rows) as usize);
    GemGrid { cols, rows, cells }
}

fn count(floss: &str, count: u32, hex: &str) -> GemCount {
    GemCount { floss: floss.to_string(), count, hex: hex.to_string() }
}

#[test]
fn numbers_are_read_up_to_eighteen_digits() {
    assert_eq!(number_value("0"), Some(0));
    assert_eq!(number_value("310"), Some(310));
    assert_eq!(number_value("007"), Some(7));
    assert_eq!(number_value("999999999999999999"), Some(999_999_999_999_999_999));
    assert_eq!(number_value("1000000000000000000"), None);
    assert_eq!(number_value(""), None);
    assert_eq!(number_value("B5200"), None);
    assert_eq!(number_value("12 "), None);
    assert_eq!(number_value("-1"), None);
    assert_eq!(number_value("\u{663}"), None);
}

#[test]
fn text_goes_by_the_dictionary() {
    assert!(text_precedes("", "a"));
    assert!(!text_precedes("a", ""));
    assert!(!text_precedes("", ""));
    assert!(text_precedes("a", "b"));
    assert!(text_precedes("ab", "b"));
    assert!(text_precedes("a", "ab"));
    assert!(!text_precedes("ab", "a"));
    assert!(!text_precedes("abc", "abc"));
    assert!(text_precedes("B", "a"));
    assert!(text_precedes("z", "\u{e9}"));
    for (a, b) in [("x", "y"), ("10", "9"), ("", "0"), ("Ecru", "White"), ("a\u{300}", "b")] {
        assert_eq!(text_precedes(a, b), a < b);
        assert_eq!(text_precedes(b, a), b < a);
    }
}

#[test]
fn identifiers_go_by_number_then_by_text() {
    assert!(id_precedes("9", "10"));
    assert!(!id_precedes("10", "9"));
    assert!(id_precedes("310", "3865"));
    assert!(id_precedes("07", "7"));
    assert!(!id_precedes("7", "07"));
    assert!(id_precedes("3865", "B5200"));
    assert!(!id_precedes("B5200", "3865"));
    assert!(id_precedes("9", "1a"));
    assert!(id_precedes("B5200", "Ecru"));
    assert!(id_precedes("Ecru", "White"));
    assert!(!id_precedes("310", "310"));
    assert!(!id_precedes("Ecru", "Ecru"));
}

#[test]
fn identifier_order_is_a_strict_total_order() {
    let ids = ["", "0", "00", "7", "07", "9", "10", "310", "1a", "B5200", "Ecru", "a", "ab", " 3"];
    for a in ids {
        assert!(!id_precedes(a, a));
        for b in ids {
            if a != b {
                assert!(id_precedes(a, b) != id_precedes(b, a));
            }
            for c in ids {
                if id_precedes(a, b) && id_precedes(b, c) {
                    assert!(id_precedes(a, c));
                }
            }
        }
    }
}

#[test]
fn usage_is_listed_by_falling_count() {
    let palette = palette(&["310", "666", "700"]);
    let grid = grid(3, 2, vec![1, 2, 2, 2, 0, 1]);
    let counts = count_usage(&grid, &palette);
    assert_eq!(
        counts,
        vec![count("700", 3, "000700"), count("666", 2, "000666"), count("310", 1, "000310")]
    );
}

#[test]
fn equal_counts_are_listed_by_identifier() {
    let palette = palette(&["Ecru", "10", "B5200", "9", "White", "310"]);
    let grid = grid(6, 2, vec![0, 0, 1, 1, 2, 2, 3, 3, 4, 4, 5, 5]);
    let counts = count_usage(&grid, &palette);
    let ids: Vec<&str> = counts.iter().map(|c| c.floss.as_str()).collect();
    assert_eq!(ids, vec!["9", "10", "310", "B5200", "Ecru", "White"]);
    assert!(counts.iter().all(|c| c.count == 2));
}

#[test]
fn count_comes_before_identifier() {
    let palette = palette(&["1", "2", "3"]);
    let grid = grid(1, 6, vec![2, 2, 2, 1, 1, 0]);
    let ids: Vec<String> = count_usage(&grid, &palette).into_iter().map(|c| c.floss).collect();
    assert_eq!(ids, vec!["3", "2", "1"]);
}

#[test]
fn unused_colours_are_left_out() {
    let palette = palette(&["1", "2", "3", "4"]);
    let grid = grid(2, 2, vec![3, 3, 1, 3]);
    let counts = count_usage(&grid, &palette);
    assert_eq!(counts, vec![count("4", 3, "000004"), count("2", 1, "000002")]);
}

#[test]
fn counts_add_up_to_the_number_of_cells() {
    let palette = palette(&["1", "2", "3", "4", "5"]);
    let cells: Vec<usize> = (0..35 * 20).map(|k| (k * k + 3 * k) % 5).collect();
    let grid = grid(35, 20, cells);
    let counts = count_usage(&grid, &palette);
    assert_eq!(counts.iter().map(|c| c.count).sum::<u32>(), 35 * 20);
}

#[test]
fn one_colour_has_all_the_cells() {
    let palette = PaletteIndex::new(vec![entry("666", "FF0000")]).unwrap();
    let grid = grid(4, 3, vec![0; 12]);
    assert_eq!(count_usage(&grid, &palette), vec![count("666", 12, "FF0000")]);
}

#[test]
fn order_and_tallies_are_handed_out() {
    let palette = palette(&["310", "666", "700"]);
    let (order, tallies) = usage_order(&vec![1, 2, 2, 2, 1, 1, 1], &palette);
    assert_eq!(order, vec![1, 2]);
    assert_eq!(tallies, vec![0, 4, 3]);
    let (order, tallies) = usage_order(&Vec::new(), &palette);
    assert!(order.is_empty());
    assert_eq!(tallies, vec![0, 0, 0]);
}

#[test]
fn labels_follow_the_ranks() {
    assert_eq!(legend_labels(0), Vec::<String>::new());
    assert_eq!(legend_labels(3), vec!["A", "B", "C"]);
    let labels = legend_labels(28);
    assert_eq!(labels[25], "Z");
    assert_eq!(labels[26], "AA");
    assert_eq!(labels[27], "AB");
}

#[test]
fn rank_table_counts_from_one() {
    assert_eq!(color_ranks(&vec![2, 0, 3], 5), vec![2, 0, 1, 3, 0]);
    assert_eq!(color_ranks(&Vec::new(), 2), vec![0, 0]);
}

#[test]
fn legend_gives_every_cell_its_label() {
    let palette = palette(&["310", "666", "700"]);
    let grid = grid(3, 2, vec![1, 2, 2, 2, 0, 1]);
    let legend = build_legend(&grid, &palette);
    assert_eq!(legend.order, vec![2, 1, 0]);
    assert_eq!(legend.ranks, vec![3, 2, 1]);
    assert_eq!(legend.labels, vec!["A", "B", "C"]);
    assert_eq!(legend.counts, count_usage(&grid, &palette));
    assert_eq!(legend.label_of_color(2), "A");
    assert_eq!(legend.label_of_color(1), "B");
    assert_eq!(legend.label_of_color(0), "C");
    for gx in 0..3 {
        for gy in 0..2 {
            let color = grid.cell(gx, gy);
            let label = legend.label_of_color(color);
            let rank = legend.ranks[color];
            assert_eq!(legend.counts[rank - 1].floss, palette.color(color).floss);
            assert_eq!(*label, legend.labels[rank - 1]);
        }
    }
}

#[test]
fn legend_is_the_same_each_time() {
    let palette = palette(&["5", "4", "3", "2", "1"]);
    let cells: Vec<usize> = (0..600).map(|k| (k * 7 + k / 5) % 5).collect();
    let grid = grid(30, 20, cells);
    let first = build_legend(&grid, &palette);
    let second = build_legend(&grid, &palette);
    assert_eq!(first.order, second.order);
    assert_eq!(first.counts, second.counts);
    assert_eq!(first.labels, second.labels);
}
