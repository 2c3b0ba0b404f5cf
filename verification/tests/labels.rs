use gem_art::utils::{expand_shorthand_hex, to_excel_column};

#[test]
fn test_to_excel_column() {
    assert_eq!(to_excel_column(1), "A");
    assert_eq!(to_excel_column(26), "Z");
    assert_eq!(to_excel_column(27), "AA");
    assert_eq!(to_excel_column(702), "ZZ");
    assert_eq!(to_excel_column(703), "AAA");
}

#[test]
fn labels_around_the_boundaries() {
    assert_eq!(to_excel_column(0), "");
    assert_eq!(to_excel_column(2), "B");
    assert_eq!(to_excel_column(52), "AZ");
    assert_eq!(to_excel_column(53), "BA");
    assert_eq!(to_excel_column(18_278), "ZZZ");
    assert_eq!(to_excel_column(18_279), "AAAA");
}

#[test]
fn labels_are_distinct_and_never_get_shorter() {
    let labels: Vec<String> = (0..20_000).map(to_excel_column).collect();
    for pair in labels.windows(2) {
        assert!(pair[0].len() <= pair[1].len());
        assert_ne!(pair[0], pair[1]);
    }
    let mut sorted = labels.clone();
    sorted.sort();
    sorted.dedup();
    assert_eq!(sorted.len(), labels.len());
    assert!(labels.iter().all(|l| l.chars().all(|c| ('A'..='Z').contains(&c))));
}

#[test]
fn label_length_steps_at_26_702_and_18278() {
    for (rank, len) in [(1, 1), (26, 1), (27, 2), (702, 2), (703, 3), (18_278, 3), (18_279, 4)] {
        assert_eq!(to_excel_column(rank).len(), len);
    }
}

#[test]
fn rank_can_be_read_back_from_its_label() {
    for rank in 0..5_000usize {
        let label = to_excel_column(rank);
        let back = label.chars().fold(0usize, |n, c| n * 26 + (c as usize - 'A' as usize) + 1);
        assert_eq!(back, rank);
    }
}

#[test]
fn shorthand_hex_is_doubled() {
    assert_eq!(expand_shorthand_hex("#fa0"), "ffaa00");
    assert_eq!(expand_shorthand_hex("fa0"), "ffaa00");
    assert_eq!(expand_shorthand_hex("##abc"), "aabbcc");
    assert_eq!(expand_shorthand_hex("#FFF"), "FFFFFF");
}

#[test]
fn other_hex_text_only_loses_its_hashes() {
    assert_eq!(expand_shorthand_hex("#ffaa00"), "ffaa00");
    assert_eq!(expand_shorthand_hex("ffaa00"), "ffaa00");
    assert_eq!(expand_shorthand_hex(""), "");
    assert_eq!(expand_shorthand_hex("#"), "");
    assert_eq!(expand_shorthand_hex("###"), "");
    assert_eq!(expand_shorthand_hex("ab"), "ab");
    assert_eq!(expand_shorthand_hex("#12345"), "12345");
    assert_eq!(expand_shorthand_hex("ab#"), "aabb##");
}

#[test]
fn shorthand_is_three_bytes_of_text() {
    // Two characters in three bytes are doubled; three characters in four are not.
    assert_eq!(expand_shorthand_hex("\u{e9}1"), "\u{e9}\u{e9}11");
    assert_eq!(expand_shorthand_hex("a\u{e9}b"), "a\u{e9}b");
}
