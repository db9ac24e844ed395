use chapterhub::model::ChapterId;

fn key_of(chapter: &str) -> String {
    let id = ChapterId::from_strings("src".to_string(), "manga".to_string(), chapter.to_string());
    id.chapter_number()
}

#[test]
fn integer_tail_pads_to_five() {
    assert_eq!(key_of("7"), "00007");
    assert_eq!(key_of("42"), "00042");
}

#[test]
fn integer_tail_drops_leading_zeros_before_padding() {
    assert_eq!(key_of("007"), "00007");
    assert_eq!(key_of("0"), "00000");
}

#[test]
fn integer_tail_wider_than_padding_is_kept() {
    assert_eq!(key_of("123456"), "123456");
}

#[test]
fn fractional_tail_keeps_one_digit() {
    assert_eq!(key_of("3.5"), "00003.5");
}

#[test]
fn fractional_tail_truncates_not_rounds() {
    assert_eq!(key_of("3.57"), "00003.5");
    assert_eq!(key_of("3.99"), "00003.9");
}

#[test]
fn zero_fraction_renders_as_integer() {
    assert_eq!(key_of("3.0"), "00003");
    assert_eq!(key_of("3."), "00003");
}

#[test]
fn small_nonzero_fraction_keeps_its_first_digit() {
    assert_eq!(key_of("3.05"), "00003.0");
}

#[test]
fn composite_tail_renders_per_part() {
    assert_eq!(key_of("chapter-3-5"), "00003-00005");
    assert_eq!(key_of("3-5"), "00003-00005");
    assert_eq!(key_of("1-2-3"), "00001-00002-00003");
}

#[test]
fn non_numeric_tail_passes_through() {
    assert_eq!(key_of("extra"), "extra");
    assert_eq!(key_of("chapter-extra"), "extra");
}

#[test]
fn trailing_separator_is_ignored() {
    assert_eq!(key_of("series/12/"), key_of("series/12"));
    assert_eq!(key_of("series/12"), "00012");
}

#[test]
fn only_the_final_path_segment_counts() {
    assert_eq!(key_of("volume-12/chapter-3.5"), "00003.5");
    assert_eq!(key_of("a/b/9"), "00009");
}

#[test]
fn empty_identifier_keys_empty() {
    assert_eq!(key_of(""), "");
    assert_eq!(key_of("/"), "");
}

#[test]
fn numeric_keys_sort_like_numbers() {
    let mut keys = vec![key_of("10"), key_of("2"), key_of("3.5"), key_of("3")];
    keys.sort();
    assert_eq!(keys, vec!["00002", "00003", "00003.5", "00010"]);
}

#[test]
fn manga_name_takes_final_segment() {
    let id = ChapterId::from_strings(
        "src".to_string(),
        "catalog/series/solanin/".to_string(),
        "7".to_string(),
    );
    assert_eq!(id.manga_name(), "solanin");
    let plain = ChapterId::from_strings("src".to_string(), "solanin".to_string(), "7".to_string());
    assert_eq!(plain.manga_name(), "solanin");
}
