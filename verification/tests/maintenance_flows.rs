use chapterhub::maintenance::chapter_delete_outcome;
use chapterhub::maintenance::chapters_to_reset;
use chapterhub::maintenance::count_successes;
use chapterhub::maintenance::downloads_to_delete;
use chapterhub::maintenance::string_is_blank;
use chapterhub::maintenance::validate_manga_reference;
use chapterhub::model::ChapterId;
use chapterhub::model::ChapterState;
use chapterhub::model::MangaId;

fn chapter(n: &str) -> ChapterId {
    ChapterId::from_strings("s1".to_string(), "m1".to_string(), n.to_string())
}

#[test]
fn blankness_means_nothing_but_whitespace() {
    assert!(string_is_blank(""));
    assert!(string_is_blank("   \t\n"));
    assert!(!string_is_blank(" a "));
}

#[test]
fn manga_reference_needs_both_names() {
    assert!(validate_manga_reference(&MangaId::from_strings(
        "s1".to_string(),
        "m1".to_string()
    )));
    assert!(!validate_manga_reference(&MangaId::from_strings(
        "  ".to_string(),
        "m1".to_string()
    )));
    assert!(!validate_manga_reference(&MangaId::from_strings(
        "s1".to_string(),
        "".to_string()
    )));
}

#[test]
fn only_read_known_chapters_are_reset() {
    let entries = vec![
        (chapter("1"), Some(ChapterState { read: true })),
        (chapter("2"), Some(ChapterState { read: false })),
        (chapter("3"), None),
        (chapter("4"), Some(ChapterState { read: true })),
    ];
    let picked = chapters_to_reset(&entries);
    assert_eq!(picked, vec![chapter("1"), chapter("4")]);
}

#[test]
fn nothing_is_reset_without_chapters() {
    let picked = chapters_to_reset(&Vec::new());
    assert!(picked.is_empty());
}

#[test]
fn only_stored_downloads_are_deleted() {
    let chapters = vec![
        (chapter("1"), true),
        (chapter("2"), false),
        (chapter("3"), true),
    ];
    let picked = downloads_to_delete(&chapters);
    assert_eq!(picked, vec![chapter("1"), chapter("3")]);
}

#[test]
fn successes_are_counted_failures_skipped() {
    assert_eq!(count_successes(&vec![true, false, true, true]), 3);
    assert_eq!(count_successes(&Vec::new()), 0);
}

#[test]
fn deleting_an_unstored_chapter_deletes_nothing() {
    assert_eq!(chapter_delete_outcome(None), Ok(false));
}

#[test]
fn deleting_a_stored_chapter_reports_the_attempt() {
    assert_eq!(chapter_delete_outcome(Some(Ok(()))), Ok(true));
    assert_eq!(
        chapter_delete_outcome(Some(Err("disk gone".to_string()))),
        Err("disk gone".to_string())
    );
}
