use chapterhub::model::ChapterId;
use chapterhub::model::ChapterState;
use chapterhub::model::DecimalNumber;
use chapterhub::model::MangaId;
use chapterhub::model::MangaInformation;
use chapterhub::model::SourceId;
use chapterhub::model::SourceInformation;
use chapterhub::presentation;

#[test]
fn source_id_holds_its_value() {
    let id = SourceId::new("mangadex".to_string());
    assert_eq!(id.value(), "mangadex");
}

#[test]
fn manga_id_scopes_to_its_source() {
    let id = MangaId::new(SourceId::new("s1".to_string()), "m1".to_string());
    assert_eq!(id.source_id().value(), "s1");
    assert_eq!(id.value(), "m1");
    let same = MangaId::from_strings("s1".to_string(), "m1".to_string());
    assert_eq!(id, same);
    let other_source = MangaId::from_strings("s2".to_string(), "m1".to_string());
    assert_ne!(id, other_source);
}

#[test]
fn chapter_id_exposes_its_parts() {
    let id = ChapterId::from_strings("s1".to_string(), "m1".to_string(), "c1".to_string());
    assert_eq!(id.source_id().value(), "s1");
    assert_eq!(id.manga_id().value(), "m1");
    assert_eq!(id.value(), "c1");
    let built = ChapterId::new(
        MangaId::from_strings("s1".to_string(), "m1".to_string()),
        "c1".to_string(),
    );
    assert_eq!(id, built);
    assert_eq!(id.duplicate(), id);
}

#[test]
fn decimal_number_accepts_exactly_the_range() {
    let n = DecimalNumber::new(35, 1).expect("3.5 fits");
    assert_eq!(n.mantissa(), 35);
    assert_eq!(n.scale(), 1);
    assert!(DecimalNumber::new(35, 29).is_none());
    assert!(DecimalNumber::new(i128::MAX, 0).is_none());
    assert!(DecimalNumber::new(i128::MIN, 0).is_none());
}

#[test]
fn chapter_state_defaults_to_unread() {
    let state = ChapterState::default();
    assert!(!state.read);
}

#[test]
fn manga_title_copies_the_title() {
    let info = MangaInformation {
        id: MangaId::from_strings("s1".to_string(), "m1".to_string()),
        title: Some("Solanin".to_string()),
        author: None,
        artist: None,
        cover_url: None,
    };
    assert_eq!(info.manga_title(), Some("Solanin".to_string()));
    let untitled = MangaInformation { title: None, ..info };
    assert_eq!(untitled.manga_title(), None);
}

#[test]
fn presentation_flattens_source_information() {
    let flat = presentation::SourceInformation::from(SourceInformation {
        id: SourceId::new("s1".to_string()),
        name: "Demo source".to_string(),
        version: 3,
    });
    assert_eq!(flat.id, "s1");
    assert_eq!(flat.name, "Demo source");
    assert_eq!(flat.version, 3);
}
