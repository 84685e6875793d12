use biblio_json::modules::bible::{BibleConfig, BibleModule, BibleSource, SourceError, Verse};
use biblio_json::ref_id::RefId;

fn verses(ids: &[&str]) -> (Vec<Verse>, Vec<usize>) {
    let v = ids
        .iter()
        .map(|s| Verse { id: RefId::parse(s).unwrap(), words: vec![] })
        .collect();
    (v, (0..ids.len()).collect())
}

fn names() -> Vec<(String, String)> {
    vec![
        ("Gen".to_string(), "Genesis".to_string()),
        ("Exo".to_string(), "Exodus".to_string()),
    ]
}

#[test]
fn two_books_in_order_validate() {
    let (v, l) = verses(&["Gen.1.1", "Gen.1.2", "Gen.2.1", "Exo.1.1", "Exo.1.2", "Exo.1.3"]);
    let src = BibleSource::from_file(v, &l, &names()).unwrap();
    assert_eq!(src.book_infos.len(), 2);
    assert_eq!(src.book_infos[0].index, 0);
    assert_eq!(src.book_infos[0].osis_id, "Gen");
    assert_eq!(src.book_infos[0].name, "Genesis");
    assert_eq!(src.book_infos[0].chapters, vec![2, 1]);
    assert_eq!(src.book_infos[1].index, 1);
    assert_eq!(src.book_infos[1].name, "Exodus");
    assert_eq!(src.book_infos[1].chapters, vec![3]);
    assert_eq!(src.verses.len(), 6);
    assert_eq!(src.book_info(1).unwrap().osis_id, "Exo");
    assert!(src.book_info(2).is_none());
}

#[test]
fn verses_are_indexed_by_address() {
    let (v, l) = verses(&["Gen.1.1", "Gen.1.2"]);
    let src = BibleSource::from_file(v, &l, &names()).unwrap();
    let id = RefId::parse("Gen.1.2").unwrap();
    assert_eq!(src.get_verse(&id).unwrap().id, id);
    assert!(src.contains(&RefId::parse("Gen.1.1").unwrap()));
    assert!(!src.contains(&RefId::parse("Gen.1.3").unwrap()));
}

#[test]
fn empty_stream_gives_no_books() {
    let src = BibleSource::from_file(vec![], &vec![], &names()).unwrap();
    assert!(src.book_infos.is_empty());
    assert!(src.verses.is_empty());
}

#[test]
fn chapter_gap_is_rejected() {
    let (v, l) = verses(&["Gen.1.1", "Gen.1.2", "Gen.3.1"]);
    let r = BibleSource::from_file(v, &l, &names());
    assert!(matches!(r, Err(SourceError::ChapterOutOfOrder { line: 3 })));
}

#[test]
fn book_recurrence_is_rejected() {
    let (v, l) = verses(&["Gen.1.1", "Exo.1.1", "Gen.1.2"]);
    match BibleSource::from_file(v, &l, &names()) {
        Err(SourceError::BookOutOfOrder { book, line }) => {
            assert_eq!(book, "Gen");
            assert_eq!(line, 3);
        }
        other => panic!("unexpected {:?}", other),
    }
}

#[test]
fn verse_gap_is_rejected() {
    let (v, l) = verses(&["Gen.1.1", "Gen.1.3"]);
    let r = BibleSource::from_file(v, &l, &names());
    assert!(matches!(r, Err(SourceError::VerseOutOfOrder { line: 2 })));
}

#[test]
fn new_chapter_must_start_at_verse_one() {
    let (v, l) = verses(&["Gen.1.1", "Gen.2.2"]);
    let r = BibleSource::from_file(v, &l, &names());
    assert!(matches!(r, Err(SourceError::VerseOutOfOrder { line: 2 })));
}

#[test]
fn book_must_start_at_chapter_one() {
    let (v, l) = verses(&["Gen.2.1"]);
    let r = BibleSource::from_file(v, &l, &names());
    assert!(matches!(r, Err(SourceError::ChapterOutOfOrder { line: 1 })));
    let (v, l) = verses(&["Gen.1.1", "Exo.2.1"]);
    let r = BibleSource::from_file(v, &l, &names());
    assert!(matches!(r, Err(SourceError::ChapterOutOfOrder { line: 2 })));
}

#[test]
fn book_must_start_at_verse_one() {
    let (v, l) = verses(&["Gen.1.2"]);
    let r = BibleSource::from_file(v, &l, &names());
    assert!(matches!(r, Err(SourceError::VerseOutOfOrder { line: 1 })));
}

#[test]
fn duplicate_verse_is_rejected() {
    let (v, l) = verses(&["Gen.1.1", "Gen.1.1"]);
    let r = BibleSource::from_file(v, &l, &names());
    assert!(matches!(r, Err(SourceError::VerseOutOfOrder { line: 2 })));
}

#[test]
fn decreasing_chapter_is_rejected() {
    let (v, l) = verses(&["Gen.1.1", "Gen.2.1", "Gen.1.2"]);
    let r = BibleSource::from_file(v, &l, &names());
    assert!(matches!(r, Err(SourceError::ChapterOutOfOrder { line: 3 })));
}

#[test]
fn every_chapter_count_is_positive() {
    let (v, l) = verses(&["Gen.1.1", "Gen.2.1", "Gen.2.2", "Gen.3.1"]);
    let src = BibleSource::from_file(v, &l, &names()).unwrap();
    assert_eq!(src.book_infos[0].chapters, vec![1, 2, 1]);
}

#[test]
fn address_not_a_verse_is_rejected() {
    let (v, l) = verses(&["Gen.1.1", "Gen.1"]);
    let r = BibleSource::from_file(v, &l, &names());
    assert!(matches!(r, Err(SourceError::NotVerseForm { line: 2 })));
}

#[test]
fn unnamed_book_is_rejected_when_it_closes() {
    let (v, l) = verses(&["Lev.1.1", "Gen.1.1"]);
    match BibleSource::from_file(v, &l, &names()) {
        Err(SourceError::MissingBookName { book, line }) => {
            assert_eq!(book, "Lev");
            assert_eq!(line, 1);
        }
        other => panic!("unexpected {:?}", other),
    }
    let (v, l) = verses(&["Gen.1.1", "Lev.1.1", "Lev.1.2"]);
    match BibleSource::from_file(v, &l, &names()) {
        Err(SourceError::MissingBookName { book, line }) => {
            assert_eq!(book, "Lev");
            assert_eq!(line, 3);
        }
        other => panic!("unexpected {:?}", other),
    }
}

#[test]
fn lines_come_from_the_records() {
    let (v, _) = verses(&["Gen.1.1", "Gen.1.3"]);
    let r = BibleSource::from_file(v, &vec![4, 9], &names());
    assert!(matches!(r, Err(SourceError::VerseOutOfOrder { line: 10 })));
}

#[test]
fn module_load_keeps_config() {
    let (v, l) = verses(&["Gen.1.1"]);
    let config = BibleConfig {
        name: "Test".to_string(),
        description: "A test".to_string(),
        language: "en".to_string(),
        pub_year: Some(1611),
        data_source: None,
        books: names(),
    };
    let m = BibleModule::load(config, v, &l).unwrap();
    assert_eq!(m.name, "Test");
    assert_eq!(m.pub_year, Some(1611));
    assert_eq!(m.source.book_infos[0].name, "Genesis");
}
