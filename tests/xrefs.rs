use biblio_json::modules::bible::{BibleSource, Verse};
use biblio_json::modules::xrefs::{MutualRef, XRef, XRefModule, XRefsConfig};
use biblio_json::ref_id::RefId;

fn id(s: &str) -> RefId {
    RefId::parse(s).unwrap()
}

fn corpus(ids: &[&str]) -> BibleSource {
    let verses: Vec<Verse> = ids.iter().map(|s| Verse { id: id(s), words: vec![] }).collect();
    let lines: Vec<usize> = (0..ids.len()).collect();
    let books = vec![("Gen".to_string(), "Genesis".to_string())];
    BibleSource::from_file(verses, &lines, &books).unwrap()
}

fn directed(source: &str, targets: &[&str]) -> XRef {
    XRef::Directed {
        source: id(source),
        source_text: None,
        targets: targets.iter().map(|s| id(s)).collect(),
        note: None,
    }
}

fn module(refs: Vec<XRef>) -> XRefModule {
    let config = XRefsConfig {
        name: "Refs".to_string(),
        description: None,
        data_source: None,
        license: None,
        language: None,
        pub_year: None,
        bible_dep: None,
    };
    let lines: Vec<usize> = (1..=refs.len()).collect();
    XRefModule::load(config, refs, lines).unwrap()
}

#[test]
fn missing_target_is_reported() {
    let bible = corpus(&["Gen.1.1"]);
    let found = module(vec![directed("Gen.1.1", &["Gen.1.2"])]).validate(&bible);
    assert_eq!(found.len(), 1);
    assert_eq!(found[0].id, id("Gen.1.2"));
    assert_eq!(found[0].line, 1);
}

#[test]
fn repeated_missing_address_is_reported_once() {
    let bible = corpus(&["Gen.1.1"]);
    let m = module(vec![directed("Gen.1.1", &["Gen.1.2"]), directed("Gen.1.1", &["Gen.1.2"])]);
    let found = m.validate(&bible);
    assert_eq!(found.len(), 1);
    assert_eq!(found[0].id, id("Gen.1.2"));
    assert_eq!(found[0].line, 1);
}

#[test]
fn every_missing_address_is_reported() {
    let bible = corpus(&["Gen.1.1", "Gen.1.2"]);
    let mutual = XRef::Mutual {
        refs: vec![
            MutualRef { id: id("Gen.1.2"), text: None },
            MutualRef { id: id("Gen.2.1"), text: Some("x".to_string()) },
        ],
        note: None,
    };
    let m = module(vec![directed("Gen.9.9", &["Gen.1.1", "Gen.1.1-Gen.1.2"]), mutual]);
    let found = m.validate(&bible);
    let ids: Vec<String> = found.iter().map(|f| f.id.to_string()).collect();
    assert_eq!(ids, vec!["Gen.9.9", "Gen.1.1-Gen.1.2", "Gen.2.1"]);
    assert_eq!(found[2].line, 2);
}

#[test]
fn all_resolved_gives_no_findings() {
    let bible = corpus(&["Gen.1.1", "Gen.1.2"]);
    assert!(module(vec![directed("Gen.1.1", &["Gen.1.2"])]).validate(&bible).is_empty());
}

#[test]
fn mentions_are_flattened_in_order() {
    let m = module(vec![directed("Gen.1.1", &["Gen.1.2", "Gen.1.3"])]);
    let all: Vec<(String, usize)> = m.mentions().iter().map(|(r, l)| (r.to_string(), *l)).collect();
    assert_eq!(
        all,
        vec![("Gen.1.1".to_string(), 1), ("Gen.1.2".to_string(), 1), ("Gen.1.3".to_string(), 1)]
    );
}

#[test]
fn load_needs_a_line_per_entry() {
    let config = XRefsConfig {
        name: "Refs".to_string(),
        description: None,
        data_source: None,
        license: None,
        language: None,
        pub_year: None,
        bible_dep: None,
    };
    assert!(XRefModule::load(config, vec![directed("Gen.1.1", &[])], vec![]).is_none());
}
