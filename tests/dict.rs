use biblio_json::modules::dict::{
    eq_ignore_punc_and_case, get_normalized_str_chars, normalized_char, DictConfig, DictEntry, DictModule,
};

fn entry(term: &str, aliases: Option<Vec<&str>>) -> DictEntry {
    DictEntry {
        term: term.to_string(),
        aliases: aliases.map(|a| a.into_iter().map(|s| s.to_string()).collect()),
        definitions: vec![format!("about {}", term)],
    }
}

fn dict(entries: Vec<DictEntry>) -> DictModule {
    let config = DictConfig {
        name: "Names".to_string(),
        authors: vec![],
        language: "en".to_string(),
        description: None,
        data_source: None,
        pub_year: None,
        license: None,
    };
    DictModule::load(config, entries)
}

#[test]
fn term_matches_ignoring_case() {
    let d = dict(vec![entry("Abel", None), entry("Zuzims'", None)]);
    assert_eq!(d.find("zuzims'").unwrap().term, "Zuzims'");
}

#[test]
fn alias_matches_ignoring_punctuation() {
    let d = dict(vec![entry("Zamzummims", Some(vec!["Zuzims!"]))]);
    assert_eq!(d.find("zuzims").unwrap().term, "Zamzummims");
}

#[test]
fn prefix_does_not_match() {
    let d = dict(vec![entry("Zuzims'", Some(vec!["zuzims"]))]);
    assert!(d.find("zuz").is_none());
}

#[test]
fn first_matching_entry_wins() {
    let d = dict(vec![entry("Abel", None), entry("abel.", None)]);
    assert_eq!(d.find("ABEL").unwrap().term, "Abel");
    assert!(d.find("Cain").is_none());
    assert!(dict(vec![]).find("Abel").is_none());
}

#[test]
fn normalized_chars_keep_letters_digits_hyphen_apostrophe() {
    let n: String = get_normalized_str_chars("Beth-El's, (2)!").into_iter().collect();
    assert_eq!(n, "beth-el's2");
    let n: String = get_normalized_str_chars("ÉLOÏ").into_iter().collect();
    assert_eq!(n, "ÉloÏ");
}

#[test]
fn comparison_needs_equal_length() {
    assert!(eq_ignore_punc_and_case("Zuzims'", "zuzims'"));
    assert!(!eq_ignore_punc_and_case("zuzims'", "zuzims"));
    assert!(!eq_ignore_punc_and_case("zuz", "zuzims"));
    assert!(eq_ignore_punc_and_case("", "?!"));
}

#[test]
fn normalized_char_by_class() {
    assert_eq!(normalized_char('A', true), Some('a'));
    assert_eq!(normalized_char('z', true), Some('z'));
    assert_eq!(normalized_char('-', false), Some('-'));
    assert_eq!(normalized_char('\'', false), Some('\''));
    assert_eq!(normalized_char('!', false), None);
    assert_eq!(normalized_char('Ä', true), Some('Ä'));
}
