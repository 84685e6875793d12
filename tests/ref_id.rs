use biblio_json::ref_id::{Atom, AtomError, RefId};


fn round_trip(s: &str) -> String {
    RefId::parse(s).unwrap().to_string()
}

#[test]
fn round_trip_each_shape() {
    for s in ["Gen", "Gen.1", "Gen.1.2", "Gen.1.2#3", "Gen.1-Gen.2", "Gen.1.1-Exo.2.3", "Ps.119.176#12-Ps.119.176#14"] {
        assert_eq!(round_trip(s), s);
    }
}

#[test]
fn round_trip_trims_range_sides() {
    assert_eq!(round_trip("  Gen.1 -  Gen.2 "), "Gen.1-Gen.2");
    assert_eq!(round_trip(" Gen.1.1 "), "Gen.1.1");
}

#[test]
fn atom_parse_shapes() {
    assert_eq!(Atom::parse("Gen").unwrap(), Atom::Book { book: "Gen".to_string() });
    assert_eq!(Atom::parse("Gen.12").unwrap(), Atom::Chapter { book: "Gen".to_string(), chapter: 12 });
    assert_eq!(
        Atom::parse("Gen.1.2").unwrap(),
        Atom::Verse { book: "Gen".to_string(), chapter: 1, verse: 2 }
    );
    assert_eq!(
        Atom::parse("Gen.1.2#30").unwrap(),
        Atom::Word { book: "Gen".to_string(), chapter: 1, verse: 2, word: 30 }
    );
    assert_eq!(Atom::parse("Gen.007").unwrap(), Atom::Chapter { book: "Gen".to_string(), chapter: 7 });
}

#[test]
fn numbers_may_carry_a_plus_sign() {
    assert_eq!(Atom::parse("Gen.+1").unwrap(), Atom::Chapter { book: "Gen".to_string(), chapter: 1 });
    assert_eq!(
        Atom::parse("Gen.+2.+3#+4").unwrap(),
        Atom::Word { book: "Gen".to_string(), chapter: 2, verse: 3, word: 4 }
    );
    assert_eq!(Atom::parse("Gen.+"), Err(AtomError::InvalidChapter));
    assert_eq!(Atom::parse("Gen.++1"), Err(AtomError::InvalidChapter));
    assert_eq!(Atom::parse("Gen.-1"), Err(AtomError::InvalidChapter));
    assert_eq!(Atom::parse("Gen.1.+0"), Err(AtomError::InvalidVerse));
}

#[test]
fn atom_parse_errors() {
    assert_eq!(Atom::parse("Gen.x"), Err(AtomError::InvalidChapter));
    assert_eq!(Atom::parse("Gen.0"), Err(AtomError::InvalidChapter));
    assert_eq!(Atom::parse("Gen."), Err(AtomError::InvalidChapter));
    assert_eq!(Atom::parse("Gen.4294967296"), Err(AtomError::InvalidChapter));
    assert_eq!(Atom::parse("Gen.1.0"), Err(AtomError::InvalidVerse));
    assert_eq!(Atom::parse("Gen.x.y"), Err(AtomError::InvalidChapter));
    assert_eq!(Atom::parse("Gen.1.2#"), Err(AtomError::InvalidWord));
    assert_eq!(Atom::parse("Gen.1.2#0"), Err(AtomError::InvalidWord));
    assert_eq!(Atom::parse("Gen.1.2.3"), Err(AtomError::Unrecognized));
    assert_eq!(Atom::parse("Gen#1"), Err(AtomError::Unrecognized));
    assert_eq!(Atom::parse("Gen.1#1"), Err(AtomError::Unrecognized));
    assert_eq!(RefId::parse("Gen.1-Gen.x"), Err(AtomError::InvalidChapter));
}

#[test]
fn largest_number_is_read() {
    assert_eq!(
        Atom::parse("Gen.4294967295").unwrap(),
        Atom::Chapter { book: "Gen".to_string(), chapter: 4294967295 }
    );
    assert_eq!(round_trip("Gen.4294967295"), "Gen.4294967295");
}

#[test]
fn dash_with_an_empty_side_is_a_single_atom() {
    assert_eq!(
        RefId::parse("-Gen").unwrap(),
        RefId::Single(Atom::Book { book: "-Gen".to_string() })
    );
    assert_eq!(
        RefId::parse("Gen- ").unwrap(),
        RefId::Single(Atom::Book { book: "Gen-".to_string() })
    );
}

#[test]
fn range_validity_by_shape() {
    assert!(RefId::parse("Gen.1-Gen.2").unwrap().is_valid());
    assert!(!RefId::parse("Gen.1-Gen.1.1").unwrap().is_valid());
    assert!(RefId::parse("Gen-Exo").unwrap().is_valid());
    assert!(RefId::parse("Gen.1.1#1-Gen.1.1#4").unwrap().is_valid());
    assert!(!RefId::parse("Gen.1.1#1-Gen.1.2").unwrap().is_valid());
    assert!(RefId::parse("Gen.1.1").unwrap().is_valid());
}

#[test]
fn accessors_by_shape() {
    let w = Atom::parse("Gen.3.4#5").unwrap();
    assert_eq!(w.book(), "Gen");
    assert_eq!(w.chapter(), Some(3));
    assert_eq!(w.verse(), Some(4));
    assert_eq!(w.word(), Some(5));
    let c = Atom::parse("Exo.2").unwrap();
    assert_eq!(c.chapter(), Some(2));
    assert_eq!(c.verse(), None);
    assert_eq!(c.word(), None);
    let b = Atom::parse("Lev").unwrap();
    assert_eq!(b.book(), "Lev");
    assert_eq!(b.chapter(), None);
}

#[test]
fn verse_components_only_of_single_verses() {
    assert_eq!(RefId::parse("Gen.1.2").unwrap().get_verse_components(), Some(("Gen", 1, 2)));
    assert_eq!(RefId::parse("Gen.1").unwrap().get_verse_components(), None);
    assert_eq!(RefId::parse("Gen.1.2#1").unwrap().get_verse_components(), None);
    assert_eq!(RefId::parse("Gen.1.1-Gen.1.2").unwrap().get_verse_components(), None);
}

#[test]
fn duplicate_keeps_the_address() {
    let r = RefId::parse("Gen.1.1-Gen.1.9").unwrap();
    assert_eq!(r.duplicate(), r);
    assert_ne!(r, RefId::parse("Gen.1.1-Gen.1.8").unwrap());
}

#[test]
fn from_str_reads_addresses() {
    let r: RefId = "Gen.1.1-Gen.1.3".parse().unwrap();
    assert_eq!(r.to_string(), "Gen.1.1-Gen.1.3");
    let a: Atom = "Exo.2".parse().unwrap();
    assert_eq!(a.to_string(), "Exo.2");
    assert_eq!("Exo.2.x".parse::<Atom>(), Err(AtomError::InvalidVerse));
}
