use fhcli::models::Word;
use fhcli::wordbase::{line_matches, DbWordBase, ReservoirSampler, TextWordBase, WordBase};

fn sample_text_base() -> TextWordBase {
    let mut base = TextWordBase::new(String::from("wordbase.txt"));
    base.create_word("rusty");
    base.create_word("fishy");
    base.create_word("busty");
    base.create_word("lusty");
    base
}

#[test]
fn test_read_random_word() {
    let word_base = sample_text_base();

    match word_base.get_random_word() {
        Some(word) => assert!(
            ["rusty", "fishy", "busty", "lusty"].contains(&word.word.as_str())
        ),
        None => assert!(false),
    }
}

#[test]
fn test_create_word() {
    let mut word_base = TextWordBase::new(String::from("wordbase.txt"));
    assert!(word_base.create_word("rusty"));
    assert_eq!(word_base.words.len(), 1);
    assert_eq!(word_base.words[0], "rusty");
    // a second insert of the same word is a no-op
    assert!(!word_base.create_word("rusty"));
    assert_eq!(word_base.words.len(), 1);
}

#[test]
fn test_find_word() {
    let word_base = sample_text_base();
    match word_base.find_word("fishy") {
        Some(word) => {
            assert_eq!(word.word, "fishy");
            assert_eq!(word.id, 0);
            assert!(!word.used);
        }
        None => assert!(false),
    }
    assert!(word_base.find_word("ghost").is_none());
}

/// Lookup matches stored lines trimmed of surrounding blanks.
#[test]
fn test_find_word_trims_stored_lines() {
    let word_base = TextWordBase {
        wordbase_file_path: String::from("wordbase.txt"),
        words: vec![String::from("  apple \n"), String::from("beach\n")],
    };
    assert_eq!(word_base.find_word("apple").unwrap().word, "apple");
    assert_eq!(word_base.find_word("beach").unwrap().word, "beach");
    assert!(word_base.find_word(" apple").is_none());
}

/// A lookup against an empty collection is absent, not an error.
#[test]
fn test_find_on_empty_backends() {
    let text = TextWordBase::new(String::from("wordbase.txt"));
    assert!(text.find_word("ghost").is_none());
    assert!(text.get_random_word().is_none());

    let db = DbWordBase::new(String::from("postgres://localhost/words"));
    assert!(db.find_word("ghost").is_none());
    assert!(db.get_random_word().is_none());
}

#[test]
fn test_db_create_and_find() {
    let mut db = DbWordBase::new(String::from("postgres://localhost/words"));
    assert!(db.create_word("apple"));
    assert!(db.create_word("beach"));
    // duplicate insert is a safe no-op
    assert!(!db.create_word("apple"));
    assert_eq!(db.rows.len(), 2);

    let found = db.find_word("beach").unwrap();
    assert_eq!(found.word, "beach");
    assert_eq!(found.id, 2);
    assert!(!found.used);
    assert!(db.find_word("cider").is_none());
}

#[test]
fn test_db_update_word_marks_and_reports() {
    let mut db = DbWordBase::new(String::from("postgres://localhost/words"));
    db.create_word("apple");
    db.create_word("beach");

    let entry = db.find_word("apple").unwrap();
    assert!(db.update_word(entry));
    assert!(db.rows[0].used);
    assert!(!db.rows[1].used);

    // a stale identity affects no row, reported as a zero-effect outcome
    let stale = Word { id: 99, word: String::from("apple"), used: false };
    assert!(!db.update_word(stale));
}

/// After a successful mark, the entry never comes back from a random pick.
#[test]
fn test_mark_used_excludes_from_random_pick() {
    let mut db = DbWordBase::new(String::from("postgres://localhost/words"));
    db.create_word("apple");
    db.create_word("beach");

    let entry = db.find_word("beach").unwrap();
    assert!(db.update_word(entry));

    for _ in 0..100 {
        let picked = db.get_random_word().unwrap();
        assert_eq!(picked.word, "apple");
        assert!(!picked.used);
    }

    let entry = db.find_word("apple").unwrap();
    assert!(db.update_word(entry));
    assert!(db.get_random_word().is_none());
}

/// The text backend keeps no usage state: marking is a no-op and picks are
/// unaffected.
#[test]
fn test_text_update_word_is_noop() {
    let base = sample_text_base();
    let entry = base.find_word("rusty").unwrap();
    assert!(!base.update_word(entry));
    assert!(base.get_random_word().is_some());
}

/// Over many trials, each eligible entry is picked with frequency close to
/// the uniform 1/N.
#[test]
fn test_random_pick_frequencies() {
    let words = ["rusty", "fishy", "busty", "lusty"];
    let base = sample_text_base();
    let trials = 4000;
    let mut counts = [0usize; 4];
    for _ in 0..trials {
        let picked = base.get_random_word().unwrap();
        let pos = words
            .iter()
            .position(|w| *w == picked.word.as_str())
            .unwrap();
        counts[pos] += 1;
    }
    // expectation is 1000 per entry; allow a generous statistical tolerance
    for count in counts {
        assert!(count > 700, "a pick frequency fell far below uniform");
        assert!(count < 1300, "a pick frequency rose far above uniform");
    }
}

/// The same holds for the table backend over its unused rows.
#[test]
fn test_db_random_pick_frequencies() {
    let mut db = DbWordBase::new(String::from("postgres://localhost/words"));
    db.create_word("apple");
    db.create_word("beach");
    db.create_word("cider");
    let used = db.find_word("cider").unwrap();
    assert!(db.update_word(used));

    let trials = 3000;
    let mut apple = 0usize;
    let mut beach = 0usize;
    for _ in 0..trials {
        let picked = db.get_random_word().unwrap();
        match picked.word.as_str() {
            "apple" => apple += 1,
            "beach" => beach += 1,
            other => panic!("picked a used or foreign word: {}", other),
        }
    }
    assert!(apple > 1050 && apple < 1950);
    assert!(beach > 1050 && beach < 1950);
}

/// A streamed line matches the sought word once its surrounding blanks are
/// stripped.
#[test]
fn test_line_matches() {
    assert!(line_matches("apple\n", "apple"));
    assert!(line_matches("  apple \r\n", "apple"));
    assert!(line_matches("apple", "apple"));
    assert!(!line_matches("apples\n", "apple"));
    assert!(!line_matches("apple\n", " apple"));
}

/// A streamed reservoir pass picks one of the offered lines; an empty
/// stream yields nothing.
#[test]
fn test_reservoir_sampler() {
    let empty = ReservoirSampler::new();
    assert!(empty.take().is_none());

    let mut sampler = ReservoirSampler::new();
    sampler.offer(String::from("apple"));
    sampler.offer(String::from("beach"));
    let picked = sampler.take().unwrap();
    assert!(picked.word == "apple" || picked.word == "beach");
    assert_eq!(picked.id, 0);
    assert!(!picked.used);
}

/// The polymorphic interface behaves alike over both variants.
#[test]
fn test_word_base_enum_dispatch() {
    let mut text = WordBase::Text(TextWordBase::new(String::from("wordbase.txt")));
    let mut db = WordBase::Db(DbWordBase::new(String::from("postgres://localhost/words")));

    assert!(text.find_word("apple").is_none());
    assert!(db.find_word("apple").is_none());

    assert!(text.create_word("apple"));
    assert!(db.create_word("apple"));
    assert!(!text.create_word("apple"));
    assert!(!db.create_word("apple"));

    assert_eq!(text.find_word("apple").unwrap().word, "apple");
    assert_eq!(db.find_word("apple").unwrap().word, "apple");

    assert_eq!(text.get_random_word().unwrap().word, "apple");
    assert_eq!(db.get_random_word().unwrap().word, "apple");

    let entry = text.find_word("apple").unwrap();
    assert!(!text.update_word(entry));
    let entry = db.find_word("apple").unwrap();
    assert!(db.update_word(entry));
    assert!(db.get_random_word().is_none());
}
