use fhcli::locale::AppLanguage;
use fhcli::import::{import_words, polish_words};
use fhcli::wordbase::{DbWordBase, TextWordBase, WordBase};

fn lines(raw: &[&str]) -> Vec<String> {
    raw.iter().map(|s| String::from(*s)).collect()
}

/// The staging pass keeps words of the required length and drops a word
/// equal to the immediately preceding kept one.
#[test]
fn test_polish_staging() {
    let staged = polish_words(
        &lines(&["apple\n", "apply\n", "apply\n", "ab\n"]),
        AppLanguage::EN,
        5,
    );
    assert_eq!(staged, vec!["apple", "apply"]);
}

/// The staging pass lowercases and normalizes before filtering by length.
#[test]
fn test_polish_normalizes() {
    let staged = polish_words(
        &lines(&["LÜGE\n", "schön\n", "zäh\n"]),
        AppLanguage::DE,
        5,
    );
    assert_eq!(staged, vec!["luege"]);

    let staged = polish_words(&lines(&["schön\n"]), AppLanguage::EN, 5);
    assert_eq!(staged, vec!["schon"]);
}

/// Only adjacent duplicates are dropped by the staging pass; scattered ones
/// pass through, as the pre-sorted storage format expects.
#[test]
fn test_polish_adjacent_dedup_only() {
    let staged = polish_words(
        &lines(&["beach\n", "apple\n", "beach\n"]),
        AppLanguage::EN,
        5,
    );
    assert_eq!(staged, vec!["beach", "apple", "beach"]);
}

#[test]
fn test_import_counts_fresh_insertions() {
    let mut base = WordBase::Db(DbWordBase::new(String::from("postgres://localhost/words")));
    let staged = lines(&["apple", "apple", "beach"]);

    let count = import_words(&staged, &mut base);
    assert_eq!(count, 2);

    // importing the same staged list again inserts nothing further
    let count = import_words(&staged, &mut base);
    assert_eq!(count, 0);
}

/// Inserting through the import pipeline is idempotent across backends: the
/// second pass stores nothing new and leaves exactly one entry per word.
#[test]
fn test_import_idempotent_text() {
    let mut base = WordBase::Text(TextWordBase::new(String::from("wordbase.txt")));
    let staged = lines(&["apple", "beach"]);

    assert_eq!(import_words(&staged, &mut base), 2);
    assert_eq!(import_words(&staged, &mut base), 0);

    match base {
        WordBase::Text(text) => assert_eq!(text.words, vec!["apple", "beach"]),
        WordBase::Db(_) => assert!(false),
    }
}

/// Lines of a staged file carry their terminators; import trims them before
/// inserting.
#[test]
fn test_import_trims_lines() {
    let mut base = WordBase::Text(TextWordBase::new(String::from("wordbase.txt")));
    assert_eq!(import_words(&lines(&["apple\n"]), &mut base), 1);
    assert_eq!(base.find_word("apple").unwrap().word, "apple");
}
