use fhcli::game::{check_word, guess_feedback, validate_user_input, LetterFeedback};

#[test]
fn test_check_word() {
    assert_eq!(check_word("mario", "mario"), true);
    assert_ne!(check_word("mario", "wario"), true);
}

/// The solution is folded to lowercase before the comparison, so a match
/// is case-insensitive in the solution but not in the guess.
#[test]
fn test_check_word_folds_solution() {
    assert_eq!(check_word("MARIO", "mario"), true);
    assert_eq!(check_word("Mario", "mario"), true);
    assert_ne!(check_word("mario", "MARIO"), true);
}

#[test]
fn test_validate_user_input() {
    assert_eq!(validate_user_input("mario", 5), true);
    assert_eq!(validate_user_input("apfelsaft", 9), true);
    assert_eq!(validate_user_input("lüge", 5), true);

    assert_ne!(validate_user_input("lüge", 4), true);
    assert_ne!(validate_user_input("luege", 4), true);
}

#[test]
fn test_guess_feedback() {
    assert_eq!(
        guess_feedback("mario", "wario"),
        vec![
            LetterFeedback::Absent,
            LetterFeedback::Correct,
            LetterFeedback::Correct,
            LetterFeedback::Correct,
            LetterFeedback::Correct,
        ]
    );
    assert_eq!(
        guess_feedback("mario", "oiram"),
        vec![
            LetterFeedback::Present,
            LetterFeedback::Present,
            LetterFeedback::Correct,
            LetterFeedback::Present,
            LetterFeedback::Present,
        ]
    );
    assert_eq!(
        guess_feedback("mario", "mario"),
        vec![LetterFeedback::Correct; 5]
    );
}
