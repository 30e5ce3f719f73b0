//! Pure logic of the interactive guessing round: input validation and
//! comparison of a guess against the solution word.

use vstd::prelude::*;
use vstd::string::StringSliceAdditionalSpecFns;

use crate::locale::{lower_of, to_lower};
use crate::strings::{str_eq, str_to_chars};

verus! {

/// True when the user's input has exactly the expected length in bytes.
pub fn validate_user_input(user_input: &str, expected_len: usize) -> (r: bool)
    ensures
        r == (user_input.spec_bytes().len() as usize == expected_len),
{
    user_input.len() == expected_len
}

/// What one guessed letter reveals: it sits at its correct position, it
/// occurs in the solution at another position, or it does not occur at all.
#[derive(Clone, Copy, Debug, PartialEq, Eq, Structural)]
pub enum LetterFeedback {
    Correct,
    Present,
    Absent,
}

/// The feedback owed for the i-th guessed letter.
pub open spec fn letter_feedback(solution: Seq<char>, guess: Seq<char>, i: int) -> LetterFeedback {
    if solution.contains(guess[i]) {
        if solution[i] == guess[i] {
            LetterFeedback::Correct
        } else {
            LetterFeedback::Present
        }
    } else {
        LetterFeedback::Absent
    }
}

fn contains_char(v: &Vec<char>, c: char) -> (r: bool)
    ensures
        r == v@.contains(c),
{
    let mut i: usize = 0;
    while i < v.len()
        invariant
            i <= v@.len(),
            forall|j: int| 0 <= j < i ==> v@[j] != c,
        decreases v@.len() - i,
    {
        if v[i] == c {
            return true;
        }
        i = i + 1;
    }
    false
}

/// The per-letter feedback for a guess against the solution word.
pub fn guess_feedback(solution_word: &str, guessed_word: &str) -> (r: Vec<LetterFeedback>)
    requires
        solution_word@.len() == guessed_word@.len(),
    ensures
        r@.len() == guessed_word@.len(),
        forall|i: int|
            0 <= i < r@.len() ==> r@[i] == letter_feedback(solution_word@, guessed_word@, i),
{
    let solution = str_to_chars(solution_word);
    let guess = str_to_chars(guessed_word);
    let mut r: Vec<LetterFeedback> = Vec::new();
    let mut i: usize = 0;
    while i < guess.len()
        invariant
            i <= guess@.len(),
            solution@ == solution_word@,
            guess@ == guessed_word@,
            solution@.len() == guess@.len(),
            r@.len() == i,
            forall|j: int|
                0 <= j < i ==> r@[j] == letter_feedback(solution_word@, guessed_word@, j),
        decreases guess@.len() - i,
    {
        let c = guess[i];
        if contains_char(&solution, c) {
            if solution[i] == c {
                r.push(LetterFeedback::Correct);
            } else {
                r.push(LetterFeedback::Present);
            }
        } else {
            r.push(LetterFeedback::Absent);
        }
        i = i + 1;
    }
    r
}

/// Check guessed word against solution: the solution is folded to
/// lowercase first, so a full match is case-insensitive in the solution; a
/// full match ends the round with a win.
pub fn check_word(solution_word: &str, guessed_word: &str) -> (r: bool)
    ensures
        r == (lower_of(solution_word@) == guessed_word@),
{
    let folded = to_lower(solution_word);
    str_eq(folded.as_str(), guessed_word)
}

} // verus!
