//! The unit of storage shared by both word base backends.

use vstd::prelude::*;

verus! {

/// A stored word entry: a backend-assigned identity (0 for the text
/// backend), the word itself, and whether it has already been used as a
/// puzzle solution.
pub struct Word {
    pub id: i32,
    pub word: String,
    pub used: bool,
}

/// The shape of a fresh row handed to the table backend on insertion: the
/// identity and the used flag are assigned by the backend.
pub struct NewWord<'a> {
    pub word: &'a str,
}

} // verus!
