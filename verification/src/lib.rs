//! Core of a command-line word-guessing game: a locale-aware normalizer
//! folding words to a restricted ASCII alphabet, a word base abstraction
//! with a flat-file backend and a relational-table backend behind one
//! polymorphic contract, and the import pipeline that normalizes,
//! deduplicates and inserts raw word lists. The surrounding terminal and
//! storage glue lives outside the verified library and talks to it through
//! these contracts.

pub mod game;
pub mod import;
pub mod locale;
pub mod models;
pub mod strings;
pub mod wordbase;
