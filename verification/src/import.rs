//! The import pipeline: polishing a raw word list into a staged list, and
//! streaming a staged list into a word base while counting fresh insertions.
//!
//! The surrounding, unverified glue reads the raw source file, persists the
//! staged list under a freshly named staging file, and reads it back; the
//! two passes over the lines themselves are verified here.

use vstd::prelude::*;

use crate::locale::{lower_of, normalized, replace_unicode, to_lower, AppLanguage};
use crate::strings::{lemma_trimmed_idempotent, str_eq, trim_str, trimmed};
use crate::wordbase::{spec_insert, WordBase};

verus! {

/// The word a source line contributes before filtering: the line trimmed,
/// lowercased, and normalized under the locale.
pub open spec fn polished(line: Seq<char>, app_language: AppLanguage) -> Seq<char> {
    normalized(lower_of(trimmed(line)), app_language)
}

/// The staged word list: each source line polished, kept when it has the
/// required length and differs from the immediately preceding kept word.
/// The adjacency-based duplicate check matches the storage format, whose
/// lines are expected to be sorted.
pub open spec fn spec_polish(
    lines: Seq<Seq<char>>,
    app_language: AppLanguage,
    word_len: nat,
    prev: Seq<char>,
) -> Seq<Seq<char>>
    decreases lines.len(),
{
    if lines.len() == 0 {
        Seq::empty()
    } else {
        let p = polished(lines[0], app_language);
        if p.len() == word_len && p != prev {
            seq![p] + spec_polish(lines.drop_first(), app_language, word_len, p)
        } else {
            spec_polish(lines.drop_first(), app_language, word_len, prev)
        }
    }
}

/// Polish a raw word list: trim, lowercase and normalize every line, keep
/// the words of the required length, and drop a word equal to the
/// immediately preceding kept word.
pub fn polish_words(lines: &Vec<String>, app_language: AppLanguage, word_len: usize) -> (staged:
    Vec<String>)
    ensures
        staged.deep_view() == spec_polish(
            lines.deep_view(),
            app_language,
            word_len as nat,
            Seq::<char>::empty(),
        ),
{
    let ghost all: Seq<Seq<char>> = lines.deep_view();
    let ghost target: Seq<Seq<char>> = spec_polish(
        all,
        app_language,
        word_len as nat,
        Seq::<char>::empty(),
    );
    let mut staged: Vec<String> = Vec::new();
    let mut prev: String = String::new();
    let mut i: usize = 0;
    proof {
        assert(all.skip(0) =~= all);
    }
    while i < lines.len()
        invariant
            i <= all.len(),
            all == lines.deep_view(),
            target == spec_polish(all, app_language, word_len as nat, Seq::<char>::empty()),
            target == staged.deep_view() + spec_polish(
                all.skip(i as int),
                app_language,
                word_len as nat,
                prev@,
            ),
        decreases all.len() - i,
    {
        let ghost rest: Seq<Seq<char>> = all.skip(i as int);
        proof {
            assert(rest[0] == all[i as int]);
            assert(rest.drop_first() =~= all.skip(i + 1 as int));
        }
        let line = trim_str(lines[i].as_str());
        let lowered = to_lower(line.as_str());
        let p = replace_unicode(lowered.as_str(), app_language);
        if p.unicode_len() == word_len && !str_eq(p.as_str(), prev.as_str()) {
            let ghost staged_pre: Seq<Seq<char>> = staged.deep_view();
            staged.push(p.clone());
            prev = p;
            proof {
                assert(staged.deep_view() =~= staged_pre.push(prev@));
                assert(staged_pre + (seq![prev@] + spec_polish(
                    all.skip(i + 1 as int),
                    app_language,
                    word_len as nat,
                    prev@,
                )) =~= staged_pre.push(prev@) + spec_polish(
                    all.skip(i + 1 as int),
                    app_language,
                    word_len as nat,
                    prev@,
                ));
            }
        }
        i = i + 1;
    }
    proof {
        assert(all.skip(all.len() as int) =~= Seq::<Seq<char>>::empty());
        assert(staged.deep_view() + Seq::<Seq<char>>::empty() =~= staged.deep_view());
    }
    staged
}

/// The stored keys after streaming a staged list into a collection: each
/// line is trimmed and inserted, an already stored word being left alone.
pub open spec fn spec_import_keys(keys: Seq<Seq<char>>, lines: Seq<Seq<char>>) -> Seq<Seq<char>>
    decreases lines.len(),
{
    if lines.len() == 0 {
        keys
    } else {
        spec_import_keys(spec_insert(keys, trimmed(lines[0])), lines.drop_first())
    }
}

/// The number of fresh insertions the same streaming performs: a line whose
/// trimmed word is already stored contributes nothing.
pub open spec fn spec_import_count(keys: Seq<Seq<char>>, lines: Seq<Seq<char>>) -> nat
    decreases lines.len(),
{
    if lines.len() == 0 {
        0
    } else {
        (if keys.contains(trimmed(lines[0])) {
            0nat
        } else {
            1nat
        }) + spec_import_count(spec_insert(keys, trimmed(lines[0])), lines.drop_first())
    }
}

/// Stream a staged word list into a word base, one insert per line, and
/// report how many entries the backend stored freshly; an insert that hits
/// an already stored word does not count.
pub fn import_words(staged: &Vec<String>, word_base: &mut WordBase) -> (count: usize)
    requires
        old(word_base).wf(),
        old(word_base).insert_headroom(staged@.len() as int),
    ensures
        final(word_base).wf(),
        final(word_base).keys() == spec_import_keys(old(word_base).keys(), staged.deep_view()),
        count == spec_import_count(old(word_base).keys(), staged.deep_view()),
        count <= staged@.len(),
{
    let ghost all: Seq<Seq<char>> = staged.deep_view();
    let ghost keys0: Seq<Seq<char>> = old(word_base).keys();
    let mut count: usize = 0;
    let mut i: usize = 0;
    proof {
        assert(all.skip(0) =~= all);
    }
    while i < staged.len()
        invariant
            i <= all.len(),
            all == staged.deep_view(),
            count <= i,
            word_base.wf(),
            word_base.insert_headroom(all.len() - i),
            spec_import_keys(keys0, all) == spec_import_keys(word_base.keys(), all.skip(i as int)),
            spec_import_count(keys0, all) == count + spec_import_count(
                word_base.keys(),
                all.skip(i as int),
            ),
        decreases all.len() - i,
    {
        let ghost rest: Seq<Seq<char>> = all.skip(i as int);
        let ghost keys_pre: Seq<Seq<char>> = word_base.keys();
        proof {
            assert(rest[0] == all[i as int]);
            assert(rest.drop_first() =~= all.skip(i + 1 as int));
        }
        let line = trim_str(staged[i].as_str());
        proof {
            lemma_trimmed_idempotent(all[i as int]);
        }
        let inserted = word_base.create_word(line.as_str());
        proof {
            assert(word_base.keys() == spec_insert(keys_pre, trimmed(all[i as int])));
        }
        if inserted {
            count = count + 1;
        }
        i = i + 1;
    }
    proof {
        assert(all.skip(all.len() as int) =~= Seq::<Seq<char>>::empty());
    }
    count
}

} // verus!
