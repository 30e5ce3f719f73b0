//! The word base: a collection of puzzle words offering random pick, exact
//! lookup, idempotent insert and used-marking.
//!
//! Two backends implement the same contract over an in-memory image of their
//! storage medium: [`TextWordBase`] mirrors the lines of a flat word list
//! file, [`DbWordBase`] the rows of a relational table with an integer
//! identity and a `used` flag. [`WordBase`] closes the two variants into one
//! polymorphic interface.

use vstd::prelude::*;

use crate::models::Word;
use crate::strings::{str_eq, trim_str, trimmed};

verus! {

/// Relies on `rand::random_range` over `0..n`: the result lies in the
/// (nonempty) range. Nothing is assumed about its distribution.
#[verifier::external_body]
fn random_below(n: usize) -> (r: usize)
    requires
        n > 0,
    ensures
        r < n,
{
    rand::random_range(0..n)
}

/// True when some stored line, once trimmed, equals `t`.
pub open spec fn has_match(words: Seq<Seq<char>>, t: Seq<char>) -> bool {
    exists|i: int| 0 <= i < words.len() && trimmed(#[trigger] words[i]) == t
}

/// One streamed line matches the sought word when it equals it once
/// trimmed.
pub fn line_matches(line: &str, text: &str) -> (r: bool)
    ensures
        r == (trimmed(line@) == text@),
{
    let t = trim_str(line);
    str_eq(t.as_str(), text)
}

/// A single-pass uniform reservoir over streamed lines: the n-th offered
/// line replaces the held candidate with probability 1/n, so one pass
/// yields an unbiased pick without holding more than one line.
pub struct ReservoirSampler {
    pub seen: usize,
    pub candidate: Option<String>,
    pub offered: Ghost<Seq<Seq<char>>>,
}

impl ReservoirSampler {
    /// The lines offered so far.
    pub open spec fn offered_lines(&self) -> Seq<Seq<char>> {
        self.offered@
    }

    pub open spec fn wf(&self) -> bool {
        &&& self.seen == self.offered@.len()
        &&& (self.candidate is Some) == (self.offered@.len() > 0)
        &&& (self.candidate matches Some(w) ==> self.offered@.contains(w@))
    }

    pub fn new() -> (r: ReservoirSampler)
        ensures
            r.wf(),
            r.offered_lines().len() == 0,
    {
        ReservoirSampler { seen: 0, candidate: None, offered: Ghost(Seq::empty()) }
    }

    /// Offer the next streamed line to the reservoir.
    pub fn offer(&mut self, line: String)
        requires
            old(self).wf(),
            old(self).offered_lines().len() < usize::MAX,
        ensures
            final(self).wf(),
            final(self).offered_lines() == old(self).offered_lines().push(line@),
    {
        let ghost offered_pre: Seq<Seq<char>> = self.offered@;
        let k = random_below(self.seen + 1);
        if k == 0 {
            self.candidate = Some(line);
        }
        self.seen = self.seen + 1;
        proof {
            self.offered@ = offered_pre.push(line@);
            assert(offered_pre.push(line@)[offered_pre.len() as int] == line@);
            if self.candidate is Some && offered_pre.contains(self.candidate->Some_0@) {
                let w = self.candidate->Some_0@;
                let i = choose|i: int| 0 <= i < offered_pre.len() && offered_pre[i] == w;
                assert(offered_pre.push(line@)[i] == w);
            }
        }
    }

    /// The pick: one of the offered lines, or nothing when none was
    /// offered; this is not an error.
    pub fn take(self) -> (r: Option<Word>)
        requires
            self.wf(),
        ensures
            (r is Some) == (self.offered_lines().len() > 0),
            r matches Some(w) ==> w.id == 0 && w.used == false && self.offered_lines().contains(
                w.word@,
            ),
    {
        match self.candidate {
            Some(line) => Some(Word { id: 0, word: line, used: false }),
            None => None,
        }
    }
}

/// A word base whose storage medium is a newline-delimited word list file;
/// `words` is the in-memory image of its lines, one stored word per entry.
/// The file itself is read and appended by the surrounding, unverified glue.
pub struct TextWordBase {
    pub wordbase_file_path: String,
    pub words: Vec<String>,
}

impl TextWordBase {
    /// The stored lines as character sequences.
    pub open spec fn texts(&self) -> Seq<Seq<char>> {
        self.words.deep_view()
    }

    /// Creates word base for the word list file underneath the given path;
    /// the in-memory image starts out empty.
    pub fn new(file_path: String) -> (r: TextWordBase)
        ensures
            r.wordbase_file_path@ == file_path@,
            r.words@.len() == 0,
    {
        TextWordBase { wordbase_file_path: file_path, words: Vec::new() }
    }

    /// Get a [`Word`] from a random line, every line equally eligible.
    pub fn get_random_word(&self) -> (r: Option<Word>)
        ensures
            (r is Some) == (self.words@.len() > 0),
            r matches Some(w) ==> w.id == 0 && w.used == false && self.texts().contains(w.word@),
    {
        let mut sampler = ReservoirSampler::new();
        let mut i: usize = 0;
        proof {
            assert(self.texts().take(0) =~= Seq::<Seq<char>>::empty());
        }
        while i < self.words.len()
            invariant
                i <= self.words@.len(),
                sampler.wf(),
                sampler.offered_lines() == self.texts().take(i as int),
            decreases self.words@.len() - i,
        {
            let line = self.words[i].clone();
            proof {
                assert(self.texts()[i as int] == line@);
                assert(self.texts().take(i + 1 as int) =~= self.texts().take(i as int).push(
                    line@,
                ));
            }
            sampler.offer(line);
            i = i + 1;
        }
        proof {
            assert(self.texts().take(self.words@.len() as int) =~= self.texts());
        }
        sampler.take()
    }

    /// Search the word base for a specific [`Word`]: an exact match of the
    /// trimmed stored line, ignoring the used flag.
    pub fn find_word(&self, text: &str) -> (r: Option<Word>)
        ensures
            (r is Some) == has_match(self.texts(), text@),
            r matches Some(w) ==> w.id == 0 && w.used == false && w.word@ == text@,
    {
        let mut i: usize = 0;
        while i < self.words.len()
            invariant
                i <= self.words@.len(),
                forall|j: int| 0 <= j < i ==> trimmed(#[trigger] self.texts()[j]) != text@,
            decreases self.words@.len() - i,
        {
            let line = trim_str(self.words[i].as_str());
            if str_eq(line.as_str(), text) {
                proof {
                    assert(trimmed(self.texts()[i as int]) == text@);
                }
                return Some(Word { id: 0, word: line, used: false });
            }
            i = i + 1;
        }
        None
    }

    /// Append a word unless an equal entry is already stored.
    pub fn create_word(&mut self, text: &str) -> (inserted: bool)
        ensures
            text_create_post(*old(self), *final(self), text@, inserted),
    {
        match self.find_word(text) {
            Some(_) => false,
            None => {
                self.words.push(text.to_owned());
                proof {
                    assert(final(self).texts() =~= old(self).texts().push(text@));
                }
                true
            },
        }
    }

    /// Not implemented for text wordbase: no usage state is kept, so no
    /// stored entry is ever marked.
    pub fn update_word(&self, _word: Word) -> (r: bool)
        ensures
            r == false,
    {
        false
    }
}

/// How an insert relates the text backend before and after: `inserted`
/// says whether the word was absent; a fresh word is appended as a line of
/// its own, an already stored one changes nothing.
pub open spec fn text_create_post(
    pre: TextWordBase,
    post: TextWordBase,
    t: Seq<char>,
    inserted: bool,
) -> bool {
    &&& inserted == !has_match(pre.texts(), t)
    &&& post.wordbase_file_path == pre.wordbase_file_path
    &&& (inserted ==> post.texts() == pre.texts().push(t))
    &&& (!inserted ==> post == pre)
}

/// The number of stored lines whose trimmed word equals `t`.
pub open spec fn match_count(words: Seq<Seq<char>>, t: Seq<char>) -> nat
    decreases words.len(),
{
    if words.len() == 0 {
        0
    } else {
        match_count(words.drop_last(), t) + (if trimmed(words.last()) == t {
            1nat
        } else {
            0nat
        })
    }
}

proof fn lemma_match_count_zero(words: Seq<Seq<char>>, t: Seq<char>)
    ensures
        (match_count(words, t) == 0) == !has_match(words, t),
    decreases words.len(),
{
    if words.len() > 0 {
        lemma_match_count_zero(words.drop_last(), t);
        if trimmed(words.last()) == t {
            assert(trimmed(words[words.len() - 1]) == t);
        } else {
            if has_match(words, t) {
                let i = choose|i: int| 0 <= i < words.len() && trimmed(#[trigger] words[i]) == t;
                assert(i < words.len() - 1);
                assert(trimmed(words.drop_last()[i]) == t);
            }
            if has_match(words.drop_last(), t) {
                let i = choose|i: int|
                    0 <= i < words.drop_last().len() && trimmed(
                        #[trigger] words.drop_last()[i],
                    ) == t;
                assert(trimmed(words[i]) == t);
            }
        }
    }
}

/// Law: inserting a blank-free word into the text backend twice stores it
/// exactly once — the second insert finds the word, reports no fresh
/// insertion and changes nothing, and a word absent before the first
/// insert is stored as exactly one line afterwards.
pub proof fn lemma_text_insert_idempotent(
    b0: TextWordBase,
    b1: TextWordBase,
    b2: TextWordBase,
    t: Seq<char>,
    r1: bool,
    r2: bool,
)
    requires
        trimmed(t) == t,
        text_create_post(b0, b1, t, r1),
        text_create_post(b1, b2, t, r2),
    ensures
        r2 == false,
        b2 == b1,
        !has_match(b0.texts(), t) ==> r1 == true && match_count(b1.texts(), t) == 1,
{
    if r1 {
        assert(trimmed(b1.texts()[b0.texts().len() as int]) == t);
        assert(has_match(b1.texts(), t));
        assert(b1.texts().drop_last() =~= b0.texts());
        lemma_match_count_zero(b0.texts(), t);
    }
}

/// True when some row stores exactly the word `t`.
pub open spec fn db_has(rows: Seq<Word>, t: Seq<char>) -> bool {
    exists|i: int| 0 <= i < rows.len() && (#[trigger] rows[i]).word@ == t
}

/// The number of rows whose used flag is still unset.
pub open spec fn unused_count(rows: Seq<Word>) -> nat
    decreases rows.len(),
{
    if rows.len() == 0 {
        0
    } else {
        unused_count(rows.drop_last()) + (if rows.last().used {
            0nat
        } else {
            1nat
        })
    }
}

proof fn lemma_unused_count_exists(rows: Seq<Word>)
    ensures
        (unused_count(rows) > 0) == (exists|i: int|
            0 <= i < rows.len() && !(#[trigger] rows[i]).used),
    decreases rows.len(),
{
    if rows.len() > 0 {
        lemma_unused_count_exists(rows.drop_last());
        if !rows.last().used {
            assert(!rows[rows.len() - 1].used);
        } else {
            if exists|i: int| 0 <= i < rows.len() && !(#[trigger] rows[i]).used {
                let i = choose|i: int| 0 <= i < rows.len() && !(#[trigger] rows[i]).used;
                assert(i < rows.len() - 1);
                assert(!rows.drop_last()[i].used);
            }
        }
    }
}

/// How an insert relates the table backend before and after: `inserted`
/// says whether the word was absent; a fresh word becomes one appended row
/// under the next serial identity with an unset used flag, an already
/// stored one changes nothing.
pub open spec fn db_create_post(
    pre: DbWordBase,
    post: DbWordBase,
    t: Seq<char>,
    inserted: bool,
) -> bool {
    &&& inserted == !db_has(pre.rows@, t)
    &&& post.db_url == pre.db_url
    &&& (!inserted ==> post == pre)
    &&& (inserted ==> post.rows@.len() == pre.rows@.len() + 1 && post.rows@.drop_last()
        == pre.rows@ && post.rows@.last().id == pre.next_id && post.rows@.last().word@ == t
        && post.rows@.last().used == false && post.next_id == pre.next_id + 1)
}

/// The number of rows storing the word `t`.
pub open spec fn db_word_count(rows: Seq<Word>, t: Seq<char>) -> nat
    decreases rows.len(),
{
    if rows.len() == 0 {
        0
    } else {
        db_word_count(rows.drop_last(), t) + (if rows.last().word@ == t {
            1nat
        } else {
            0nat
        })
    }
}

proof fn lemma_db_word_count_zero(rows: Seq<Word>, t: Seq<char>)
    ensures
        (db_word_count(rows, t) == 0) == !db_has(rows, t),
    decreases rows.len(),
{
    if rows.len() > 0 {
        lemma_db_word_count_zero(rows.drop_last(), t);
        if rows.last().word@ == t {
            assert(rows[rows.len() - 1].word@ == t);
        } else {
            if db_has(rows, t) {
                let i = choose|i: int| 0 <= i < rows.len() && (#[trigger] rows[i]).word@ == t;
                assert(i < rows.len() - 1);
                assert(rows.drop_last()[i].word@ == t);
            }
            if db_has(rows.drop_last(), t) {
                let i = choose|i: int|
                    0 <= i < rows.drop_last().len() && (#[trigger] rows.drop_last()[i]).word@
                        == t;
                assert(rows[i].word@ == t);
            }
        }
    }
}

/// Law: inserting a word into the table backend twice stores it exactly
/// once — the second insert finds the word, reports no fresh insertion and
/// changes nothing, and a word absent before the first insert is stored in
/// exactly one row afterwards.
pub proof fn lemma_db_insert_idempotent(
    d0: DbWordBase,
    d1: DbWordBase,
    d2: DbWordBase,
    t: Seq<char>,
    r1: bool,
    r2: bool,
)
    requires
        db_create_post(d0, d1, t, r1),
        db_create_post(d1, d2, t, r2),
    ensures
        r2 == false,
        d2 == d1,
        !db_has(d0.rows@, t) ==> r1 == true && db_word_count(d1.rows@, t) == 1,
{
    if r1 {
        assert(d1.rows@[d0.rows@.len() as int].word@ == t);
        assert(db_has(d1.rows@, t));
        assert(d1.rows@.drop_last() =~= d0.rows@);
        lemma_db_word_count_zero(d0.rows@, t);
    }
}

/// How a successful used-marking relates the table before and after: `r`
/// says whether any row bore the given identity; every row keeps its
/// identity and word, and its used flag is set exactly when it already was
/// or the row is the addressed one.
pub open spec fn db_update_post(pre: DbWordBase, post: DbWordBase, word: Word, r: bool) -> bool {
    &&& post.db_url == pre.db_url
    &&& post.next_id == pre.next_id
    &&& post.rows@.len() == pre.rows@.len()
    &&& r == (exists|i: int|
        0 <= i < pre.rows@.len() && (#[trigger] pre.rows@[i]).id == word.id)
    &&& forall|i: int|
        0 <= i < pre.rows@.len() ==> (#[trigger] post.rows@[i]).id == pre.rows@[i].id
            && post.rows@[i].word@ == pre.rows@[i].word@ && post.rows@[i].used == (
        pre.rows@[i].used || pre.rows@[i].id == word.id)
}

/// A word base whose storage medium is a relational table of
/// `(id, word, used)` rows; `rows` is the in-memory image of that table and
/// `next_id` the next identity the serial column would assign. The
/// connection itself is driven by the surrounding, unverified glue.
pub struct DbWordBase {
    pub db_url: String,
    pub rows: Vec<Word>,
    pub next_id: i32,
}

impl DbWordBase {
    /// Rows carry the serial identities 1, 2, ... in insertion order, and
    /// `next_id` is the identity the next insertion receives.
    pub open spec fn wf(&self) -> bool {
        &&& self.next_id as int == self.rows@.len() + 1
        &&& forall|i: int| 0 <= i < self.rows@.len() ==> (#[trigger] self.rows@[i]).id == i + 1
    }

    /// Creates word base for the database underneath the given url; the
    /// in-memory image starts out empty.
    pub fn new(db_url: String) -> (r: DbWordBase)
        ensures
            r.db_url@ == db_url@,
            r.rows@.len() == 0,
            r.wf(),
    {
        DbWordBase { db_url, rows: Vec::new(), next_id: 1 }
    }

    /// Get a random unused [`Word`], every unused row equally eligible.
    pub fn get_random_word(&self) -> (r: Option<Word>)
        ensures
            (r is Some) == (exists|i: int|
                0 <= i < self.rows@.len() && !(#[trigger] self.rows@[i]).used),
            r matches Some(w) ==> w.used == false && exists|i: int|
                0 <= i < self.rows@.len() && (#[trigger] self.rows@[i]).id == w.id
                    && self.rows@[i].word@ == w.word@ && !self.rows@[i].used,
    {
        let n = self.rows.len();
        let mut cnt: usize = 0;
        let mut i: usize = 0;
        proof {
            assert(self.rows@.take(0) =~= Seq::<Word>::empty());
        }
        while i < n
            invariant
                i <= n,
                n == self.rows@.len(),
                cnt <= i,
                cnt == unused_count(self.rows@.take(i as int)),
            decreases n - i,
        {
            proof {
                assert(self.rows@.take(i + 1 as int).drop_last() =~= self.rows@.take(i as int));
                assert(self.rows@.take(i + 1 as int).last() == self.rows@[i as int]);
            }
            if !self.rows[i].used {
                cnt = cnt + 1;
            }
            i = i + 1;
        }
        proof {
            assert(self.rows@.take(n as int) =~= self.rows@);
            lemma_unused_count_exists(self.rows@);
        }
        if cnt == 0 {
            return None;
        }
        let k = random_below(cnt);
        let mut seen: usize = 0;
        let mut j: usize = 0;
        let mut result: Option<Word> = None;
        proof {
            assert(self.rows@.take(0) =~= Seq::<Word>::empty());
        }
        while j < n
            invariant
                j <= n,
                n == self.rows@.len(),
                k < cnt,
                cnt == unused_count(self.rows@),
                seen <= cnt,
                seen == unused_count(self.rows@.take(j as int)),
                (result is Some) == (seen > k),
                result matches Some(w) ==> w.used == false && exists|i: int|
                    0 <= i < self.rows@.len() && (#[trigger] self.rows@[i]).id == w.id
                        && self.rows@[i].word@ == w.word@ && !self.rows@[i].used,
            decreases n - j,
        {
            proof {
                assert(self.rows@.take(j + 1 as int).drop_last() =~= self.rows@.take(j as int));
                assert(self.rows@.take(j + 1 as int).last() == self.rows@[j as int]);
                lemma_unused_count_prefix_bound(self.rows@, j + 1 as int);
            }
            if !self.rows[j].used {
                if seen == k {
                    let row_id = self.rows[j].id;
                    let txt = self.rows[j].word.clone();
                    result = Some(Word { id: row_id, word: txt, used: false });
                }
                seen = seen + 1;
            }
            j = j + 1;
        }
        proof {
            assert(self.rows@.take(n as int) =~= self.rows@);
        }
        result
    }

    /// Search the table for a specific [`Word`] regardless of the used flag.
    pub fn find_word(&self, text: &str) -> (r: Option<Word>)
        ensures
            (r is Some) == db_has(self.rows@, text@),
            r matches Some(w) ==> w.word@ == text@ && exists|i: int|
                0 <= i < self.rows@.len() && (#[trigger] self.rows@[i]).id == w.id
                    && self.rows@[i].word@ == w.word@ && self.rows@[i].used == w.used,
    {
        let mut i: usize = 0;
        while i < self.rows.len()
            invariant
                i <= self.rows@.len(),
                forall|j: int| 0 <= j < i ==> (#[trigger] self.rows@[j]).word@ != text@,
            decreases self.rows@.len() - i,
        {
            if str_eq(self.rows[i].word.as_str(), text) {
                let row_id = self.rows[i].id;
                let row_used = self.rows[i].used;
                let txt = self.rows[i].word.clone();
                return Some(Word { id: row_id, word: txt, used: row_used });
            }
            i = i + 1;
        }
        None
    }

    /// Insert a new row for the word unless one already stores it; a fresh
    /// row receives the next serial identity and an unset used flag.
    pub fn create_word(&mut self, text: &str) -> (inserted: bool)
        requires
            old(self).wf(),
            old(self).next_id < i32::MAX,
        ensures
            final(self).wf(),
            db_create_post(*old(self), *final(self), text@, inserted),
    {
        match self.find_word(text) {
            Some(_) => false,
            None => {
                let id = self.next_id;
                self.rows.push(Word { id, word: text.to_owned(), used: false });
                self.next_id = id + 1;
                proof {
                    assert(final(self).rows@.drop_last() =~= old(self).rows@);
                }
                true
            },
        }
    }

    /// Set the used flag of the row bearing the given identity; reports
    /// whether any row was affected, a stale identity affecting none.
    pub fn update_word(&mut self, word: Word) -> (r: bool)
        requires
            old(self).wf(),
        ensures
            final(self).wf(),
            db_update_post(*old(self), *final(self), word, r),
    {
        let n = self.rows.len();
        let mut out: Vec<Word> = Vec::new();
        let mut affected = false;
        let mut i: usize = 0;
        while i < n
            invariant
                i <= n,
                n == self.rows@.len(),
                *self == *old(self),
                out@.len() == i,
                affected == (exists|j: int|
                    0 <= j < i && (#[trigger] self.rows@[j]).id == word.id),
                forall|j: int|
                    0 <= j < i ==> (#[trigger] out@[j]).id == self.rows@[j].id
                        && out@[j].word@ == self.rows@[j].word@ && out@[j].used == (
                    self.rows@[j].used || self.rows@[j].id == word.id),
            decreases n - i,
        {
            let row_id = self.rows[i].id;
            let row_used = self.rows[i].used;
            let txt = self.rows[i].word.clone();
            if row_id == word.id {
                out.push(Word { id: row_id, word: txt, used: true });
                affected = true;
            } else {
                out.push(Word { id: row_id, word: txt, used: row_used });
            }
            i = i + 1;
        }
        self.rows = out;
        affected
    }
}

proof fn lemma_unused_count_prefix_bound(rows: Seq<Word>, i: int)
    requires
        0 <= i <= rows.len(),
    ensures
        unused_count(rows.take(i)) <= unused_count(rows),
    decreases rows.len() - i,
{
    if i < rows.len() {
        assert(rows.take(i + 1).drop_last() =~= rows.take(i));
        lemma_unused_count_prefix_bound(rows, i + 1);
    } else {
        assert(rows.take(i) =~= rows);
    }
}

/// The closed set of word base backends behind one polymorphic contract:
/// random pick, exact lookup, idempotent insert and used-marking behave
/// alike over the stored words, whichever medium holds them.
pub enum WordBase {
    Text(TextWordBase),
    Db(DbWordBase),
}

impl WordBase {
    pub open spec fn wf(&self) -> bool {
        match self {
            WordBase::Text(_) => true,
            WordBase::Db(d) => d.wf(),
        }
    }

    /// The stored words, in storage order: the trimmed lines of the text
    /// backend, or the word column of the table backend.
    pub open spec fn keys(&self) -> Seq<Seq<char>> {
        match self {
            WordBase::Text(t) => t.texts().map_values(|w: Seq<char>| trimmed(w)),
            WordBase::Db(d) => d.rows@.map_values(|r: Word| r.word@),
        }
    }

    /// True when the collection stores the word `t`.
    pub open spec fn has_text(&self, t: Seq<char>) -> bool {
        self.keys().contains(t)
    }

    /// The key under which an insert of `t` is stored: the text backend
    /// stores the line and matches it trimmed, the table backend stores the
    /// word as given.
    pub open spec fn stored_key(&self, t: Seq<char>) -> Seq<char> {
        match self {
            WordBase::Text(_) => trimmed(t),
            WordBase::Db(_) => t,
        }
    }

    /// True while the backend can still assign an identity to a fresh entry.
    pub open spec fn can_insert(&self) -> bool {
        match self {
            WordBase::Text(_) => true,
            WordBase::Db(d) => d.next_id < i32::MAX,
        }
    }

    /// True while the backend can still assign identities to `n` further
    /// fresh entries.
    pub open spec fn insert_headroom(&self, n: int) -> bool {
        match self {
            WordBase::Text(_) => true,
            WordBase::Db(d) => d.next_id + n <= i32::MAX,
        }
    }

    /// Returns one entry of the eligible collection — every entry for the
    /// text backend, the unused entries for the table backend — or nothing
    /// when that collection is empty.
    pub fn get_random_word(&self) -> (r: Option<Word>)
        ensures
            match self {
                WordBase::Text(t) => (r is Some) == (t.words@.len() > 0),
                WordBase::Db(d) => (r is Some) == (exists|i: int|
                    0 <= i < d.rows@.len() && !(#[trigger] d.rows@[i]).used),
            },
            r matches Some(w) ==> self.keys().contains(self.stored_key(w.word@)),
            match self {
                WordBase::Text(_) => r matches Some(w) ==> w.id == 0 && w.used == false,
                WordBase::Db(d) => r matches Some(w) ==> w.used == false && exists|i: int|
                    0 <= i < d.rows@.len() && (#[trigger] d.rows@[i]).id == w.id
                        && d.rows@[i].word@ == w.word@ && !d.rows@[i].used,
            },
    {
        match self {
            WordBase::Text(t) => {
                let r = t.get_random_word();
                proof {
                    if r is Some {
                        let w = r->Some_0;
                        let i = choose|i: int|
                            0 <= i < t.texts().len() && t.texts()[i] == w.word@;
                        assert(self.keys()[i] == trimmed(t.texts()[i]));
                        lemma_random_line_is_key(t.texts(), w.word@);
                    }
                }
                r
            },
            WordBase::Db(d) => {
                let r = d.get_random_word();
                proof {
                    if r is Some {
                        let w = r->Some_0;
                        let i = choose|i: int|
                            0 <= i < d.rows@.len() && d.rows@[i].id == w.id && d.rows@[i].word@
                                == w.word@ && !d.rows@[i].used;
                        assert(self.keys()[i] == w.word@);
                    }
                }
                r
            },
        }
    }

    /// Exact lookup of a stored word, ignoring the used flag; an absent
    /// word yields nothing, which is not an error.
    pub fn find_word(&self, text: &str) -> (r: Option<Word>)
        ensures
            (r is Some) == self.has_text(text@),
            r matches Some(w) ==> w.word@ == text@,
            match self {
                WordBase::Text(_) => r matches Some(w) ==> w.id == 0 && w.used == false,
                WordBase::Db(d) => r matches Some(w) ==> exists|i: int|
                    0 <= i < d.rows@.len() && (#[trigger] d.rows@[i]).id == w.id
                        && d.rows@[i].word@ == w.word@ && d.rows@[i].used == w.used,
            },
    {
        match self {
            WordBase::Text(t) => {
                let r = t.find_word(text);
                proof {
                    lemma_text_keys_match(t.texts(), text@);
                }
                r
            },
            WordBase::Db(d) => {
                let r = d.find_word(text);
                proof {
                    lemma_db_keys_match(d.rows@, text@);
                }
                r
            },
        }
    }

    /// Idempotent insert: a word the collection already stores is left
    /// alone, any other is appended under its stored key.
    pub fn create_word(&mut self, text: &str) -> (inserted: bool)
        requires
            old(self).wf(),
            old(self).can_insert(),
        ensures
            final(self).wf(),
            inserted == !old(self).has_text(text@),
            inserted ==> final(self).keys() == old(self).keys().push(
                old(self).stored_key(text@),
            ),
            !inserted ==> *final(self) == *old(self),
            (*final(self) is Text) == (*old(self) is Text),
            *old(self) is Db ==> (*final(self))->Db_0.next_id <= (*old(self))->Db_0.next_id + 1,
    {
        match self {
            WordBase::Text(t) => {
                proof {
                    lemma_text_keys_match(t.texts(), text@);
                }
                let inserted = t.create_word(text);
                proof {
                    if inserted {
                        assert(final(self).keys() =~= old(self).keys().push(trimmed(text@)));
                    }
                }
                inserted
            },
            WordBase::Db(d) => {
                proof {
                    lemma_db_keys_match(d.rows@, text@);
                }
                let inserted = d.create_word(text);
                proof {
                    if inserted {
                        assert(forall|i: int|
                            0 <= i < (*old(self))->Db_0.rows@.len()
                                ==> (#[trigger] (*final(self))->Db_0.rows@[i])
                                == (*old(self))->Db_0.rows@[i]);
                        assert(final(self).keys() =~= old(self).keys().push(text@));
                    }
                }
                inserted
            },
        }
    }

    /// Mark the entry bearing the given identity as used; reports whether a
    /// stored entry was affected. The text backend keeps no usage state and
    /// reports no effect.
    pub fn update_word(&mut self, word: Word) -> (r: bool)
        requires
            old(self).wf(),
        ensures
            final(self).wf(),
            match (*old(self), *final(self)) {
                (WordBase::Text(t0), WordBase::Text(t1)) => t0 == t1 && r == false,
                (WordBase::Db(d0), WordBase::Db(d1)) => db_update_post(d0, d1, word, r),
                _ => false,
            },
    {
        match self {
            WordBase::Text(t) => t.update_word(word),
            WordBase::Db(d) => d.update_word(word),
        }
    }
}

proof fn lemma_text_keys_match(texts: Seq<Seq<char>>, t: Seq<char>)
    ensures
        has_match(texts, t) == texts.map_values(|w: Seq<char>| trimmed(w)).contains(t),
{
    let keys = texts.map_values(|w: Seq<char>| trimmed(w));
    if has_match(texts, t) {
        let i = choose|i: int| 0 <= i < texts.len() && trimmed(#[trigger] texts[i]) == t;
        assert(keys[i] == t);
    }
    if keys.contains(t) {
        let i = choose|i: int| 0 <= i < keys.len() && keys[i] == t;
        assert(trimmed(texts[i]) == t);
    }
}

proof fn lemma_db_keys_match(rows: Seq<Word>, t: Seq<char>)
    ensures
        db_has(rows, t) == rows.map_values(|r: Word| r.word@).contains(t),
{
    let keys = rows.map_values(|r: Word| r.word@);
    if db_has(rows, t) {
        let i = choose|i: int| 0 <= i < rows.len() && (#[trigger] rows[i]).word@ == t;
        assert(keys[i] == t);
    }
    if keys.contains(t) {
        let i = choose|i: int| 0 <= i < keys.len() && keys[i] == t;
        assert(rows[i].word@ == t);
    }
}

proof fn lemma_random_line_is_key(texts: Seq<Seq<char>>, w: Seq<char>)
    requires
        texts.contains(w),
    ensures
        texts.map_values(|x: Seq<char>| trimmed(x)).contains(trimmed(w)),
{
    let i = choose|i: int| 0 <= i < texts.len() && texts[i] == w;
    assert(texts.map_values(|x: Seq<char>| trimmed(x))[i] == trimmed(w));
}

/// One insert at the level of stored keys: a collection that already
/// stores the word is left alone, otherwise the word is appended.
pub open spec fn spec_insert(keys: Seq<Seq<char>>, t: Seq<char>) -> Seq<Seq<char>> {
    if keys.contains(t) {
        keys
    } else {
        keys.push(t)
    }
}

/// The number of stored keys equal to `t`.
pub open spec fn count_eq(keys: Seq<Seq<char>>, t: Seq<char>) -> nat
    decreases keys.len(),
{
    if keys.len() == 0 {
        0
    } else {
        count_eq(keys.drop_last(), t) + (if keys.last() == t {
            1nat
        } else {
            0nat
        })
    }
}

proof fn lemma_count_eq_zero(keys: Seq<Seq<char>>, t: Seq<char>)
    ensures
        (count_eq(keys, t) == 0) == !keys.contains(t),
    decreases keys.len(),
{
    if keys.len() > 0 {
        lemma_count_eq_zero(keys.drop_last(), t);
        if keys.last() == t {
            assert(keys[keys.len() - 1] == t);
        } else {
            if keys.contains(t) {
                let i = choose|i: int| 0 <= i < keys.len() && keys[i] == t;
                assert(i < keys.len() - 1);
                assert(keys.drop_last()[i] == t);
            }
            if keys.drop_last().contains(t) {
                let i = choose|i: int|
                    0 <= i < keys.drop_last().len() && keys.drop_last()[i] == t;
                assert(keys[i] == t);
            }
        }
    }
}

/// Law: inserting a word into a word collection is idempotent — after one
/// insert the word is stored, a second insert of the same word changes
/// nothing (so it also reports no fresh insertion), and a word absent
/// before the first insert is stored exactly once afterwards.
pub proof fn lemma_insert_idempotent(keys: Seq<Seq<char>>, t: Seq<char>)
    ensures
        spec_insert(keys, t).contains(t),
        spec_insert(spec_insert(keys, t), t) == spec_insert(keys, t),
        !keys.contains(t) ==> count_eq(spec_insert(keys, t), t) == 1,
{
    if !keys.contains(t) {
        assert(keys.push(t)[keys.len() as int] == t);
        assert(keys.push(t).drop_last() =~= keys);
        lemma_count_eq_zero(keys, t);
    }
}

/// Law: a successful used-marking is monotonic and excludes the marked
/// entry from the eligible rows — afterwards no unused row bears the marked
/// identity, so a random pick, which only returns unused rows, can no
/// longer return that entry; and no row's used flag ever reverts.
pub proof fn lemma_mark_used_excludes(pre: DbWordBase, post: DbWordBase, word: Word, r: bool)
    requires
        pre.wf(),
        db_update_post(pre, post, word, r),
    ensures
        forall|i: int|
            0 <= i < post.rows@.len() && !(#[trigger] post.rows@[i]).used ==> post.rows@[i].id
                != word.id,
        forall|i: int|
            0 <= i < pre.rows@.len() && (#[trigger] pre.rows@[i]).used ==> post.rows@[i].used,
{
}

} // verus!
