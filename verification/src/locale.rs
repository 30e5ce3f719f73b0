//! Locale handling and folding of words to a restricted ASCII alphabet.
//!
//! For the German locale, umlaut-bearing characters are first expanded to
//! their two-letter digraphs; every remaining non-ASCII character is then
//! transliterated to its closest ASCII approximation.

use vstd::prelude::*;

use crate::strings::{chars_to_string, str_eq, str_to_chars};

verus! {

/// The locales the word game knows about.
#[derive(Clone, Copy, Debug, PartialEq, Eq, Structural)]
pub enum AppLanguage {
    DE,
    EN,
}

/// ASCII transliteration of a character sequence, as computed by the
/// transliteration routine the normalizer calls.
pub uninterp spec fn ascii_of(s: Seq<char>) -> Seq<char>;

/// Relies on `any_ascii::any_ascii`: transliterates character by character,
/// depending on the characters alone; ASCII input is passed through
/// unchanged and the result consists of ASCII characters only.
#[verifier::external_body]
fn to_ascii(word: &str) -> (r: String)
    ensures
        r@ == ascii_of(word@),
        vstd::utf8::is_ascii_chars(r@),
        vstd::utf8::is_ascii_chars(word@) ==> r@ == word@,
{
    any_ascii::any_ascii(word)
}

/// Lowercase folding of a character sequence, as computed by the standard
/// library.
pub uninterp spec fn lower_of(s: Seq<char>) -> Seq<char>;

/// True when every character is ASCII and none is an uppercase letter, so
/// that lowercase folding has nothing to change.
pub open spec fn ascii_no_upper(s: Seq<char>) -> bool {
    forall|i: int|
        0 <= i < s.len() ==> '\0' <= #[trigger] s[i] <= '\u{7f}' && !('A' <= s[i] <= 'Z')
}

/// Relies on `str::to_lowercase`: the result depends on the characters
/// alone, an empty input stays empty, and a character without an uppercase
/// mapping — every ASCII character but `A` to `Z` — is left unchanged.
#[verifier::external_body]
pub fn to_lower(s: &str) -> (r: String)
    ensures
        r@ == lower_of(s@),
        s@.len() == 0 ==> r@.len() == 0,
        ascii_no_upper(s@) ==> r@ == s@,
{
    s.to_lowercase()
}

/// The digraph expansion of a single character: umlaut-bearing vowels map to
/// their two-letter counterparts, every other character to itself.
pub open spec fn umlaut_expansion(c: char) -> Seq<char> {
    if c == '\u{e4}' {  // a-umlaut
        seq!['a', 'e']
    } else if c == '\u{f6}' {  // o-umlaut
        seq!['o', 'e']
    } else if c == '\u{fc}' {  // u-umlaut
        seq!['u', 'e']
    } else {
        seq![c]
    }
}

/// The word with every umlaut-bearing character expanded to its digraph.
pub open spec fn umlauts_folded(s: Seq<char>) -> Seq<char>
    decreases s.len(),
{
    if s.len() == 0 {
        Seq::empty()
    } else {
        umlaut_expansion(s[0]) + umlauts_folded(s.drop_first())
    }
}

proof fn lemma_umlauts_folded_push(s: Seq<char>, c: char)
    ensures
        umlauts_folded(s.push(c)) == umlauts_folded(s) + umlaut_expansion(c),
    decreases s.len(),
{
    if s.len() == 0 {
        assert(s.push(c).drop_first() =~= Seq::<char>::empty());
        assert(s.push(c)[0] == c);
        assert(umlauts_folded(Seq::<char>::empty()) == Seq::<char>::empty());
        assert(umlauts_folded(s.push(c)) == umlaut_expansion(c) + Seq::<char>::empty());
        assert(umlaut_expansion(c) + Seq::<char>::empty() =~= umlaut_expansion(c));
        assert(umlauts_folded(s) + umlaut_expansion(c) =~= umlaut_expansion(c));
    } else {
        assert(s.push(c).drop_first() =~= s.drop_first().push(c));
        lemma_umlauts_folded_push(s.drop_first(), c);
        assert(umlauts_folded(s.push(c)) == umlaut_expansion(s[0]) + (umlauts_folded(
            s.drop_first(),
        ) + umlaut_expansion(c)));
        assert(umlaut_expansion(s[0]) + (umlauts_folded(s.drop_first()) + umlaut_expansion(c))
            =~= (umlaut_expansion(s[0]) + umlauts_folded(s.drop_first())) + umlaut_expansion(c));
    }
}

/// Replace umlaut-bearing characters with their two-letter counterparts.
/// The parameter is expected to be lowercase.
pub fn replace_umlauts(word: &str) -> (r: String)
    ensures
        r@ == umlauts_folded(word@),
{
    let chars = str_to_chars(word);
    let mut out: Vec<char> = Vec::new();
    let mut i: usize = 0;
    proof {
        assert(word@.take(0) =~= Seq::<char>::empty());
    }
    while i < chars.len()
        invariant
            i <= chars@.len(),
            chars@ == word@,
            out@ == umlauts_folded(word@.take(i as int)),
        decreases chars@.len() - i,
    {
        let c = chars[i];
        if c == '\u{e4}' {
            out.push('a');
            out.push('e');
        } else if c == '\u{f6}' {
            out.push('o');
            out.push('e');
        } else if c == '\u{fc}' {
            out.push('u');
            out.push('e');
        } else {
            out.push(c);
        }
        proof {
            assert(word@.take(i + 1 as int) =~= word@.take(i as int).push(word@[i as int]));
            lemma_umlauts_folded_push(word@.take(i as int), word@[i as int]);
            assert(out@ =~= umlauts_folded(word@.take(i as int)) + umlaut_expansion(
                word@[i as int],
            ));
        }
        i = i + 1;
    }
    proof {
        assert(word@.take(chars@.len() as int) =~= word@);
    }
    chars_to_string(&out)
}

/// The normalized form of a word under a locale: for the German locale the
/// umlaut digraph expansion followed by ASCII transliteration, for every
/// other locale the ASCII transliteration alone.
pub open spec fn normalized(s: Seq<char>, app_language: AppLanguage) -> Seq<char> {
    match app_language {
        AppLanguage::DE => ascii_of(umlauts_folded(s)),
        AppLanguage::EN => ascii_of(s),
    }
}

/// Umlaut digraph expansion leaves a sequence of ASCII characters alone:
/// the umlaut-bearing vowels are not ASCII.
proof fn lemma_umlauts_folded_ascii(s: Seq<char>)
    requires
        vstd::utf8::is_ascii_chars(s),
    ensures
        umlauts_folded(s) == s,
    decreases s.len(),
{
    if s.len() == 0 {
        assert(umlauts_folded(s) =~= s);
    } else {
        assert(forall|i: int|
            0 <= i < s.drop_first().len() ==> s.drop_first()[i] == s[i + 1]);
        lemma_umlauts_folded_ascii(s.drop_first());
        assert(umlaut_expansion(s[0]) == seq![s[0]]);
        assert(seq![s[0]] + s.drop_first() =~= s);
    }
}

/// Eliminate non-ASCII characters.
/// Replace common german special characters with their matching counterparts.
/// The parameter is expected to be lower case.
///
/// The result is restricted to the ASCII alphabet, and a word already
/// within it passes through unchanged.
pub fn replace_unicode(word: &str, app_language: AppLanguage) -> (r: String)
    ensures
        r@ == normalized(word@, app_language),
        vstd::utf8::is_ascii_chars(r@),
        vstd::utf8::is_ascii_chars(word@) ==> r@ == word@,
{
    match app_language {
        AppLanguage::DE => {
            let without_umlauts = replace_umlauts(word);
            proof {
                if vstd::utf8::is_ascii_chars(word@) {
                    lemma_umlauts_folded_ascii(word@);
                }
            }
            to_ascii(without_umlauts.as_str())
        },
        AppLanguage::EN => to_ascii(word),
    }
}

/// Parse locale flag to AppLanguage representation. Defaults to
/// [`AppLanguage::EN`].
pub fn parse_app_language(locale: &str) -> (r: AppLanguage)
    ensures
        locale@ == "de"@ ==> r == AppLanguage::DE,
        locale@ != "de"@ ==> r == AppLanguage::EN,
{
    if str_eq(locale, "de") {
        AppLanguage::DE
    } else {
        AppLanguage::EN
    }
}

} // verus!
