//! Small verified string helpers shared by the normalizer, the word base and
//! the import pipeline: character extraction, equality, and trimming of
//! surrounding blank characters.

use vstd::prelude::*;

verus! {

/// Blank characters stripped from both ends of a stored line.
pub open spec fn is_space(c: char) -> bool {
    c == ' ' || c == '\t' || c == '\r' || c == '\n'
}

/// The sequence with its leading blank characters removed.
pub open spec fn trim_front(s: Seq<char>) -> Seq<char>
    decreases s.len(),
{
    if s.len() > 0 && is_space(s[0]) {
        trim_front(s.drop_first())
    } else {
        s
    }
}

/// The sequence with its trailing blank characters removed.
pub open spec fn trim_back(s: Seq<char>) -> Seq<char>
    decreases s.len(),
{
    if s.len() > 0 && is_space(s.last()) {
        trim_back(s.drop_last())
    } else {
        s
    }
}

/// The sequence with blank characters removed from both ends.
pub open spec fn trimmed(s: Seq<char>) -> Seq<char> {
    trim_back(trim_front(s))
}

pub fn is_space_char(c: char) -> (r: bool)
    ensures
        r == is_space(c),
{
    c == ' ' || c == '\t' || c == '\r' || c == '\n'
}

/// Collects the characters of a string slice into a vector.
pub fn str_to_chars(s: &str) -> (r: Vec<char>)
    ensures
        r@ == s@,
{
    let n = s.unicode_len();
    let mut v: Vec<char> = Vec::new();
    let mut i: usize = 0;
    while i < n
        invariant
            i <= n,
            n == s@.len(),
            v@ == s@.take(i as int),
        decreases n - i,
    {
        v.push(s.get_char(i));
        proof {
            assert(s@.take(i + 1 as int) =~= s@.take(i as int).push(s@[i as int]));
        }
        i = i + 1;
    }
    proof {
        assert(s@.take(n as int) =~= s@);
    }
    v
}

/// Relies on `core::iter::Iterator::collect` building a `String` from
/// characters: the collected string holds exactly the characters of the
/// vector, in order.
#[verifier::external_body]
pub fn chars_to_string(v: &Vec<char>) -> (r: String)
    ensures
        r@ == v@,
{
    v.iter().collect()
}

/// Character-by-character string comparison.
pub fn str_eq(a: &str, b: &str) -> (r: bool)
    ensures
        r == (a@ == b@),
{
    let na = a.unicode_len();
    let nb = b.unicode_len();
    if na != nb {
        return false;
    }
    let mut i: usize = 0;
    while i < na
        invariant
            i <= na,
            na == a@.len(),
            na == b@.len(),
            forall|j: int| 0 <= j < i ==> a@[j] == b@[j],
        decreases na - i,
    {
        if a.get_char(i) != b.get_char(i) {
            return false;
        }
        i = i + 1;
    }
    proof {
        assert(a@ =~= b@);
    }
    true
}

proof fn lemma_skip_drop_first(s: Seq<char>, i: int)
    requires
        0 <= i < s.len(),
    ensures
        s.skip(i).drop_first() =~= s.skip(i + 1),
{
}

proof fn lemma_take_drop_last(s: Seq<char>, i: int)
    requires
        0 < i <= s.len(),
    ensures
        s.take(i).drop_last() =~= s.take(i - 1),
{
}

/// Removes blank characters from both ends of a string.
pub fn trim_str(s: &str) -> (r: String)
    ensures
        r@ == trimmed(s@),
{
    let chars = str_to_chars(s);
    let n = chars.len();
    let mut start: usize = 0;
    proof {
        assert(s@.skip(0) =~= s@);
    }
    while start < n && is_space_char(chars[start])
        invariant
            start <= n,
            n == s@.len(),
            chars@ == s@,
            trim_front(s@) == trim_front(s@.skip(start as int)),
            forall|j: int| 0 <= j < start ==> is_space(#[trigger] s@[j]),
        decreases n - start,
    {
        proof {
            lemma_skip_drop_first(s@, start as int);
            assert(s@.skip(start as int)[0] == s@[start as int]);
        }
        start = start + 1;
    }
    // the front-trimmed remainder is exactly s@.skip(start)
    proof {
        if start < n {
            assert(s@.skip(start as int)[0] == s@[start as int]);
        } else {
            assert(s@.skip(start as int) =~= Seq::<char>::empty());
        }
        assert(trim_front(s@) == s@.skip(start as int));
    }
    let ghost t: Seq<char> = s@.skip(start as int);
    let mut end: usize = n - start;
    proof {
        assert(t.take(end as int) =~= t);
    }
    while end > 0 && is_space_char(chars[start + end - 1])
        invariant
            end <= n - start,
            start <= n,
            n == s@.len(),
            chars@ == s@,
            t == s@.skip(start as int),
            trim_back(t) == trim_back(t.take(end as int)),
        decreases end,
    {
        proof {
            lemma_take_drop_last(t, end as int);
            assert(t.take(end as int).last() == t[end - 1]);
            assert(t[end - 1] == s@[start + end - 1]);
        }
        end = end - 1;
    }
    proof {
        if end > 0 {
            assert(t.take(end as int).last() == t[end - 1]);
            assert(t[end - 1] == s@[start + end - 1]);
        } else {
            assert(t.take(0) =~= Seq::<char>::empty());
        }
        assert(trim_back(t) == t.take(end as int));
    }
    let mut out: Vec<char> = Vec::new();
    let mut k: usize = 0;
    while k < end
        invariant
            k <= end,
            end <= n - start,
            start <= n,
            n == s@.len(),
            chars@ == s@,
            t == s@.skip(start as int),
            out@ == t.take(k as int),
        decreases end - k,
    {
        out.push(chars[start + k]);
        proof {
            assert(t.take(k + 1 as int) =~= t.take(k as int).push(t[k as int]));
            assert(t[k as int] == s@[start + k]);
        }
        k = k + 1;
    }
    chars_to_string(&out)
}

/// No blank character leads the front-trimmed sequence.
proof fn lemma_trim_front_no_leading(s: Seq<char>)
    ensures
        trim_front(s).len() > 0 ==> !is_space(trim_front(s)[0]),
    decreases s.len(),
{
    if s.len() > 0 && is_space(s[0]) {
        lemma_trim_front_no_leading(s.drop_first());
    }
}

/// No blank character ends the back-trimmed sequence.
proof fn lemma_trim_back_no_trailing(s: Seq<char>)
    ensures
        trim_back(s).len() > 0 ==> !is_space(trim_back(s).last()),
    decreases s.len(),
{
    if s.len() > 0 && is_space(s.last()) {
        lemma_trim_back_no_trailing(s.drop_last());
    }
}

/// Back-trimming only shortens the sequence, so it keeps the first character.
proof fn lemma_trim_back_prefix(s: Seq<char>)
    ensures
        trim_back(s).len() <= s.len(),
        forall|i: int|
            0 <= i < trim_back(s).len() ==> #[trigger] trim_back(s)[i] == s[i],
    decreases s.len(),
{
    if s.len() > 0 && is_space(s.last()) {
        lemma_trim_back_prefix(s.drop_last());
    }
}

/// A sequence without leading blank is unchanged by front-trimming, and one
/// without trailing blank is unchanged by back-trimming.
proof fn lemma_trim_noop(s: Seq<char>)
    ensures
        s.len() > 0 && !is_space(s[0]) ==> trim_front(s) == s,
        s.len() == 0 ==> trim_front(s) == s && trim_back(s) == s,
        s.len() > 0 && !is_space(s.last()) ==> trim_back(s) == s,
{
}

/// Trimming an already trimmed sequence changes nothing.
pub proof fn lemma_trimmed_idempotent(s: Seq<char>)
    ensures
        trimmed(trimmed(s)) == trimmed(s),
{
    let f = trim_front(s);
    let t = trim_back(f);
    lemma_trim_front_no_leading(s);
    lemma_trim_back_prefix(f);
    lemma_trim_back_no_trailing(f);
    if t.len() > 0 {
        assert(t[0] == f[0]);
        lemma_trim_noop(t);
        assert(trim_front(t) == t);
        assert(trim_back(t) == t);
    } else {
        lemma_trim_noop(t);
    }
}

} // verus!
