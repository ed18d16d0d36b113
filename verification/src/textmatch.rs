//! Text-matching primitives for search facets.
//!
//! Exact, containment and prefix tests are implemented here and proved
//! against one-line specifications over character sequences. Case-insensitive
//! tests lower-case both sides first; regular-expression tests go through the
//! `regex` crate.

use vstd::prelude::*;

verus! {

/// `needle` occurs in `hay` starting at position `i`.
pub open spec fn matches_at(needle: Seq<char>, hay: Seq<char>, i: int) -> bool {
    &&& 0 <= i
    &&& i + needle.len() <= hay.len()
    &&& hay.subrange(i, i + needle.len()) == needle
}

/// `needle` occurs somewhere in `hay`.
pub open spec fn is_substring_of(needle: Seq<char>, hay: Seq<char>) -> bool {
    exists|i: int| matches_at(needle, hay, i)
}

/// `needle` is a prefix of `hay`.
pub open spec fn is_prefix_str(needle: Seq<char>, hay: Seq<char>) -> bool {
    needle.len() <= hay.len() && hay.subrange(0, needle.len() as int) == needle
}

/// The lower-case form of a character sequence, as `str::to_lowercase`
/// computes it: a function of the characters alone.
pub uninterp spec fn lower_of(s: Seq<char>) -> Seq<char>;

/// Whether the `regex` crate accepts a pattern. `Regex::new` documents that
/// acceptance depends on the pattern alone (syntax and the default size
/// limit).
pub uninterp spec fn regex_ok(pattern: Seq<char>) -> bool;

/// Whether a pattern matches anywhere in a haystack, as `Regex::is_match`
/// decides it: a function of pattern and haystack alone.
pub uninterp spec fn re_match(pattern: Seq<char>, hay: Seq<char>) -> bool;

/// Relies on `str::to_lowercase`: returns the lower-case form of the input,
/// a function of the input characters alone; an empty input stays empty.
#[verifier::external_body]
pub fn to_lowercase(s: &str) -> (r: String)
    ensures
        r@ == lower_of(s@),
        s@.len() == 0 ==> r@.len() == 0,
{
    s.to_lowercase()
}

/// Relies on `regex::Regex::new` and `regex::Regex::is_match`: `new` accepts
/// a pattern iff the pattern is valid (a property of the pattern alone), and
/// `is_match` reports whether the compiled pattern matches anywhere in the
/// haystack (a function of pattern and haystack alone).
#[verifier::external_body]
pub fn regex_search(pattern: &str, hay: &str) -> (r: Option<bool>)
    ensures
        r is Some <==> regex_ok(pattern@),
        r is Some ==> r.unwrap() == re_match(pattern@, hay@),
{
    match regex::Regex::new(pattern) {
        Ok(re) => Some(re.is_match(hay)),
        Err(_) => None,
    }
}

/// `needle` occurs in `hay` at position `at`, tested character by character.
pub fn occurs_at(hay: &str, needle: &str, at: usize) -> (r: bool)
    requires
        at + needle@.len() <= hay@.len(),
        hay@.len() <= usize::MAX,
    ensures
        r == matches_at(needle@, hay@, at as int),
{
    let nlen = needle.unicode_len();
    let mut j: usize = 0;
    while j < nlen
        invariant
            j <= nlen,
            forall|k: int| 0 <= k < j ==> hay@[at + k] == needle@[k],
        decreases nlen - j,
    {
        if hay.get_char(at + j) != needle.get_char(j) {
            assert(hay@.subrange(at as int, at + needle@.len()) != needle@) by {
                assert(hay@.subrange(at as int, at + needle@.len())[j as int] != needle@[j as int]);
            }
            return false;
        }
        j += 1;
    }
    assert(hay@.subrange(at as int, at + needle@.len()) =~= needle@);
    true
}

/// Case-sensitive containment: `needle` occurs somewhere in `hay`.
pub fn contains_str(hay: &str, needle: &str) -> (r: bool)
    ensures
        r == is_substring_of(needle@, hay@),
{
    let hlen = hay.unicode_len();
    let nlen = needle.unicode_len();
    if nlen > hlen {
        assert(!is_substring_of(needle@, hay@)) by {
            assert(forall|i: int| !matches_at(needle@, hay@, i));
        }
        return false;
    }
    if nlen == 0 {
        assert(matches_at(needle@, hay@, 0)) by {
            assert(hay@.subrange(0, 0) =~= needle@);
        }
        return true;
    }
    let mut i: usize = 0;
    while i <= hlen - nlen
        invariant
            i <= hlen - nlen + 1,
            forall|k: int| 0 <= k < i ==> !matches_at(needle@, hay@, k),
        decreases hlen - nlen + 1 - i,
    {
        if occurs_at(hay, needle, i) {
            assert(is_substring_of(needle@, hay@));
            return true;
        }
        i += 1;
    }
    assert(!is_substring_of(needle@, hay@)) by {
        assert(forall|k: int| k >= i ==> !matches_at(needle@, hay@, k));
    }
    false
}

/// Case-sensitive prefix test.
pub fn starts_with_str(hay: &str, needle: &str) -> (r: bool)
    ensures
        r == is_prefix_str(needle@, hay@),
{
    let hlen = hay.unicode_len();
    let nlen = needle.unicode_len();
    if nlen > hlen {
        return false;
    }
    occurs_at(hay, needle, 0)
}

/// Case-sensitive equality of two string slices.
pub fn eq_str(a: &str, b: &str) -> (r: bool)
    ensures
        r == (a@ == b@),
{
    let alen = a.unicode_len();
    let blen = b.unicode_len();
    if alen != blen {
        return false;
    }
    let r = occurs_at(a, b, 0);
    if r {
        assert(a@.subrange(0, b@.len() as int) =~= a@);
    } else {
        assert(a@.subrange(0, b@.len() as int) =~= a@);
    }
    r
}

} // verus!
