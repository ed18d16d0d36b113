//! Splitting strings on a separator, and parsing unsigned numbers, with
//! exact specifications. These back the year-range and country-list parsers.

use vstd::prelude::*;
use crate::textmatch::{matches_at, occurs_at};

verus! {

/// The index of the leftmost occurrence of `sep` in `s`, or -1 when there is
/// none.
pub open spec fn find_sub(s: Seq<char>, sep: Seq<char>) -> int
    decreases s.len(),
{
    if sep.len() <= s.len() && s.take(sep.len() as int) == sep {
        0
    } else if s.len() == 0 {
        -1
    } else {
        let r = find_sub(s.drop_first(), sep);
        if r < 0 {
            -1
        } else {
            r + 1
        }
    }
}

/// Occurrences in the tail of a sequence are occurrences one step later in
/// the whole sequence.
proof fn lemma_matches_shift(sep: Seq<char>, s: Seq<char>, j: int)
    requires
        s.len() > 0,
        j >= 0,
    ensures
        matches_at(sep, s.drop_first(), j) == matches_at(sep, s, j + 1),
{
    if j + sep.len() <= s.drop_first().len() {
        assert(s.drop_first().subrange(j, j + sep.len() as int) =~= s.subrange(
            j + 1,
            j + 1 + sep.len() as int,
        ));
    }
}

/// Occurrences in `s.skip(k)` are occurrences `k` later in `s`.
proof fn lemma_skip_matches(s: Seq<char>, sep: Seq<char>, k: int, j: int)
    requires
        0 <= k <= s.len(),
        0 <= j,
    ensures
        matches_at(sep, s.skip(k), j) == matches_at(sep, s, j + k),
{
    if j + sep.len() <= s.skip(k).len() {
        assert(s.skip(k).subrange(j, j + sep.len() as int) =~= s.subrange(
            j + k,
            j + k + sep.len() as int,
        ));
    }
}

/// `find_sub` returns the first occurrence: a match lies there and no match
/// lies earlier; -1 means no match at all.
proof fn lemma_find_sub(s: Seq<char>, sep: Seq<char>)
    ensures
        find_sub(s, sep) >= 0 ==> matches_at(sep, s, find_sub(s, sep)) && (forall|j: int|
            0 <= j < find_sub(s, sep) ==> !(#[trigger] matches_at(sep, s, j))),
        find_sub(s, sep) < 0 ==> forall|j: int| !(#[trigger] matches_at(sep, s, j)),
    decreases s.len(),
{
    if sep.len() <= s.len() && s.take(sep.len() as int) == sep {
        assert(matches_at(sep, s, 0)) by {
            assert(s.subrange(0, sep.len() as int) =~= s.take(sep.len() as int));
        }
    } else if s.len() == 0 {
        assert(forall|j: int| !(#[trigger] matches_at(sep, s, j)));
    } else {
        lemma_find_sub(s.drop_first(), sep);
        assert forall|j: int| 1 <= j implies #[trigger] matches_at(sep, s, j) == matches_at(
            sep,
            s.drop_first(),
            j - 1,
        ) by {
            lemma_matches_shift(sep, s, j - 1);
        }
        assert(!matches_at(sep, s, 0)) by {
            if matches_at(sep, s, 0) {
                assert(s.subrange(0, sep.len() as int) =~= s.take(sep.len() as int));
            }
        }
        let r = find_sub(s.drop_first(), sep);
        if r >= 0 {
            assert(matches_at(sep, s.drop_first(), r));
            assert(matches_at(sep, s, r + 1));
        }
    }
}

/// The segments of `s` between non-overlapping occurrences of `sep`, found
/// left to right. There is always at least one segment; a separator at the
/// very end yields a final empty segment.
pub open spec fn spec_split(s: Seq<char>, sep: Seq<char>) -> Seq<Seq<char>>
    decreases s.len(),
    when sep.len() >= 1
    via spec_split_decreases
{
    let i = find_sub(s, sep);
    if i < 0 {
        seq![s]
    } else {
        seq![s.take(i)] + spec_split(s.skip(i + sep.len()), sep)
    }
}

#[via_fn]
proof fn spec_split_decreases(s: Seq<char>, sep: Seq<char>) {
    lemma_find_sub(s, sep);
}

/// Splits `s` on `sep`, left to right and without overlaps.
pub fn split_on(s: &str, sep: &str) -> (r: Vec<String>)
    requires
        sep@.len() >= 1,
    ensures
        r.deep_view() == spec_split(s@, sep@),
{
    let slen = s.unicode_len();
    let seplen = sep.unicode_len();
    let mut out: Vec<String> = Vec::new();
    let mut seg_start: usize = 0;
    let mut i: usize = 0;
    proof {
        assert(s@.skip(0) =~= s@);
        assert(out.deep_view() =~= Seq::<Seq<char>>::empty());
    }
    if seplen <= slen {
        while i <= slen - seplen
            invariant
                seg_start <= i,
                i <= slen,
                seplen >= 1,
                seplen <= slen,
                out.deep_view() + spec_split(s@.skip(seg_start as int), sep@) == spec_split(
                    s@,
                    sep@,
                ),
                forall|j: int| seg_start <= j < i ==> !matches_at(sep@, s@, j),
            decreases slen - i,
        {
            if occurs_at(s, sep, i) {
                let seg = s.substring_char(seg_start, i);
                let ghost prev = out.deep_view();
                out.push(seg.to_owned());
                proof {
                    let tail = s@.skip(seg_start as int);
                    let k = i - seg_start;
                    lemma_find_sub(tail, sep@);
                    assert(matches_at(sep@, tail, k)) by {
                        lemma_skip_matches(s@, sep@, seg_start as int, k);
                    }
                    assert(find_sub(tail, sep@) == k) by {
                        let f = find_sub(tail, sep@);
                        if 0 <= f < k {
                            lemma_skip_matches(s@, sep@, seg_start as int, f);
                            assert(matches_at(sep@, s@, f + seg_start));
                        }
                        if f > k {
                            assert(!matches_at(sep@, tail, k));
                        }
                    }
                    assert(tail.take(k) =~= seg@);
                    assert(tail.skip(k + sep@.len()) =~= s@.skip(i + seplen));
                    assert(spec_split(tail, sep@) == seq![seg@] + spec_split(
                        s@.skip(i + seplen),
                        sep@,
                    ));
                    assert(out.deep_view() =~= prev.push(seg@));
                    assert(out.deep_view() + spec_split(s@.skip(i + seplen), sep@) =~= prev
                        + spec_split(tail, sep@));
                }
                i = i + seplen;
                seg_start = i;
            } else {
                i = i + 1;
            }
        }
    }
    assert(i + seplen > slen);
    let tail_seg = s.substring_char(seg_start, slen);
    let ghost prev = out.deep_view();
    out.push(tail_seg.to_owned());
    proof {
        let tail = s@.skip(seg_start as int);
        lemma_find_sub(tail, sep@);
        assert(find_sub(tail, sep@) < 0) by {
            let f = find_sub(tail, sep@);
            if f >= 0 {
                assert(matches_at(sep@, tail, f));
                lemma_skip_matches(s@, sep@, seg_start as int, f);
                assert(matches_at(sep@, s@, f + seg_start));
            }
        }
        assert(spec_split(tail, sep@) == seq![tail]);
        assert(tail_seg@ =~= tail);
        assert(out.deep_view() =~= prev.push(tail));
        assert(out.deep_view() =~= prev + spec_split(tail, sep@));
    }
    out
}

/// A decimal digit.
pub open spec fn is_digit(c: char) -> bool {
    48 <= c as u32 <= 57
}

/// The value of a decimal digit.
pub open spec fn digit_val(c: char) -> int {
    c as u32 - 48
}

/// Every character of `s` is a decimal digit.
pub open spec fn all_digits(s: Seq<char>) -> bool {
    forall|i: int| 0 <= i < s.len() ==> is_digit(#[trigger] s[i])
}

/// The value of a sequence of decimal digits, most significant first.
pub open spec fn digits_value(s: Seq<char>) -> int
    decreases s.len(),
{
    if s.len() == 0 {
        0
    } else {
        digits_value(s.drop_last()) * 10 + digit_val(s.last())
    }
}

/// The digit part of an unsigned-number string: everything after an optional
/// leading plus sign.
pub open spec fn digit_part(s: Seq<char>) -> Seq<char> {
    if s.len() > 0 && s[0] == '+' {
        s.drop_first()
    } else {
        s
    }
}

/// `s` is an unsigned decimal that fits in a `u16`, as `str::parse::<u16>`
/// accepts it: an optional plus sign, then one or more digits, with a value
/// of at most 65535.
pub open spec fn is_u16_string(s: Seq<char>) -> bool {
    &&& digit_part(s).len() > 0
    &&& all_digits(digit_part(s))
    &&& digits_value(digit_part(s)) <= u16::MAX
}

/// The value of a digit sequence is never negative.
proof fn lemma_digits_value_nonneg(s: Seq<char>)
    requires
        all_digits(s),
    ensures
        digits_value(s) >= 0,
    decreases s.len(),
{
    if s.len() > 0 {
        assert(all_digits(s.drop_last()));
        lemma_digits_value_nonneg(s.drop_last());
    }
}

/// A prefix of a digit sequence never has a larger value than the whole.
proof fn lemma_digits_value_prefix(s: Seq<char>, j: int)
    requires
        all_digits(s),
        0 <= j <= s.len(),
    ensures
        digits_value(s.take(j)) <= digits_value(s),
    decreases s.len() - j,
{
    if j < s.len() {
        lemma_digits_value_prefix(s, j + 1);
        let t = s.take(j + 1);
        assert(t.drop_last() =~= s.take(j));
        assert(all_digits(t.drop_last()));
        lemma_digits_value_nonneg(t.drop_last());
        assert(digits_value(t) == digits_value(s.take(j)) * 10 + digit_val(t.last()));
        assert(digits_value(s.take(j)) <= digits_value(t));
    } else {
        assert(s.take(j) =~= s);
    }
}

/// Parses an unsigned decimal into a `u16`, accepting exactly the strings
/// `str::parse::<u16>` accepts.
pub fn parse_u16(s: &str) -> (r: Option<u16>)
    ensures
        r is Some <==> is_u16_string(s@),
        r is Some ==> r.unwrap() as int == digits_value(digit_part(s@)),
{
    let len = s.unicode_len();
    let start: usize = if len > 0 && s.get_char(0) == '+' {
        1
    } else {
        0
    };
    proof {
        assert(digit_part(s@) =~= s@.skip(start as int));
    }
    if start == len {
        return None;
    }
    let mut acc: u32 = 0;
    let mut i: usize = start;
    while i < len
        invariant
            start <= i <= len,
            start <= 1,
            len == s@.len(),
            digit_part(s@) == s@.skip(start as int),
            all_digits(s@.subrange(start as int, i as int)),
            acc as int == digits_value(s@.subrange(start as int, i as int)),
            acc <= u16::MAX,
        decreases len - i,
    {
        let c = s.get_char(i);
        let cu = c as u32;
        if cu < 48 || cu > 57 {
            assert(!is_u16_string(s@)) by {
                assert(digit_part(s@)[i - start] == s@[i as int]);
            }
            return None;
        }
        let d = cu - 48;
        let next = acc * 10 + d;
        proof {
            let t = s@.subrange(start as int, i + 1);
            assert(t.drop_last() =~= s@.subrange(start as int, i as int));
            assert(all_digits(t));
            assert(digits_value(t) == acc as int * 10 + d);
        }
        if next > u16::MAX as u32 {
            assert(!is_u16_string(s@)) by {
                if is_u16_string(s@) {
                    let dp = digit_part(s@);
                    assert(dp.take(i + 1 - start) =~= s@.subrange(start as int, i + 1));
                    lemma_digits_value_prefix(dp, i + 1 - start);
                }
            }
            return None;
        }
        acc = next;
        i += 1;
        proof {
            assert(s@.subrange(start as int, i as int).drop_last() =~= s@.subrange(
                start as int,
                i - 1,
            ));
        }
    }
    proof {
        assert(s@.subrange(start as int, len as int) =~= s@.skip(start as int));
    }
    Some(acc as u16)
}

} // verus!
