//! The on-disk catalog cache, as a byte snapshot.
//!
//! The five relations are framed into one byte string: little-endian
//! lengths, UTF-8 string bytes, and dates as year/month/day. Decoding is
//! proved to invert encoding exactly, so a cache written by this crate and
//! read back yields the catalog it was written from. Reading and writing
//! the actual file is the caller's concern; this module only turns catalogs
//! into bytes and back.

use vstd::prelude::*;
use vstd::bytes::{
    lemma_auto_spec_u32_to_from_le_bytes, lemma_auto_spec_u64_to_from_le_bytes,
    spec_u32_from_le_bytes, spec_u32_to_le_bytes, spec_u64_from_le_bytes, spec_u64_to_le_bytes,
    u32_from_le_bytes, u32_to_le_bytes, u64_from_le_bytes, u64_to_le_bytes,
};
use vstd::slice::{slice_subrange, slice_to_vec};
use vstd::utf8::{decode_utf8, encode_utf8, encode_utf8_decode_utf8, encode_utf8_valid_utf8, valid_utf8};
use crate::dates::Date;
use crate::metadata::{
    CountryRow, CountryRowV, DataPublisherRow, DataPublisherRowV, GeometryMetadataRow,
    GeometryMetadataRowV, Metadata, MetadataV, MetricRow, MetricRowV, SourceDataReleaseRow,
    SourceDataReleaseRowV,
};
use crate::error::PopgetterError;

verus! {

/// Joins a cache directory and a file name with a slash.
pub fn prepend(cache_path: &str, file_name: &str) -> (r: String)
    ensures
        r@ == cache_path@ + "/"@ + file_name@,
{
    let mut out = cache_path.to_owned();
    out.append("/");
    out.append(file_name);
    out
}

/// An eight-byte little-endian length or count.
pub open spec fn enc_u64(n: u64) -> Seq<u8> {
    spec_u64_to_le_bytes(n)
}

/// A four-byte little-endian value.
pub open spec fn enc_u32(n: u32) -> Seq<u8> {
    spec_u32_to_le_bytes(n)
}

/// A string: its UTF-8 byte length, then its UTF-8 bytes.
pub open spec fn enc_str(s: Seq<char>) -> Seq<u8> {
    enc_u64(encode_utf8(s).len() as u64) + encode_utf8(s)
}

/// A date: the year in two's complement, then month and day bytes.
pub open spec fn enc_date(d: Date) -> Seq<u8> {
    enc_u32(d.year as u32) + seq![d.month, d.day]
}

/// The strings of a list, one after the other.
pub open spec fn enc_strs(ss: Seq<Seq<char>>) -> Seq<u8>
    decreases ss.len(),
{
    if ss.len() == 0 {
        Seq::empty()
    } else {
        enc_str(ss[0]) + enc_strs(ss.drop_first())
    }
}

/// A string list: its count, then its strings.
pub open spec fn enc_str_list(ss: Seq<Seq<char>>) -> Seq<u8> {
    enc_u64(ss.len() as u64) + enc_strs(ss)
}

/// The dates of a list, one after the other.
pub open spec fn enc_dates(ds: Seq<Date>) -> Seq<u8>
    decreases ds.len(),
{
    if ds.len() == 0 {
        Seq::empty()
    } else {
        enc_date(ds[0]) + enc_dates(ds.drop_first())
    }
}

/// A string's encoding fits its length field.
pub open spec fn str_fits(s: Seq<char>) -> bool {
    encode_utf8(s).len() <= u64::MAX
}

/// A string list's encoding fits its count and length fields.
pub open spec fn str_list_fits(ss: Seq<Seq<char>>) -> bool {
    ss.len() <= u64::MAX && forall|i: int| 0 <= i < ss.len() ==> str_fits(#[trigger] ss[i])
}

/// Reads an eight-byte little-endian value.
pub open spec fn dec_u64(b: Seq<u8>, pos: int) -> Option<(u64, int)> {
    if 0 <= pos && pos + 8 <= b.len() {
        Some((spec_u64_from_le_bytes(b.subrange(pos, pos + 8)), pos + 8))
    } else {
        None
    }
}

/// Reads a four-byte little-endian value.
pub open spec fn dec_u32(b: Seq<u8>, pos: int) -> Option<(u32, int)> {
    if 0 <= pos && pos + 4 <= b.len() {
        Some((spec_u32_from_le_bytes(b.subrange(pos, pos + 4)), pos + 4))
    } else {
        None
    }
}

/// Reads a length-prefixed UTF-8 string.
pub open spec fn dec_str(b: Seq<u8>, pos: int) -> Option<(Seq<char>, int)> {
    match dec_u64(b, pos) {
        Some((n, p)) => if p + n <= b.len() && valid_utf8(b.subrange(p, p + n)) {
            Some((decode_utf8(b.subrange(p, p + n)), p + n))
        } else {
            None
        },
        None => None,
    }
}

/// Reads a date.
pub open spec fn dec_date(b: Seq<u8>, pos: int) -> Option<(Date, int)> {
    match dec_u32(b, pos) {
        Some((y, p)) => if p + 2 <= b.len() {
            Some((Date { year: y as i32, month: b[p], day: b[p + 1] }, p + 2))
        } else {
            None
        },
        None => None,
    }
}

/// Reads `n` strings in a row.
pub open spec fn dec_strs(b: Seq<u8>, pos: int, n: nat) -> Option<(Seq<Seq<char>>, int)>
    decreases n,
{
    if n == 0 {
        Some((Seq::empty(), pos))
    } else {
        match dec_str(b, pos) {
            Some((s, p)) => match dec_strs(b, p, (n - 1) as nat) {
                Some((ss, p2)) => Some((seq![s] + ss, p2)),
                None => None,
            },
            None => None,
        }
    }
}

/// Reads a count-prefixed string list.
pub open spec fn dec_str_list(b: Seq<u8>, pos: int) -> Option<(Seq<Seq<char>>, int)> {
    match dec_u64(b, pos) {
        Some((n, p)) => dec_strs(b, p, n as nat),
        None => None,
    }
}

/// Reads `n` dates in a row.
pub open spec fn dec_dates(b: Seq<u8>, pos: int, n: nat) -> Option<(Seq<Date>, int)>
    decreases n,
{
    if n == 0 {
        Some((Seq::empty(), pos))
    } else {
        match dec_date(b, pos) {
            Some((d, p)) => match dec_dates(b, p, (n - 1) as nat) {
                Some((ds, p2)) => Some((seq![d] + ds, p2)),
                None => None,
            },
            None => None,
        }
    }
}

/// A piece of an encoding framed inside a larger byte string is itself
/// framed there.
proof fn lemma_subrange_frame(b: Seq<u8>, pos: int, whole: Seq<u8>, off: int, part: Seq<u8>)
    requires
        0 <= pos,
        pos + whole.len() <= b.len(),
        b.subrange(pos, pos + whole.len()) == whole,
        0 <= off,
        off + part.len() <= whole.len(),
        whole.subrange(off, off + part.len()) == part,
    ensures
        b.subrange(pos + off, pos + off + part.len()) == part,
{
    assert forall|i: int| 0 <= i < part.len() implies b.subrange(
        pos + off,
        pos + off + part.len(),
    )[i] == part[i] by {
        assert(b.subrange(pos, pos + whole.len())[off + i] == whole[off + i]);
        assert(whole.subrange(off, off + part.len())[i] == whole[off + i]);
    }
    assert(b.subrange(pos + off, pos + off + part.len()) =~= part);
}

/// An encoded value is read back from wherever it stands in a larger byte
/// string: the eight-byte case.
proof fn lemma_dec_u64_frame(b: Seq<u8>, pos: int, n: u64)
    requires
        0 <= pos,
        pos + 8 <= b.len(),
        b.subrange(pos, pos + 8) == enc_u64(n),
    ensures
        dec_u64(b, pos) == Some((n, pos + 8)),
{
    lemma_auto_spec_u64_to_from_le_bytes();
}

/// The four-byte case.
proof fn lemma_dec_u32_frame(b: Seq<u8>, pos: int, n: u32)
    requires
        0 <= pos,
        pos + 4 <= b.len(),
        b.subrange(pos, pos + 4) == enc_u32(n),
    ensures
        dec_u32(b, pos) == Some((n, pos + 4)),
{
    lemma_auto_spec_u32_to_from_le_bytes();
    let l = spec_u32_to_le_bytes(n).len();
    assert(l == 4);
}

/// The string case.
proof fn lemma_dec_str_frame(b: Seq<u8>, pos: int, s: Seq<char>)
    requires
        0 <= pos,
        str_fits(s),
        pos + enc_str(s).len() <= b.len(),
        b.subrange(pos, pos + enc_str(s).len()) == enc_str(s),
    ensures
        dec_str(b, pos) == Some((s, pos + enc_str(s).len())),
{
    broadcast use encode_utf8_valid_utf8, encode_utf8_decode_utf8;

    lemma_auto_spec_u64_to_from_le_bytes();
    let bytes = encode_utf8(s);
    let n = bytes.len() as u64;
    let whole = enc_str(s);
    assert(whole.subrange(0, 8) =~= enc_u64(n));
    lemma_subrange_frame(b, pos, whole, 0, enc_u64(n));
    lemma_dec_u64_frame(b, pos, n);
    assert(whole.subrange(8, 8 + bytes.len() as int) =~= bytes);
    lemma_subrange_frame(b, pos, whole, 8, bytes);
}

/// The date case.
proof fn lemma_dec_date_frame(b: Seq<u8>, pos: int, d: Date)
    requires
        0 <= pos,
        pos + 6 <= b.len(),
        b.subrange(pos, pos + 6) == enc_date(d),
    ensures
        dec_date(b, pos) == Some((d, pos + 6)),
{
    lemma_auto_spec_u32_to_from_le_bytes();
    let l = spec_u32_to_le_bytes(d.year as u32).len();
    assert(l == 4);
    assert(b.subrange(pos, pos + 4) =~= enc_u32(d.year as u32));
    lemma_dec_u32_frame(b, pos, d.year as u32);
    assert(b[pos + 4] == enc_date(d)[4] && b[pos + 5] == enc_date(d)[5]);
    let y = d.year;
    assert(((y as u32) as i32) == y) by (bit_vector);
}

/// The string-sequence case.
proof fn lemma_dec_strs_frame(b: Seq<u8>, pos: int, ss: Seq<Seq<char>>)
    requires
        0 <= pos,
        str_list_fits(ss),
        pos + enc_strs(ss).len() <= b.len(),
        b.subrange(pos, pos + enc_strs(ss).len()) == enc_strs(ss),
    ensures
        dec_strs(b, pos, ss.len()) == Some((ss, pos + enc_strs(ss).len())),
    decreases ss.len(),
{
    lemma_auto_spec_u64_to_from_le_bytes();
    if ss.len() > 0 {
        let head = enc_str(ss[0]);
        let rest = enc_strs(ss.drop_first());
        let whole = enc_strs(ss);
        assert(whole == head + rest);
        assert(whole.subrange(0, head.len() as int) =~= head);
        lemma_subrange_frame(b, pos, whole, 0, head);
        lemma_dec_str_frame(b, pos, ss[0]);
        assert(whole.subrange(head.len() as int, (head.len() + rest.len()) as int) =~= rest);
        lemma_subrange_frame(b, pos, whole, head.len() as int, rest);
        assert(str_list_fits(ss.drop_first())) by {
            assert(forall|i: int|
                0 <= i < ss.drop_first().len() ==> ss.drop_first()[i] == ss[i + 1]);
        }
        lemma_dec_strs_frame(b, pos + head.len(), ss.drop_first());
        assert(seq![ss[0]] + ss.drop_first() =~= ss);
    } else {
        assert(dec_strs(b, pos, 0) == Some((Seq::<Seq<char>>::empty(), pos)));
        assert(ss =~= Seq::<Seq<char>>::empty());
    }
}

/// The string-list case.
proof fn lemma_dec_str_list_frame(b: Seq<u8>, pos: int, ss: Seq<Seq<char>>)
    requires
        0 <= pos,
        str_list_fits(ss),
        pos + enc_str_list(ss).len() <= b.len(),
        b.subrange(pos, pos + enc_str_list(ss).len()) == enc_str_list(ss),
    ensures
        dec_str_list(b, pos) == Some((ss, pos + enc_str_list(ss).len())),
{
    lemma_auto_spec_u64_to_from_le_bytes();
    let n = ss.len() as u64;
    let whole = enc_str_list(ss);
    assert(whole.subrange(0, 8) =~= enc_u64(n));
    lemma_subrange_frame(b, pos, whole, 0, enc_u64(n));
    lemma_dec_u64_frame(b, pos, n);
    assert(whole.subrange(8, 8 + enc_strs(ss).len() as int) =~= enc_strs(ss));
    lemma_subrange_frame(b, pos, whole, 8, enc_strs(ss));
    lemma_dec_strs_frame(b, pos + 8, ss);
}

/// The date-sequence case.
proof fn lemma_dec_dates_frame(b: Seq<u8>, pos: int, ds: Seq<Date>)
    requires
        0 <= pos,
        pos + enc_dates(ds).len() <= b.len(),
        b.subrange(pos, pos + enc_dates(ds).len()) == enc_dates(ds),
    ensures
        dec_dates(b, pos, ds.len()) == Some((ds, pos + enc_dates(ds).len())),
    decreases ds.len(),
{
    lemma_auto_spec_u32_to_from_le_bytes();
    if ds.len() > 0 {
        let head = enc_date(ds[0]);
        let rest = enc_dates(ds.drop_first());
        let whole = enc_dates(ds);
        assert(whole == head + rest);
        let l = spec_u32_to_le_bytes(ds[0].year as u32).len();
        assert(head.len() == 6);
        assert(whole.subrange(0, 6) =~= head);
        lemma_subrange_frame(b, pos, whole, 0, head);
        lemma_dec_date_frame(b, pos, ds[0]);
        assert(whole.subrange(6, 6 + rest.len() as int) =~= rest);
        lemma_subrange_frame(b, pos, whole, 6, rest);
        lemma_dec_dates_frame(b, pos + 6, ds.drop_first());
        assert(seq![ds[0]] + ds.drop_first() =~= ds);
    } else {
        assert(ds =~= Seq::<Date>::empty());
    }
}

/// Appends the little-endian bytes of a length or count.
fn push_u64(out: &mut Vec<u8>, n: u64)
    ensures
        final (out)@ == old(out)@ + enc_u64(n),
{
    let bytes = u64_to_le_bytes(n);
    let mut i: usize = 0;
    while i < bytes.len()
        invariant
            i <= bytes@.len(),
            bytes@ == enc_u64(n),
            out@ == old(out)@ + bytes@.take(i as int),
        decreases bytes@.len() - i,
    {
        out.push(bytes[i]);
        proof {
            assert(out@ =~= old(out)@ + bytes@.take(i + 1));
        }
        i += 1;
    }
    proof {
        assert(bytes@.take(bytes@.len() as int) =~= bytes@);
    }
}

/// Appends the little-endian bytes of a four-byte value.
fn push_u32(out: &mut Vec<u8>, n: u32)
    ensures
        final (out)@ == old(out)@ + enc_u32(n),
{
    let bytes = u32_to_le_bytes(n);
    let mut i: usize = 0;
    while i < bytes.len()
        invariant
            i <= bytes@.len(),
            bytes@ == enc_u32(n),
            out@ == old(out)@ + bytes@.take(i as int),
        decreases bytes@.len() - i,
    {
        out.push(bytes[i]);
        proof {
            assert(out@ =~= old(out)@ + bytes@.take(i + 1));
        }
        i += 1;
    }
    proof {
        assert(bytes@.take(bytes@.len() as int) =~= bytes@);
    }
}

/// Appends a length-prefixed string.
fn push_str(out: &mut Vec<u8>, s: &str)
    ensures
        final (out)@ == old(out)@ + enc_str(s@),
{
    let bytes = s.as_bytes_vec();
    push_u64(out, bytes.len() as u64);
    let mut i: usize = 0;
    let ghost mid = out@;
    while i < bytes.len()
        invariant
            i <= bytes@.len(),
            bytes@ == encode_utf8(s@),
            out@ == mid + bytes@.take(i as int),
        decreases bytes@.len() - i,
    {
        out.push(bytes[i]);
        proof {
            assert(out@ =~= mid + bytes@.take(i + 1));
        }
        i += 1;
    }
    proof {
        assert(bytes@.take(bytes@.len() as int) =~= bytes@);
        assert(out@ =~= old(out)@ + enc_str(s@));
    }
}

/// Appends a date.
fn push_date(out: &mut Vec<u8>, d: &Date)
    ensures
        final (out)@ == old(out)@ + enc_date(*d),
{
    proof {
        let y = d.year;
        assert(((y as u32) as i32) == y) by (bit_vector);
    }
    push_u32(out, d.year as u32);
    out.push(d.month);
    out.push(d.day);
    proof {
        assert(out@ =~= old(out)@ + enc_date(*d));
    }
}

/// Appends a count-prefixed string list.
fn push_str_list(out: &mut Vec<u8>, ss: &Vec<String>)
    ensures
        final (out)@ == old(out)@ + enc_str_list(ss.deep_view()),
{
    push_u64(out, ss.len() as u64);
    let ghost mid = out@;
    let mut i: usize = 0;
    proof {
        assert(ss.deep_view().len() == ss@.len());
        assert(ss.deep_view().skip(0) =~= ss.deep_view());
    }
    while i < ss.len()
        invariant
            i <= ss@.len(),
            ss.deep_view().len() == ss@.len(),
            forall|j: int| 0 <= j < ss@.len() ==> (#[trigger] ss@[j])@ == ss.deep_view()[j],
            out@ + enc_strs(ss.deep_view().skip(i as int)) == mid + enc_strs(ss.deep_view()),
        decreases ss@.len() - i,
    {
        proof {
            let tail = ss.deep_view().skip(i as int);
            assert(tail[0] == ss.deep_view()[i as int]);
            assert(tail.drop_first() =~= ss.deep_view().skip(i + 1));
            assert(enc_strs(tail) == enc_str(ss.deep_view()[i as int]) + enc_strs(
                ss.deep_view().skip(i + 1),
            ));
        }
        push_str(out, ss[i].as_str());
        i += 1;
    }
    proof {
        assert(enc_strs(ss.deep_view().skip(ss@.len() as int)) =~= Seq::<u8>::empty());
        assert(out@ =~= out@ + enc_strs(ss.deep_view().skip(ss@.len() as int)));
        assert(out@ =~= old(out)@ + enc_str_list(ss.deep_view()));
    }
}

/// Relies on `String::from_utf8`: succeeds exactly on valid UTF-8 and
/// returns the string those bytes spell.
#[verifier::external_body]
fn bytes_to_string(v: Vec<u8>) -> (r: Option<String>)
    ensures
        r is Some <==> valid_utf8(v@),
        r matches Some(s) ==> s@ == decode_utf8(v@),
{
    match String::from_utf8(v) {
        Ok(s) => Some(s),
        Err(_) => None,
    }
}

/// Reads an eight-byte value, advancing the position.
fn read_u64(b: &Vec<u8>, pos: usize) -> (r: Option<(u64, usize)>)
    ensures
        match dec_u64(b@, pos as int) {
            Some((n, p)) => r matches Some(rr) && rr.0 == n && rr.1 == p,
            None => r is None,
        },
{
    if b.len() < 8 || pos > b.len() - 8 {
        return None;
    }
    let sub = slice_subrange(b.as_slice(), pos, pos + 8);
    let n = u64_from_le_bytes(sub);
    Some((n, pos + 8))
}

/// Reads a four-byte value, advancing the position.
fn read_u32(b: &Vec<u8>, pos: usize) -> (r: Option<(u32, usize)>)
    ensures
        match dec_u32(b@, pos as int) {
            Some((n, p)) => r matches Some(rr) && rr.0 == n && rr.1 == p,
            None => r is None,
        },
{
    if b.len() < 4 || pos > b.len() - 4 {
        return None;
    }
    let sub = slice_subrange(b.as_slice(), pos, pos + 4);
    let n = u32_from_le_bytes(sub);
    Some((n, pos + 4))
}

/// Reads a length-prefixed string, advancing the position.
fn read_str(b: &Vec<u8>, pos: usize) -> (r: Option<(String, usize)>)
    ensures
        match dec_str(b@, pos as int) {
            Some((s, p)) => r matches Some(rr) && rr.0@ == s && rr.1 == p,
            None => r is None,
        },
{
    let (n, p) = match read_u64(b, pos) {
        Some(x) => x,
        None => {
            return None;
        },
    };
    if n > (b.len() - p) as u64 {
        return None;
    }
    let len = n as usize;
    let sub = slice_subrange(b.as_slice(), p, p + len);
    let bytes = slice_to_vec(sub);
    match bytes_to_string(bytes) {
        Some(s) => Some((s, p + len)),
        None => None,
    }
}

/// Reads a date, advancing the position.
fn read_date(b: &Vec<u8>, pos: usize) -> (r: Option<(Date, usize)>)
    ensures
        match dec_date(b@, pos as int) {
            Some((d, p)) => r matches Some(rr) && rr.0 == d && rr.1 == p,
            None => r is None,
        },
{
    let (y, p) = match read_u32(b, pos) {
        Some(x) => x,
        None => {
            return None;
        },
    };
    if b.len() < 2 || p > b.len() - 2 {
        return None;
    }
    let month = b[p];
    let day = b[p + 1];
    Some((Date { year: y as i32, month, day }, p + 2))
}

/// Reads a count-prefixed string list, advancing the position.
fn read_str_list(b: &Vec<u8>, pos: usize) -> (r: Option<(Vec<String>, usize)>)
    ensures
        match dec_str_list(b@, pos as int) {
            Some((ss, p)) => r matches Some(rr) && rr.0.deep_view() == ss && rr.1 == p,
            None => r is None,
        },
{
    let (n, p0) = match read_u64(b, pos) {
        Some(x) => x,
        None => {
            return None;
        },
    };
    let mut out: Vec<String> = Vec::new();
    let mut p = p0;
    let mut i: u64 = 0;
    proof {
        assert(out.deep_view() =~= Seq::<Seq<char>>::empty());
    }
    while i < n
        invariant
            i <= n,
            p <= b@.len(),
            match dec_strs(b@, p as int, (n - i) as nat) {
                Some((ss, pend)) => dec_strs(b@, p0 as int, n as nat) matches Some(all) && all.0
                    == out.deep_view() + ss && all.1 == pend,
                None => dec_strs(b@, p0 as int, n as nat) is None,
            },
        decreases n - i,
    {
        let ghost pre = out.deep_view();
        let ghost rem = (n - i) as nat;
        match read_str(b, p) {
            Some((s, p2)) => {
                out.push(s);
                proof {
                    let sv = dec_str(b@, p as int).unwrap().0;
                    assert(out.deep_view() =~= pre.push(sv));
                    if dec_strs(b@, p2 as int, (rem - 1) as nat) is Some {
                        let (ss2, pend) = dec_strs(b@, p2 as int, (rem - 1) as nat).unwrap();
                        assert(dec_strs(b@, p as int, rem) matches Some(x) && x.0 == seq![sv] + ss2
                            && x.1 == pend);
                        assert(pre.push(sv) + ss2 =~= pre + (seq![sv] + ss2));
                    } else {
                        assert(dec_strs(b@, p as int, rem) is None);
                    }
                }
                p = p2;
            },
            None => {
                proof {
                    assert(dec_strs(b@, p as int, rem) is None);
                }
                return None;
            },
        }
        i += 1;
    }
    proof {
        assert(dec_strs(b@, p as int, 0) == Some((Seq::<Seq<char>>::empty(), p as int)));
        assert(out.deep_view() + Seq::<Seq<char>>::empty() =~= out.deep_view());
    }
    Some((out, p))
}


/// The string fields of a metric row, in encoding order.
pub open spec fn metric_row_strs(m: MetricRowV) -> Seq<Seq<char>> {
    seq![
        m.id,
        m.human_readable_name,
        m.source_metric_id,
        m.description,
        m.hxl_tag,
        m.parquet_path,
        m.parquet_column_name,
        m.parquet_margin_of_error_column,
        m.parquet_margin_of_error_file,
        m.potential_denominator_ids,
        m.parent_metric_id,
        m.source_data_release_id,
        m.source_download_url,
        m.source_archive_file_path,
        m.source_documentation_url,
    ]
}

/// A metric row: its fifteen string fields as one list.
pub open spec fn enc_metric_row(m: MetricRowV) -> Seq<u8> {
    enc_str_list(metric_row_strs(m))
}

/// Reads a metric row.
pub open spec fn dec_metric_row(b: Seq<u8>, pos: int) -> Option<(MetricRowV, int)> {
    match dec_str_list(b, pos) {
        Some((ss, p)) => if ss.len() == 15 {
            Some(
                (
                    MetricRowV {
                        id: ss[0],
                        human_readable_name: ss[1],
                        source_metric_id: ss[2],
                        description: ss[3],
                        hxl_tag: ss[4],
                        parquet_path: ss[5],
                        parquet_column_name: ss[6],
                        parquet_margin_of_error_column: ss[7],
                        parquet_margin_of_error_file: ss[8],
                        potential_denominator_ids: ss[9],
                        parent_metric_id: ss[10],
                        source_data_release_id: ss[11],
                        source_download_url: ss[12],
                        source_archive_file_path: ss[13],
                        source_documentation_url: ss[14],
                    },
                    p,
                ),
            )
        } else {
            None
        },
        None => None,
    }
}

/// The string fields of a release row, in encoding order.
pub open spec fn release_row_strs(r: SourceDataReleaseRowV) -> Seq<Seq<char>> {
    seq![r.id, r.name, r.url, r.description, r.data_publisher_id, r.geometry_metadata_id]
}

/// The date fields of a release row, in encoding order.
pub open spec fn release_row_dates(r: SourceDataReleaseRowV) -> Seq<Date> {
    seq![
        r.date_published,
        r.reference_period_start,
        r.reference_period_end,
        r.collection_period_start,
        r.collection_period_end,
        r.expect_next_update,
    ]
}

/// A release row: its six string fields, then its six dates.
pub open spec fn enc_release_row(r: SourceDataReleaseRowV) -> Seq<u8> {
    enc_str_list(release_row_strs(r)) + enc_dates(release_row_dates(r))
}

/// Reads a release row.
pub open spec fn dec_release_row(b: Seq<u8>, pos: int) -> Option<(SourceDataReleaseRowV, int)> {
    match dec_str_list(b, pos) {
        Some((ss, p)) => if ss.len() == 6 {
            match dec_dates(b, p, 6) {
                Some((ds, p2)) => Some(
                    (
                        SourceDataReleaseRowV {
                            id: ss[0],
                            name: ss[1],
                            url: ss[2],
                            description: ss[3],
                            data_publisher_id: ss[4],
                            geometry_metadata_id: ss[5],
                            date_published: ds[0],
                            reference_period_start: ds[1],
                            reference_period_end: ds[2],
                            collection_period_start: ds[3],
                            collection_period_end: ds[4],
                            expect_next_update: ds[5],
                        },
                        p2,
                    ),
                ),
                None => None,
            }
        } else {
            None
        },
        None => None,
    }
}

/// The string fields of a geometry row, in encoding order.
pub open spec fn geometry_row_strs(g: GeometryMetadataRowV) -> Seq<Seq<char>> {
    seq![g.id, g.filepath_stem, g.level, g.hxl_tag]
}

/// The date fields of a geometry row, in encoding order.
pub open spec fn geometry_row_dates(g: GeometryMetadataRowV) -> Seq<Date> {
    seq![g.validity_period_start, g.validity_period_end]
}

/// A geometry row: its four string fields, then its two dates.
pub open spec fn enc_geometry_row(g: GeometryMetadataRowV) -> Seq<u8> {
    enc_str_list(geometry_row_strs(g)) + enc_dates(geometry_row_dates(g))
}

/// Reads a geometry row.
pub open spec fn dec_geometry_row(b: Seq<u8>, pos: int) -> Option<(GeometryMetadataRowV, int)> {
    match dec_str_list(b, pos) {
        Some((ss, p)) => if ss.len() == 4 {
            match dec_dates(b, p, 2) {
                Some((ds, p2)) => Some(
                    (
                        GeometryMetadataRowV {
                            id: ss[0],
                            filepath_stem: ss[1],
                            level: ss[2],
                            hxl_tag: ss[3],
                            validity_period_start: ds[0],
                            validity_period_end: ds[1],
                        },
                        p2,
                    ),
                ),
                None => None,
            }
        } else {
            None
        },
        None => None,
    }
}

/// The plain string fields of a publisher row, in encoding order.
pub open spec fn publisher_row_strs(p: DataPublisherRowV) -> Seq<Seq<char>> {
    seq![p.id, p.name, p.url, p.description]
}

/// A publisher row: its four string fields, then its country list.
pub open spec fn enc_publisher_row(p: DataPublisherRowV) -> Seq<u8> {
    enc_str_list(publisher_row_strs(p)) + enc_str_list(p.countries_of_interest)
}

/// Reads a publisher row.
pub open spec fn dec_publisher_row(b: Seq<u8>, pos: int) -> Option<(DataPublisherRowV, int)> {
    match dec_str_list(b, pos) {
        Some((ss, p)) => if ss.len() == 4 {
            match dec_str_list(b, p) {
                Some((cs, p2)) => Some(
                    (
                        DataPublisherRowV {
                            id: ss[0],
                            name: ss[1],
                            url: ss[2],
                            description: ss[3],
                            countries_of_interest: cs,
                        },
                        p2,
                    ),
                ),
                None => None,
            }
        } else {
            None
        },
        None => None,
    }
}

/// The string fields of a country row, in encoding order.
pub open spec fn country_row_strs(c: CountryRowV) -> Seq<Seq<char>> {
    seq![c.id, c.name_short_en, c.name_official, c.iso3, c.iso2, c.iso3166_2]
}

/// A country row: its six string fields as one list.
pub open spec fn enc_country_row(c: CountryRowV) -> Seq<u8> {
    enc_str_list(country_row_strs(c))
}

/// Reads a country row.
pub open spec fn dec_country_row(b: Seq<u8>, pos: int) -> Option<(CountryRowV, int)> {
    match dec_str_list(b, pos) {
        Some((ss, p)) => if ss.len() == 6 {
            Some(
                (
                    CountryRowV {
                        id: ss[0],
                        name_short_en: ss[1],
                        name_official: ss[2],
                        iso3: ss[3],
                        iso2: ss[4],
                        iso3166_2: ss[5],
                    },
                    p,
                ),
            )
        } else {
            None
        },
        None => None,
    }
}

/// A metric row's encoding fits its length fields.
pub open spec fn metric_row_fits(m: MetricRowV) -> bool {
    str_list_fits(metric_row_strs(m))
}

/// A release row's encoding fits its length fields.
pub open spec fn release_row_fits(r: SourceDataReleaseRowV) -> bool {
    str_list_fits(release_row_strs(r))
}

/// A geometry row's encoding fits its length fields.
pub open spec fn geometry_row_fits(g: GeometryMetadataRowV) -> bool {
    str_list_fits(geometry_row_strs(g))
}

/// A publisher row's encoding fits its length fields.
pub open spec fn publisher_row_fits(p: DataPublisherRowV) -> bool {
    str_list_fits(publisher_row_strs(p)) && str_list_fits(p.countries_of_interest)
}

/// A country row's encoding fits its length fields.
pub open spec fn country_row_fits(c: CountryRowV) -> bool {
    str_list_fits(country_row_strs(c))
}

/// The metric-row case of the framing lemma.
proof fn lemma_dec_metric_row_frame(b: Seq<u8>, pos: int, m: MetricRowV)
    requires
        0 <= pos,
        metric_row_fits(m),
        pos + enc_metric_row(m).len() <= b.len(),
        b.subrange(pos, pos + enc_metric_row(m).len()) == enc_metric_row(m),
    ensures
        dec_metric_row(b, pos) == Some((m, pos + enc_metric_row(m).len())),
{
    lemma_dec_str_list_frame(b, pos, metric_row_strs(m));
    let (ss, p) = dec_str_list(b, pos).unwrap();
    assert(dec_metric_row(b, pos).unwrap().0 =~~= m);
}

/// The release-row case of the framing lemma.
proof fn lemma_dec_release_row_frame(b: Seq<u8>, pos: int, r: SourceDataReleaseRowV)
    requires
        0 <= pos,
        release_row_fits(r),
        pos + enc_release_row(r).len() <= b.len(),
        b.subrange(pos, pos + enc_release_row(r).len()) == enc_release_row(r),
    ensures
        dec_release_row(b, pos) == Some((r, pos + enc_release_row(r).len())),
{
    let part1 = enc_str_list(release_row_strs(r));
    let part2 = enc_dates(release_row_dates(r));
    let whole = enc_release_row(r);
    assert(whole.subrange(0, part1.len() as int) =~= part1);
    lemma_subrange_frame(b, pos, whole, 0, part1);
    lemma_dec_str_list_frame(b, pos, release_row_strs(r));
    assert(whole.subrange(part1.len() as int, (part1.len() + part2.len()) as int) =~= part2);
    lemma_subrange_frame(b, pos, whole, part1.len() as int, part2);
    lemma_dec_dates_frame(b, pos + part1.len(), release_row_dates(r));
    assert(dec_release_row(b, pos).unwrap().0 =~~= r);
}

/// The geometry-row case of the framing lemma.
proof fn lemma_dec_geometry_row_frame(b: Seq<u8>, pos: int, g: GeometryMetadataRowV)
    requires
        0 <= pos,
        geometry_row_fits(g),
        pos + enc_geometry_row(g).len() <= b.len(),
        b.subrange(pos, pos + enc_geometry_row(g).len()) == enc_geometry_row(g),
    ensures
        dec_geometry_row(b, pos) == Some((g, pos + enc_geometry_row(g).len())),
{
    let part1 = enc_str_list(geometry_row_strs(g));
    let part2 = enc_dates(geometry_row_dates(g));
    let whole = enc_geometry_row(g);
    assert(whole.subrange(0, part1.len() as int) =~= part1);
    lemma_subrange_frame(b, pos, whole, 0, part1);
    lemma_dec_str_list_frame(b, pos, geometry_row_strs(g));
    assert(whole.subrange(part1.len() as int, (part1.len() + part2.len()) as int) =~= part2);
    lemma_subrange_frame(b, pos, whole, part1.len() as int, part2);
    lemma_dec_dates_frame(b, pos + part1.len(), geometry_row_dates(g));
    assert(dec_geometry_row(b, pos).unwrap().0 =~~= g);
}

/// The publisher-row case of the framing lemma.
proof fn lemma_dec_publisher_row_frame(b: Seq<u8>, pos: int, p: DataPublisherRowV)
    requires
        0 <= pos,
        publisher_row_fits(p),
        pos + enc_publisher_row(p).len() <= b.len(),
        b.subrange(pos, pos + enc_publisher_row(p).len()) == enc_publisher_row(p),
    ensures
        dec_publisher_row(b, pos) == Some((p, pos + enc_publisher_row(p).len())),
{
    let part1 = enc_str_list(publisher_row_strs(p));
    let part2 = enc_str_list(p.countries_of_interest);
    let whole = enc_publisher_row(p);
    assert(whole.subrange(0, part1.len() as int) =~= part1);
    lemma_subrange_frame(b, pos, whole, 0, part1);
    lemma_dec_str_list_frame(b, pos, publisher_row_strs(p));
    assert(whole.subrange(part1.len() as int, (part1.len() + part2.len()) as int) =~= part2);
    lemma_subrange_frame(b, pos, whole, part1.len() as int, part2);
    lemma_dec_str_list_frame(b, pos + part1.len(), p.countries_of_interest);
    assert(dec_publisher_row(b, pos).unwrap().0 =~~= p);
}

/// The country-row case of the framing lemma.
proof fn lemma_dec_country_row_frame(b: Seq<u8>, pos: int, c: CountryRowV)
    requires
        0 <= pos,
        country_row_fits(c),
        pos + enc_country_row(c).len() <= b.len(),
        b.subrange(pos, pos + enc_country_row(c).len()) == enc_country_row(c),
    ensures
        dec_country_row(b, pos) == Some((c, pos + enc_country_row(c).len())),
{
    lemma_dec_str_list_frame(b, pos, country_row_strs(c));
    assert(dec_country_row(b, pos).unwrap().0 =~~= c);
}


/// The metric rows of a table, one after the other.
pub open spec fn enc_metric_rows(rows: Seq<MetricRowV>) -> Seq<u8>
    decreases rows.len(),
{
    if rows.len() == 0 {
        Seq::empty()
    } else {
        enc_metric_row(rows[0]) + enc_metric_rows(rows.drop_first())
    }
}

/// A metric table: its row count, then its rows.
pub open spec fn enc_metric_table(rows: Seq<MetricRowV>) -> Seq<u8> {
    enc_u64(rows.len() as u64) + enc_metric_rows(rows)
}

/// Reads `n` metric rows in a row.
pub open spec fn dec_metric_rows(b: Seq<u8>, pos: int, n: nat) -> Option<(Seq<MetricRowV>, int)>
    decreases n,
{
    if n == 0 {
        Some((Seq::empty(), pos))
    } else {
        match dec_metric_row(b, pos) {
            Some((row, p)) => match dec_metric_rows(b, p, (n - 1) as nat) {
                Some((rows, p2)) => Some((seq![row] + rows, p2)),
                None => None,
            },
            None => None,
        }
    }
}

/// Reads a metric table.
pub open spec fn dec_metric_table(b: Seq<u8>, pos: int) -> Option<(Seq<MetricRowV>, int)> {
    match dec_u64(b, pos) {
        Some((n, p)) => dec_metric_rows(b, p, n as nat),
        None => None,
    }
}

/// A metric table's encoding fits its length fields.
pub open spec fn metric_table_fits(rows: Seq<MetricRowV>) -> bool {
    rows.len() <= u64::MAX && forall|i: int| 0 <= i < rows.len() ==> metric_row_fits(#[trigger] rows[i])
}

/// The metric-row-sequence case of the framing lemma.
#[verifier::rlimit(60)]
proof fn lemma_dec_metric_rows_frame(b: Seq<u8>, pos: int, rows: Seq<MetricRowV>)
    requires
        0 <= pos,
        metric_table_fits(rows),
        pos + enc_metric_rows(rows).len() <= b.len(),
        b.subrange(pos, pos + enc_metric_rows(rows).len()) == enc_metric_rows(rows),
    ensures
        dec_metric_rows(b, pos, rows.len()) == Some((rows, pos + enc_metric_rows(rows).len())),
    decreases rows.len(),
{
    if rows.len() > 0 {
        let head = enc_metric_row(rows[0]);
        let rest = enc_metric_rows(rows.drop_first());
        let whole = enc_metric_rows(rows);
        assert(whole == head + rest);
        assert(whole.subrange(0, head.len() as int) =~= head);
        lemma_subrange_frame(b, pos, whole, 0, head);
        lemma_dec_metric_row_frame(b, pos, rows[0]);
        assert(whole.subrange(head.len() as int, (head.len() + rest.len()) as int) =~= rest);
        lemma_subrange_frame(b, pos, whole, head.len() as int, rest);
        assert(metric_table_fits(rows.drop_first())) by {
            assert(forall|i: int|
                0 <= i < rows.drop_first().len() ==> rows.drop_first()[i] == rows[i + 1]);
        }
        lemma_dec_metric_rows_frame(b, pos + head.len(), rows.drop_first());
        assert(seq![rows[0]] + rows.drop_first() =~= rows);
    } else {
        assert(rows =~= Seq::<MetricRowV>::empty());
    }
}

/// The metric-table case of the framing lemma.
proof fn lemma_dec_metric_table_frame(b: Seq<u8>, pos: int, rows: Seq<MetricRowV>)
    requires
        0 <= pos,
        metric_table_fits(rows),
        pos + enc_metric_table(rows).len() <= b.len(),
        b.subrange(pos, pos + enc_metric_table(rows).len()) == enc_metric_table(rows),
    ensures
        dec_metric_table(b, pos) == Some((rows, pos + enc_metric_table(rows).len())),
{
    lemma_auto_spec_u64_to_from_le_bytes();
    let n = rows.len() as u64;
    let whole = enc_metric_table(rows);
    assert(whole.subrange(0, 8) =~= enc_u64(n));
    lemma_subrange_frame(b, pos, whole, 0, enc_u64(n));
    lemma_dec_u64_frame(b, pos, n);
    assert(whole.subrange(8, 8 + enc_metric_rows(rows).len() as int) =~= enc_metric_rows(rows));
    lemma_subrange_frame(b, pos, whole, 8, enc_metric_rows(rows));
    lemma_dec_metric_rows_frame(b, pos + 8, rows);
}

/// The release rows of a table, one after the other.
pub open spec fn enc_release_rows(rows: Seq<SourceDataReleaseRowV>) -> Seq<u8>
    decreases rows.len(),
{
    if rows.len() == 0 {
        Seq::empty()
    } else {
        enc_release_row(rows[0]) + enc_release_rows(rows.drop_first())
    }
}

/// A release table: its row count, then its rows.
pub open spec fn enc_release_table(rows: Seq<SourceDataReleaseRowV>) -> Seq<u8> {
    enc_u64(rows.len() as u64) + enc_release_rows(rows)
}

/// Reads `n` release rows in a row.
pub open spec fn dec_release_rows(b: Seq<u8>, pos: int, n: nat) -> Option<(Seq<SourceDataReleaseRowV>, int)>
    decreases n,
{
    if n == 0 {
        Some((Seq::empty(), pos))
    } else {
        match dec_release_row(b, pos) {
            Some((row, p)) => match dec_release_rows(b, p, (n - 1) as nat) {
                Some((rows, p2)) => Some((seq![row] + rows, p2)),
                None => None,
            },
            None => None,
        }
    }
}

/// Reads a release table.
pub open spec fn dec_release_table(b: Seq<u8>, pos: int) -> Option<(Seq<SourceDataReleaseRowV>, int)> {
    match dec_u64(b, pos) {
        Some((n, p)) => dec_release_rows(b, p, n as nat),
        None => None,
    }
}

/// A release table's encoding fits its length fields.
pub open spec fn release_table_fits(rows: Seq<SourceDataReleaseRowV>) -> bool {
    rows.len() <= u64::MAX && forall|i: int| 0 <= i < rows.len() ==> release_row_fits(#[trigger] rows[i])
}

/// The release-row-sequence case of the framing lemma.
#[verifier::rlimit(60)]
proof fn lemma_dec_release_rows_frame(b: Seq<u8>, pos: int, rows: Seq<SourceDataReleaseRowV>)
    requires
        0 <= pos,
        release_table_fits(rows),
        pos + enc_release_rows(rows).len() <= b.len(),
        b.subrange(pos, pos + enc_release_rows(rows).len()) == enc_release_rows(rows),
    ensures
        dec_release_rows(b, pos, rows.len()) == Some((rows, pos + enc_release_rows(rows).len())),
    decreases rows.len(),
{
    if rows.len() > 0 {
        let head = enc_release_row(rows[0]);
        let rest = enc_release_rows(rows.drop_first());
        let whole = enc_release_rows(rows);
        assert(whole == head + rest);
        assert(whole.subrange(0, head.len() as int) =~= head);
        lemma_subrange_frame(b, pos, whole, 0, head);
        lemma_dec_release_row_frame(b, pos, rows[0]);
        assert(whole.subrange(head.len() as int, (head.len() + rest.len()) as int) =~= rest);
        lemma_subrange_frame(b, pos, whole, head.len() as int, rest);
        assert(release_table_fits(rows.drop_first())) by {
            assert(forall|i: int|
                0 <= i < rows.drop_first().len() ==> rows.drop_first()[i] == rows[i + 1]);
        }
        lemma_dec_release_rows_frame(b, pos + head.len(), rows.drop_first());
        assert(seq![rows[0]] + rows.drop_first() =~= rows);
    } else {
        assert(rows =~= Seq::<SourceDataReleaseRowV>::empty());
    }
}

/// The release-table case of the framing lemma.
proof fn lemma_dec_release_table_frame(b: Seq<u8>, pos: int, rows: Seq<SourceDataReleaseRowV>)
    requires
        0 <= pos,
        release_table_fits(rows),
        pos + enc_release_table(rows).len() <= b.len(),
        b.subrange(pos, pos + enc_release_table(rows).len()) == enc_release_table(rows),
    ensures
        dec_release_table(b, pos) == Some((rows, pos + enc_release_table(rows).len())),
{
    lemma_auto_spec_u64_to_from_le_bytes();
    let n = rows.len() as u64;
    let whole = enc_release_table(rows);
    assert(whole.subrange(0, 8) =~= enc_u64(n));
    lemma_subrange_frame(b, pos, whole, 0, enc_u64(n));
    lemma_dec_u64_frame(b, pos, n);
    assert(whole.subrange(8, 8 + enc_release_rows(rows).len() as int) =~= enc_release_rows(rows));
    lemma_subrange_frame(b, pos, whole, 8, enc_release_rows(rows));
    lemma_dec_release_rows_frame(b, pos + 8, rows);
}

/// The geometry rows of a table, one after the other.
pub open spec fn enc_geometry_rows(rows: Seq<GeometryMetadataRowV>) -> Seq<u8>
    decreases rows.len(),
{
    if rows.len() == 0 {
        Seq::empty()
    } else {
        enc_geometry_row(rows[0]) + enc_geometry_rows(rows.drop_first())
    }
}

/// A geometry table: its row count, then its rows.
pub open spec fn enc_geometry_table(rows: Seq<GeometryMetadataRowV>) -> Seq<u8> {
    enc_u64(rows.len() as u64) + enc_geometry_rows(rows)
}

/// Reads `n` geometry rows in a row.
pub open spec fn dec_geometry_rows(b: Seq<u8>, pos: int, n: nat) -> Option<(Seq<GeometryMetadataRowV>, int)>
    decreases n,
{
    if n == 0 {
        Some((Seq::empty(), pos))
    } else {
        match dec_geometry_row(b, pos) {
            Some((row, p)) => match dec_geometry_rows(b, p, (n - 1) as nat) {
                Some((rows, p2)) => Some((seq![row] + rows, p2)),
                None => None,
            },
            None => None,
        }
    }
}

/// Reads a geometry table.
pub open spec fn dec_geometry_table(b: Seq<u8>, pos: int) -> Option<(Seq<GeometryMetadataRowV>, int)> {
    match dec_u64(b, pos) {
        Some((n, p)) => dec_geometry_rows(b, p, n as nat),
        None => None,
    }
}

/// A geometry table's encoding fits its length fields.
pub open spec fn geometry_table_fits(rows: Seq<GeometryMetadataRowV>) -> bool {
    rows.len() <= u64::MAX && forall|i: int| 0 <= i < rows.len() ==> geometry_row_fits(#[trigger] rows[i])
}

/// The geometry-row-sequence case of the framing lemma.
#[verifier::rlimit(60)]
proof fn lemma_dec_geometry_rows_frame(b: Seq<u8>, pos: int, rows: Seq<GeometryMetadataRowV>)
    requires
        0 <= pos,
        geometry_table_fits(rows),
        pos + enc_geometry_rows(rows).len() <= b.len(),
        b.subrange(pos, pos + enc_geometry_rows(rows).len()) == enc_geometry_rows(rows),
    ensures
        dec_geometry_rows(b, pos, rows.len()) == Some((rows, pos + enc_geometry_rows(rows).len())),
    decreases rows.len(),
{
    if rows.len() > 0 {
        let head = enc_geometry_row(rows[0]);
        let rest = enc_geometry_rows(rows.drop_first());
        let whole = enc_geometry_rows(rows);
        assert(whole == head + rest);
        assert(whole.subrange(0, head.len() as int) =~= head);
        lemma_subrange_frame(b, pos, whole, 0, head);
        lemma_dec_geometry_row_frame(b, pos, rows[0]);
        assert(whole.subrange(head.len() as int, (head.len() + rest.len()) as int) =~= rest);
        lemma_subrange_frame(b, pos, whole, head.len() as int, rest);
        assert(geometry_table_fits(rows.drop_first())) by {
            assert(forall|i: int|
                0 <= i < rows.drop_first().len() ==> rows.drop_first()[i] == rows[i + 1]);
        }
        lemma_dec_geometry_rows_frame(b, pos + head.len(), rows.drop_first());
        assert(seq![rows[0]] + rows.drop_first() =~= rows);
    } else {
        assert(rows =~= Seq::<GeometryMetadataRowV>::empty());
    }
}

/// The geometry-table case of the framing lemma.
proof fn lemma_dec_geometry_table_frame(b: Seq<u8>, pos: int, rows: Seq<GeometryMetadataRowV>)
    requires
        0 <= pos,
        geometry_table_fits(rows),
        pos + enc_geometry_table(rows).len() <= b.len(),
        b.subrange(pos, pos + enc_geometry_table(rows).len()) == enc_geometry_table(rows),
    ensures
        dec_geometry_table(b, pos) == Some((rows, pos + enc_geometry_table(rows).len())),
{
    lemma_auto_spec_u64_to_from_le_bytes();
    let n = rows.len() as u64;
    let whole = enc_geometry_table(rows);
    assert(whole.subrange(0, 8) =~= enc_u64(n));
    lemma_subrange_frame(b, pos, whole, 0, enc_u64(n));
    lemma_dec_u64_frame(b, pos, n);
    assert(whole.subrange(8, 8 + enc_geometry_rows(rows).len() as int) =~= enc_geometry_rows(rows));
    lemma_subrange_frame(b, pos, whole, 8, enc_geometry_rows(rows));
    lemma_dec_geometry_rows_frame(b, pos + 8, rows);
}

/// The publisher rows of a table, one after the other.
pub open spec fn enc_publisher_rows(rows: Seq<DataPublisherRowV>) -> Seq<u8>
    decreases rows.len(),
{
    if rows.len() == 0 {
        Seq::empty()
    } else {
        enc_publisher_row(rows[0]) + enc_publisher_rows(rows.drop_first())
    }
}

/// A publisher table: its row count, then its rows.
pub open spec fn enc_publisher_table(rows: Seq<DataPublisherRowV>) -> Seq<u8> {
    enc_u64(rows.len() as u64) + enc_publisher_rows(rows)
}

/// Reads `n` publisher rows in a row.
pub open spec fn dec_publisher_rows(b: Seq<u8>, pos: int, n: nat) -> Option<(Seq<DataPublisherRowV>, int)>
    decreases n,
{
    if n == 0 {
        Some((Seq::empty(), pos))
    } else {
        match dec_publisher_row(b, pos) {
            Some((row, p)) => match dec_publisher_rows(b, p, (n - 1) as nat) {
                Some((rows, p2)) => Some((seq![row] + rows, p2)),
                None => None,
            },
            None => None,
        }
    }
}

/// Reads a publisher table.
pub open spec fn dec_publisher_table(b: Seq<u8>, pos: int) -> Option<(Seq<DataPublisherRowV>, int)> {
    match dec_u64(b, pos) {
        Some((n, p)) => dec_publisher_rows(b, p, n as nat),
        None => None,
    }
}

/// A publisher table's encoding fits its length fields.
pub open spec fn publisher_table_fits(rows: Seq<DataPublisherRowV>) -> bool {
    rows.len() <= u64::MAX && forall|i: int| 0 <= i < rows.len() ==> publisher_row_fits(#[trigger] rows[i])
}

/// The publisher-row-sequence case of the framing lemma.
#[verifier::rlimit(60)]
proof fn lemma_dec_publisher_rows_frame(b: Seq<u8>, pos: int, rows: Seq<DataPublisherRowV>)
    requires
        0 <= pos,
        publisher_table_fits(rows),
        pos + enc_publisher_rows(rows).len() <= b.len(),
        b.subrange(pos, pos + enc_publisher_rows(rows).len()) == enc_publisher_rows(rows),
    ensures
        dec_publisher_rows(b, pos, rows.len()) == Some((rows, pos + enc_publisher_rows(rows).len())),
    decreases rows.len(),
{
    if rows.len() > 0 {
        let head = enc_publisher_row(rows[0]);
        let rest = enc_publisher_rows(rows.drop_first());
        let whole = enc_publisher_rows(rows);
        assert(whole == head + rest);
        assert(whole.subrange(0, head.len() as int) =~= head);
        lemma_subrange_frame(b, pos, whole, 0, head);
        lemma_dec_publisher_row_frame(b, pos, rows[0]);
        assert(whole.subrange(head.len() as int, (head.len() + rest.len()) as int) =~= rest);
        lemma_subrange_frame(b, pos, whole, head.len() as int, rest);
        assert(publisher_table_fits(rows.drop_first())) by {
            assert(forall|i: int|
                0 <= i < rows.drop_first().len() ==> rows.drop_first()[i] == rows[i + 1]);
        }
        lemma_dec_publisher_rows_frame(b, pos + head.len(), rows.drop_first());
        assert(seq![rows[0]] + rows.drop_first() =~= rows);
    } else {
        assert(rows =~= Seq::<DataPublisherRowV>::empty());
    }
}

/// The publisher-table case of the framing lemma.
proof fn lemma_dec_publisher_table_frame(b: Seq<u8>, pos: int, rows: Seq<DataPublisherRowV>)
    requires
        0 <= pos,
        publisher_table_fits(rows),
        pos + enc_publisher_table(rows).len() <= b.len(),
        b.subrange(pos, pos + enc_publisher_table(rows).len()) == enc_publisher_table(rows),
    ensures
        dec_publisher_table(b, pos) == Some((rows, pos + enc_publisher_table(rows).len())),
{
    lemma_auto_spec_u64_to_from_le_bytes();
    let n = rows.len() as u64;
    let whole = enc_publisher_table(rows);
    assert(whole.subrange(0, 8) =~= enc_u64(n));
    lemma_subrange_frame(b, pos, whole, 0, enc_u64(n));
    lemma_dec_u64_frame(b, pos, n);
    assert(whole.subrange(8, 8 + enc_publisher_rows(rows).len() as int) =~= enc_publisher_rows(rows));
    lemma_subrange_frame(b, pos, whole, 8, enc_publisher_rows(rows));
    lemma_dec_publisher_rows_frame(b, pos + 8, rows);
}

/// The country rows of a table, one after the other.
pub open spec fn enc_country_rows(rows: Seq<CountryRowV>) -> Seq<u8>
    decreases rows.len(),
{
    if rows.len() == 0 {
        Seq::empty()
    } else {
        enc_country_row(rows[0]) + enc_country_rows(rows.drop_first())
    }
}

/// A country table: its row count, then its rows.
pub open spec fn enc_country_table(rows: Seq<CountryRowV>) -> Seq<u8> {
    enc_u64(rows.len() as u64) + enc_country_rows(rows)
}

/// Reads `n` country rows in a row.
pub open spec fn dec_country_rows(b: Seq<u8>, pos: int, n: nat) -> Option<(Seq<CountryRowV>, int)>
    decreases n,
{
    if n == 0 {
        Some((Seq::empty(), pos))
    } else {
        match dec_country_row(b, pos) {
            Some((row, p)) => match dec_country_rows(b, p, (n - 1) as nat) {
                Some((rows, p2)) => Some((seq![row] + rows, p2)),
                None => None,
            },
            None => None,
        }
    }
}

/// Reads a country table.
pub open spec fn dec_country_table(b: Seq<u8>, pos: int) -> Option<(Seq<CountryRowV>, int)> {
    match dec_u64(b, pos) {
        Some((n, p)) => dec_country_rows(b, p, n as nat),
        None => None,
    }
}

/// A country table's encoding fits its length fields.
pub open spec fn country_table_fits(rows: Seq<CountryRowV>) -> bool {
    rows.len() <= u64::MAX && forall|i: int| 0 <= i < rows.len() ==> country_row_fits(#[trigger] rows[i])
}

/// The country-row-sequence case of the framing lemma.
#[verifier::rlimit(60)]
proof fn lemma_dec_country_rows_frame(b: Seq<u8>, pos: int, rows: Seq<CountryRowV>)
    requires
        0 <= pos,
        country_table_fits(rows),
        pos + enc_country_rows(rows).len() <= b.len(),
        b.subrange(pos, pos + enc_country_rows(rows).len()) == enc_country_rows(rows),
    ensures
        dec_country_rows(b, pos, rows.len()) == Some((rows, pos + enc_country_rows(rows).len())),
    decreases rows.len(),
{
    if rows.len() > 0 {
        let head = enc_country_row(rows[0]);
        let rest = enc_country_rows(rows.drop_first());
        let whole = enc_country_rows(rows);
        assert(whole == head + rest);
        assert(whole.subrange(0, head.len() as int) =~= head);
        lemma_subrange_frame(b, pos, whole, 0, head);
        lemma_dec_country_row_frame(b, pos, rows[0]);
        assert(whole.subrange(head.len() as int, (head.len() + rest.len()) as int) =~= rest);
        lemma_subrange_frame(b, pos, whole, head.len() as int, rest);
        assert(country_table_fits(rows.drop_first())) by {
            assert(forall|i: int|
                0 <= i < rows.drop_first().len() ==> rows.drop_first()[i] == rows[i + 1]);
        }
        lemma_dec_country_rows_frame(b, pos + head.len(), rows.drop_first());
        assert(seq![rows[0]] + rows.drop_first() =~= rows);
    } else {
        assert(rows =~= Seq::<CountryRowV>::empty());
    }
}

/// The country-table case of the framing lemma.
proof fn lemma_dec_country_table_frame(b: Seq<u8>, pos: int, rows: Seq<CountryRowV>)
    requires
        0 <= pos,
        country_table_fits(rows),
        pos + enc_country_table(rows).len() <= b.len(),
        b.subrange(pos, pos + enc_country_table(rows).len()) == enc_country_table(rows),
    ensures
        dec_country_table(b, pos) == Some((rows, pos + enc_country_table(rows).len())),
{
    lemma_auto_spec_u64_to_from_le_bytes();
    let n = rows.len() as u64;
    let whole = enc_country_table(rows);
    assert(whole.subrange(0, 8) =~= enc_u64(n));
    lemma_subrange_frame(b, pos, whole, 0, enc_u64(n));
    lemma_dec_u64_frame(b, pos, n);
    assert(whole.subrange(8, 8 + enc_country_rows(rows).len() as int) =~= enc_country_rows(rows));
    lemma_subrange_frame(b, pos, whole, 8, enc_country_rows(rows));
    lemma_dec_country_rows_frame(b, pos + 8, rows);
}

/// The whole catalog: the five tables in a fixed order.
pub open spec fn enc_metadata(md: MetadataV) -> Seq<u8> {
    enc_metric_table(md.metrics) + enc_geometry_table(md.geometries) + enc_release_table(
        md.source_data_releases,
    ) + enc_publisher_table(md.data_publishers) + enc_country_table(md.countries)
}

/// A catalog's encoding fits all its length fields.
pub open spec fn metadata_fits(md: MetadataV) -> bool {
    &&& metric_table_fits(md.metrics)
    &&& geometry_table_fits(md.geometries)
    &&& release_table_fits(md.source_data_releases)
    &&& publisher_table_fits(md.data_publishers)
    &&& country_table_fits(md.countries)
}

/// Reads a whole catalog; every byte must be consumed.
pub open spec fn dec_metadata(b: Seq<u8>) -> Option<MetadataV> {
    match dec_metric_table(b, 0) {
        None => None,
        Some((metrics, p1)) => match dec_geometry_table(b, p1) {
            None => None,
            Some((geometries, p2)) => match dec_release_table(b, p2) {
                None => None,
                Some((source_data_releases, p3)) => match dec_publisher_table(b, p3) {
                    None => None,
                    Some((data_publishers, p4)) => match dec_country_table(b, p4) {
                        None => None,
                        Some((countries, p5)) => if p5 == b.len() {
                            Some(
                                MetadataV {
                                    metrics,
                                    geometries,
                                    source_data_releases,
                                    data_publishers,
                                    countries,
                                },
                            )
                        } else {
                            None
                        },
                    },
                },
            },
        },
    }
}

/// Decoding inverts encoding: a cache snapshot read back yields the catalog
/// it was written from, for all five relations.
pub proof fn lemma_cache_round_trip(md: MetadataV)
    requires
        metadata_fits(md),
    ensures
        dec_metadata(enc_metadata(md)) == Some(md),
{
    let b = enc_metadata(md);
    let e1 = enc_metric_table(md.metrics);
    let e2 = enc_geometry_table(md.geometries);
    let e3 = enc_release_table(md.source_data_releases);
    let e4 = enc_publisher_table(md.data_publishers);
    let e5 = enc_country_table(md.countries);
    let p0: int = 0;
    let p1 = p0 + e1.len();
    let p2 = p1 + e2.len();
    let p3 = p2 + e3.len();
    let p4 = p3 + e4.len();
    let p5 = p4 + e5.len();
    assert(b.len() == p5);
    assert(b.subrange(p0, p1 as int) =~= e1);
    lemma_dec_metric_table_frame(b, p0, md.metrics);
    assert(b.subrange(p1, p2 as int) =~= e2);
    lemma_dec_geometry_table_frame(b, p1, md.geometries);
    assert(b.subrange(p2, p3 as int) =~= e3);
    lemma_dec_release_table_frame(b, p2, md.source_data_releases);
    assert(b.subrange(p3, p4 as int) =~= e4);
    lemma_dec_publisher_table_frame(b, p3, md.data_publishers);
    assert(b.subrange(p4, p5 as int) =~= e5);
    lemma_dec_country_table_frame(b, p4, md.countries);
    assert(dec_metadata(b).unwrap() =~~= md);
}


/// Appends one metric row.
fn push_metric_row(out: &mut Vec<u8>, row: &MetricRow)
    ensures
        final (out)@ == old(out)@ + enc_metric_row(row@),
{
    let mut ss: Vec<String> = Vec::new();
    ss.push(row.id.clone());
    ss.push(row.human_readable_name.clone());
    ss.push(row.source_metric_id.clone());
    ss.push(row.description.clone());
    ss.push(row.hxl_tag.clone());
    ss.push(row.parquet_path.clone());
    ss.push(row.parquet_column_name.clone());
    ss.push(row.parquet_margin_of_error_column.clone());
    ss.push(row.parquet_margin_of_error_file.clone());
    ss.push(row.potential_denominator_ids.clone());
    ss.push(row.parent_metric_id.clone());
    ss.push(row.source_data_release_id.clone());
    ss.push(row.source_download_url.clone());
    ss.push(row.source_archive_file_path.clone());
    ss.push(row.source_documentation_url.clone());
    proof {
        assert(ss.deep_view() =~= metric_row_strs(row@));
    }
    push_str_list(out, &ss);
}

/// Appends one release row.
fn push_release_row(out: &mut Vec<u8>, row: &SourceDataReleaseRow)
    ensures
        final (out)@ == old(out)@ + enc_release_row(row@),
{
    let mut ss: Vec<String> = Vec::new();
    ss.push(row.id.clone());
    ss.push(row.name.clone());
    ss.push(row.url.clone());
    ss.push(row.description.clone());
    ss.push(row.data_publisher_id.clone());
    ss.push(row.geometry_metadata_id.clone());
    proof {
        assert(ss.deep_view() =~= release_row_strs(row@));
    }
    push_str_list(out, &ss);
    let ghost mid = out@;
    push_date(out, &row.date_published);
    push_date(out, &row.reference_period_start);
    push_date(out, &row.reference_period_end);
    push_date(out, &row.collection_period_start);
    push_date(out, &row.collection_period_end);
    push_date(out, &row.expect_next_update);
    proof {
        reveal_with_fuel(enc_dates, 8);
        let ds = release_row_dates(row@);
        assert(ds.drop_first() =~= seq![
            row@.reference_period_start,
            row@.reference_period_end,
            row@.collection_period_start,
            row@.collection_period_end,
            row@.expect_next_update,
        ]);
        assert(out@ =~= mid + enc_dates(ds));
        assert(out@ =~= old(out)@ + enc_release_row(row@));
    }
}

/// Appends one geometry row.
fn push_geometry_row(out: &mut Vec<u8>, row: &GeometryMetadataRow)
    ensures
        final (out)@ == old(out)@ + enc_geometry_row(row@),
{
    let mut ss: Vec<String> = Vec::new();
    ss.push(row.id.clone());
    ss.push(row.filepath_stem.clone());
    ss.push(row.level.clone());
    ss.push(row.hxl_tag.clone());
    proof {
        assert(ss.deep_view() =~= geometry_row_strs(row@));
    }
    push_str_list(out, &ss);
    let ghost mid = out@;
    push_date(out, &row.validity_period_start);
    push_date(out, &row.validity_period_end);
    proof {
        reveal_with_fuel(enc_dates, 4);
        let ds = geometry_row_dates(row@);
        assert(ds.drop_first() =~= seq![row@.validity_period_end]);
        assert(out@ =~= mid + enc_dates(ds));
        assert(out@ =~= old(out)@ + enc_geometry_row(row@));
    }
}

/// Appends one publisher row.
fn push_publisher_row(out: &mut Vec<u8>, row: &DataPublisherRow)
    ensures
        final (out)@ == old(out)@ + enc_publisher_row(row@),
{
    let mut ss: Vec<String> = Vec::new();
    ss.push(row.id.clone());
    ss.push(row.name.clone());
    ss.push(row.url.clone());
    ss.push(row.description.clone());
    proof {
        assert(ss.deep_view() =~= publisher_row_strs(row@));
    }
    push_str_list(out, &ss);
    push_str_list(out, &row.countries_of_interest);
    proof {
        assert(out@ =~= old(out)@ + enc_publisher_row(row@));
    }
}

/// Appends one country row.
fn push_country_row(out: &mut Vec<u8>, row: &CountryRow)
    ensures
        final (out)@ == old(out)@ + enc_country_row(row@),
{
    let mut ss: Vec<String> = Vec::new();
    ss.push(row.id.clone());
    ss.push(row.name_short_en.clone());
    ss.push(row.name_official.clone());
    ss.push(row.iso3.clone());
    ss.push(row.iso2.clone());
    ss.push(row.iso3166_2.clone());
    proof {
        assert(ss.deep_view() =~= country_row_strs(row@));
    }
    push_str_list(out, &ss);
}

/// Appends one metric table.
fn push_metric_table(out: &mut Vec<u8>, rows: &Vec<MetricRow>)
    ensures
        final (out)@ == old(out)@ + enc_metric_table(rows.deep_view()),
{
    push_u64(out, rows.len() as u64);
    let ghost mid = out@;
    let mut i: usize = 0;
    proof {
        assert(rows.deep_view().len() == rows@.len());
        assert(rows.deep_view().skip(0) =~= rows.deep_view());
    }
    while i < rows.len()
        invariant
            i <= rows@.len(),
            rows.deep_view().len() == rows@.len(),
            forall|j: int| 0 <= j < rows@.len() ==> (#[trigger] rows@[j])@ == rows.deep_view()[j],
            out@ + enc_metric_rows(rows.deep_view().skip(i as int)) == mid + enc_metric_rows(
                rows.deep_view(),
            ),
        decreases rows@.len() - i,
    {
        proof {
            let tail = rows.deep_view().skip(i as int);
            assert(tail[0] == rows.deep_view()[i as int]);
            assert(tail.drop_first() =~= rows.deep_view().skip(i + 1));
            assert(enc_metric_rows(tail) == enc_metric_row(rows.deep_view()[i as int]) + enc_metric_rows(
                rows.deep_view().skip(i + 1),
            ));
        }
        push_metric_row(out, &rows[i]);
        i += 1;
    }
    proof {
        assert(enc_metric_rows(rows.deep_view().skip(rows@.len() as int)) =~= Seq::<u8>::empty());
        assert(out@ =~= out@ + enc_metric_rows(rows.deep_view().skip(rows@.len() as int)));
        assert(out@ =~= old(out)@ + enc_metric_table(rows.deep_view()));
    }
}

/// Appends one geometry table.
fn push_geometry_table(out: &mut Vec<u8>, rows: &Vec<GeometryMetadataRow>)
    ensures
        final (out)@ == old(out)@ + enc_geometry_table(rows.deep_view()),
{
    push_u64(out, rows.len() as u64);
    let ghost mid = out@;
    let mut i: usize = 0;
    proof {
        assert(rows.deep_view().len() == rows@.len());
        assert(rows.deep_view().skip(0) =~= rows.deep_view());
    }
    while i < rows.len()
        invariant
            i <= rows@.len(),
            rows.deep_view().len() == rows@.len(),
            forall|j: int| 0 <= j < rows@.len() ==> (#[trigger] rows@[j])@ == rows.deep_view()[j],
            out@ + enc_geometry_rows(rows.deep_view().skip(i as int)) == mid + enc_geometry_rows(
                rows.deep_view(),
            ),
        decreases rows@.len() - i,
    {
        proof {
            let tail = rows.deep_view().skip(i as int);
            assert(tail[0] == rows.deep_view()[i as int]);
            assert(tail.drop_first() =~= rows.deep_view().skip(i + 1));
            assert(enc_geometry_rows(tail) == enc_geometry_row(rows.deep_view()[i as int]) + enc_geometry_rows(
                rows.deep_view().skip(i + 1),
            ));
        }
        push_geometry_row(out, &rows[i]);
        i += 1;
    }
    proof {
        assert(enc_geometry_rows(rows.deep_view().skip(rows@.len() as int)) =~= Seq::<u8>::empty());
        assert(out@ =~= out@ + enc_geometry_rows(rows.deep_view().skip(rows@.len() as int)));
        assert(out@ =~= old(out)@ + enc_geometry_table(rows.deep_view()));
    }
}

/// Appends one release table.
fn push_release_table(out: &mut Vec<u8>, rows: &Vec<SourceDataReleaseRow>)
    ensures
        final (out)@ == old(out)@ + enc_release_table(rows.deep_view()),
{
    push_u64(out, rows.len() as u64);
    let ghost mid = out@;
    let mut i: usize = 0;
    proof {
        assert(rows.deep_view().len() == rows@.len());
        assert(rows.deep_view().skip(0) =~= rows.deep_view());
    }
    while i < rows.len()
        invariant
            i <= rows@.len(),
            rows.deep_view().len() == rows@.len(),
            forall|j: int| 0 <= j < rows@.len() ==> (#[trigger] rows@[j])@ == rows.deep_view()[j],
            out@ + enc_release_rows(rows.deep_view().skip(i as int)) == mid + enc_release_rows(
                rows.deep_view(),
            ),
        decreases rows@.len() - i,
    {
        proof {
            let tail = rows.deep_view().skip(i as int);
            assert(tail[0] == rows.deep_view()[i as int]);
            assert(tail.drop_first() =~= rows.deep_view().skip(i + 1));
            assert(enc_release_rows(tail) == enc_release_row(rows.deep_view()[i as int]) + enc_release_rows(
                rows.deep_view().skip(i + 1),
            ));
        }
        push_release_row(out, &rows[i]);
        i += 1;
    }
    proof {
        assert(enc_release_rows(rows.deep_view().skip(rows@.len() as int)) =~= Seq::<u8>::empty());
        assert(out@ =~= out@ + enc_release_rows(rows.deep_view().skip(rows@.len() as int)));
        assert(out@ =~= old(out)@ + enc_release_table(rows.deep_view()));
    }
}

/// Appends one publisher table.
fn push_publisher_table(out: &mut Vec<u8>, rows: &Vec<DataPublisherRow>)
    ensures
        final (out)@ == old(out)@ + enc_publisher_table(rows.deep_view()),
{
    push_u64(out, rows.len() as u64);
    let ghost mid = out@;
    let mut i: usize = 0;
    proof {
        assert(rows.deep_view().len() == rows@.len());
        assert(rows.deep_view().skip(0) =~= rows.deep_view());
    }
    while i < rows.len()
        invariant
            i <= rows@.len(),
            rows.deep_view().len() == rows@.len(),
            forall|j: int| 0 <= j < rows@.len() ==> (#[trigger] rows@[j])@ == rows.deep_view()[j],
            out@ + enc_publisher_rows(rows.deep_view().skip(i as int)) == mid + enc_publisher_rows(
                rows.deep_view(),
            ),
        decreases rows@.len() - i,
    {
        proof {
            let tail = rows.deep_view().skip(i as int);
            assert(tail[0] == rows.deep_view()[i as int]);
            assert(tail.drop_first() =~= rows.deep_view().skip(i + 1));
            assert(enc_publisher_rows(tail) == enc_publisher_row(rows.deep_view()[i as int]) + enc_publisher_rows(
                rows.deep_view().skip(i + 1),
            ));
        }
        push_publisher_row(out, &rows[i]);
        i += 1;
    }
    proof {
        assert(enc_publisher_rows(rows.deep_view().skip(rows@.len() as int)) =~= Seq::<u8>::empty());
        assert(out@ =~= out@ + enc_publisher_rows(rows.deep_view().skip(rows@.len() as int)));
        assert(out@ =~= old(out)@ + enc_publisher_table(rows.deep_view()));
    }
}

/// Appends one country table.
fn push_country_table(out: &mut Vec<u8>, rows: &Vec<CountryRow>)
    ensures
        final (out)@ == old(out)@ + enc_country_table(rows.deep_view()),
{
    push_u64(out, rows.len() as u64);
    let ghost mid = out@;
    let mut i: usize = 0;
    proof {
        assert(rows.deep_view().len() == rows@.len());
        assert(rows.deep_view().skip(0) =~= rows.deep_view());
    }
    while i < rows.len()
        invariant
            i <= rows@.len(),
            rows.deep_view().len() == rows@.len(),
            forall|j: int| 0 <= j < rows@.len() ==> (#[trigger] rows@[j])@ == rows.deep_view()[j],
            out@ + enc_country_rows(rows.deep_view().skip(i as int)) == mid + enc_country_rows(
                rows.deep_view(),
            ),
        decreases rows@.len() - i,
    {
        proof {
            let tail = rows.deep_view().skip(i as int);
            assert(tail[0] == rows.deep_view()[i as int]);
            assert(tail.drop_first() =~= rows.deep_view().skip(i + 1));
            assert(enc_country_rows(tail) == enc_country_row(rows.deep_view()[i as int]) + enc_country_rows(
                rows.deep_view().skip(i + 1),
            ));
        }
        push_country_row(out, &rows[i]);
        i += 1;
    }
    proof {
        assert(enc_country_rows(rows.deep_view().skip(rows@.len() as int)) =~= Seq::<u8>::empty());
        assert(out@ =~= out@ + enc_country_rows(rows.deep_view().skip(rows@.len() as int)));
        assert(out@ =~= old(out)@ + enc_country_table(rows.deep_view()));
    }
}

impl Metadata {
    /// Turns the catalog into one cache byte snapshot, decodable by
    /// `from_cache_bytes`.
    pub fn to_cache_bytes(&self) -> (r: Vec<u8>)
        ensures
            r@ == enc_metadata(self@),
            metadata_fits(self@) ==> dec_metadata(r@) == Some(self@),
    {
        let mut out: Vec<u8> = Vec::new();
        push_metric_table(&mut out, &self.metrics);
        push_geometry_table(&mut out, &self.geometries);
        push_release_table(&mut out, &self.source_data_releases);
        push_publisher_table(&mut out, &self.data_publishers);
        push_country_table(&mut out, &self.countries);
        proof {
            assert(out@ =~= enc_metadata(self@));
            if metadata_fits(self@) {
                lemma_cache_round_trip(self@);
            }
        }
        out
    }
}


/// Reads `n` dates, advancing the position.
fn read_dates(b: &Vec<u8>, pos: usize, n: usize) -> (r: Option<(Vec<Date>, usize)>)
    ensures
        match dec_dates(b@, pos as int, n as nat) {
            Some((ds, p)) => r matches Some(rr) && rr.0@ == ds && rr.0@.len() == n && rr.1 == p,
            None => r is None,
        },
{
    let mut out: Vec<Date> = Vec::new();
    let mut p = pos;
    let mut i: usize = 0;
    while i < n
        invariant
            i <= n,
            out@.len() == i,
            match dec_dates(b@, p as int, (n - i) as nat) {
                Some((ds, pend)) => dec_dates(b@, pos as int, n as nat) matches Some(all) && all.0
                    == out@ + ds && all.1 == pend,
                None => dec_dates(b@, pos as int, n as nat) is None,
            },
        decreases n - i,
    {
        let ghost pre = out@;
        let ghost rem = (n - i) as nat;
        match read_date(b, p) {
            Some((d, p2)) => {
                out.push(d);
                proof {
                    if dec_dates(b@, p2 as int, (rem - 1) as nat) is Some {
                        let (ds2, pend) = dec_dates(b@, p2 as int, (rem - 1) as nat).unwrap();
                        assert(dec_dates(b@, p as int, rem) matches Some(x) && x.0 == seq![d] + ds2
                            && x.1 == pend);
                        assert(pre.push(d) + ds2 =~= pre + (seq![d] + ds2));
                    } else {
                        assert(dec_dates(b@, p as int, rem) is None);
                    }
                }
                p = p2;
            },
            None => {
                proof {
                    assert(dec_dates(b@, p as int, rem) is None);
                }
                return None;
            },
        }
        i += 1;
    }
    proof {
        assert(out@ + Seq::<Date>::empty() =~= out@);
    }
    Some((out, p))
}

/// Reads one metric row, advancing the position.
fn read_metric_row(b: &Vec<u8>, pos: usize) -> (r: Option<(MetricRow, usize)>)
    ensures
        match dec_metric_row(b@, pos as int) {
            Some((row, p)) => r matches Some(rr) && rr.0@ == row && rr.1 == p,
            None => r is None,
        },
{
    let (ss, p) = match read_str_list(b, pos) {
        Some(x) => x,
        None => {
            return None;
        },
    };
    if ss.len() != 15 {
        return None;
    }
    let row = MetricRow {
        id: ss[0].clone(),
        human_readable_name: ss[1].clone(),
        source_metric_id: ss[2].clone(),
        description: ss[3].clone(),
        hxl_tag: ss[4].clone(),
        parquet_path: ss[5].clone(),
        parquet_column_name: ss[6].clone(),
        parquet_margin_of_error_column: ss[7].clone(),
        parquet_margin_of_error_file: ss[8].clone(),
        potential_denominator_ids: ss[9].clone(),
        parent_metric_id: ss[10].clone(),
        source_data_release_id: ss[11].clone(),
        source_download_url: ss[12].clone(),
        source_archive_file_path: ss[13].clone(),
        source_documentation_url: ss[14].clone(),
    };
    proof {
        assert(row@ =~~= dec_metric_row(b@, pos as int).unwrap().0);
    }
    Some((row, p))
}

/// Reads one release row, advancing the position.
fn read_release_row(b: &Vec<u8>, pos: usize) -> (r: Option<(SourceDataReleaseRow, usize)>)
    ensures
        match dec_release_row(b@, pos as int) {
            Some((row, p)) => r matches Some(rr) && rr.0@ == row && rr.1 == p,
            None => r is None,
        },
{
    let (ss, p) = match read_str_list(b, pos) {
        Some(x) => x,
        None => {
            return None;
        },
    };
    if ss.len() != 6 {
        return None;
    }
    let (ds, p2) = match read_dates(b, p, 6) {
        Some(x) => x,
        None => {
            return None;
        },
    };
    let row = SourceDataReleaseRow {
        id: ss[0].clone(),
        name: ss[1].clone(),
        url: ss[2].clone(),
        description: ss[3].clone(),
        data_publisher_id: ss[4].clone(),
        geometry_metadata_id: ss[5].clone(),
        date_published: ds[0],
        reference_period_start: ds[1],
        reference_period_end: ds[2],
        collection_period_start: ds[3],
        collection_period_end: ds[4],
        expect_next_update: ds[5],
    };
    proof {
        assert(row@ =~~= dec_release_row(b@, pos as int).unwrap().0);
    }
    Some((row, p2))
}

/// Reads one geometry row, advancing the position.
fn read_geometry_row(b: &Vec<u8>, pos: usize) -> (r: Option<(GeometryMetadataRow, usize)>)
    ensures
        match dec_geometry_row(b@, pos as int) {
            Some((row, p)) => r matches Some(rr) && rr.0@ == row && rr.1 == p,
            None => r is None,
        },
{
    let (ss, p) = match read_str_list(b, pos) {
        Some(x) => x,
        None => {
            return None;
        },
    };
    if ss.len() != 4 {
        return None;
    }
    let (ds, p2) = match read_dates(b, p, 2) {
        Some(x) => x,
        None => {
            return None;
        },
    };
    let row = GeometryMetadataRow {
        id: ss[0].clone(),
        filepath_stem: ss[1].clone(),
        level: ss[2].clone(),
        hxl_tag: ss[3].clone(),
        validity_period_start: ds[0],
        validity_period_end: ds[1],
    };
    proof {
        assert(row@ =~~= dec_geometry_row(b@, pos as int).unwrap().0);
    }
    Some((row, p2))
}

/// Reads one publisher row, advancing the position.
fn read_publisher_row(b: &Vec<u8>, pos: usize) -> (r: Option<(DataPublisherRow, usize)>)
    ensures
        match dec_publisher_row(b@, pos as int) {
            Some((row, p)) => r matches Some(rr) && rr.0@ == row && rr.1 == p,
            None => r is None,
        },
{
    let (ss, p) = match read_str_list(b, pos) {
        Some(x) => x,
        None => {
            return None;
        },
    };
    if ss.len() != 4 {
        return None;
    }
    let (cs, p2) = match read_str_list(b, p) {
        Some(x) => x,
        None => {
            return None;
        },
    };
    let row = DataPublisherRow {
        id: ss[0].clone(),
        name: ss[1].clone(),
        url: ss[2].clone(),
        description: ss[3].clone(),
        countries_of_interest: cs,
    };
    proof {
        assert(row@ =~~= dec_publisher_row(b@, pos as int).unwrap().0);
    }
    Some((row, p2))
}

/// Reads one country row, advancing the position.
fn read_country_row(b: &Vec<u8>, pos: usize) -> (r: Option<(CountryRow, usize)>)
    ensures
        match dec_country_row(b@, pos as int) {
            Some((row, p)) => r matches Some(rr) && rr.0@ == row && rr.1 == p,
            None => r is None,
        },
{
    let (ss, p) = match read_str_list(b, pos) {
        Some(x) => x,
        None => {
            return None;
        },
    };
    if ss.len() != 6 {
        return None;
    }
    let row = CountryRow {
        id: ss[0].clone(),
        name_short_en: ss[1].clone(),
        name_official: ss[2].clone(),
        iso3: ss[3].clone(),
        iso2: ss[4].clone(),
        iso3166_2: ss[5].clone(),
    };
    proof {
        assert(row@ =~~= dec_country_row(b@, pos as int).unwrap().0);
    }
    Some((row, p))
}

/// Reads one metric table, advancing the position.
fn read_metric_table(b: &Vec<u8>, pos: usize) -> (r: Option<(Vec<MetricRow>, usize)>)
    ensures
        match dec_metric_table(b@, pos as int) {
            Some((rows, p)) => r matches Some(rr) && rr.0.deep_view() == rows && rr.1 == p,
            None => r is None,
        },
{
    let (n, p0) = match read_u64(b, pos) {
        Some(x) => x,
        None => {
            return None;
        },
    };
    let mut out: Vec<MetricRow> = Vec::new();
    let mut p = p0;
    let mut i: u64 = 0;
    proof {
        assert(out.deep_view() =~= Seq::<MetricRowV>::empty());
    }
    while i < n
        invariant
            i <= n,
            match dec_metric_rows(b@, p as int, (n - i) as nat) {
                Some((rows, pend)) => dec_metric_rows(b@, p0 as int, n as nat) matches Some(all)
                    && all.0 == out.deep_view() + rows && all.1 == pend,
                None => dec_metric_rows(b@, p0 as int, n as nat) is None,
            },
        decreases n - i,
    {
        let ghost pre = out.deep_view();
        let ghost rem = (n - i) as nat;
        match read_metric_row(b, p) {
            Some((row, p2)) => {
                out.push(row);
                proof {
                    let rv = dec_metric_row(b@, p as int).unwrap().0;
                    assert(out.deep_view() =~= pre.push(rv));
                    if dec_metric_rows(b@, p2 as int, (rem - 1) as nat) is Some {
                        let (rs2, pend) = dec_metric_rows(b@, p2 as int, (rem - 1) as nat).unwrap();
                        assert(dec_metric_rows(b@, p as int, rem) matches Some(x) && x.0 == seq![rv]
                            + rs2 && x.1 == pend);
                        assert(pre.push(rv) + rs2 =~= pre + (seq![rv] + rs2));
                    } else {
                        assert(dec_metric_rows(b@, p as int, rem) is None);
                    }
                }
                p = p2;
            },
            None => {
                proof {
                    assert(dec_metric_rows(b@, p as int, rem) is None);
                }
                return None;
            },
        }
        i += 1;
    }
    proof {
        assert(out.deep_view() + Seq::<MetricRowV>::empty() =~= out.deep_view());
    }
    Some((out, p))
}

/// Reads one geometry table, advancing the position.
fn read_geometry_table(b: &Vec<u8>, pos: usize) -> (r: Option<(Vec<GeometryMetadataRow>, usize)>)
    ensures
        match dec_geometry_table(b@, pos as int) {
            Some((rows, p)) => r matches Some(rr) && rr.0.deep_view() == rows && rr.1 == p,
            None => r is None,
        },
{
    let (n, p0) = match read_u64(b, pos) {
        Some(x) => x,
        None => {
            return None;
        },
    };
    let mut out: Vec<GeometryMetadataRow> = Vec::new();
    let mut p = p0;
    let mut i: u64 = 0;
    proof {
        assert(out.deep_view() =~= Seq::<GeometryMetadataRowV>::empty());
    }
    while i < n
        invariant
            i <= n,
            match dec_geometry_rows(b@, p as int, (n - i) as nat) {
                Some((rows, pend)) => dec_geometry_rows(b@, p0 as int, n as nat) matches Some(all)
                    && all.0 == out.deep_view() + rows && all.1 == pend,
                None => dec_geometry_rows(b@, p0 as int, n as nat) is None,
            },
        decreases n - i,
    {
        let ghost pre = out.deep_view();
        let ghost rem = (n - i) as nat;
        match read_geometry_row(b, p) {
            Some((row, p2)) => {
                out.push(row);
                proof {
                    let rv = dec_geometry_row(b@, p as int).unwrap().0;
                    assert(out.deep_view() =~= pre.push(rv));
                    if dec_geometry_rows(b@, p2 as int, (rem - 1) as nat) is Some {
                        let (rs2, pend) = dec_geometry_rows(b@, p2 as int, (rem - 1) as nat).unwrap();
                        assert(dec_geometry_rows(b@, p as int, rem) matches Some(x) && x.0 == seq![rv]
                            + rs2 && x.1 == pend);
                        assert(pre.push(rv) + rs2 =~= pre + (seq![rv] + rs2));
                    } else {
                        assert(dec_geometry_rows(b@, p as int, rem) is None);
                    }
                }
                p = p2;
            },
            None => {
                proof {
                    assert(dec_geometry_rows(b@, p as int, rem) is None);
                }
                return None;
            },
        }
        i += 1;
    }
    proof {
        assert(out.deep_view() + Seq::<GeometryMetadataRowV>::empty() =~= out.deep_view());
    }
    Some((out, p))
}

/// Reads one release table, advancing the position.
fn read_release_table(b: &Vec<u8>, pos: usize) -> (r: Option<(Vec<SourceDataReleaseRow>, usize)>)
    ensures
        match dec_release_table(b@, pos as int) {
            Some((rows, p)) => r matches Some(rr) && rr.0.deep_view() == rows && rr.1 == p,
            None => r is None,
        },
{
    let (n, p0) = match read_u64(b, pos) {
        Some(x) => x,
        None => {
            return None;
        },
    };
    let mut out: Vec<SourceDataReleaseRow> = Vec::new();
    let mut p = p0;
    let mut i: u64 = 0;
    proof {
        assert(out.deep_view() =~= Seq::<SourceDataReleaseRowV>::empty());
    }
    while i < n
        invariant
            i <= n,
            match dec_release_rows(b@, p as int, (n - i) as nat) {
                Some((rows, pend)) => dec_release_rows(b@, p0 as int, n as nat) matches Some(all)
                    && all.0 == out.deep_view() + rows && all.1 == pend,
                None => dec_release_rows(b@, p0 as int, n as nat) is None,
            },
        decreases n - i,
    {
        let ghost pre = out.deep_view();
        let ghost rem = (n - i) as nat;
        match read_release_row(b, p) {
            Some((row, p2)) => {
                out.push(row);
                proof {
                    let rv = dec_release_row(b@, p as int).unwrap().0;
                    assert(out.deep_view() =~= pre.push(rv));
                    if dec_release_rows(b@, p2 as int, (rem - 1) as nat) is Some {
                        let (rs2, pend) = dec_release_rows(b@, p2 as int, (rem - 1) as nat).unwrap();
                        assert(dec_release_rows(b@, p as int, rem) matches Some(x) && x.0 == seq![rv]
                            + rs2 && x.1 == pend);
                        assert(pre.push(rv) + rs2 =~= pre + (seq![rv] + rs2));
                    } else {
                        assert(dec_release_rows(b@, p as int, rem) is None);
                    }
                }
                p = p2;
            },
            None => {
                proof {
                    assert(dec_release_rows(b@, p as int, rem) is None);
                }
                return None;
            },
        }
        i += 1;
    }
    proof {
        assert(out.deep_view() + Seq::<SourceDataReleaseRowV>::empty() =~= out.deep_view());
    }
    Some((out, p))
}

/// Reads one publisher table, advancing the position.
fn read_publisher_table(b: &Vec<u8>, pos: usize) -> (r: Option<(Vec<DataPublisherRow>, usize)>)
    ensures
        match dec_publisher_table(b@, pos as int) {
            Some((rows, p)) => r matches Some(rr) && rr.0.deep_view() == rows && rr.1 == p,
            None => r is None,
        },
{
    let (n, p0) = match read_u64(b, pos) {
        Some(x) => x,
        None => {
            return None;
        },
    };
    let mut out: Vec<DataPublisherRow> = Vec::new();
    let mut p = p0;
    let mut i: u64 = 0;
    proof {
        assert(out.deep_view() =~= Seq::<DataPublisherRowV>::empty());
    }
    while i < n
        invariant
            i <= n,
            match dec_publisher_rows(b@, p as int, (n - i) as nat) {
                Some((rows, pend)) => dec_publisher_rows(b@, p0 as int, n as nat) matches Some(all)
                    && all.0 == out.deep_view() + rows && all.1 == pend,
                None => dec_publisher_rows(b@, p0 as int, n as nat) is None,
            },
        decreases n - i,
    {
        let ghost pre = out.deep_view();
        let ghost rem = (n - i) as nat;
        match read_publisher_row(b, p) {
            Some((row, p2)) => {
                out.push(row);
                proof {
                    let rv = dec_publisher_row(b@, p as int).unwrap().0;
                    assert(out.deep_view() =~= pre.push(rv));
                    if dec_publisher_rows(b@, p2 as int, (rem - 1) as nat) is Some {
                        let (rs2, pend) = dec_publisher_rows(b@, p2 as int, (rem - 1) as nat).unwrap();
                        assert(dec_publisher_rows(b@, p as int, rem) matches Some(x) && x.0 == seq![rv]
                            + rs2 && x.1 == pend);
                        assert(pre.push(rv) + rs2 =~= pre + (seq![rv] + rs2));
                    } else {
                        assert(dec_publisher_rows(b@, p as int, rem) is None);
                    }
                }
                p = p2;
            },
            None => {
                proof {
                    assert(dec_publisher_rows(b@, p as int, rem) is None);
                }
                return None;
            },
        }
        i += 1;
    }
    proof {
        assert(out.deep_view() + Seq::<DataPublisherRowV>::empty() =~= out.deep_view());
    }
    Some((out, p))
}

/// Reads one country table, advancing the position.
fn read_country_table(b: &Vec<u8>, pos: usize) -> (r: Option<(Vec<CountryRow>, usize)>)
    ensures
        match dec_country_table(b@, pos as int) {
            Some((rows, p)) => r matches Some(rr) && rr.0.deep_view() == rows && rr.1 == p,
            None => r is None,
        },
{
    let (n, p0) = match read_u64(b, pos) {
        Some(x) => x,
        None => {
            return None;
        },
    };
    let mut out: Vec<CountryRow> = Vec::new();
    let mut p = p0;
    let mut i: u64 = 0;
    proof {
        assert(out.deep_view() =~= Seq::<CountryRowV>::empty());
    }
    while i < n
        invariant
            i <= n,
            match dec_country_rows(b@, p as int, (n - i) as nat) {
                Some((rows, pend)) => dec_country_rows(b@, p0 as int, n as nat) matches Some(all)
                    && all.0 == out.deep_view() + rows && all.1 == pend,
                None => dec_country_rows(b@, p0 as int, n as nat) is None,
            },
        decreases n - i,
    {
        let ghost pre = out.deep_view();
        let ghost rem = (n - i) as nat;
        match read_country_row(b, p) {
            Some((row, p2)) => {
                out.push(row);
                proof {
                    let rv = dec_country_row(b@, p as int).unwrap().0;
                    assert(out.deep_view() =~= pre.push(rv));
                    if dec_country_rows(b@, p2 as int, (rem - 1) as nat) is Some {
                        let (rs2, pend) = dec_country_rows(b@, p2 as int, (rem - 1) as nat).unwrap();
                        assert(dec_country_rows(b@, p as int, rem) matches Some(x) && x.0 == seq![rv]
                            + rs2 && x.1 == pend);
                        assert(pre.push(rv) + rs2 =~= pre + (seq![rv] + rs2));
                    } else {
                        assert(dec_country_rows(b@, p as int, rem) is None);
                    }
                }
                p = p2;
            },
            None => {
                proof {
                    assert(dec_country_rows(b@, p as int, rem) is None);
                }
                return None;
            },
        }
        i += 1;
    }
    proof {
        assert(out.deep_view() + Seq::<CountryRowV>::empty() =~= out.deep_view());
    }
    Some((out, p))
}

impl Metadata {
    /// Decodes a cache byte snapshot back into a catalog. When the bytes do
    /// not decode as a snapshot, the cache is reported corrupt; nothing
    /// panics.
    pub fn from_cache_bytes(bytes: &Vec<u8>) -> (r: Result<Metadata, PopgetterError>)
        ensures
            match dec_metadata(bytes@) {
                Some(v) => r matches Ok(md) && md@ == v,
                None => r matches Err(e) && e is CacheCorrupt,
            },
    {
        let (metrics, p1) = match read_metric_table(bytes, 0) {
            Some(x) => x,
            None => {
                return Err(PopgetterError::CacheCorrupt);
            },
        };
        let (geometries, p2) = match read_geometry_table(bytes, p1) {
            Some(x) => x,
            None => {
                return Err(PopgetterError::CacheCorrupt);
            },
        };
        let (source_data_releases, p3) = match read_release_table(bytes, p2) {
            Some(x) => x,
            None => {
                return Err(PopgetterError::CacheCorrupt);
            },
        };
        let (data_publishers, p4) = match read_publisher_table(bytes, p3) {
            Some(x) => x,
            None => {
                return Err(PopgetterError::CacheCorrupt);
            },
        };
        let (countries, p5) = match read_country_table(bytes, p4) {
            Some(x) => x,
            None => {
                return Err(PopgetterError::CacheCorrupt);
            },
        };
        if p5 != bytes.len() {
            return Err(PopgetterError::CacheCorrupt);
        }
        let md = Metadata { metrics, geometries, source_data_releases, data_publishers, countries };
        proof {
            assert(md@ =~~= dec_metadata(bytes@).unwrap());
        }
        Ok(md)
    }
}

} // verus!
