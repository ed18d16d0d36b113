//! Fetch plans for metric columns, and the SQL text equivalent to a fetch.
//!
//! A `MetricRequest` names one metric column, the file it lives in and the
//! geometry file it joins to. The SQL generator produces, without executing
//! anything, the query a fetch performs: one `SELECT` per source file, and a
//! `USING (GEO_ID)` join when the requests span several files. File order is
//! deterministic: distinct files are taken in ascending lexicographic order.

use vstd::prelude::*;
use crate::error::PopgetterError;

verus! {

/// A resolved (column, metric file, geometry file) triple ready to fetch.
#[derive(Debug)]
pub struct MetricRequest {
    pub column: String,
    pub metric_file: String,
    pub geom_file: String,
}

impl Clone for MetricRequest {
    fn clone(&self) -> (r: Self)
        ensures
            r == *self,
    {
        MetricRequest {
            column: self.column.clone(),
            metric_file: self.metric_file.clone(),
            geom_file: self.geom_file.clone(),
        }
    }
}

/// Spec-level image of a request.
#[verifier::ext_equal]
pub struct MetricRequestV {
    pub column: Seq<char>,
    pub metric_file: Seq<char>,
    pub geom_file: Seq<char>,
}

impl View for MetricRequest {
    type V = MetricRequestV;

    open spec fn view(&self) -> MetricRequestV {
        MetricRequestV {
            column: self.column@,
            metric_file: self.metric_file@,
            geom_file: self.geom_file@,
        }
    }
}

impl DeepView for MetricRequest {
    type V = MetricRequestV;

    open spec fn deep_view(&self) -> MetricRequestV {
        self.view()
    }
}

/// Strict lexicographic order on character sequences, by code point.
pub open spec fn seq_lt(a: Seq<char>, b: Seq<char>) -> bool
    decreases a.len(),
{
    if b.len() == 0 {
        false
    } else if a.len() == 0 {
        true
    } else if a[0] != b[0] {
        (a[0] as int) < (b[0] as int)
    } else {
        seq_lt(a.drop_first(), b.drop_first())
    }
}

/// Exactly one of `a < b`, `a == b`, `b < a` holds.
proof fn lemma_seq_lt_trichotomy(a: Seq<char>, b: Seq<char>)
    ensures
        seq_lt(a, b) || a == b || seq_lt(b, a),
        seq_lt(a, b) ==> a != b && !seq_lt(b, a),
        a == b ==> !seq_lt(a, b) && !seq_lt(b, a),
    decreases a.len(),
{
    if a.len() == 0 && b.len() == 0 {
        assert(a =~= b);
    } else if a.len() > 0 && b.len() > 0 {
        if a[0] == b[0] {
            lemma_seq_lt_trichotomy(a.drop_first(), b.drop_first());
            if a.drop_first() == b.drop_first() {
                assert forall|j: int| 0 <= j < a.len() implies a[j] == b[j] by {
                    if j > 0 {
                        assert(a.drop_first()[j - 1] == b.drop_first()[j - 1]);
                    }
                }
                assert(a =~= b);
            }
            if a == b {
                assert(a.drop_first() =~= b.drop_first());
            }
        } else {
            assert(a != b);
        }
    }
}

/// Compares two strings in lexicographic code-point order.
pub fn lt_str(a: &str, b: &str) -> (r: bool)
    ensures
        r == seq_lt(a@, b@),
{
    let alen = a.unicode_len();
    let blen = b.unicode_len();
    let mut i: usize = 0;
    proof {
        assert(a@.skip(0) =~= a@);
        assert(b@.skip(0) =~= b@);
    }
    while i < alen && i < blen
        invariant
            i <= alen,
            i <= blen,
            alen == a@.len(),
            blen == b@.len(),
            seq_lt(a@, b@) == seq_lt(a@.skip(i as int), b@.skip(i as int)),
            forall|j: int| 0 <= j < i ==> a@[j] == b@[j],
        decreases alen - i,
    {
        let ca = a.get_char(i);
        let cb = b.get_char(i);
        if ca != cb {
            assert(a@.skip(i as int)[0] == ca && b@.skip(i as int)[0] == cb);
            return ca < cb;
        }
        proof {
            assert(a@.skip(i as int).drop_first() =~= a@.skip(i + 1));
            assert(b@.skip(i as int).drop_first() =~= b@.skip(i + 1));
            assert(a@.skip(i as int)[0] == a@[i as int] && b@.skip(i as int)[0] == b@[i as int]);
        }
        i += 1;
    }
    proof {
        if i == alen {
            assert(a@.skip(i as int).len() == 0);
        } else {
            assert(b@.skip(i as int).len() == 0);
        }
    }
    alen < blen
}

/// Inserts a name into a (sorted, duplicate-free) list, keeping it sorted
/// and dropping the name if it is already present.
pub open spec fn insert_sorted(files: Seq<Seq<char>>, f: Seq<char>) -> Seq<Seq<char>>
    decreases files.len(),
{
    if files.len() == 0 {
        seq![f]
    } else if seq_lt(files.last(), f) {
        files.push(f)
    } else if files.last() == f {
        files
    } else {
        insert_sorted(files.drop_last(), f).push(files.last())
    }
}

/// The distinct metric files of a request list, in ascending lexicographic
/// order.
pub open spec fn spec_files_of(reqs: Seq<MetricRequestV>) -> Seq<Seq<char>>
    decreases reqs.len(),
{
    if reqs.len() == 0 {
        Seq::empty()
    } else {
        insert_sorted(spec_files_of(reqs.drop_last()), reqs.last().metric_file)
    }
}

/// Inserts one file name into the sorted list.
fn insert_file(v: &mut Vec<String>, f: &str)
    ensures
        final (v).deep_view() == insert_sorted(old(v).deep_view(), f@),
{
    let ghost dv = v.deep_view();
    let mut k = v.len();
    proof {
        assert(dv.take(k as int) =~= dv);
        assert(dv.skip(k as int) =~= Seq::<Seq<char>>::empty());
        assert(insert_sorted(dv, f@) =~= insert_sorted(dv.take(k as int), f@) + dv.skip(k as int));
    }
    while k > 0 && lt_str(f, v[k - 1].as_str())
        invariant
            k <= v@.len(),
            dv == v.deep_view(),
            dv.len() == v@.len(),
            insert_sorted(dv, f@) == insert_sorted(dv.take(k as int), f@) + dv.skip(k as int),
            forall|j: int| 0 <= j < v@.len() ==> (#[trigger] v@[j])@ == dv[j],
        decreases k,
    {
        proof {
            let t = dv.take(k as int);
            assert(t.last() == dv[k - 1]);
            lemma_seq_lt_trichotomy(t.last(), f@);
            assert(!seq_lt(t.last(), f@) && t.last() != f@);
            assert(t.drop_last() =~= dv.take(k - 1));
            assert(dv.skip(k - 1) =~= seq![dv[k - 1]] + dv.skip(k as int));
            assert(insert_sorted(dv.take(k - 1), f@).push(dv[k - 1]) + dv.skip(k as int)
                =~= insert_sorted(dv.take(k - 1), f@) + dv.skip(k - 1));
        }
        k -= 1;
    }
    if k > 0 {
        if crate::textmatch::eq_str(v[k - 1].as_str(), f) {
            proof {
                let t = dv.take(k as int);
                assert(t.last() == dv[k - 1]);
                assert(t.last() =~= f@);
                lemma_seq_lt_trichotomy(t.last(), f@);
                assert(insert_sorted(t, f@) == t);
                assert(t + dv.skip(k as int) =~= dv);
            }
            return ;
        }
    }
    // Here k == 0 or v[k-1] < f: insert at position k.
    proof {
        let t = dv.take(k as int);
        if k > 0 {
            assert(t.last() == dv[k - 1]);
            lemma_seq_lt_trichotomy(t.last(), f@);
            assert(seq_lt(t.last(), f@));
            assert(insert_sorted(t, f@) == t.push(f@));
        } else {
            assert(t.len() == 0);
            assert(insert_sorted(t, f@) =~= seq![f@]);
            assert(t.push(f@) =~= seq![f@]);
        }
    }
    v.insert(k, f.to_owned());
    proof {
        assert(v.deep_view() =~= dv.take(k as int).push(f@) + dv.skip(k as int));
    }
}

/// The distinct metric files named by the requests, ascending, so that
/// generated queries are deterministic whatever order requests arrive in.
pub fn files_from_metrics(metrics: &Vec<MetricRequest>) -> (r: Vec<String>)
    ensures
        r.deep_view() == spec_files_of(metrics.deep_view()),
{
    let mut out: Vec<String> = Vec::new();
    let mut i: usize = 0;
    proof {
        assert(out.deep_view() =~= spec_files_of(metrics.deep_view().take(0)));
        assert(metrics.deep_view().len() == metrics@.len());
    }
    while i < metrics.len()
        invariant
            i <= metrics@.len(),
            metrics.deep_view().len() == metrics@.len(),
            forall|j: int|
                0 <= j < metrics@.len() ==> (#[trigger] metrics@[j])@ == metrics.deep_view()[j],
            out.deep_view() == spec_files_of(metrics.deep_view().take(i as int)),
        decreases metrics@.len() - i,
    {
        proof {
            assert(metrics.deep_view().take(i + 1).drop_last() =~= metrics.deep_view().take(
                i as int,
            ));
            assert(metrics.deep_view().take(i + 1).last() == metrics.deep_view()[i as int]);
        }
        insert_file(&mut out, metrics[i].metric_file.as_str());
        i += 1;
    }
    proof {
        assert(metrics.deep_view().take(metrics@.len() as int) =~= metrics.deep_view());
    }
    out
}

/// The columns requested from one file, in request order.
pub open spec fn spec_cols_for(reqs: Seq<MetricRequestV>, file: Seq<char>) -> Seq<Seq<char>>
    decreases reqs.len(),
{
    if reqs.len() == 0 {
        Seq::empty()
    } else {
        spec_cols_for(reqs.drop_last(), file) + if reqs.last().metric_file == file {
            seq![reqs.last().column]
        } else {
            Seq::empty()
        }
    }
}

/// Collects the columns requested from one file, in request order.
pub fn cols_for_file(metrics: &Vec<MetricRequest>, file: &str) -> (r: Vec<String>)
    ensures
        r.deep_view() == spec_cols_for(metrics.deep_view(), file@),
{
    let mut out: Vec<String> = Vec::new();
    let mut i: usize = 0;
    proof {
        assert(out.deep_view() =~= spec_cols_for(metrics.deep_view().take(0), file@));
        assert(metrics.deep_view().len() == metrics@.len());
    }
    while i < metrics.len()
        invariant
            i <= metrics@.len(),
            metrics.deep_view().len() == metrics@.len(),
            forall|j: int|
                0 <= j < metrics@.len() ==> (#[trigger] metrics@[j])@ == metrics.deep_view()[j],
            out.deep_view() == spec_cols_for(metrics.deep_view().take(i as int), file@),
        decreases metrics@.len() - i,
    {
        proof {
            assert(metrics.deep_view().take(i + 1).drop_last() =~= metrics.deep_view().take(
                i as int,
            ));
            assert(metrics.deep_view().take(i + 1).last() == metrics.deep_view()[i as int]);
        }
        let ghost pre = out.deep_view();
        if crate::textmatch::eq_str(metrics[i].metric_file.as_str(), file) {
            out.push(metrics[i].column.clone());
            proof {
                assert(out.deep_view() =~= pre.push(metrics.deep_view()[i as int].column));
            }
        }
        i += 1;
    }
    proof {
        assert(metrics.deep_view().take(metrics@.len() as int) =~= metrics.deep_view());
    }
    out
}

/// Joins parts with a separator, in order.
pub open spec fn spec_join_with(parts: Seq<Seq<char>>, sep: Seq<char>) -> Seq<char>
    decreases parts.len(),
{
    if parts.len() == 0 {
        Seq::empty()
    } else if parts.len() == 1 {
        parts[0]
    } else {
        spec_join_with(parts.drop_last(), sep) + sep + parts.last()
    }
}

/// Joins strings with a separator.
pub fn join_with(parts: &Vec<String>, sep: &str) -> (r: String)
    ensures
        r@ == spec_join_with(parts.deep_view(), sep@),
{
    let mut out = String::new();
    let mut i: usize = 0;
    while i < parts.len()
        invariant
            i <= parts@.len(),
            parts.deep_view().len() == parts@.len(),
            forall|j: int|
                0 <= j < parts@.len() ==> (#[trigger] parts@[j])@ == parts.deep_view()[j],
            out@ == spec_join_with(parts.deep_view().take(i as int), sep@),
        decreases parts@.len() - i,
    {
        proof {
            let t = parts.deep_view().take(i + 1);
            assert(t.drop_last() =~= parts.deep_view().take(i as int));
            assert(t.last() == parts.deep_view()[i as int]);
            if i == 0 {
                assert(spec_join_with(parts.deep_view().take(0), sep@) =~= Seq::<char>::empty());
            }
        }
        if i > 0 {
            out.append(sep);
        }
        out.append(parts[i].as_str());
        i += 1;
    }
    proof {
        assert(parts.deep_view().take(parts@.len() as int) =~= parts.deep_view());
    }
    out
}

/// Each column wrapped in double quotes.
pub open spec fn spec_dquoted(cols: Seq<Seq<char>>) -> Seq<Seq<char>>
    decreases cols.len(),
{
    if cols.len() == 0 {
        Seq::empty()
    } else {
        spec_dquoted(cols.drop_last()).push("\""@ + cols.last() + "\""@)
    }
}

/// Each key wrapped in single quotes.
pub open spec fn spec_squoted(ids: Seq<Seq<char>>) -> Seq<Seq<char>>
    decreases ids.len(),
{
    if ids.len() == 0 {
        Seq::empty()
    } else {
        spec_squoted(ids.drop_last()).push("'"@ + ids.last() + "'"@)
    }
}

/// Wraps each string in the given quote string.
fn quote_all(parts: &Vec<String>, quote: &str) -> (r: Vec<String>)
    ensures
        r.deep_view().len() == parts.deep_view().len(),
        forall|j: int|
            0 <= j < parts.deep_view().len() ==> r.deep_view()[j] == quote@ + #[trigger] parts.deep_view()[j]
                + quote@,
{
    let mut out: Vec<String> = Vec::new();
    let mut i: usize = 0;
    while i < parts.len()
        invariant
            i <= parts@.len(),
            parts.deep_view().len() == parts@.len(),
            forall|j: int|
                0 <= j < parts@.len() ==> (#[trigger] parts@[j])@ == parts.deep_view()[j],
            out.deep_view().len() == i,
            forall|j: int|
                0 <= j < i ==> out.deep_view()[j] == quote@ + #[trigger] parts.deep_view()[j]
                    + quote@,
        decreases parts@.len() - i,
    {
        let mut q = quote.to_owned();
        q.append(parts[i].as_str());
        q.append(quote);
        let ghost pre = out.deep_view();
        out.push(q);
        proof {
            assert(out.deep_view() =~= pre.push(quote@ + parts.deep_view()[i as int] + quote@));
        }
        i += 1;
    }
    out
}

/// `spec_dquoted` is pointwise double quoting.
proof fn lemma_dquoted_pointwise(cols: Seq<Seq<char>>)
    ensures
        spec_dquoted(cols).len() == cols.len(),
        forall|j: int|
            0 <= j < cols.len() ==> spec_dquoted(cols)[j] == "\""@ + #[trigger] cols[j] + "\""@,
    decreases cols.len(),
{
    if cols.len() > 0 {
        lemma_dquoted_pointwise(cols.drop_last());
        assert forall|j: int|
            0 <= j < cols.len() implies spec_dquoted(cols)[j] == "\""@ + #[trigger] cols[j]
            + "\""@ by {
            if j < cols.len() - 1 {
                assert(cols.drop_last()[j] == cols[j]);
            }
        }
    }
}

/// `spec_squoted` is pointwise single quoting.
proof fn lemma_squoted_pointwise(ids: Seq<Seq<char>>)
    ensures
        spec_squoted(ids).len() == ids.len(),
        forall|j: int|
            0 <= j < ids.len() ==> spec_squoted(ids)[j] == "'"@ + #[trigger] ids[j] + "'"@,
    decreases ids.len(),
{
    if ids.len() > 0 {
        lemma_squoted_pointwise(ids.drop_last());
        assert forall|j: int|
            0 <= j < ids.len() implies spec_squoted(ids)[j] == "'"@ + #[trigger] ids[j]
            + "'"@ by {
            if j < ids.len() - 1 {
                assert(ids.drop_last()[j] == ids[j]);
            }
        }
    }
}

/// The SQL text fetching the given columns (plus the key column) from one
/// file, filtered to a key set when one is given.
pub open spec fn spec_file_sql(
    file: Seq<char>,
    cols: Seq<Seq<char>>,
    geo_ids: Option<Seq<Seq<char>>>,
) -> Seq<char> {
    "SELECT \"GEO_ID\", "@ + spec_join_with(spec_dquoted(cols), ", "@) + " FROM read_parquet('"@
        + file + "')"@ + (match geo_ids {
        None => Seq::<char>::empty(),
        Some(ids) => " WHERE \"GEO_ID\" IN ("@ + spec_join_with(spec_squoted(ids), ", "@) + ")"@,
    })
}

/// Builds the single-file SQL; the caller guarantees at least one column.
fn file_sql(file: &str, cols: &Vec<String>, geo_ids: Option<&Vec<String>>) -> (r: String)
    ensures
        r@ == spec_file_sql(
            file@,
            cols.deep_view(),
            match geo_ids {
                Some(ids) => Some(ids.deep_view()),
                None => None,
            },
        ),
{
    let mut out = "SELECT \"GEO_ID\", ".to_owned();
    let quoted = quote_all(cols, "\"");
    proof {
        lemma_dquoted_pointwise(cols.deep_view());
        assert forall|j: int|
            0 <= j < cols.deep_view().len() implies quoted.deep_view()[j] == spec_dquoted(
            cols.deep_view(),
        )[j] by {
            assert(quoted.deep_view()[j] == "\""@ + cols.deep_view()[j] + "\""@);
        }
        assert(quoted.deep_view() =~= spec_dquoted(cols.deep_view()));
    }
    let joined = join_with(&quoted, ", ");
    out.append(joined.as_str());
    out.append(" FROM read_parquet('");
    out.append(file);
    out.append("')");
    if let Some(ids) = geo_ids {
        let iquoted = quote_all(ids, "'");
        proof {
            lemma_squoted_pointwise(ids.deep_view());
            assert forall|j: int|
                0 <= j < ids.deep_view().len() implies iquoted.deep_view()[j] == spec_squoted(
                ids.deep_view(),
            )[j] by {
                assert(iquoted.deep_view()[j] == "'"@ + ids.deep_view()[j] + "'"@);
            }
            assert(iquoted.deep_view() =~= spec_squoted(ids.deep_view()));
        }
        let ijoined = join_with(&iquoted, ", ");
        out.append(" WHERE \"GEO_ID\" IN (");
        out.append(ijoined.as_str());
        out.append(")");
    }
    out
}

/// The SQL fetching the requested columns from one file: exactly the key
/// column followed by the quoted columns, reading the file, with a key
/// filter appended when a key set is given. At least one column must be
/// requested.
pub fn get_metrics_from_file_sql(
    file_url: &str,
    columns: &Vec<String>,
    geo_ids: Option<&Vec<String>>,
) -> (r: Result<String, PopgetterError>)
    ensures
        r is Ok <==> columns@.len() > 0,
        r matches Ok(s) ==> s@ == spec_file_sql(
            file_url@,
            columns.deep_view(),
            match geo_ids {
                Some(ids) => Some(ids.deep_view()),
                None => None,
            },
        ),
        r is Err ==> r.unwrap_err() is NoColumnsSpecified,
{
    if columns.len() == 0 {
        return Err(PopgetterError::NoColumnsSpecified);
    }
    Ok(file_sql(file_url, columns, geo_ids))
}


/// The decimal digit character of a value below ten.
pub open spec fn spec_digit_char(d: int) -> char {
    if d == 0 {
        '0'
    } else if d == 1 {
        '1'
    } else if d == 2 {
        '2'
    } else if d == 3 {
        '3'
    } else if d == 4 {
        '4'
    } else if d == 5 {
        '5'
    } else if d == 6 {
        '6'
    } else if d == 7 {
        '7'
    } else if d == 8 {
        '8'
    } else {
        '9'
    }
}

/// The decimal digits of a non-negative number, most significant first.
pub open spec fn spec_digits(n: int) -> Seq<char>
    decreases n,
{
    if n < 10 {
        seq![spec_digit_char(n)]
    } else {
        spec_digits(n / 10) + seq![spec_digit_char(n % 10)]
    }
}

/// Appends the decimal digits of `n`.
fn push_digits(n: usize, out: &mut String)
    ensures
        final (out)@ == old(out)@ + spec_digits(n as int),
    decreases n,
{
    if n >= 10 {
        push_digits(n / 10, out);
    }
    let d = n % 10;
    let ds: &str = if d == 0 {
        "0"
    } else if d == 1 {
        "1"
    } else if d == 2 {
        "2"
    } else if d == 3 {
        "3"
    } else if d == 4 {
        "4"
    } else if d == 5 {
        "5"
    } else if d == 6 {
        "6"
    } else if d == 7 {
        "7"
    } else if d == 8 {
        "8"
    } else {
        "9"
    };
    proof {
        reveal_strlit("0");
        reveal_strlit("1");
        reveal_strlit("2");
        reveal_strlit("3");
        reveal_strlit("4");
        reveal_strlit("5");
        reveal_strlit("6");
        reveal_strlit("7");
        reveal_strlit("8");
        reveal_strlit("9");
        assert(ds@ =~= seq![spec_digit_char(n as int % 10)]);
        if n < 10 {
            assert(spec_digits(n as int) =~= seq![spec_digit_char(n as int)]);
        }
    }
    out.append(ds);
    proof {
        if n >= 10 {
            assert(final (out)@ =~= old(out)@ + spec_digits(n as int));
        } else {
            assert(final (out)@ =~= old(out)@ + spec_digits(n as int));
        }
    }
}

/// One qualified column of the outer select: `q{idx}."{col}"`.
pub open spec fn spec_qcol(idx: int, col: Seq<char>) -> Seq<char> {
    "q"@ + spec_digits(idx) + ".\""@ + col + "\""@
}

/// The qualified columns of the file at position `idx`.
pub open spec fn spec_qcols_for(idx: int, cols: Seq<Seq<char>>) -> Seq<Seq<char>>
    decreases cols.len(),
{
    if cols.len() == 0 {
        Seq::empty()
    } else {
        spec_qcols_for(idx, cols.drop_last()).push(spec_qcol(idx, cols.last()))
    }
}

/// Every file's qualified columns, file order then column order.
pub open spec fn spec_all_qcols(colsets: Seq<Seq<Seq<char>>>) -> Seq<Seq<char>>
    decreases colsets.len(),
{
    if colsets.len() == 0 {
        Seq::empty()
    } else {
        spec_all_qcols(colsets.drop_last()) + spec_qcols_for(
            colsets.len() - 1,
            colsets.last(),
        )
    }
}

/// The columns requested from each file, file order matching `files`.
pub open spec fn spec_colsets(reqs: Seq<MetricRequestV>, files: Seq<Seq<char>>) -> Seq<
    Seq<Seq<char>>,
>
    decreases files.len(),
{
    if files.len() == 0 {
        Seq::empty()
    } else {
        spec_colsets(reqs, files.drop_last()).push(spec_cols_for(reqs, files.last()))
    }
}

/// The per-file queries, file order matching `files`.
pub open spec fn spec_queries(
    reqs: Seq<MetricRequestV>,
    files: Seq<Seq<char>>,
    geo_ids: Option<Seq<Seq<char>>>,
) -> Seq<Seq<char>>
    decreases files.len(),
{
    if files.len() == 0 {
        Seq::empty()
    } else {
        spec_queries(reqs, files.drop_last(), geo_ids).push(
            spec_file_sql(files.last(), spec_cols_for(reqs, files.last()), geo_ids),
        )
    }
}

/// The `FROM`/`JOIN` line wrapping the per-file query at position `idx`.
pub open spec fn spec_join_line(idx: int, q: Seq<char>) -> Seq<char> {
    if idx == 0 {
        "FROM ("@ + q + ") q"@ + spec_digits(idx)
    } else {
        "JOIN ("@ + q + ") q"@ + spec_digits(idx) + " USING (GEO_ID)"@
    }
}

/// All the `FROM`/`JOIN` lines, in file order.
pub open spec fn spec_join_lines(queries: Seq<Seq<char>>) -> Seq<Seq<char>>
    decreases queries.len(),
{
    if queries.len() == 0 {
        Seq::empty()
    } else {
        spec_join_lines(queries.drop_last()).push(
            spec_join_line(queries.len() - 1, queries.last()),
        )
    }
}

/// The SQL equivalent to fetching and joining all requested metric columns:
/// for a single file, that file's query alone; for several, the outer
/// select lists the key once and every column qualified by its sub-select
/// alias, and each per-file query is joined on the key.
pub open spec fn spec_metrics_sql(
    reqs: Seq<MetricRequestV>,
    geo_ids: Option<Seq<Seq<char>>>,
) -> Seq<char> {
    let files = spec_files_of(reqs);
    let queries = spec_queries(reqs, files, geo_ids);
    if files.len() == 1 {
        queries[0]
    } else {
        let select_line = "SELECT q0.GEO_ID, "@ + spec_join_with(
            spec_all_qcols(spec_colsets(reqs, files)),
            ", "@,
        );
        spec_join_with(seq![select_line] + spec_join_lines(queries), "\n"@)
    }
}

/// A file in the file list is some request's file, so its column list is
/// non-empty.
proof fn lemma_file_has_request(reqs: Seq<MetricRequestV>, j: int)
    requires
        0 <= j < spec_files_of(reqs).len(),
    ensures
        exists|k: int|
            0 <= k < reqs.len() && (#[trigger] reqs[k]).metric_file == spec_files_of(reqs)[j],
    decreases reqs.len(),
{
    if reqs.len() > 0 {
        let prev = spec_files_of(reqs.drop_last());
        let f = reqs.last().metric_file;
        lemma_insert_sorted_membership(prev, f, j);
        if spec_files_of(reqs)[j] == f {
            assert(reqs[reqs.len() - 1].metric_file == spec_files_of(reqs)[j]);
        } else {
            let j2 = choose|j2: int| 0 <= j2 < prev.len() && prev[j2] == spec_files_of(reqs)[j];
            lemma_file_has_request(reqs.drop_last(), j2);
            let k = choose|k: int|
                0 <= k < reqs.drop_last().len() && (#[trigger] reqs.drop_last()[k]).metric_file
                    == prev[j2];
            assert(reqs[k].metric_file == spec_files_of(reqs)[j]);
        }
    }
}

/// Every name in an insertion result is the inserted name or one already
/// present.
proof fn lemma_insert_sorted_membership(files: Seq<Seq<char>>, f: Seq<char>, j: int)
    requires
        0 <= j < insert_sorted(files, f).len(),
    ensures
        insert_sorted(files, f)[j] == f || exists|j2: int|
            0 <= j2 < files.len() && #[trigger] files[j2] == insert_sorted(files, f)[j],
    decreases files.len(),
{
    if files.len() == 0 {
    } else if seq_lt(files.last(), f) {
    } else if files.last() == f {
    } else {
        let inner = insert_sorted(files.drop_last(), f);
        if j < inner.len() {
            lemma_insert_sorted_membership(files.drop_last(), f, j);
            if inner[j] != f {
                let j2 = choose|j2: int|
                    0 <= j2 < files.drop_last().len() && #[trigger] files.drop_last()[j2]
                        == inner[j];
                assert(files[j2] == insert_sorted(files, f)[j]);
            }
        } else {
            assert(insert_sorted(files, f)[j] == files.last());
            assert(files[files.len() - 1] == insert_sorted(files, f)[j]);
        }
    }
}

/// If some request names `file`, the column list for `file` is non-empty.
proof fn lemma_cols_nonempty(reqs: Seq<MetricRequestV>, file: Seq<char>, k: int)
    requires
        0 <= k < reqs.len(),
        reqs[k].metric_file == file,
    ensures
        spec_cols_for(reqs, file).len() > 0,
    decreases reqs.len(),
{
    if k < reqs.len() - 1 {
        assert(reqs.drop_last()[k] == reqs[k]);
        lemma_cols_nonempty(reqs.drop_last(), file, k);
    }
}

/// The SQL equivalent to fetching all requested metric columns, optionally
/// filtered by a key set: a single file's query stands alone; several
/// files' queries are numbered `q0, q1, ...` in ascending file order and
/// joined on the key column, with the outer select listing the key once and
/// then every column, file order then column order.
pub fn get_metrics_sql(metrics: &Vec<MetricRequest>, geo_ids: Option<&Vec<String>>) -> (r: Result<
    String,
    PopgetterError,
>)
    ensures
        r is Ok,
        r matches Ok(s) ==> s@ == spec_metrics_sql(
            metrics.deep_view(),
            match geo_ids {
                Some(ids) => Some(ids.deep_view()),
                None => None,
            },
        ),
{
    let ghost gids: Option<Seq<Seq<char>>> = match geo_ids {
        Some(ids) => Some(ids.deep_view()),
        None => None,
    };
    let files = files_from_metrics(metrics);
    let mut queries: Vec<String> = Vec::new();
    let mut colsets: Vec<Vec<String>> = Vec::new();
    let mut j: usize = 0;
    proof {
        assert(queries.deep_view() =~= spec_queries(metrics.deep_view(), files.deep_view().take(0), gids));
        assert(colsets.deep_view() =~= spec_colsets(metrics.deep_view(), files.deep_view().take(0)));
        assert(files.deep_view().len() == files@.len());
        assert(forall|i: int|
            0 <= i < files@.len() ==> (#[trigger] files@[i])@ == files.deep_view()[i]);
    }
    while j < files.len()
        invariant
            j <= files@.len(),
            files.deep_view() == spec_files_of(metrics.deep_view()),
            files.deep_view().len() == files@.len(),
            forall|i: int|
                0 <= i < files@.len() ==> (#[trigger] files@[i])@ == files.deep_view()[i],
            queries.deep_view() == spec_queries(metrics.deep_view(), files.deep_view().take(j as int), gids),
            colsets.deep_view() == spec_colsets(metrics.deep_view(), files.deep_view().take(j as int)),
            gids == (match geo_ids {
                Some(ids) => Some(ids.deep_view()),
                None => None,
            }),
        decreases files@.len() - j,
    {
        let cols = cols_for_file(metrics, files[j].as_str());
        proof {
            lemma_file_has_request(metrics.deep_view(), j as int);
            let k = choose|k: int|
                0 <= k < metrics.deep_view().len() && (#[trigger] metrics.deep_view()[k]).metric_file
                    == spec_files_of(metrics.deep_view())[j as int];
            lemma_cols_nonempty(metrics.deep_view(), files.deep_view()[j as int], k);
            assert(cols.deep_view().len() > 0);
            assert(cols@.len() == cols.deep_view().len());
        }
        let q = file_sql(files[j].as_str(), &cols, geo_ids);
        let ghost pre_q = queries.deep_view();
        let ghost pre_c = colsets.deep_view();
        queries.push(q);
        colsets.push(cols);
        proof {
            let t = files.deep_view().take(j + 1);
            assert(t.drop_last() =~= files.deep_view().take(j as int));
            assert(t.last() == files.deep_view()[j as int]);
            assert(queries.deep_view() =~= pre_q.push(
                spec_file_sql(
                    files.deep_view()[j as int],
                    spec_cols_for(metrics.deep_view(), files.deep_view()[j as int]),
                    gids,
                ),
            ));
            assert(colsets.deep_view() =~= pre_c.push(
                spec_cols_for(metrics.deep_view(), files.deep_view()[j as int]),
            ));
        }
        j += 1;
    }
    proof {
        assert(files.deep_view().take(files@.len() as int) =~= files.deep_view());
    }
    if files.len() == 1 {
        let q = queries.pop().unwrap();
        return Ok(q);
    }
    // Outer select: the key once, then every column qualified by its
    // sub-select alias, file order then column order.
    let mut qcols: Vec<String> = Vec::new();
    let mut idx: usize = 0;
    proof {
        assert(qcols.deep_view() =~= spec_all_qcols(colsets.deep_view().take(0)));
    }
    while idx < colsets.len()
        invariant
            idx <= colsets@.len(),
            colsets.deep_view().len() == colsets@.len(),
            qcols.deep_view() == spec_all_qcols(colsets.deep_view().take(idx as int)),
        decreases colsets@.len() - idx,
    {
        let cols = &colsets[idx];
        let mut k: usize = 0;
        proof {
            assert(colsets.deep_view()[idx as int] == colsets@[idx as int].deep_view());
            assert(spec_qcols_for(idx as int, colsets.deep_view()[idx as int].take(0))
                =~= Seq::<Seq<char>>::empty());
            assert(qcols.deep_view() + spec_qcols_for(
                idx as int,
                colsets.deep_view()[idx as int].take(0),
            ) =~= qcols.deep_view());
        }
        let ghost base = qcols.deep_view();
        while k < cols.len()
            invariant
                k <= cols@.len(),
                cols.deep_view() == colsets.deep_view()[idx as int],
                0 <= idx < colsets@.len(),
                colsets.deep_view().len() == colsets@.len(),
                cols.deep_view().len() == cols@.len(),
                forall|i: int|
                    0 <= i < cols@.len() ==> (#[trigger] cols@[i])@ == cols.deep_view()[i],
                qcols.deep_view() == base + spec_qcols_for(
                    idx as int,
                    cols.deep_view().take(k as int),
                ),
            decreases cols@.len() - k,
        {
            let mut qc = "q".to_owned();
            push_digits(idx, &mut qc);
            qc.append(".\"");
            qc.append(cols[k].as_str());
            qc.append("\"");
            let ghost pre = qcols.deep_view();
            qcols.push(qc);
            proof {
                let t = cols.deep_view().take(k + 1);
                assert(t.drop_last() =~= cols.deep_view().take(k as int));
                assert(t.last() == cols.deep_view()[k as int]);
                assert(qcols.deep_view() =~= pre.push(
                    spec_qcol(idx as int, cols.deep_view()[k as int]),
                ));
                assert(qcols.deep_view() =~= base + spec_qcols_for(idx as int, t));
            }
            k += 1;
        }
        proof {
            let t = colsets.deep_view().take(idx + 1);
            assert(t.drop_last() =~= colsets.deep_view().take(idx as int));
            assert(t.last() == colsets.deep_view()[idx as int]);
            assert(cols.deep_view().take(cols@.len() as int) =~= cols.deep_view());
            assert(qcols.deep_view() =~= spec_all_qcols(t));
        }
        idx += 1;
    }
    proof {
        assert(colsets.deep_view().take(colsets@.len() as int) =~= colsets.deep_view());
    }
    let mut select_line = "SELECT q0.GEO_ID, ".to_owned();
    let joined_qcols = join_with(&qcols, ", ");
    select_line.append(joined_qcols.as_str());
    // The FROM/JOIN lines, one per file in order.
    let mut lines: Vec<String> = Vec::new();
    lines.push(select_line);
    let mut idx: usize = 0;
    proof {
        assert(spec_join_lines(queries.deep_view().take(0)) =~= Seq::<Seq<char>>::empty());
        assert(lines.deep_view() =~= seq![
            "SELECT q0.GEO_ID, "@ + spec_join_with(
                spec_all_qcols(spec_colsets(metrics.deep_view(), spec_files_of(metrics.deep_view()))),
                ", "@,
            ),
        ] + spec_join_lines(queries.deep_view().take(0)));
    }
    while idx < queries.len()
        invariant
            idx <= queries@.len(),
            queries.deep_view().len() == queries@.len(),
            forall|i: int|
                0 <= i < queries@.len() ==> (#[trigger] queries@[i])@ == queries.deep_view()[i],
            lines.deep_view() == seq![
                "SELECT q0.GEO_ID, "@ + spec_join_with(
                    spec_all_qcols(spec_colsets(metrics.deep_view(), spec_files_of(metrics.deep_view()))),
                    ", "@,
                ),
            ] + spec_join_lines(queries.deep_view().take(idx as int)),
        decreases queries@.len() - idx,
    {
        let mut line: String;
        if idx == 0 {
            line = "FROM (".to_owned();
            line.append(queries[idx].as_str());
            line.append(") q");
            push_digits(idx, &mut line);
        } else {
            line = "JOIN (".to_owned();
            line.append(queries[idx].as_str());
            line.append(") q");
            push_digits(idx, &mut line);
            line.append(" USING (GEO_ID)");
        }
        let ghost pre = lines.deep_view();
        lines.push(line);
        proof {
            let t = queries.deep_view().take(idx + 1);
            assert(t.drop_last() =~= queries.deep_view().take(idx as int));
            assert(t.last() == queries.deep_view()[idx as int]);
            assert(lines.deep_view() =~= pre.push(
                spec_join_line(idx as int, queries.deep_view()[idx as int]),
            ));
            assert(lines.deep_view() =~= seq![
                "SELECT q0.GEO_ID, "@ + spec_join_with(
                    spec_all_qcols(spec_colsets(metrics.deep_view(), spec_files_of(metrics.deep_view()))),
                    ", "@,
                ),
            ] + spec_join_lines(t));
        }
        idx += 1;
    }
    proof {
        assert(queries.deep_view().take(queries@.len() as int) =~= queries.deep_view());
    }
    let result = join_with(&lines, "\n");
    Ok(result)
}


/// Strict lexicographic order is transitive.
proof fn lemma_seq_lt_trans(a: Seq<char>, b: Seq<char>, c: Seq<char>)
    requires
        seq_lt(a, b),
        seq_lt(b, c),
    ensures
        seq_lt(a, c),
    decreases a.len(),
{
    if a.len() > 0 && b.len() > 0 && c.len() > 0 {
        if a[0] == b[0] && b[0] == c[0] {
            lemma_seq_lt_trans(a.drop_first(), b.drop_first(), c.drop_first());
        }
    }
}

/// A list of names in strictly ascending lexicographic order (hence without
/// duplicates).
pub open spec fn files_sorted(files: Seq<Seq<char>>) -> bool {
    forall|i: int, j: int| 0 <= i < j < files.len() ==> #[trigger] seq_lt(files[i], files[j])
}

/// Inserting into a sorted list keeps it sorted, and the result holds
/// exactly the old names and the new one.
proof fn lemma_insert_sorted_props(files: Seq<Seq<char>>, f: Seq<char>)
    requires
        files_sorted(files),
    ensures
        files_sorted(insert_sorted(files, f)),
        forall|x: Seq<char>|
            #[trigger] insert_sorted(files, f).contains(x) <==> (files.contains(x) || x == f),
    decreases files.len(),
{
    let out = insert_sorted(files, f);
    if files.len() == 0 {
        assert forall|x: Seq<char>| #[trigger] out.contains(x) implies (files.contains(x) || x
            == f) by {}
        assert(out.contains(f)) by {
            assert(out[0] == f);
        }
    } else if seq_lt(files.last(), f) {
        assert(files_sorted(out)) by {
            assert forall|i: int, j: int| 0 <= i < j < out.len() implies #[trigger] seq_lt(
                out[i],
                out[j],
            ) by {
                if j == out.len() - 1 {
                    if i < files.len() - 1 {
                        assert(seq_lt(files[i], files[files.len() - 1]));
                        lemma_seq_lt_trans(files[i], files.last(), f);
                    }
                }
            }
        }
        assert forall|x: Seq<char>| files.contains(x) || x == f implies #[trigger] out.contains(
            x,
        ) by {
            if x == f {
                assert(out[out.len() - 1] == f);
            } else {
                let k = choose|k: int| 0 <= k < files.len() && files[k] == x;
                assert(out[k] == x);
            }
        }
    } else if files.last() == f {
        assert forall|x: Seq<char>| files.contains(x) || x == f implies #[trigger] out.contains(
            x,
        ) by {
            if x == f {
                assert(out[out.len() - 1] == f);
            }
        }
    } else {
        lemma_seq_lt_trichotomy(files.last(), f);
        assert(seq_lt(f, files.last()));
        assert(files_sorted(files.drop_last())) by {
            assert(forall|i: int, j: int|
                0 <= i < j < files.drop_last().len() ==> #[trigger] seq_lt(
                    files.drop_last()[i],
                    files.drop_last()[j],
                ));
        }
        lemma_insert_sorted_props(files.drop_last(), f);
        let inner = insert_sorted(files.drop_last(), f);
        assert(files_sorted(out)) by {
            assert forall|i: int, j: int| 0 <= i < j < out.len() implies #[trigger] seq_lt(
                out[i],
                out[j],
            ) by {
                if j == out.len() - 1 {
                    assert(out[j] == files.last());
                    assert(inner.contains(inner[i]));
                    if inner[i] == f {
                        assert(seq_lt(out[i], out[j]));
                    } else {
                        let k = choose|k: int|
                            0 <= k < files.drop_last().len() && files.drop_last()[k] == inner[i];
                        assert(seq_lt(files[k], files[files.len() - 1]));
                    }
                }
            }
        }
        assert forall|x: Seq<char>| #[trigger] out.contains(x) implies (files.contains(x) || x
            == f) by {
            let k = choose|k: int| 0 <= k < out.len() && out[k] == x;
            if k == out.len() - 1 {
                assert(files[files.len() - 1] == x);
            } else {
                assert(inner.contains(x));
                if x != f {
                    let k2 = choose|k2: int|
                        0 <= k2 < files.drop_last().len() && files.drop_last()[k2] == x;
                    assert(files[k2] == x);
                }
            }
        }
        assert forall|x: Seq<char>| files.contains(x) || x == f implies #[trigger] out.contains(
            x,
        ) by {
            if x == f || files.drop_last().contains(x) {
                assert(inner.contains(x));
                let k = choose|k: int| 0 <= k < inner.len() && inner[k] == x;
                assert(out[k] == x);
            } else {
                let k = choose|k: int| 0 <= k < files.len() && files[k] == x;
                if k == files.len() - 1 {
                    assert(out[out.len() - 1] == x);
                } else {
                    assert(files.drop_last()[k] == x);
                }
            }
        }
    }
}

/// The distinct-file list is strictly ascending (so free of duplicates) and
/// holds exactly the files the requests name: the generated query text is
/// deterministic whatever order the requests arrive in.
pub proof fn lemma_files_of_sorted_and_complete(reqs: Seq<MetricRequestV>)
    ensures
        files_sorted(spec_files_of(reqs)),
        forall|x: Seq<char>|
            #[trigger] spec_files_of(reqs).contains(x) <==> exists|k: int|
                0 <= k < reqs.len() && (#[trigger] reqs[k]).metric_file == x,
    decreases reqs.len(),
{
    if reqs.len() == 0 {
        assert forall|x: Seq<char>| !(#[trigger] spec_files_of(reqs).contains(x)) by {}
    } else {
        lemma_files_of_sorted_and_complete(reqs.drop_last());
        let prev = spec_files_of(reqs.drop_last());
        let f = reqs.last().metric_file;
        lemma_insert_sorted_props(prev, f);
        assert forall|x: Seq<char>| #[trigger] spec_files_of(reqs).contains(x) implies exists|
            k: int,
        | 0 <= k < reqs.len() && (#[trigger] reqs[k]).metric_file == x by {
            if x == f {
                assert(reqs[reqs.len() - 1].metric_file == x);
            } else {
                assert(prev.contains(x));
                let k = choose|k: int|
                    0 <= k < reqs.drop_last().len() && (#[trigger] reqs.drop_last()[k]).metric_file
                        == x;
                assert(reqs[k].metric_file == x);
            }
        }
        assert forall|x: Seq<char>|
            exists|k: int| 0 <= k < reqs.len() && (#[trigger] reqs[k]).metric_file
                == x implies #[trigger] spec_files_of(reqs).contains(x) by {
            let k = choose|k: int| 0 <= k < reqs.len() && (#[trigger] reqs[k]).metric_file == x;
            if k == reqs.len() - 1 {
                assert(spec_files_of(reqs).contains(x));
            } else {
                assert(reqs.drop_last()[k].metric_file == x);
                assert(prev.contains(x));
            }
        }
    }
}

} // verus!
