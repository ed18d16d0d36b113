//! In-memory tables keyed by the geographic identifier, and the inner join
//! that materialization performs.
//!
//! A table holds one key column and any number of named value columns; a
//! row is its key and one value per column. The actual file fetches happen
//! outside this crate and hand their rows in as plain values; the join of
//! metric tables with each other and with the geometry table is verified
//! here.

use vstd::prelude::*;
use crate::metadata::clone_string_vec;
use crate::textmatch::eq_str;

verus! {

/// One row: the key and one value per column.
#[derive(Debug)]
pub struct DataRow {
    pub key: String,
    pub values: Vec<String>,
}

/// Spec-level image of a row.
#[verifier::ext_equal]
pub struct DataRowV {
    pub key: Seq<char>,
    pub values: Seq<Seq<char>>,
}

impl View for DataRow {
    type V = DataRowV;

    open spec fn view(&self) -> DataRowV {
        DataRowV { key: self.key@, values: self.values.deep_view() }
    }
}

impl DeepView for DataRow {
    type V = DataRowV;

    open spec fn deep_view(&self) -> DataRowV {
        self.view()
    }
}

impl Clone for DataRow {
    fn clone(&self) -> (r: Self)
        ensures
            r@ == self@,
    {
        DataRow { key: self.key.clone(), values: clone_string_vec(&self.values) }
    }
}

/// A table: the names of its value columns (the key column is implicit and
/// first) and its rows.
#[derive(Debug)]
pub struct DataTable {
    pub col_names: Vec<String>,
    pub rows: Vec<DataRow>,
}

/// Spec-level image of a table.
#[verifier::ext_equal]
pub struct DataTableV {
    pub col_names: Seq<Seq<char>>,
    pub rows: Seq<DataRowV>,
}

impl View for DataTable {
    type V = DataTableV;

    open spec fn view(&self) -> DataTableV {
        DataTableV { col_names: self.col_names.deep_view(), rows: self.rows.deep_view() }
    }
}

impl DataTable {
    /// Every row carries exactly one value per column.
    pub open spec fn wf(self) -> bool {
        forall|i: int|
            0 <= i < self@.rows.len() ==> (#[trigger] self@.rows[i]).values.len()
                == self@.col_names.len()
    }
}

/// The join of one left row with every right row of equal key, in right
/// order: values concatenated, the key kept once.
pub open spec fn spec_join_row(ra: DataRowV, rbs: Seq<DataRowV>) -> Seq<DataRowV>
    decreases rbs.len(),
{
    if rbs.len() == 0 {
        Seq::empty()
    } else {
        spec_join_row(ra, rbs.drop_last()) + if rbs.last().key == ra.key {
            seq![DataRowV { key: ra.key, values: ra.values + rbs.last().values }]
        } else {
            Seq::empty()
        }
    }
}

/// All rows of the inner join: left order first, then right order within
/// one left row. Rows without a partner on the other side are dropped.
pub open spec fn spec_join_rows(ras: Seq<DataRowV>, rbs: Seq<DataRowV>) -> Seq<DataRowV>
    decreases ras.len(),
{
    if ras.len() == 0 {
        Seq::empty()
    } else {
        spec_join_rows(ras.drop_last(), rbs) + spec_join_row(ras.last(), rbs)
    }
}

/// When no key occurs on both sides, a join of one row yields nothing.
proof fn lemma_join_row_disjoint(ra: DataRowV, rbs: Seq<DataRowV>)
    requires
        forall|j: int| 0 <= j < rbs.len() ==> (#[trigger] rbs[j]).key != ra.key,
    ensures
        spec_join_row(ra, rbs).len() == 0,
    decreases rbs.len(),
{
    if rbs.len() > 0 {
        assert(forall|j: int|
            0 <= j < rbs.drop_last().len() ==> (#[trigger] rbs.drop_last()[j]).key != ra.key);
        lemma_join_row_disjoint(ra, rbs.drop_last());
    }
}

/// When the two sides share no key at all, the inner join is the empty
/// table — an empty result, not an error.
pub proof fn lemma_join_disjoint_is_empty(ras: Seq<DataRowV>, rbs: Seq<DataRowV>)
    requires
        forall|i: int, j: int|
            0 <= i < ras.len() && 0 <= j < rbs.len() ==> (#[trigger] ras[i]).key != (
            #[trigger] rbs[j]).key,
    ensures
        spec_join_rows(ras, rbs).len() == 0,
    decreases ras.len(),
{
    if ras.len() > 0 {
        lemma_join_disjoint_is_empty(ras.drop_last(), rbs);
        assert(forall|j: int|
            0 <= j < rbs.len() ==> (#[trigger] rbs[j]).key != ras.last().key);
        lemma_join_row_disjoint(ras.last(), rbs);
    }
}

/// Joins one left row against the whole right side, appending matches.
fn push_joined(ra: &DataRow, rbs: &Vec<DataRow>, out: &mut Vec<DataRow>)
    ensures
        final (out).deep_view() == old(out).deep_view() + spec_join_row(ra@, rbs.deep_view()),
{
    let mut j: usize = 0;
    proof {
        assert(spec_join_row(ra@, rbs.deep_view().take(0)) =~= Seq::<DataRowV>::empty());
        assert(out.deep_view() + spec_join_row(ra@, rbs.deep_view().take(0)) =~= out.deep_view());
    }
    while j < rbs.len()
        invariant
            j <= rbs@.len(),
            rbs.deep_view().len() == rbs@.len(),
            forall|i: int| 0 <= i < rbs@.len() ==> (#[trigger] rbs@[i])@ == rbs.deep_view()[i],
            out.deep_view() == old(out).deep_view() + spec_join_row(
                ra@,
                rbs.deep_view().take(j as int),
            ),
        decreases rbs@.len() - j,
    {
        proof {
            let t = rbs.deep_view().take(j + 1);
            assert(t.drop_last() =~= rbs.deep_view().take(j as int));
            assert(t.last() == rbs.deep_view()[j as int]);
        }
        let rb = &rbs[j];
        if eq_str(rb.key.as_str(), ra.key.as_str()) {
            let mut values = clone_string_vec(&ra.values);
            let mut k: usize = 0;
            while k < rb.values.len()
                invariant
                    k <= rb.values@.len(),
                    values@ =~= ra.values@ + rb.values@.take(k as int),
                decreases rb.values@.len() - k,
            {
                values.push(rb.values[k].clone());
                proof {
                    assert(values@ =~= ra.values@ + rb.values@.take(k + 1));
                }
                k += 1;
            }
            proof {
                assert(rb.values@.take(rb.values@.len() as int) =~= rb.values@);
            }
            let row = DataRow { key: ra.key.clone(), values };
            proof {
                assert(row@.values =~= ra@.values + rb@.values);
            }
            let ghost pre = out.deep_view();
            out.push(row);
            proof {
                assert(out.deep_view() =~= pre.push(
                    DataRowV { key: ra@.key, values: ra@.values + rbs.deep_view()[j as int].values },
                ));
                assert(out.deep_view() =~= old(out).deep_view() + spec_join_row(
                    ra@,
                    rbs.deep_view().take(j + 1),
                ));
            }
        } else {
            proof {
                assert(out.deep_view() =~= old(out).deep_view() + spec_join_row(
                    ra@,
                    rbs.deep_view().take(j + 1),
                ));
            }
        }
        j += 1;
    }
    proof {
        assert(rbs.deep_view().take(rbs@.len() as int) =~= rbs.deep_view());
    }
}

/// The inner join of two tables on the key column: the joined table's
/// columns are the left columns then the right columns; its rows pair each
/// left row with each equal-keyed right row, left order first. Rows with no
/// partner are dropped.
pub fn inner_join(a: &DataTable, b: &DataTable) -> (r: DataTable)
    ensures
        r@.col_names == a@.col_names + b@.col_names,
        r@.rows == spec_join_rows(a@.rows, b@.rows),
{
    let mut col_names = clone_string_vec(&a.col_names);
    let mut i: usize = 0;
    while i < b.col_names.len()
        invariant
            i <= b.col_names@.len(),
            col_names@ =~= a.col_names@ + b.col_names@.take(i as int),
        decreases b.col_names@.len() - i,
    {
        col_names.push(b.col_names[i].clone());
        proof {
            assert(col_names@ =~= a.col_names@ + b.col_names@.take(i + 1));
        }
        i += 1;
    }
    proof {
        assert(b.col_names@.take(b.col_names@.len() as int) =~= b.col_names@);
    }
    let mut rows: Vec<DataRow> = Vec::new();
    let mut i: usize = 0;
    proof {
        assert(rows.deep_view() =~= spec_join_rows(a.rows.deep_view().take(0), b.rows.deep_view()));
    }
    while i < a.rows.len()
        invariant
            i <= a.rows@.len(),
            a.rows.deep_view().len() == a.rows@.len(),
            forall|j: int|
                0 <= j < a.rows@.len() ==> (#[trigger] a.rows@[j])@ == a.rows.deep_view()[j],
            rows.deep_view() == spec_join_rows(
                a.rows.deep_view().take(i as int),
                b.rows.deep_view(),
            ),
        decreases a.rows@.len() - i,
    {
        proof {
            let t = a.rows.deep_view().take(i + 1);
            assert(t.drop_last() =~= a.rows.deep_view().take(i as int));
            assert(t.last() == a.rows.deep_view()[i as int]);
        }
        push_joined(&a.rows[i], &b.rows, &mut rows);
        i += 1;
    }
    proof {
        assert(a.rows.deep_view().take(a.rows@.len() as int) =~= a.rows.deep_view());
        assert(col_names.deep_view() =~= a@.col_names + b@.col_names);
    }
    DataTable { col_names, rows }
}

/// Whether a column name occurs in a list of names.
pub open spec fn spec_has_col(cols: Seq<Seq<char>>, name: Seq<char>) -> bool {
    exists|i: int| 0 <= i < cols.len() && cols[i] == name
}

/// Renames every column called `old_name` to `new_name`; fails when no
/// column has the old name, as the underlying table engine does.
pub fn rename_column(t: &DataTable, old_name: &str, new_name: &str) -> (r: Result<
    DataTable,
    crate::error::PopgetterError,
>)
    ensures
        r is Ok <==> spec_has_col(t@.col_names, old_name@),
        r matches Ok(rt) ==> {
            &&& rt@.rows == t@.rows
            &&& rt@.col_names.len() == t@.col_names.len()
            &&& forall|i: int|
                0 <= i < t@.col_names.len() ==> rt@.col_names[i] == (
                if t@.col_names[i] == old_name@ {
                    new_name@
                } else {
                    #[trigger] t@.col_names[i]
                })
        },
        r is Err ==> r.unwrap_err() is MetricNotFound,
{
    let mut cols: Vec<String> = Vec::new();
    let mut found = false;
    let mut i: usize = 0;
    while i < t.col_names.len()
        invariant
            i <= t.col_names@.len(),
            t.col_names.deep_view().len() == t.col_names@.len(),
            forall|j: int|
                0 <= j < t.col_names@.len() ==> (#[trigger] t.col_names@[j])@
                    == t.col_names.deep_view()[j],
            cols.deep_view().len() == i,
            forall|j: int|
                0 <= j < i ==> cols.deep_view()[j] == (if t@.col_names[j] == old_name@ {
                    new_name@
                } else {
                    #[trigger] t@.col_names[j]
                }),
            found == exists|j: int| 0 <= j < i && t@.col_names[j] == old_name@,
        decreases t.col_names@.len() - i,
    {
        let ghost pre = cols.deep_view();
        if eq_str(t.col_names[i].as_str(), old_name) {
            cols.push(new_name.to_owned());
            found = true;
            proof {
                assert(cols.deep_view() =~= pre.push(new_name@));
                assert(t@.col_names[i as int] == old_name@);
            }
        } else {
            cols.push(t.col_names[i].clone());
            proof {
                assert(cols.deep_view() =~= pre.push(t@.col_names[i as int]));
            }
        }
        i += 1;
    }
    if !found {
        return Err(crate::error::PopgetterError::MetricNotFound(old_name.to_owned()));
    }
    let mut rows: Vec<DataRow> = Vec::new();
    let mut i: usize = 0;
    while i < t.rows.len()
        invariant
            i <= t.rows@.len(),
            t.rows.deep_view().len() == t.rows@.len(),
            forall|j: int|
                0 <= j < t.rows@.len() ==> (#[trigger] t.rows@[j])@ == t.rows.deep_view()[j],
            rows.deep_view() =~= t.rows.deep_view().take(i as int),
        decreases t.rows@.len() - i,
    {
        rows.push(t.rows[i].clone());
        proof {
            assert(rows.deep_view() =~= t.rows.deep_view().take(i + 1));
        }
        i += 1;
    }
    proof {
        assert(t.rows.deep_view().take(t.rows@.len() as int) =~= t.rows.deep_view());
    }
    Ok(DataTable { col_names: cols, rows })
}


impl DeepView for DataTable {
    type V = DataTableV;

    open spec fn deep_view(&self) -> DataTableV {
        self.view()
    }
}

impl Clone for DataTable {
    fn clone(&self) -> (r: Self)
        ensures
            r@ == self@,
    {
        let mut rows: Vec<DataRow> = Vec::new();
        let mut i: usize = 0;
        while i < self.rows.len()
            invariant
                i <= self.rows@.len(),
                self.rows.deep_view().len() == self.rows@.len(),
                forall|j: int|
                    0 <= j < self.rows@.len() ==> (#[trigger] self.rows@[j])@
                        == self.rows.deep_view()[j],
                rows.deep_view() =~= self.rows.deep_view().take(i as int),
            decreases self.rows@.len() - i,
        {
            rows.push(self.rows[i].clone());
            proof {
                assert(rows.deep_view() =~= self.rows.deep_view().take(i + 1));
            }
            i += 1;
        }
        proof {
            assert(self.rows.deep_view().take(self.rows@.len() as int) =~= self.rows.deep_view());
        }
        let r = DataTable { col_names: clone_string_vec(&self.col_names), rows };
        proof {
            assert(r@ =~~= self@);
        }
        r
    }
}

/// The inner join of two tables, at spec level.
pub open spec fn spec_join_tables(a: DataTableV, b: DataTableV) -> DataTableV {
    DataTableV { col_names: a.col_names + b.col_names, rows: spec_join_rows(a.rows, b.rows) }
}

/// The left-to-right fold of pairwise inner joins over a non-empty list of
/// tables: the first table joined to the second, the result to the third,
/// and so on.
pub open spec fn spec_fold_join(tables: Seq<DataTableV>) -> DataTableV
    recommends
        tables.len() >= 1,
    decreases tables.len(),
{
    if tables.len() <= 1 {
        tables[0]
    } else {
        spec_join_tables(spec_fold_join(tables.drop_last()), tables.last())
    }
}

/// Joins the per-file tables pairwise on the key column, in file order.
/// Fails only when no table at all was fetched.
pub fn join_tables(tables: &Vec<DataTable>) -> (r: Result<DataTable, crate::error::PopgetterError>)
    ensures
        r is Ok <==> tables@.len() > 0,
        r matches Ok(t) ==> t@ == spec_fold_join(tables.deep_view()),
        r is Err ==> r.unwrap_err() is NoMetricRequests,
{
    if tables.len() == 0 {
        return Err(crate::error::PopgetterError::NoMetricRequests);
    }
    let mut acc = tables[0].clone();
    proof {
        assert(tables.deep_view().len() == tables@.len());
        assert(forall|j: int|
            0 <= j < tables@.len() ==> (#[trigger] tables@[j])@ == tables.deep_view()[j]);
        assert(acc@ == spec_fold_join(tables.deep_view().take(1)));
    }
    let mut i: usize = 1;
    while i < tables.len()
        invariant
            1 <= i <= tables@.len(),
            tables.deep_view().len() == tables@.len(),
            forall|j: int|
                0 <= j < tables@.len() ==> (#[trigger] tables@[j])@ == tables.deep_view()[j],
            acc@ == spec_fold_join(tables.deep_view().take(i as int)),
        decreases tables@.len() - i,
    {
        proof {
            let t = tables.deep_view().take(i + 1);
            assert(t.drop_last() =~= tables.deep_view().take(i as int));
            assert(t.last() == tables.deep_view()[i as int]);
        }
        let joined = inner_join(&acc, &tables[i]);
        proof {
            assert(joined@ =~~= spec_join_tables(acc@, tables.deep_view()[i as int]));
        }
        acc = joined;
        i += 1;
    }
    proof {
        assert(tables.deep_view().take(tables@.len() as int) =~= tables.deep_view());
    }
    Ok(acc)
}

} // verus!
