//! The deterministic heuristics behind `explain` and `ai-summary`: how many
//! records there are, which field labels them, which records a status
//! column flags as down, and which columns are numeric on every record.
//!
//! The statistics over numeric columns (minimum, maximum, average) are
//! floating-point arithmetic and are computed elsewhere; this module
//! decides which columns they are taken over.
use vstd::prelude::*;
use crate::json::{Json, cell_text, cell_text_of, json_get};
use crate::render::html::{columns, columns_of, down_value, find_status_column,
    first_status_column, is_down_value};
use crate::render::rows::{indices_in, pick, pick_field, rows_at, str_views};
use crate::text::{decimal, opt_seq, owned, push_str, usize_text, views};

verus! {

pub open spec fn label_fields() -> Seq<Seq<char>> {
    seq!["name"@, "interface"@, "label"@, "id"@, "ssid"@, "host"@, "hostname"@]
}

/// The field that names a record: the first label field among the columns.
pub open spec fn label_field_of(cols: Seq<Seq<char>>) -> Option<Seq<char>> {
    pick(cols, label_fields())
}

/// A record's name: its label field when that is not empty, else `#n` for
/// the record's 1-based position.
pub open spec fn record_label(row: Json, index: int, label_field: Option<Seq<char>>) -> Seq<char> {
    match label_field {
        Some(f) if cell_text(row, f).len() > 0 => cell_text(row, f),
        _ => "#"@ + decimal((index + 1) as nat),
    }
}

/// The labels of the first `k` records whose `field` reads as down.
pub open spec fn flagged_labels(
    rows: Seq<Json>,
    field: Seq<char>,
    label_field: Option<Seq<char>>,
    k: nat,
) -> Seq<Seq<char>>
    decreases k,
{
    if k == 0 {
        Seq::empty()
    } else {
        let r = flagged_labels(rows, field, label_field, (k - 1) as nat);
        if is_down_value(cell_text(rows[k - 1], field)) {
            r.push(record_label(rows[k - 1], k - 1, label_field))
        } else {
            r
        }
    }
}


/// Each flagged label names the flagged record it stands for, by that
/// record's own place among the records: the returned positions are those
/// of exactly the records (among the first `k`) whose `field` reads as
/// down, in order, and the label at each is the record's label field when
/// that is not empty, else `#` and its 1-based position.
pub proof fn law_flagged_labels_name_their_records(
    rows: Seq<Json>,
    field: Seq<char>,
    label_field: Option<Seq<char>>,
    k: nat,
) -> (pos: Seq<int>)
    requires
        k <= rows.len(),
    ensures
        pos.len() == flagged_labels(rows, field, label_field, k).len(),
        forall|m: int, n: int| 0 <= m < n < pos.len() ==> pos[m] < pos[n],
        forall|m: int|
            0 <= m < pos.len() ==> 0 <= #[trigger] pos[m] < k && is_down_value(
                cell_text(rows[pos[m]], field),
            ),
        forall|i: int|
            0 <= i < k && is_down_value(cell_text(#[trigger] rows[i], field)) ==> exists|m: int|
                0 <= m < pos.len() && pos[m] == i,
        forall|m: int|
            0 <= m < pos.len() ==> {
                let label = #[trigger] flagged_labels(rows, field, label_field, k)[m];
                let row = rows[pos[m]];
                if label_field is Some && cell_text(row, label_field->Some_0).len() > 0 {
                    label == cell_text(row, label_field->Some_0)
                } else {
                    label == "#"@ + decimal((pos[m] + 1) as nat)
                }
            },
    decreases k,
{
    if k == 0 {
        Seq::empty()
    } else {
        let before = law_flagged_labels_name_their_records(rows, field, label_field, (k - 1) as nat);
        let prev = flagged_labels(rows, field, label_field, (k - 1) as nat);
        if is_down_value(cell_text(rows[k - 1], field)) {
            let pos = before.push(k - 1);
            assert forall|i: int|
                0 <= i < k && is_down_value(cell_text(#[trigger] rows[i], field)) implies exists|
                m: int,
            | 0 <= m < pos.len() && pos[m] == i by {
                if i == k - 1 {
                    assert(pos[before.len() as int] == i);
                } else {
                    let m = choose|m: int| 0 <= m < before.len() && before[m] == i;
                    assert(pos[m] == i);
                }
            }
            assert forall|m: int| 0 <= m < pos.len() implies {
                let label = #[trigger] flagged_labels(rows, field, label_field, k)[m];
                let row = rows[pos[m]];
                if label_field is Some && cell_text(row, label_field->Some_0).len() > 0 {
                    label == cell_text(row, label_field->Some_0)
                } else {
                    label == "#"@ + decimal((pos[m] + 1) as nat)
                }
            } by {
                if m < before.len() {
                    assert(flagged_labels(rows, field, label_field, k)[m] == prev[m]);
                }
            }
            pos
        } else {
            assert forall|i: int|
                0 <= i < k && is_down_value(cell_text(#[trigger] rows[i], field)) implies exists|
                m: int,
            | 0 <= m < before.len() && before[m] == i by {
                assert(i < k - 1);
            }
            before
        }
    }
}
/// A column holding a number on every record (and there is a record).
/// A column numeric on some records only is more likely a mixed bag than a
/// metric worth averaging.
pub open spec fn is_numeric_column(rows: Seq<Json>, field: Seq<char>) -> bool {
    rows.len() > 0 && forall|i: int|
        0 <= i < rows.len() ==> #[trigger] json_get(rows[i], field) matches Some(Json::Number(_))
}

/// The numeric columns among `cols`, in order.
pub open spec fn numeric_columns(rows: Seq<Json>, cols: Seq<Seq<char>>) -> Seq<Seq<char>>
    decreases cols.len(),
{
    if cols.len() == 0 {
        Seq::empty()
    } else {
        let r = numeric_columns(rows, cols.drop_last());
        if is_numeric_column(rows, cols.last()) {
            r.push(cols.last())
        } else {
            r
        }
    }
}

/// The status column and the records it flags.
pub struct StatusInsight {
    pub field: String,
    pub flagged: Vec<String>,
}

/// What the records say, short of floating-point statistics.
pub struct Insights {
    pub total: usize,
    pub label_field: Option<String>,
    pub status: Option<StatusInsight>,
    /// The columns numeric on every record, in column order.
    pub numeric: Vec<String>,
}

/// `ins` is the analysis of `rows`.
pub open spec fn describes(ins: Insights, rows: Seq<Json>) -> bool {
    let cols = columns_of(rows);
    let lf = label_field_of(cols);
    &&& ins.total == rows.len()
    &&& opt_seq(ins.label_field) == lf
    &&& match first_status_column(cols) {
        Some(f) => ins.status matches Some(s) && s.field@ == f && views(s.flagged@)
            == flagged_labels(rows, f, lf, rows.len()),
        None => ins.status is None,
    }
    &&& views(ins.numeric@) == numeric_columns(rows, cols)
}

/// A record's name (see `record_label`).
pub fn label_of(row: &Json, index: usize, label_field: &Option<String>) -> (r: String)
    requires
        index < usize::MAX,
    ensures
        r@ == record_label(*row, index as int, opt_seq(*label_field)),
{
    match label_field {
        Some(f) => {
            let t = cell_text_of(row, f.as_str());
            if t.as_str().unicode_len() > 0 {
                return t;
            }
        },
        None => {},
    }
    let mut r = owned("#");
    let n = usize_text(index + 1);
    push_str(&mut r, n.as_str());
    r
}

fn flagged_of(data: &[Json], idx: &Vec<usize>, field: &str, label_field: &Option<String>) -> (r:
    Vec<String>)
    requires
        indices_in(idx@, data@.len()),
    ensures
        views(r@) == flagged_labels(
            rows_at(data@, idx@),
            field@,
            opt_seq(*label_field),
            idx@.len(),
        ),
{
    let ghost rows = rows_at(data@, idx@);
    let mut r: Vec<String> = Vec::new();
    let mut i: usize = 0;
    while i < idx.len()
        invariant
            i <= idx@.len(),
            indices_in(idx@, data@.len()),
            rows == rows_at(data@, idx@),
            views(r@) == flagged_labels(rows, field@, opt_seq(*label_field), i as nat),
        decreases idx.len() - i,
    {
        let row = &data[idx[i]];
        assert(rows[i as int] == *row);
        let t = cell_text_of(row, field);
        if down_value(t.as_str()) {
            let ghost before = views(r@);
            r.push(label_of(row, i, label_field));
            assert(views(r@) =~= before.push(record_label(*row, i as int, opt_seq(*label_field))));
        }
        i = i + 1;
    }
    r
}

fn numeric_column(data: &[Json], idx: &Vec<usize>, field: &str) -> (r: bool)
    requires
        indices_in(idx@, data@.len()),
    ensures
        r == is_numeric_column(rows_at(data@, idx@), field@),
{
    let ghost rows = rows_at(data@, idx@);
    if idx.len() == 0 {
        return false;
    }
    let mut i: usize = 0;
    while i < idx.len()
        invariant
            i <= idx@.len(),
            indices_in(idx@, data@.len()),
            rows == rows_at(data@, idx@),
            forall|q: int|
                0 <= q < i ==> #[trigger] json_get(rows[q], field@) matches Some(Json::Number(_)),
        decreases idx.len() - i,
    {
        let row = &data[idx[i]];
        assert(rows[i as int] == *row);
        match row.get(field) {
            Some(Json::Number(_)) => {},
            _ => {
                assert(!(json_get(rows[i as int], field@) matches Some(Json::Number(_))));
                return false;
            },
        }
        i = i + 1;
    }
    true
}

/// Analyzes the records at `idx` (see `describes`).
pub fn analyze(data: &[Json], idx: &Vec<usize>) -> (r: Insights)
    requires
        indices_in(idx@, data@.len()),
    ensures
        describes(r, rows_at(data@, idx@)),
{
    let ghost rows = rows_at(data@, idx@);
    let cols = columns(data, idx);
    let label_field = pick_field(
        &cols,
        &vec!["name", "interface", "label", "id", "ssid", "host", "hostname"],
    );
    assert(str_views(seq!["name", "interface", "label", "id", "ssid", "host", "hostname"])
        =~= label_fields());
    assert(opt_seq(label_field) == label_field_of(views(cols@)));
    let status = match find_status_column(&cols) {
        Some(j) => {
            let field = owned(cols[j].as_str());
            let flagged = flagged_of(data, idx, field.as_str(), &label_field);
            Some(StatusInsight { field, flagged })
        },
        None => None,
    };
    let mut numeric: Vec<String> = Vec::new();
    let mut j: usize = 0;
    while j < cols.len()
        invariant
            j <= cols@.len(),
            indices_in(idx@, data@.len()),
            rows == rows_at(data@, idx@),
            views(numeric@) == numeric_columns(rows, views(cols@).take(j as int)),
        decreases cols.len() - j,
    {
        proof {
            let vc = views(cols@);
            assert(vc.take(j + 1).drop_last() =~= vc.take(j as int));
            assert(vc.take(j + 1).last() == cols@[j as int]@);
        }
        if numeric_column(data, idx, cols[j].as_str()) {
            let ghost before = views(numeric@);
            numeric.push(owned(cols[j].as_str()));
            assert(views(numeric@) =~= before.push(cols@[j as int]@));
        }
        j = j + 1;
    }
    assert(views(cols@).take(cols@.len() as int) =~= views(cols@));
    Insights { total: idx.len(), label_field, status, numeric }
}

} // verus!
