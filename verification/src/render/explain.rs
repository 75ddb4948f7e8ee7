//! `explain` mode: a plain-language description of the records, generated
//! by fixed rules over the data itself (not by a language model).
//!
//! `brief` gives the record count, what the status column flags, and the
//! range of each numeric column; `detailed` adds one line per record with
//! its status and numeric readings. The numeric texts (one decimal place,
//! and where a reading sits in its column's range) come from
//! floating-point arithmetic and are handed in.
use vstd::prelude::*;
use crate::json::{Json, cell_text, cell_text_of, json_get};
use crate::render::html::{columns_of, first_status_column};
use crate::render::insights::{Insights, analyze, describes, flagged_labels, label_field_of,
    label_of, numeric_columns, record_label};
use crate::render::rows::{RenderOptions, indices_in, rows_at, sorted_filtered,
    sorted_filtered_indices};
use crate::text::{decimal, join, join_strings, owned, push_str, usize_text, views};

verus! {

/// How much `explain` and `ai-summary` say.
#[derive(Clone, Copy, Debug, PartialEq, Eq, Structural)]
pub enum ExplainLevel {
    Brief,
    Detailed,
}

/// The statistics of a numeric column, as printed (one decimal place).
pub struct ColumnStats {
    pub min: String,
    pub max: String,
    pub avg: String,
}

// ---------------------------------------------------------------------------
// The text
// ---------------------------------------------------------------------------

/// What the status column says: every record healthy, or the records it marks down.
pub open spec fn status_sentence(rows: Seq<Json>) -> Seq<char> {
    let cols = columns_of(rows);
    match first_status_column(cols) {
        Some(f) => {
            let flagged = flagged_labels(rows, f, label_field_of(cols), rows.len());
            if flagged.len() == 0 {
                "All records look healthy on `"@ + f + "`.\n"@
            } else {
                decimal(flagged.len()) + " record(s) are flagged on `"@ + f + "`: "@ + join(
                    flagged,
                    ", "@,
                ) + ".\n"@
            }
        },
        None => Seq::empty(),
    }
}

/// One line per numeric column: its range and average.
pub open spec fn range_lines(fields: Seq<Seq<char>>, stats: Seq<ColumnStats>, k: nat) -> Seq<char>
    decreases k,
{
    if k == 0 {
        Seq::empty()
    } else {
        range_lines(fields, stats, (k - 1) as nat) + "`"@ + fields[k - 1] + "` ranges from "@
            + stats[k - 1].min@ + " to "@ + stats[k - 1].max@ + " (average "@ + stats[k - 1].avg@
            + ").\n"@
    }
}

pub open spec fn brief_text(rows: Seq<Json>, stats: Seq<ColumnStats>) -> Seq<char> {
    let numeric = numeric_columns(rows, columns_of(rows));
    "This dataset has "@ + decimal(rows.len()) + " record(s).\n"@ + status_sentence(rows)
        + range_lines(numeric, stats, numeric.len())
}

/// The status note of a record: `field is value`, when the value is not empty.
pub open spec fn status_notes(row: Json, rows: Seq<Json>) -> Seq<Seq<char>> {
    match first_status_column(columns_of(rows)) {
        Some(f) if cell_text(row, f).len() > 0 => seq![f + " is "@ + cell_text(row, f)],
        _ => Seq::empty(),
    }
}

/// `field is reading` for each numeric column the record holds a number in.
pub open spec fn reading_notes(row: Json, fields: Seq<Seq<char>>, readings: Seq<String>, k: nat) -> Seq<
    Seq<char>,
>
    decreases k,
{
    if k == 0 {
        Seq::empty()
    } else {
        let r = reading_notes(row, fields, readings, (k - 1) as nat);
        if json_get(row, fields[k - 1]) matches Some(Json::Number(_)) {
            r.push(fields[k - 1] + " is "@ + readings[k - 1]@)
        } else {
            r
        }
    }
}

/// `- label: note, note.`, or `- label` without notes.
pub open spec fn record_line(label: Seq<char>, notes: Seq<Seq<char>>) -> Seq<char> {
    if notes.len() == 0 {
        "- "@ + label + "\n"@
    } else {
        "- "@ + label + ": "@ + join(notes, ", "@) + ".\n"@
    }
}

pub open spec fn record_lines(rows: Seq<Json>, readings: Seq<Vec<String>>, k: nat) -> Seq<char>
    decreases k,
{
    if k == 0 {
        Seq::empty()
    } else {
        let row = rows[k - 1];
        let numeric = numeric_columns(rows, columns_of(rows));
        record_lines(rows, readings, (k - 1) as nat) + record_line(
            record_label(row, k - 1, label_field_of(columns_of(rows))),
            status_notes(row, rows) + reading_notes(row, numeric, readings[k - 1]@, numeric.len()),
        )
    }
}

/// The explanation of the records shown, given each numeric column's
/// statistics and, per record, each numeric column's reading.
pub open spec fn explain_text(
    data: Seq<Json>,
    options: RenderOptions,
    level: ExplainLevel,
    stats: Seq<ColumnStats>,
    readings: Seq<Vec<String>>,
) -> Seq<char> {
    let rows = sorted_filtered(data, options);
    if rows.len() == 0 {
        "No data to explain.\n"@
    } else {
        match level {
            ExplainLevel::Brief => brief_text(rows, stats),
            ExplainLevel::Detailed => brief_text(rows, stats) + "\n"@ + record_lines(
                rows,
                readings,
                rows.len(),
            ),
        }
    }
}

/// The number of numeric columns among the records shown.
pub open spec fn numeric_count(data: Seq<Json>, options: RenderOptions) -> nat {
    let rows = sorted_filtered(data, options);
    numeric_columns(rows, columns_of(rows)).len()
}

/// Readings are given for every record shown and every numeric column.
pub open spec fn readings_fit(data: Seq<Json>, options: RenderOptions, readings: Seq<Vec<String>>) -> bool {
    &&& readings.len() == sorted_filtered(data, options).len()
    &&& forall|i: int|
        0 <= i < readings.len() ==> #[trigger] readings[i]@.len() == numeric_count(data, options)
}

// ---------------------------------------------------------------------------
// Executable parts
// ---------------------------------------------------------------------------

fn status_sentence_of(ins: &Insights, Ghost(rows): Ghost<Seq<Json>>) -> (r: String)
    requires
        describes(*ins, rows),
    ensures
        r@ == status_sentence(rows),
{
    match &ins.status {
        Some(s) => {
            let mut out = String::new();
            if s.flagged.len() == 0 {
                push_str(&mut out, "All records look healthy on `");
                push_str(&mut out, s.field.as_str());
                push_str(&mut out, "`.\n");
            } else {
                let n = usize_text(s.flagged.len());
                push_str(&mut out, n.as_str());
                push_str(&mut out, " record(s) are flagged on `");
                push_str(&mut out, s.field.as_str());
                push_str(&mut out, "`: ");
                let joined = join_strings(&s.flagged, ", ");
                push_str(&mut out, joined.as_str());
                push_str(&mut out, ".\n");
            }
            out
        },
        None => String::new(),
    }
}

fn brief_of(ins: &Insights, stats: &Vec<ColumnStats>, Ghost(rows): Ghost<Seq<Json>>) -> (r: String)
    requires
        describes(*ins, rows),
        stats@.len() == ins.numeric@.len(),
    ensures
        r@ == brief_text(rows, stats@),
{
    let mut out = owned("This dataset has ");
    let n = usize_text(ins.total);
    push_str(&mut out, n.as_str());
    push_str(&mut out, " record(s).\n");
    let s = status_sentence_of(ins, Ghost(rows));
    push_str(&mut out, s.as_str());
    let ghost head = out@;
    let ghost fields = views(ins.numeric@);
    let mut j: usize = 0;
    while j < ins.numeric.len()
        invariant
            j <= ins.numeric@.len(),
            stats@.len() == ins.numeric@.len(),
            fields == views(ins.numeric@),
            out@ == head + range_lines(fields, stats@, j as nat),
        decreases ins.numeric.len() - j,
    {
        push_str(&mut out, "`");
        push_str(&mut out, ins.numeric[j].as_str());
        push_str(&mut out, "` ranges from ");
        push_str(&mut out, stats[j].min.as_str());
        push_str(&mut out, " to ");
        push_str(&mut out, stats[j].max.as_str());
        push_str(&mut out, " (average ");
        push_str(&mut out, stats[j].avg.as_str());
        push_str(&mut out, ").\n");
        j = j + 1;
    }
    out
}

/// The notes of one record (see `status_notes` and `reading_notes`).
fn notes_of(
    row: &Json,
    ins: &Insights,
    readings: &Vec<String>,
    Ghost(rows): Ghost<Seq<Json>>,
) -> (r: Vec<String>)
    requires
        describes(*ins, rows),
        readings@.len() == ins.numeric@.len(),
    ensures
        views(r@) == status_notes(*row, rows) + reading_notes(
            *row,
            views(ins.numeric@),
            readings@,
            ins.numeric@.len(),
        ),
{
    let mut notes: Vec<String> = Vec::new();
    match &ins.status {
        Some(s) => {
            let v = cell_text_of(row, s.field.as_str());
            if v.as_str().unicode_len() > 0 {
                let mut note = owned(s.field.as_str());
                push_str(&mut note, " is ");
                push_str(&mut note, v.as_str());
                notes.push(note);
            }
        },
        None => {},
    }
    let ghost head = views(notes@);
    assert(head == status_notes(*row, rows));
    let ghost fields = views(ins.numeric@);
    let mut j: usize = 0;
    while j < ins.numeric.len()
        invariant
            j <= ins.numeric@.len(),
            readings@.len() == ins.numeric@.len(),
            fields == views(ins.numeric@),
            views(notes@) == head + reading_notes(*row, fields, readings@, j as nat),
        decreases ins.numeric.len() - j,
    {
        match row.get(ins.numeric[j].as_str()) {
            Some(Json::Number(_)) => {
                let ghost before = views(notes@);
                let mut note = owned(ins.numeric[j].as_str());
                push_str(&mut note, " is ");
                push_str(&mut note, readings[j].as_str());
                notes.push(note);
                assert(views(notes@) =~= before.push(fields[j as int] + " is "@ + readings@[j as int]@));
            },
            _ => {},
        }
        j = j + 1;
    }
    notes
}

pub struct ExplainRenderer {
    pub level: ExplainLevel,
}

impl ExplainRenderer {
    /// Explains the records shown; `stats[j]` describes the `j`-th numeric
    /// column, `readings[i][j]` the `i`-th record's reading in it (read at
    /// the detailed level only).
    pub fn render_explain(
        &self,
        data: &[Json],
        options: &RenderOptions,
        stats: &Vec<ColumnStats>,
        readings: &Vec<Vec<String>>,
    ) -> (r: String)
        requires
            stats@.len() == numeric_count(data@, *options),
            self.level == ExplainLevel::Detailed ==> readings_fit(
                data@,
                *options,
                readings@,
            ),
        ensures
            r@ == explain_text(data@, *options, self.level, stats@, readings@),
    {
        let idx = sorted_filtered_indices(data, options);
        let ghost rows = rows_at(data@, idx@);
        if idx.len() == 0 {
            return owned("No data to explain.\n");
        }
        let ins = analyze(data, &idx);
        let mut out = brief_of(&ins, stats, Ghost(rows));
        match self.level {
            ExplainLevel::Brief => out,
            ExplainLevel::Detailed => {
                push_str(&mut out, "\n");
                let ghost head = out@;
                let mut i: usize = 0;
                while i < idx.len()
                    invariant
                        i <= idx@.len(),
                        indices_in(idx@, data@.len()),
                        rows == rows_at(data@, idx@),
                        rows == sorted_filtered(data@, *options),
                        describes(ins, rows),
                        readings_fit(data@, *options, readings@),
                        out@ == head + record_lines(rows, readings@, i as nat),
                    decreases idx.len() - i,
                {
                    let row = &data[idx[i]];
                    assert(rows[i as int] == *row);
                    let label = label_of(row, i, &ins.label_field);
                    let notes = notes_of(row, &ins, &readings[i], Ghost(rows));
                    push_str(&mut out, "- ");
                    push_str(&mut out, label.as_str());
                    if notes.len() == 0 {
                        push_str(&mut out, "\n");
                    } else {
                        push_str(&mut out, ": ");
                        let joined = join_strings(&notes, ", ");
                        push_str(&mut out, joined.as_str());
                        push_str(&mut out, ".\n");
                    }
                    i = i + 1;
                }
                out
            },
        }
    }
}

} // verus!
