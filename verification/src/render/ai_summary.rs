//! `ai-summary` mode: the same rule-based reading of the data as `explain`,
//! condensed into a single sentence: the record count, what the status
//! column flags, and each numeric column's range (with its average at the
//! detailed level).
use vstd::prelude::*;
use crate::json::Json;
use crate::render::explain::{ColumnStats, ExplainLevel, numeric_count};
use crate::render::html::{columns_of, first_status_column};
use crate::render::insights::{Insights, analyze, describes, flagged_labels, label_field_of,
    numeric_columns};
use crate::render::rows::{RenderOptions, rows_at, sorted_filtered, sorted_filtered_indices};
use crate::text::{decimal, join, join_strings, owned, push_str, usize_text, views};

verus! {

/// `, N flagged on field (labels)` when the status column flags records.
pub open spec fn flagged_clause(rows: Seq<Json>) -> Seq<char> {
    let cols = columns_of(rows);
    match first_status_column(cols) {
        Some(f) => {
            let flagged = flagged_labels(rows, f, label_field_of(cols), rows.len());
            if flagged.len() == 0 {
                Seq::empty()
            } else {
                ", "@ + decimal(flagged.len()) + " flagged on "@ + f + " ("@ + join(flagged, ", "@)
                    + ")"@
            }
        },
        None => Seq::empty(),
    }
}

/// `; field min-max`, or at the detailed level `; field avg A (range min-max)`.
pub open spec fn range_clause(field: Seq<char>, stats: ColumnStats, detailed: bool) -> Seq<char> {
    if detailed {
        "; "@ + field + " avg "@ + stats.avg@ + " (range "@ + stats.min@ + "-"@ + stats.max@ + ")"@
    } else {
        "; "@ + field + " "@ + stats.min@ + "-"@ + stats.max@
    }
}

pub open spec fn range_clauses(
    fields: Seq<Seq<char>>,
    stats: Seq<ColumnStats>,
    detailed: bool,
    k: nat,
) -> Seq<char>
    decreases k,
{
    if k == 0 {
        Seq::empty()
    } else {
        range_clauses(fields, stats, detailed, (k - 1) as nat) + range_clause(
            fields[k - 1],
            stats[k - 1],
            detailed,
        )
    }
}

/// The summary of the records shown, given each numeric column's statistics.
pub open spec fn summary_text(
    data: Seq<Json>,
    options: RenderOptions,
    level: ExplainLevel,
    stats: Seq<ColumnStats>,
) -> Seq<char> {
    let rows = sorted_filtered(data, options);
    let numeric = numeric_columns(rows, columns_of(rows));
    if rows.len() == 0 {
        "No data to summarize.\n"@
    } else {
        decimal(rows.len()) + " record(s)"@ + flagged_clause(rows) + range_clauses(
            numeric,
            stats,
            level == ExplainLevel::Detailed,
            numeric.len(),
        ) + ".\n"@
    }
}

fn flagged_clause_of(ins: &Insights, Ghost(rows): Ghost<Seq<Json>>) -> (r: String)
    requires
        describes(*ins, rows),
    ensures
        r@ == flagged_clause(rows),
{
    let mut out = String::new();
    match &ins.status {
        Some(s) => {
            if s.flagged.len() > 0 {
                push_str(&mut out, ", ");
                let n = usize_text(s.flagged.len());
                push_str(&mut out, n.as_str());
                push_str(&mut out, " flagged on ");
                push_str(&mut out, s.field.as_str());
                push_str(&mut out, " (");
                let joined = join_strings(&s.flagged, ", ");
                push_str(&mut out, joined.as_str());
                push_str(&mut out, ")");
            }
        },
        None => {},
    }
    out
}

pub struct AiSummaryRenderer {
    pub level: ExplainLevel,
}

impl AiSummaryRenderer {
    /// Summarizes the records shown; `stats[j]` describes the `j`-th
    /// numeric column.
    pub fn render_summary(&self, data: &[Json], options: &RenderOptions, stats: &Vec<ColumnStats>) -> (r:
        String)
        requires
            stats@.len() == numeric_count(data@, *options),
        ensures
            r@ == summary_text(data@, *options, self.level, stats@),
    {
        let idx = sorted_filtered_indices(data, options);
        let ghost rows = rows_at(data@, idx@);
        if idx.len() == 0 {
            return owned("No data to summarize.\n");
        }
        let ins = analyze(data, &idx);
        let detailed = self.level == ExplainLevel::Detailed;
        let mut out = usize_text(ins.total);
        push_str(&mut out, " record(s)");
        let f = flagged_clause_of(&ins, Ghost(rows));
        push_str(&mut out, f.as_str());
        let ghost head = out@;
        let ghost fields = views(ins.numeric@);
        let mut j: usize = 0;
        while j < ins.numeric.len()
            invariant
                j <= ins.numeric@.len(),
                stats@.len() == ins.numeric@.len(),
                fields == views(ins.numeric@),
                out@ == head + range_clauses(fields, stats@, detailed, j as nat),
            decreases ins.numeric.len() - j,
        {
            push_str(&mut out, "; ");
            push_str(&mut out, ins.numeric[j].as_str());
            if detailed {
                push_str(&mut out, " avg ");
                push_str(&mut out, stats[j].avg.as_str());
                push_str(&mut out, " (range ");
                push_str(&mut out, stats[j].min.as_str());
                push_str(&mut out, "-");
                push_str(&mut out, stats[j].max.as_str());
                push_str(&mut out, ")");
            } else {
                push_str(&mut out, " ");
                push_str(&mut out, stats[j].min.as_str());
                push_str(&mut out, "-");
                push_str(&mut out, stats[j].max.as_str());
            }
            j = j + 1;
        }
        push_str(&mut out, ".\n");
        out
    }
}

} // verus!
