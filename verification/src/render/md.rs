//! `md` mode: a Markdown report — a heading, a summary line, and a table.
//! Cell values are escaped for Markdown table syntax (`|` and `\`) and
//! newlines are flattened to spaces, since either would corrupt the
//! table's column structure.
use vstd::prelude::*;
use crate::json::{Json, cell_text, cell_text_of};
use crate::render::html::{columns, columns_of, count_down, down_count, down_value,
    find_status_column, first_status_column, is_down_value, is_status_field, status_field};
use crate::render::rows::{RenderOptions, Renderer, indices_in, rows_at, sorted_filtered,
    sorted_filtered_indices};
use crate::text::{chars_of, decimal, join, join_strings, owned, push_char, push_str, usize_text,
    views};

verus! {

pub open spec fn md_char(c: char) -> Seq<char> {
    if c == '\\' {
        "\\\\"@
    } else if c == '|' {
        "\\|"@
    } else if c == '\n' || c == '\r' {
        seq![' ']
    } else {
        seq![c]
    }
}

/// `s` made safe inside a Markdown table cell.
pub open spec fn md_escaped(s: Seq<char>) -> Seq<char>
    decreases s.len(),
{
    if s.len() == 0 {
        Seq::empty()
    } else {
        md_escaped(s.drop_last()) + md_char(s.last())
    }
}

pub fn escape(s: &str) -> (r: String)
    ensures
        r@ == md_escaped(s@),
{
    let v = chars_of(s);
    let mut out = String::new();
    let mut i: usize = 0;
    while i < v.len()
        invariant
            v@ == s@,
            i <= v.len(),
            out@ == md_escaped(s@.take(i as int)),
        decreases v.len() - i,
    {
        let c = v[i];
        let ghost before = out@;
        if c == '\\' {
            push_str(&mut out, "\\\\");
        } else if c == '|' {
            push_str(&mut out, "\\|");
        } else if c == '\n' || c == '\r' {
            push_char(&mut out, ' ');
        } else {
            push_char(&mut out, c);
        }
        assert(out@ =~= before + md_char(c));
        assert(s@.take(i + 1).drop_last() =~= s@.take(i as int));
        i = i + 1;
    }
    assert(s@.take(v.len() as int) =~= s@);
    out
}

/// Escaped cell text never holds a line break, and every `|` in it is
/// preceded by a backslash, so it cannot split a table row or cell.
pub proof fn law_escaped_cell_stays_in_its_cell(s: Seq<char>)
    ensures
        forall|i: int| 0 <= i < md_escaped(s).len() ==> #[trigger] md_escaped(s)[i] != '\n'
            && md_escaped(s)[i] != '\r',
        forall|i: int|
            0 <= i < md_escaped(s).len() && #[trigger] md_escaped(s)[i] == '|' ==> i > 0
                && md_escaped(s)[i - 1] == '\\',
    decreases s.len(),
{
    reveal_strlit("\\\\");
    reveal_strlit("\\|");
    if s.len() > 0 {
        law_escaped_cell_stays_in_its_cell(s.drop_last());
        let a = md_escaped(s.drop_last());
        let b = md_char(s.last());
        let e = md_escaped(s);
        assert(e == a + b);
        assert forall|i: int| 0 <= i < e.len() implies #[trigger] e[i] != '\n' && e[i] != '\r' by {
            if i >= a.len() {
                assert(e[i] == b[i - a.len()]);
            } else {
                assert(e[i] == a[i]);
            }
        }
        assert forall|i: int| 0 <= i < e.len() && #[trigger] e[i] == '|' implies i > 0 && e[i
            - 1] == '\\' by {
            if i >= a.len() {
                assert(e[i] == b[i - a.len()]);
                assert(i == a.len() + 1);
                assert(e[i - 1] == b[0]);
            } else {
                assert(e[i] == a[i]);
                assert(e[i - 1] == a[i - 1]);
            }
        }
    }
}

/// A status-column cell reading as "down".
pub open spec fn flagged_cell(column: Seq<char>, value: Seq<char>) -> bool {
    is_status_field(column) && is_down_value(value)
}

pub fn is_flagged(column: &str, value: &str) -> (r: bool)
    ensures
        r == flagged_cell(column@, value@),
{
    status_field(column) && down_value(value)
}

pub open spec fn summary_md(rows: Seq<Json>, cols: Seq<Seq<char>>) -> Seq<char> {
    let n = decimal(rows.len());
    match first_status_column(cols) {
        Some(f) if down_count(rows, f) > 0 => n + " record(s), **"@ + decimal(down_count(rows, f))
            + " flagged**.\n"@,
        _ => n + " record(s).\n"@,
    }
}

pub open spec fn md_cell(row: Json, column: Seq<char>) -> Seq<char> {
    let raw = cell_text(row, column);
    if flagged_cell(column, raw) {
        "**"@ + md_escaped(raw) + "**"@
    } else {
        md_escaped(raw)
    }
}

pub open spec fn md_cells(row: Json, cols: Seq<Seq<char>>) -> Seq<Seq<char>> {
    Seq::new(cols.len(), |j: int| md_cell(row, cols[j]))
}

pub open spec fn md_rows(rows: Seq<Json>, cols: Seq<Seq<char>>) -> Seq<char>
    decreases rows.len(),
{
    if rows.len() == 0 {
        Seq::empty()
    } else {
        md_rows(rows.drop_last(), cols) + "| "@ + join(md_cells(rows.last(), cols), " | "@)
            + " |\n"@
    }
}

pub open spec fn table_md(rows: Seq<Json>, cols: Seq<Seq<char>>) -> Seq<char> {
    "| "@ + join(Seq::new(cols.len(), |j: int| md_escaped(cols[j])), " | "@) + " |\n| "@ + join(
        Seq::new(cols.len(), |j: int| "---"@),
        " | "@,
    ) + " |\n"@ + md_rows(rows, cols)
}

pub open spec fn md_report(data: Seq<Json>, options: RenderOptions) -> Seq<char> {
    let rows = sorted_filtered(data, options);
    let cols = columns_of(rows);
    "# Presentation Report\n\n"@ + summary_md(rows, cols) + if cols.len() == 0 {
        "\n_No data._\n"@
    } else {
        "\n"@ + table_md(rows, cols)
    }
}

fn summary(data: &[Json], idx: &Vec<usize>, cols: &Vec<String>) -> (r: String)
    requires
        indices_in(idx@, data@.len()),
    ensures
        r@ == summary_md(rows_at(data@, idx@), views(cols@)),
{
    let n = usize_text(idx.len());
    let flagged = match find_status_column(cols) {
        Some(i) => count_down(data, idx, cols[i].as_str()),
        None => 0,
    };
    let mut r = owned(n.as_str());
    if flagged > 0 {
        push_str(&mut r, " record(s), **");
        push_str(&mut r, usize_text(flagged).as_str());
        push_str(&mut r, " flagged**.\n");
    } else {
        push_str(&mut r, " record(s).\n");
    }
    r
}

fn row_cells(row: &Json, cols: &Vec<String>) -> (r: Vec<String>)
    ensures
        views(r@) == md_cells(*row, views(cols@)),
{
    let mut cells: Vec<String> = Vec::new();
    let mut j: usize = 0;
    while j < cols.len()
        invariant
            j <= cols@.len(),
            views(cells@) == md_cells(*row, views(cols@)).take(j as int),
        decreases cols.len() - j,
    {
        let c = cols[j].as_str();
        let raw = cell_text_of(row, c);
        let text = escape(raw.as_str());
        let cell = if is_flagged(c, raw.as_str()) {
            let mut b = owned("**");
            push_str(&mut b, text.as_str());
            push_str(&mut b, "**");
            b
        } else {
            text
        };
        assert(cell@ == md_cell(*row, views(cols@)[j as int]));
        let ghost before = views(cells@);
        cells.push(cell);
        assert(views(cells@) =~= before.push(md_cell(*row, views(cols@)[j as int])));
        assert(views(cells@) =~= md_cells(*row, views(cols@)).take(j + 1));
        j = j + 1;
    }
    assert(md_cells(*row, views(cols@)).take(cols@.len() as int) =~= md_cells(*row, views(cols@)));
    cells
}

fn table(data: &[Json], idx: &Vec<usize>, cols: &Vec<String>) -> (r: String)
    requires
        indices_in(idx@, data@.len()),
    ensures
        r@ == table_md(rows_at(data@, idx@), views(cols@)),
{
    let mut heads: Vec<String> = Vec::new();
    let mut rules: Vec<String> = Vec::new();
    let mut j: usize = 0;
    while j < cols.len()
        invariant
            j <= cols@.len(),
            views(heads@) == Seq::new(cols@.len(), |q: int| md_escaped(views(cols@)[q])).take(j as int),
            views(rules@) == Seq::new(cols@.len(), |q: int| "---"@).take(j as int),
        decreases cols.len() - j,
    {
        let ghost hb = views(heads@);
        let ghost rb = views(rules@);
        let e = escape(cols[j].as_str());
        assert(e@ == md_escaped(views(cols@)[j as int]));
        heads.push(e);
        let d = owned("---");
        rules.push(d);
        assert(views(heads@) =~= hb.push(md_escaped(views(cols@)[j as int])));
        assert(views(rules@) =~= rb.push("---"@));
        assert(views(heads@) =~= Seq::new(cols@.len(), |q: int| md_escaped(views(cols@)[q])).take(
            j + 1,
        ));
        assert(views(rules@) =~= Seq::new(cols@.len(), |q: int| "---"@).take(j + 1));
        j = j + 1;
    }
    assert(views(heads@) =~= Seq::new(cols@.len(), |q: int| md_escaped(views(cols@)[q])));
    assert(views(rules@) =~= Seq::new(cols@.len(), |q: int| "---"@));
    let mut out = owned("| ");
    push_str(&mut out, join_strings(&heads, " | ").as_str());
    push_str(&mut out, " |\n| ");
    push_str(&mut out, join_strings(&rules, " | ").as_str());
    push_str(&mut out, " |\n");
    let ghost head = out@;
    let mut k: usize = 0;
    assert(head + md_rows(rows_at(data@, idx@).take(0), views(cols@)) =~= head);
    while k < idx.len()
        invariant
            indices_in(idx@, data@.len()),
            k <= idx@.len(),
            out@ == head + md_rows(rows_at(data@, idx@).take(k as int), views(cols@)),
        decreases idx.len() - k,
    {
        let cells = row_cells(&data[idx[k]], cols);
        push_str(&mut out, "| ");
        push_str(&mut out, join_strings(&cells, " | ").as_str());
        push_str(&mut out, " |\n");
        proof {
            let rs = rows_at(data@, idx@);
            assert(rs.take(k + 1).drop_last() =~= rs.take(k as int));
            assert(rs.take(k + 1).last() == data@[idx@[k as int] as int]);
        }
        k = k + 1;
    }
    assert(rows_at(data@, idx@).take(idx@.len() as int) =~= rows_at(data@, idx@));
    out
}

pub struct MarkdownRenderer;

impl MarkdownRenderer {
    pub fn render_md(&self, data: &[Json], options: &RenderOptions) -> (r: String)
        ensures
            r@ == md_report(data@, *options),
    {
        let idx = sorted_filtered_indices(data, options);
        let cols = columns(data, &idx);
        let mut out = owned("# Presentation Report\n\n");
        push_str(&mut out, summary(data, &idx, &cols).as_str());
        if cols.len() == 0 {
            push_str(&mut out, "\n_No data._\n");
        } else {
            push_str(&mut out, "\n");
            push_str(&mut out, table(data, &idx, &cols).as_str());
        }
        out
    }
}

impl Renderer for MarkdownRenderer {
    fn render(&self, data: &[Json], options: &RenderOptions) -> (r: String)
        ensures
            r@ == md_report(data@, *options),
    {
        self.render_md(data, options)
    }
}

} // verus!
