//! `html` mode: a self-contained, styled HTML report — a summary line plus
//! a data table, with status/level-like columns highlighted. Every record
//! value is HTML-escaped before interpolation (payloads may come from
//! untrusted producers; HTML output must be sanitized).
use vstd::prelude::*;
use crate::json::{Json, cell_text, cell_text_of, keys_of};
use crate::text::concat;
use crate::render::rows::{RenderOptions, sorted_filtered, sorted_filtered_indices, rows_at,
    indices_in, Renderer};
use crate::text::{views, ascii_lower, decimal, owned, push_str, push_char, chars_of, str_eq, to_lower,
    usize_text};

verus! {

// ---------------------------------------------------------------------------
// Escaping
// ---------------------------------------------------------------------------

pub open spec fn html_char(c: char) -> Seq<char> {
    if c == '&' {
        "&amp;"@
    } else if c == '<' {
        "&lt;"@
    } else if c == '>' {
        "&gt;"@
    } else if c == '"' {
        "&quot;"@
    } else if c == '\'' {
        "&#39;"@
    } else {
        seq![c]
    }
}

/// `s` with `& < > " '` replaced by their character references.
pub open spec fn html_escaped(s: Seq<char>) -> Seq<char>
    decreases s.len(),
{
    if s.len() == 0 {
        Seq::empty()
    } else {
        html_escaped(s.drop_last()) + html_char(s.last())
    }
}

pub fn escape(s: &str) -> (r: String)
    ensures
        r@ == html_escaped(s@),
{
    let v = chars_of(s);
    let mut out = String::new();
    let mut i: usize = 0;
    while i < v.len()
        invariant
            v@ == s@,
            i <= v.len(),
            out@ == html_escaped(s@.take(i as int)),
        decreases v.len() - i,
    {
        let c = v[i];
        if c == '&' {
            push_str(&mut out, "&amp;");
        } else if c == '<' {
            push_str(&mut out, "&lt;");
        } else if c == '>' {
            push_str(&mut out, "&gt;");
        } else if c == '"' {
            push_str(&mut out, "&quot;");
        } else if c == '\'' {
            push_str(&mut out, "&#39;");
        } else {
            push_char(&mut out, c);
            assert(out@ =~= html_escaped(s@.take(i as int)) + seq![c]);
        }
        assert(s@.take(i + 1).drop_last() =~= s@.take(i as int));
        i = i + 1;
    }
    assert(s@.take(v.len() as int) =~= s@);
    out
}

pub open spec fn is_markup_char(c: char) -> bool {
    c == '<' || c == '>' || c == '"' || c == '\''
}

/// Escaped text holds no character that could open or close a tag or an
/// attribute value: no `<`, `>`, `"` or `'`.
pub proof fn law_escaped_has_no_markup(s: Seq<char>)
    ensures
        forall|i: int| 0 <= i < html_escaped(s).len() ==> !is_markup_char(#[trigger] html_escaped(s)[i]),
    decreases s.len(),
{
    reveal_strlit("&amp;");
    reveal_strlit("&lt;");
    reveal_strlit("&gt;");
    reveal_strlit("&quot;");
    reveal_strlit("&#39;");
    if s.len() > 0 {
        law_escaped_has_no_markup(s.drop_last());
        let a = html_escaped(s.drop_last());
        let b = html_char(s.last());
        assert forall|i: int| 0 <= i < html_escaped(s).len() implies !is_markup_char(
            #[trigger] html_escaped(s)[i],
        ) by {
            if i >= a.len() {
                assert(html_escaped(s)[i] == b[i - a.len()]);
            } else {
                assert(html_escaped(s)[i] == a[i]);
            }
        }
    }
}

/// Escaping works character by character: the escape of joined texts is
/// the joined escapes, so data is escaped the same wherever it is cut.
pub proof fn law_escape_composes(a: Seq<char>, b: Seq<char>)
    ensures
        html_escaped(a + b) == html_escaped(a) + html_escaped(b),
    decreases b.len(),
{
    if b.len() == 0 {
        assert(a + b =~= a);
        assert(html_escaped(a) + html_escaped(b) =~= html_escaped(a));
    } else {
        law_escape_composes(a, b.drop_last());
        assert((a + b).drop_last() =~= a + b.drop_last());
        assert((a + b).last() == b.last());
    }
}

/// Text without special characters passes through unchanged.
pub proof fn law_plain_text_unchanged(s: Seq<char>)
    requires
        forall|i: int| 0 <= i < s.len() ==> !is_markup_char(#[trigger] s[i]) && s[i] != '&',
    ensures
        html_escaped(s) == s,
    decreases s.len(),
{
    if s.len() > 0 {
        law_plain_text_unchanged(s.drop_last());
        assert(s =~= s.drop_last() + seq![s.last()]);
    }
}

// ---------------------------------------------------------------------------
// Shared column logic
// ---------------------------------------------------------------------------

/// Column names: the first record's fields, in order.
pub open spec fn columns_of(rows: Seq<Json>) -> Seq<Seq<char>> {
    if rows.len() == 0 {
        Seq::empty()
    } else {
        keys_of(rows[0])
    }
}

/// Columns of the shown records (see `columns_of`).
pub fn columns(data: &[Json], idx: &Vec<usize>) -> (r: Vec<String>)
    requires
        indices_in(idx@, data@.len()),
    ensures
        views(r@) == columns_of(rows_at(data@, idx@)),
{
    if idx.len() == 0 {
        let r: Vec<String> = Vec::new();
        assert(views(r@) =~= Seq::<Seq<char>>::empty());
        r
    } else {
        let r = data[idx[0]].keys();
        assert(views(r@) =~= keys_of(data@[idx@[0] as int]));
        r
    }
}

/// The first name in `cols` satisfying the status-column test.
pub open spec fn first_status_column(cols: Seq<Seq<char>>) -> Option<Seq<char>>
    decreases cols.len(),
{
    if cols.len() == 0 {
        None
    } else if is_status_field(cols[0]) {
        Some(cols[0])
    } else {
        first_status_column(cols.drop_first())
    }
}

/// `status`/`state`/`level`, in any ASCII case.
pub open spec fn is_status_field(c: Seq<char>) -> bool {
    let l = ascii_lower(c);
    l == "status"@ || l == "state"@ || l == "level"@
}

pub open spec fn is_up_value(v: Seq<char>) -> bool {
    let l = ascii_lower(v);
    l == "up"@ || l == "active"@ || l == "ok"@ || l == "online"@ || l == "info"@
}

pub open spec fn is_down_value(v: Seq<char>) -> bool {
    let l = ascii_lower(v);
    l == "down"@ || l == "error"@ || l == "offline"@ || l == "inactive"@ || l == "critical"@
        || l == "fatal"@
}

pub fn status_field(c: &str) -> (r: bool)
    ensures
        r == is_status_field(c@),
{
    let l = to_lower(c);
    let l = l.as_str();
    str_eq(l, "status") || str_eq(l, "state") || str_eq(l, "level")
}

pub fn up_value(v: &str) -> (r: bool)
    ensures
        r == is_up_value(v@),
{
    let l = to_lower(v);
    let l = l.as_str();
    str_eq(l, "up") || str_eq(l, "active") || str_eq(l, "ok") || str_eq(l, "online") || str_eq(
        l,
        "info",
    )
}

pub fn down_value(v: &str) -> (r: bool)
    ensures
        r == is_down_value(v@),
{
    let l = to_lower(v);
    let l = l.as_str();
    str_eq(l, "down") || str_eq(l, "error") || str_eq(l, "offline") || str_eq(l, "inactive")
        || str_eq(l, "critical") || str_eq(l, "fatal")
}

pub fn find_status_column(cols: &Vec<String>) -> (r: Option<usize>)
    ensures
        r matches Some(i) ==> i < cols@.len() && first_status_column(views(cols@)) == Some(
            cols@[i as int]@,
        ),
        r is None ==> first_status_column(views(cols@)) is None,
{
    let mut i: usize = 0;
    assert(views(cols@).skip(0) =~= views(cols@));
    while i < cols.len()
        invariant
            i <= cols@.len(),
            first_status_column(views(cols@)) == first_status_column(views(cols@).skip(i as int)),
        decreases cols.len() - i,
    {
        if status_field(cols[i].as_str()) {
            assert(views(cols@).skip(i as int)[0] == cols@[i as int]@);
            return Some(i);
        }
        assert(views(cols@).skip(i as int).drop_first() =~= views(cols@).skip(i + 1));
        i = i + 1;
    }
    None
}

/// How many records read as "down" in `field`.
pub open spec fn down_count(rows: Seq<Json>, field: Seq<char>) -> nat
    decreases rows.len(),
{
    if rows.len() == 0 {
        0
    } else {
        down_count(rows.drop_last(), field) + if is_down_value(cell_text(rows.last(), field)) {
            1nat
        } else {
            0nat
        }
    }
}

pub fn count_down(data: &[Json], idx: &Vec<usize>, field: &str) -> (n: usize)
    requires
        indices_in(idx@, data@.len()),
    ensures
        n == down_count(rows_at(data@, idx@), field@),
{
    let mut n: usize = 0;
    let mut k: usize = 0;
    while k < idx.len()
        invariant
            indices_in(idx@, data@.len()),
            k <= idx@.len(),
            n <= k,
            n == down_count(rows_at(data@, idx@).take(k as int), field@),
        decreases idx.len() - k,
    {
        proof {
            let rs = rows_at(data@, idx@);
            assert(rs.take(k + 1).drop_last() =~= rs.take(k as int));
        }
        let t = cell_text_of(&data[idx[k]], field);
        if down_value(t.as_str()) {
            n = n + 1;
        }
        k = k + 1;
    }
    assert(rows_at(data@, idx@).take(idx@.len() as int) =~= rows_at(data@, idx@));
    n
}

// ---------------------------------------------------------------------------
// The report
// ---------------------------------------------------------------------------

pub open spec fn summary_html(rows: Seq<Json>, cols: Seq<Seq<char>>) -> Seq<char> {
    let n = decimal(rows.len());
    match first_status_column(cols) {
        Some(f) if down_count(rows, f) > 0 => "<p class=\"summary\">"@ + n
            + " record(s), <span class=\"flag-down\">"@ + decimal(down_count(rows, f))
            + " flagged</span>.</p>\n"@,
        _ => "<p class=\"summary\">"@ + n + " record(s).</p>\n"@,
    }
}

/// The `class` attribute of a cell: highlighted when the column is a
/// status column and the value reads as up or down.
pub open spec fn cell_class(column: Seq<char>, value: Seq<char>) -> Seq<char> {
    if !is_status_field(column) {
        ""@
    } else if is_up_value(value) {
        "flag-up"@
    } else if is_down_value(value) {
        "flag-down"@
    } else {
        ""@
    }
}

pub fn status_class(column: &str, value: &str) -> (r: &'static str)
    ensures
        r@ == cell_class(column@, value@),
{
    if !status_field(column) {
        ""
    } else if up_value(value) {
        "flag-up"
    } else if down_value(value) {
        "flag-down"
    } else {
        ""
    }
}

pub open spec fn header_cells(cols: Seq<Seq<char>>) -> Seq<char>
    decreases cols.len(),
{
    if cols.len() == 0 {
        Seq::empty()
    } else {
        header_cells(cols.drop_last()) + "<th>"@ + html_escaped(cols.last()) + "</th>"@
    }
}

pub open spec fn row_cells(row: Json, cols: Seq<Seq<char>>) -> Seq<char>
    decreases cols.len(),
{
    if cols.len() == 0 {
        Seq::empty()
    } else {
        let c = cols.last();
        let t = cell_text(row, c);
        row_cells(row, cols.drop_last()) + "<td class=\""@ + cell_class(c, t) + "\">"@
            + html_escaped(t) + "</td>"@
    }
}

pub open spec fn body_rows(rows: Seq<Json>, cols: Seq<Seq<char>>) -> Seq<char>
    decreases rows.len(),
{
    if rows.len() == 0 {
        Seq::empty()
    } else {
        body_rows(rows.drop_last(), cols) + "<tr>"@ + row_cells(rows.last(), cols) + "</tr>\n"@
    }
}

pub open spec fn table_html(rows: Seq<Json>, cols: Seq<Seq<char>>) -> Seq<char> {
    "<table>\n<thead><tr>"@ + header_cells(cols) + "</tr></thead>\n<tbody>\n"@ + body_rows(
        rows,
        cols,
    ) + "</tbody>\n</table>\n"@
}

pub open spec fn document_html(body: Seq<char>) -> Seq<char> {
    DOCUMENT_HEAD@ + body + "</body>\n</html>\n"@
}

pub open spec fn html_report(data: Seq<Json>, options: RenderOptions) -> Seq<char> {
    let rows = sorted_filtered(data, options);
    let cols = columns_of(rows);
    document_html(
        "<h1>Presentation Report</h1>\n"@ + summary_html(rows, cols) + if cols.len() == 0 {
            "<p class=\"empty\">No data.</p>\n"@
        } else {
            table_html(rows, cols)
        },
    )
}

pub const DOCUMENT_HEAD: &'static str = "<!doctype html>
<html lang=\"en\">
<head>
<meta charset=\"utf-8\">
<title>Presentation Report</title>
<style>
  body { font-family: system-ui, sans-serif; margin: 2rem; color: #1a1a1a; background: #fff; }
  h1 { font-size: 1.4rem; }
  table { border-collapse: collapse; width: 100%; margin-top: 1rem; }
  th, td { border: 1px solid #ddd; padding: 0.4rem 0.6rem; text-align: left; font-size: 0.9rem; }
  th { background: #f5f5f5; }
  .summary { color: #555; }
  .empty { color: #888; font-style: italic; }
  .flag-up { color: #1a7f37; font-weight: 600; }
  .flag-down { color: #b3261e; font-weight: 600; }
</style>
</head>
<body>
";

fn summary(data: &[Json], idx: &Vec<usize>, cols: &Vec<String>) -> (r: String)
    requires
        indices_in(idx@, data@.len()),
    ensures
        r@ == summary_html(rows_at(data@, idx@), views(cols@)),
{
    let n = usize_text(idx.len());
    let flagged = match find_status_column(cols) {
        Some(i) => count_down(data, idx, cols[i].as_str()),
        None => 0,
    };
    if flagged > 0 {
        let mut r = owned("<p class=\"summary\">");
        push_str(&mut r, n.as_str());
        push_str(&mut r, " record(s), <span class=\"flag-down\">");
        push_str(&mut r, usize_text(flagged).as_str());
        push_str(&mut r, " flagged</span>.</p>\n");
        r
    } else {
        let mut r = owned("<p class=\"summary\">");
        push_str(&mut r, n.as_str());
        push_str(&mut r, " record(s).</p>\n");
        r
    }
}

fn row_html(row: &Json, cols: &Vec<String>) -> (r: String)
    ensures
        r@ == row_cells(*row, views(cols@)),
{
    let mut out = String::new();
    let mut j: usize = 0;
    while j < cols.len()
        invariant
            j <= cols@.len(),
            out@ == row_cells(*row, views(cols@).take(j as int)),
        decreases cols.len() - j,
    {
        let c = cols[j].as_str();
        let t = cell_text_of(row, c);
        push_str(&mut out, "<td class=\"");
        push_str(&mut out, status_class(c, t.as_str()));
        push_str(&mut out, "\">");
        push_str(&mut out, escape(t.as_str()).as_str());
        push_str(&mut out, "</td>");
        proof {
            let cs = views(cols@);
            assert(cs.take(j + 1).drop_last() =~= cs.take(j as int));
            assert(cs.take(j + 1).last() == cols@[j as int]@);
        }
        j = j + 1;
    }
    assert(views(cols@).take(cols@.len() as int) =~= views(cols@));
    out
}

fn table(data: &[Json], idx: &Vec<usize>, cols: &Vec<String>) -> (r: String)
    requires
        indices_in(idx@, data@.len()),
    ensures
        r@ == table_html(rows_at(data@, idx@), views(cols@)),
{
    let mut head = String::new();
    let mut j: usize = 0;
    while j < cols.len()
        invariant
            j <= cols@.len(),
            head@ == header_cells(views(cols@).take(j as int)),
        decreases cols.len() - j,
    {
        push_str(&mut head, "<th>");
        push_str(&mut head, escape(cols[j].as_str()).as_str());
        push_str(&mut head, "</th>");
        proof {
            let cs = views(cols@);
            assert(cs.take(j + 1).drop_last() =~= cs.take(j as int));
            assert(cs.take(j + 1).last() == cols@[j as int]@);
        }
        j = j + 1;
    }
    assert(views(cols@).take(cols@.len() as int) =~= views(cols@));
    let mut body = String::new();
    let mut k: usize = 0;
    while k < idx.len()
        invariant
            indices_in(idx@, data@.len()),
            k <= idx@.len(),
            body@ == body_rows(rows_at(data@, idx@).take(k as int), views(cols@)),
        decreases idx.len() - k,
    {
        push_str(&mut body, "<tr>");
        push_str(&mut body, row_html(&data[idx[k]], cols).as_str());
        push_str(&mut body, "</tr>\n");
        proof {
            let rs = rows_at(data@, idx@);
            assert(rs.take(k + 1).drop_last() =~= rs.take(k as int));
            assert(rs.take(k + 1).last() == data@[idx@[k as int] as int]);
        }
        k = k + 1;
    }
    assert(rows_at(data@, idx@).take(idx@.len() as int) =~= rows_at(data@, idx@));
    let mut out = owned("<table>\n<thead><tr>");
    push_str(&mut out, head.as_str());
    push_str(&mut out, "</tr></thead>\n<tbody>\n");
    push_str(&mut out, body.as_str());
    push_str(&mut out, "</tbody>\n</table>\n");
    out
}

/// Wraps a report body in the page skeleton.
pub fn document(body: &str) -> (r: String)
    ensures
        r@ == document_html(body@),
{
    let mut out = owned(DOCUMENT_HEAD);
    push_str(&mut out, body);
    push_str(&mut out, "</body>\n</html>\n");
    out
}

pub struct HtmlRenderer;

impl HtmlRenderer {
    pub fn render_html(&self, data: &[Json], options: &RenderOptions) -> (r: String)
        ensures
            r@ == html_report(data@, *options),
    {
        let idx = sorted_filtered_indices(data, options);
        let cols = columns(data, &idx);
        let mut body = owned("<h1>Presentation Report</h1>\n");
        push_str(&mut body, summary(data, &idx, &cols).as_str());
        if cols.len() == 0 {
            push_str(&mut body, "<p class=\"empty\">No data.</p>\n");
        } else {
            push_str(&mut body, table(data, &idx, &cols).as_str());
        }
        document(body.as_str())
    }
}

// ---------------------------------------------------------------------------
// Escaping law of the whole report
// ---------------------------------------------------------------------------

pub open spec fn header_parts(cols: Seq<Seq<char>>) -> Seq<Seq<char>> {
    Seq::new(cols.len(), |j: int| "<th>"@ + html_escaped(cols[j]) + "</th>"@)
}

pub open spec fn cell_parts(row: Json, cols: Seq<Seq<char>>) -> Seq<Seq<char>> {
    Seq::new(
        cols.len(),
        |j: int|
            "<td class=\""@ + cell_class(cols[j], cell_text(row, cols[j])) + "\">"@ + html_escaped(
                cell_text(row, cols[j]),
            ) + "</td>"@,
    )
}

pub open spec fn row_parts(rows: Seq<Json>, cols: Seq<Seq<char>>) -> Seq<Seq<char>> {
    Seq::new(rows.len(), |i: int| "<tr>"@ + concat(cell_parts(rows[i], cols)) + "</tr>\n"@)
}

proof fn lemma_header_parts(cols: Seq<Seq<char>>)
    ensures
        header_cells(cols) == concat(header_parts(cols)),
    decreases cols.len(),
{
    if cols.len() > 0 {
        lemma_header_parts(cols.drop_last());
        assert(header_parts(cols).drop_last() =~= header_parts(cols.drop_last()));
    } else {
        assert(header_parts(cols) =~= Seq::<Seq<char>>::empty());
    }
}

proof fn lemma_cell_parts(row: Json, cols: Seq<Seq<char>>)
    ensures
        row_cells(row, cols) == concat(cell_parts(row, cols)),
    decreases cols.len(),
{
    if cols.len() > 0 {
        lemma_cell_parts(row, cols.drop_last());
        assert(cell_parts(row, cols).drop_last() =~= cell_parts(row, cols.drop_last()));
    } else {
        assert(cell_parts(row, cols) =~= Seq::<Seq<char>>::empty());
    }
}

proof fn lemma_row_parts(rows: Seq<Json>, cols: Seq<Seq<char>>)
    ensures
        body_rows(rows, cols) == concat(row_parts(rows, cols)),
    decreases rows.len(),
{
    if rows.len() > 0 {
        lemma_row_parts(rows.drop_last(), cols);
        lemma_cell_parts(rows.last(), cols);
        assert(row_parts(rows, cols).drop_last() =~= row_parts(rows.drop_last(), cols));
    } else {
        assert(row_parts(rows, cols) =~= Seq::<Seq<char>>::empty());
    }
}

/// Data reaches an HTML report only escaped: the report is its fixed
/// template around the escaped column names and the escaped cell texts,
/// each cell's class is one of three fixed names, and no escaped text
/// holds a character that could open or close markup.
pub proof fn law_report_escapes_all_data(data: Seq<Json>, options: RenderOptions)
    requires
        columns_of(sorted_filtered(data, options)).len() > 0,
    ensures
        html_report(data, options) == document_html(
            "<h1>Presentation Report</h1>\n"@ + summary_html(
                sorted_filtered(data, options),
                columns_of(sorted_filtered(data, options)),
            ) + "<table>\n<thead><tr>"@ + concat(
                header_parts(columns_of(sorted_filtered(data, options))),
            ) + "</tr></thead>\n<tbody>\n"@ + concat(
                row_parts(sorted_filtered(data, options), columns_of(sorted_filtered(data, options))),
            ) + "</tbody>\n</table>\n"@,
        ),
        forall|c: Seq<char>, v: Seq<char>|
            #[trigger] cell_class(c, v) == ""@ || cell_class(c, v) == "flag-up"@ || cell_class(c, v)
                == "flag-down"@,
        forall|t: Seq<char>, k: int|
            0 <= k < html_escaped(t).len() ==> !is_markup_char(#[trigger] html_escaped(t)[k]),
{
    let rows = sorted_filtered(data, options);
    let cols = columns_of(rows);
    lemma_header_parts(cols);
    lemma_row_parts(rows, cols);
    assert forall|t: Seq<char>, k: int| 0 <= k < html_escaped(t).len() implies !is_markup_char(
        #[trigger] html_escaped(t)[k],
    ) by {
        law_escaped_has_no_markup(t);
    }
    reveal_strlit("<table>\n<thead><tr>");
    reveal_strlit("</tr></thead>\n<tbody>\n");
    reveal_strlit("</tbody>\n</table>\n");
}

impl Renderer for HtmlRenderer {
    fn render(&self, data: &[Json], options: &RenderOptions) -> (r: String)
        ensures
            r@ == html_report(data@, *options),
    {
        self.render_html(data, options)
    }
}

} // verus!
