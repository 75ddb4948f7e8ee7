//! `table` mode: a column-aligned text table. Column widths fit the widest
//! value (measured in UTF-8 bytes, as `str::len` measures), capped by
//! `--width` split evenly across columns (at least 4 each); longer values
//! are truncated with `…`. With color on, `status`/`state` cells that read
//! as up or down are painted green or red.
use vstd::prelude::*;
use vstd::utf8::encode_utf8;
use crate::json::{Json, cell_text, cell_text_of};
use crate::render::html::{columns, columns_of};
use crate::render::rows::{RenderOptions, Renderer, indices_in, rows_at, sorted_filtered,
    sorted_filtered_indices};
use crate::term::{TermColor, lemma_painted_one_line, paint, painted};
use crate::text::{lemma_one_line_join, lemma_one_line_pad, one_line};
use crate::text::{ascii_lower, chars_of, fill, from_chars, join, join_strings, owned,
    pad_right, padded, push_char, push_str, repeat_char, str_eq, to_lower, views};

verus! {

// ---------------------------------------------------------------------------
// Cells
// ---------------------------------------------------------------------------

/// `s` cut to `width` characters, the last one replaced by `…` when cut.
pub open spec fn truncated(s: Seq<char>, width: nat) -> Seq<char> {
    if s.len() <= width {
        s
    } else if width == 0 {
        Seq::empty()
    } else {
        s.take(width - 1).push('…')
    }
}

pub fn truncate(s: &str, width: usize) -> (r: String)
    ensures
        r@ == truncated(s@, width as nat),
{
    let v = chars_of(s);
    if v.len() <= width {
        owned(s)
    } else if width == 0 {
        String::new()
    } else {
        let mut head: Vec<char> = Vec::new();
        let mut i: usize = 0;
        while i < width - 1
            invariant
                v@ == s@,
                width <= v@.len(),
                i <= width - 1,
                head@ == s@.take(i as int),
            decreases width - 1 - i,
        {
            head.push(v[i]);
            i = i + 1;
            assert(head@ =~= s@.take(i as int));
        }
        let mut r = from_chars(&head);
        push_char(&mut r, '…');
        r
    }
}

/// A truncated value never exceeds its width.
pub proof fn law_truncated_fits(s: Seq<char>, width: nat)
    ensures
        truncated(s, width).len() <= width,
        s.len() <= width ==> truncated(s, width) == s,
{
}

/// Status colors: `status`/`state` columns, up values green, down values red.
pub open spec fn status_color(column: Seq<char>, value: Seq<char>) -> Option<TermColor> {
    let c = ascii_lower(column);
    let v = ascii_lower(value);
    if !(c == "status"@ || c == "state"@) {
        None
    } else if v == "up"@ || v == "active"@ || v == "ok"@ || v == "online"@ {
        Some(TermColor::Green)
    } else if v == "down"@ || v == "error"@ || v == "offline"@ || v == "inactive"@ {
        Some(TermColor::Red)
    } else {
        None
    }
}

fn cell_color(column: &str, value: &str) -> (r: Option<TermColor>)
    ensures
        r == status_color(column@, value@),
{
    let c = to_lower(column);
    let c = c.as_str();
    if !(str_eq(c, "status") || str_eq(c, "state")) {
        return None;
    }
    let v = to_lower(value);
    let v = v.as_str();
    if str_eq(v, "up") || str_eq(v, "active") || str_eq(v, "ok") || str_eq(v, "online") {
        Some(TermColor::Green)
    } else if str_eq(v, "down") || str_eq(v, "error") || str_eq(v, "offline") || str_eq(
        v,
        "inactive",
    ) {
        Some(TermColor::Red)
    } else {
        None
    }
}

/// A cell as shown: padded, and painted when colors are on and the cell
/// has a status color.
pub open spec fn shown_cell(
    out: Seq<char>,
    column: Seq<char>,
    cell: Seq<char>,
    width: nat,
    color: bool,
) -> bool {
    let p = pad_right(cell, width);
    match status_color(column, cell) {
        Some(c) if color => painted(out, p, c),
        _ => out == p,
    }
}

/// A row as shown: `outs` are its cells as shown, joined by ` | `.
pub open spec fn shown_row(
    outs: Seq<Seq<char>>,
    cols: Seq<Seq<char>>,
    cells: Seq<Seq<char>>,
    widths: Seq<usize>,
    color: bool,
) -> bool {
    &&& outs.len() == cols.len()
    &&& forall|j: int|
        0 <= j < cols.len() ==> shown_cell(
            #[trigger] outs[j],
            cols[j],
            cells[j],
            widths[j] as nat,
            color,
        )
}

pub open spec fn padded_all(cells: Seq<Seq<char>>, widths: Seq<usize>) -> Seq<Seq<char>> {
    Seq::new(cells.len(), |j: int| pad_right(cells[j], widths[j] as nat))
}

/// The header row: column names padded to their widths.
pub fn format_row(columns: &Vec<String>, widths: &Vec<usize>) -> (r: String)
    requires
        widths@.len() == columns@.len(),
    ensures
        r@ == join(padded_all(views(columns@), widths@), " | "@),
{
    let mut parts: Vec<String> = Vec::new();
    let mut j: usize = 0;
    while j < columns.len()
        invariant
            widths@.len() == columns@.len(),
            j <= columns@.len(),
            views(parts@) == padded_all(views(columns@), widths@).take(j as int),
        decreases columns.len() - j,
    {
        let ghost before = views(parts@);
        parts.push(padded(columns[j].as_str(), widths[j]));
        assert(views(parts@) =~= before.push(pad_right(views(columns@)[j as int], widths@[j as int] as nat)));
        assert(views(parts@) =~= padded_all(views(columns@), widths@).take(j + 1));
        j = j + 1;
    }
    assert(padded_all(views(columns@), widths@).take(columns@.len() as int) =~= padded_all(
        views(columns@),
        widths@,
    ));
    join_strings(&parts, " | ")
}

/// A data row: each truncated cell padded to its width, painted when
/// colors are on and the cell has a status color, joined by ` | `.
pub fn format_colored_row(
    columns: &Vec<String>,
    cells: &Vec<String>,
    widths: &Vec<usize>,
    color: bool,
) -> (r: String)
    requires
        widths@.len() == columns@.len(),
        cells@.len() == columns@.len(),
    ensures
        exists|outs: Seq<Seq<char>>|
            shown_row(outs, views(columns@), views(cells@), widths@, color) && r@ == join(
                outs,
                " | "@,
            ),
        !color ==> r@ == join(padded_all(views(cells@), widths@), " | "@),
{
    let mut parts: Vec<String> = Vec::new();
    let mut j: usize = 0;
    while j < columns.len()
        invariant
            widths@.len() == columns@.len(),
            cells@.len() == columns@.len(),
            j <= columns@.len(),
            parts@.len() == j,
            forall|q: int|
                0 <= q < j ==> shown_cell(
                    #[trigger] views(parts@)[q],
                    views(columns@)[q],
                    views(cells@)[q],
                    widths@[q] as nat,
                    color,
                ),
            !color ==> views(parts@) == padded_all(views(cells@), widths@).take(j as int),
        decreases columns.len() - j,
    {
        let p = padded(cells[j].as_str(), widths[j]);
        let out = if color {
            match cell_color(columns[j].as_str(), cells[j].as_str()) {
                Some(c) => paint(p.as_str(), c),
                None => p,
            }
        } else {
            p
        };
        let ghost before = views(parts@);
        parts.push(out);
        assert(views(parts@) =~= before.push(out@));
        proof {
            if !color {
                assert(views(parts@) =~= padded_all(views(cells@), widths@).take(j + 1));
            }
        }
        j = j + 1;
    }
    proof {
        if !color {
            assert(padded_all(views(cells@), widths@).take(columns@.len() as int) =~= padded_all(
                views(cells@),
                widths@,
            ));
        }
    }
    join_strings(&parts, " | ")
}

// ---------------------------------------------------------------------------
// Widths
// ---------------------------------------------------------------------------

/// A value's width as `str::len` measures it: UTF-8 bytes.
pub open spec fn byte_width(s: Seq<char>) -> usize {
    encode_utf8(s).len() as usize
}

/// The widest of a column's name and its values.
pub open spec fn natural_width(rows: Seq<Json>, column: Seq<char>) -> usize
    decreases rows.len(),
{
    if rows.len() == 0 {
        byte_width(column)
    } else {
        let m = natural_width(rows.drop_last(), column);
        let b = byte_width(cell_text(rows.last(), column));
        if b > m {
            b
        } else {
            m
        }
    }
}

/// `--width` split evenly across the columns, at least 4 each.
pub open spec fn width_cap(width: Option<usize>, ncols: nat) -> Option<usize> {
    match width {
        Some(w) => Some(
            if (w as nat) / ncols > 4 {
                ((w as nat) / ncols) as usize
            } else {
                4usize
            },
        ),
        None => None,
    }
}

pub open spec fn column_width(rows: Seq<Json>, column: Seq<char>, cap: Option<usize>) -> usize {
    let n = natural_width(rows, column);
    match cap {
        Some(k) => if n < k {
            n
        } else {
            k
        },
        None => n,
    }
}

pub open spec fn column_widths(rows: Seq<Json>, cols: Seq<Seq<char>>, width: Option<usize>) -> Seq<
    usize,
> {
    Seq::new(cols.len(), |j: int| column_width(rows, cols[j], width_cap(width, cols.len())))
}

pub open spec fn total(ws: Seq<usize>) -> nat
    decreases ws.len(),
{
    if ws.len() == 0 {
        0
    } else {
        total(ws.drop_last()) + (ws.last() as nat)
    }
}

/// The rule under the header: as wide as the columns and their ` | `
/// separators (a rule longer than `usize::MAX` cannot exist; it stops there).
pub open spec fn rule_len(ws: Seq<usize>) -> nat {
    let t = total(ws) + 3 * (ws.len() - 1);
    if t > usize::MAX {
        usize::MAX as nat
    } else {
        t as nat
    }
}

pub open spec fn row_cells(row: Json, cols: Seq<Seq<char>>, ws: Seq<usize>) -> Seq<Seq<char>> {
    Seq::new(cols.len(), |j: int| truncated(cell_text(row, cols[j]), ws[j] as nat))
}

/// The text of a table whose data rows print as `lines`.
pub open spec fn table_text(data: Seq<Json>, options: RenderOptions, lines: Seq<Seq<char>>) -> Seq<
    char,
> {
    let rows = sorted_filtered(data, options);
    let cols = columns_of(rows);
    let ws = column_widths(rows, cols, options.width);
    if cols.len() == 0 {
        Seq::empty()
    } else {
        join(padded_all(cols, ws), " | "@) + "\n"@ + fill('-', rule_len(ws)) + "\n"@ + line_block(
            lines,
        )
    }
}

pub open spec fn line_block(lines: Seq<Seq<char>>) -> Seq<char>
    decreases lines.len(),
{
    if lines.len() == 0 {
        Seq::empty()
    } else {
        line_block(lines.drop_last()) + lines.last() + "\n"@
    }
}

/// Row `i` of the table as it may print.
pub open spec fn shown_line(data: Seq<Json>, options: RenderOptions, i: int, line: Seq<char>) -> bool {
    let rows = sorted_filtered(data, options);
    let cols = columns_of(rows);
    let ws = column_widths(rows, cols, options.width);
    exists|outs: Seq<Seq<char>>|
        shown_row(outs, cols, row_cells(rows[i], cols, ws), ws, options.color) && line == join(
            outs,
            " | "@,
        )
}

/// Row `i` of the table without colors.
pub open spec fn plain_line(data: Seq<Json>, options: RenderOptions, i: int) -> Seq<char> {
    let rows = sorted_filtered(data, options);
    let cols = columns_of(rows);
    let ws = column_widths(rows, cols, options.width);
    join(padded_all(row_cells(rows[i], cols, ws), ws), " | "@)
}

pub open spec fn plain_table(data: Seq<Json>, options: RenderOptions) -> Seq<char> {
    table_text(
        data,
        options,
        Seq::new(sorted_filtered(data, options).len(), |i: int| plain_line(data, options, i)),
    )
}

fn widths_of(data: &[Json], idx: &Vec<usize>, cols: &Vec<String>, width: Option<usize>) -> (r: Vec<
    usize,
>)
    requires
        indices_in(idx@, data@.len()),
        cols@.len() > 0,
    ensures
        r@ == column_widths(rows_at(data@, idx@), views(cols@), width),
{
    let ghost rows = rows_at(data@, idx@);
    let n = cols.len();
    let cap: Option<usize> = match width {
        Some(w) => Some(
            if w / n > 4 {
                w / n
            } else {
                4
            },
        ),
        None => None,
    };
    assert(cap == width_cap(width, views(cols@).len()));
    let mut ws: Vec<usize> = Vec::new();
    let mut j: usize = 0;
    while j < n
        invariant
            n == cols@.len(),
            indices_in(idx@, data@.len()),
            rows == rows_at(data@, idx@),
            cap == width_cap(width, views(cols@).len()),
            j <= n,
            ws@ == column_widths(rows, views(cols@), width).take(j as int),
        decreases n - j,
    {
        let c = cols[j].as_str();
        let mut natural: usize = c.len();
        let mut k: usize = 0;
        while k < idx.len()
            invariant
                indices_in(idx@, data@.len()),
                rows == rows_at(data@, idx@),
                k <= idx@.len(),
                natural == natural_width(rows.take(k as int), c@),
            decreases idx.len() - k,
        {
            let t = cell_text_of(&data[idx[k]], c);
            let b = t.as_str().len();
            if b > natural {
                natural = b;
            }
            proof {
                assert(rows.take(k + 1).drop_last() =~= rows.take(k as int));
                assert(rows.take(k + 1).last() == data@[idx@[k as int] as int]);
            }
            k = k + 1;
        }
        assert(rows.take(idx@.len() as int) =~= rows);
        let w = match cap {
            Some(k) => if natural < k {
                natural
            } else {
                k
            },
            None => natural,
        };
        ws.push(w);
        assert(ws@ =~= column_widths(rows, views(cols@), width).take(j + 1));
        j = j + 1;
    }
    assert(column_widths(rows, views(cols@), width).take(n as int) =~= column_widths(
        rows,
        views(cols@),
        width,
    ));
    ws
}

proof fn lemma_sum_fits(j: nat, t: nat, w: nat)
    requires
        j < usize::MAX,
        t <= j * (usize::MAX as nat),
        w <= usize::MAX,
    ensures
        t + w <= (j + 1) * (usize::MAX as nat),
        (j + 1) * (usize::MAX as nat) < 0x1_0000_0000_0000_0000_0000_0000_0000_0000,
{
    let m = usize::MAX as nat;
    assert(j * m + m == (j + 1) * m) by (nonlinear_arith);
    assert((j + 1) * m <= 0x1_0000_0000_0000_0000 * m) by (nonlinear_arith)
        requires
            j + 1 <= 0x1_0000_0000_0000_0000,
    ;
    assert(0x1_0000_0000_0000_0000 * m < 0x1_0000_0000_0000_0000_0000_0000_0000_0000) by (nonlinear_arith)
        requires
            m < 0x1_0000_0000_0000_0000,
    ;
}

fn rule(ws: &Vec<usize>) -> (r: String)
    requires
        ws@.len() > 0,
    ensures
        r@ == fill('-', rule_len(ws@)),
{
    let mut t: u128 = 0;
    let mut j: usize = 0;
    while j < ws.len()
        invariant
            j <= ws@.len(),
            t == total(ws@.take(j as int)),
            t <= j * (usize::MAX as nat),
        decreases ws.len() - j,
    {
        assert(ws@.take(j + 1).drop_last() =~= ws@.take(j as int));
        proof {
            lemma_sum_fits(j as nat, t as nat, ws@[j as int] as nat);
        }
        t = t + ws[j] as u128;
        j = j + 1;
    }
    assert(ws@.take(ws@.len() as int) =~= ws@);
    let extra: u128 = 3 * ((ws.len() - 1) as u128);
    let n: usize = match t.checked_add(extra) {
        Some(all) => if all > usize::MAX as u128 {
            usize::MAX
        } else {
            all as usize
        },
        None => usize::MAX,
    };
    repeat_char('-', n)
}

pub struct TableRenderer;

impl TableRenderer {
    pub fn render_table(&self, data: &[Json], options: &RenderOptions) -> (r: String)
        ensures
            exists|lines: Seq<Seq<char>>|
                lines.len() == sorted_filtered(data@, *options).len() && (forall|i: int|
                    0 <= i < lines.len() ==> shown_line(data@, *options, i, #[trigger] lines[i]))
                    && r@ == table_text(data@, *options, lines),
            !options.color ==> r@ == plain_table(data@, *options),
    {
        let idx = sorted_filtered_indices(data, options);
        let ghost rows = rows_at(data@, idx@);
        let cols = columns(data, &idx);
        if cols.len() == 0 {
            let r = String::new();
            proof {
                let lines = Seq::new(rows.len(), |i: int| Seq::<char>::empty());
                assert forall|i: int| 0 <= i < lines.len() implies shown_line(
                    data@,
                    *options,
                    i,
                    #[trigger] lines[i],
                ) by {
                    let outs = Seq::<Seq<char>>::empty();
                    assert(shown_row(
                        outs,
                        columns_of(rows),
                        row_cells(rows[i], columns_of(rows), column_widths(rows, columns_of(rows), options.width)),
                        column_widths(rows, columns_of(rows), options.width),
                        options.color,
                    ));
                    assert(lines[i] == join(outs, " | "@));
                }
                assert(r@ =~= table_text(data@, *options, lines));
            }
            return r;
        }
        let widths = widths_of(data, &idx, &cols, options.width);
        let mut out = format_row(&cols, &widths);
        push_str(&mut out, "\n");
        push_str(&mut out, rule(&widths).as_str());
        push_str(&mut out, "\n");
        let ghost head = out@;
        let ghost mut lines = Seq::<Seq<char>>::empty();
        let mut k: usize = 0;
        assert(head + line_block(lines) =~= head);
        while k < idx.len()
            invariant
                indices_in(idx@, data@.len()),
                rows == rows_at(data@, idx@),
                rows == sorted_filtered(data@, *options),
                views(cols@) == columns_of(rows),
                widths@ == column_widths(rows, views(cols@), options.width),
                k <= idx@.len(),
                lines.len() == k,
                forall|i: int| 0 <= i < k ==> shown_line(data@, *options, i, #[trigger] lines[i]),
                !options.color ==> forall|i: int|
                    0 <= i < k ==> #[trigger] lines[i] == plain_line(data@, *options, i),
                out@ == head + line_block(lines),
            decreases idx.len() - k,
        {
            let row = &data[idx[k]];
            let mut cells: Vec<String> = Vec::new();
            let mut j: usize = 0;
            while j < cols.len()
                invariant
                    widths@.len() == cols@.len(),
                    j <= cols@.len(),
                    views(cells@) == row_cells(*row, views(cols@), widths@).take(j as int),
                decreases cols.len() - j,
            {
                let t = cell_text_of(row, cols[j].as_str());
                let ghost before = views(cells@);
                let tr = truncate(t.as_str(), widths[j]);
                assert(tr@ == row_cells(*row, views(cols@), widths@)[j as int]);
                cells.push(tr);
                assert(views(cells@) =~= before.push(tr@));
                assert(views(cells@) =~= row_cells(*row, views(cols@), widths@).take(j + 1));
                j = j + 1;
            }
            assert(views(cells@) =~= row_cells(*row, views(cols@), widths@));
            assert(rows[k as int] == *row);
            let line = format_colored_row(&cols, &cells, &widths, options.color);
            push_str(&mut out, line.as_str());
            push_str(&mut out, "\n");
            proof {
                let old_lines = lines;
                lines = lines.push(line@);
                assert(lines.drop_last() =~= old_lines);
                assert forall|i: int| 0 <= i < k + 1 implies shown_line(
                    data@,
                    *options,
                    i,
                    #[trigger] lines[i],
                ) by {
                    if i < k {
                        assert(lines[i] == old_lines[i]);
                    }
                }
                if !options.color {
                    assert forall|i: int| 0 <= i < k + 1 implies #[trigger] lines[i] == plain_line(
                        data@,
                        *options,
                        i,
                    ) by {
                        if i < k {
                            assert(lines[i] == old_lines[i]);
                        }
                    }
                }
            }
            k = k + 1;
        }
        proof {
            if !options.color {
                assert(lines =~= Seq::new(rows.len(), |i: int| plain_line(data@, *options, i)));
            }
            assert(out@ == table_text(data@, *options, lines));
        }
        out
    }
}

// ---------------------------------------------------------------------------
// Layout law
// ---------------------------------------------------------------------------

/// The lines of a table without colors: the header, the rule, then one
/// line per record.
pub open spec fn table_lines(data: Seq<Json>, options: RenderOptions) -> Seq<Seq<char>> {
    let rows = sorted_filtered(data, options);
    let cols = columns_of(rows);
    let ws = column_widths(rows, cols, options.width);
    seq![join(padded_all(cols, ws), " | "@), fill('-', rule_len(ws))] + Seq::new(
        rows.len(),
        |i: int| plain_line(data, options, i),
    )
}

/// No column name and no cell text holds a line break.
pub open spec fn single_line_cells(rows: Seq<Json>, cols: Seq<Seq<char>>) -> bool {
    &&& forall|j: int| 0 <= j < cols.len() ==> one_line(#[trigger] cols[j])
    &&& forall|i: int, j: int|
        0 <= i < rows.len() && 0 <= j < cols.len() ==> one_line(#[trigger] cell_text(rows[i], cols[j]))
}

pub proof fn lemma_line_block_append(a: Seq<Seq<char>>, b: Seq<Seq<char>>)
    ensures
        line_block(a + b) == line_block(a) + line_block(b),
    decreases b.len(),
{
    if b.len() == 0 {
        assert(a + b =~= a);
        assert(line_block(a) + line_block(b) =~= line_block(a));
    } else {
        lemma_line_block_append(a, b.drop_last());
        assert((a + b).drop_last() =~= a + b.drop_last());
        assert((a + b).last() == b.last());
    }
}

pub proof fn lemma_one_line_truncated(s: Seq<char>, w: nat)
    requires
        one_line(s),
    ensures
        one_line(truncated(s, w)),
{
    if s.len() > w && w > 0 {
        assert forall|i: int| 0 <= i < truncated(s, w).len() implies truncated(s, w)[i] != '\n' by {
            if i < w - 1 {
                assert(truncated(s, w)[i] == s[i]);
            }
        }
    }
}

/// A table is a header line, a rule of dashes, and one line per record,
/// each ended by a line break. No cell is wider than its column, and with
/// `--width` no column is wider than its share of the width (at least 4
/// characters). When no column name or cell text holds a line break, no
/// line of the table does.
pub proof fn law_table_layout(data: Seq<Json>, options: RenderOptions)
    requires
        columns_of(sorted_filtered(data, options)).len() > 0,
    ensures
        plain_table(data, options) == line_block(table_lines(data, options)),
        table_lines(data, options).len() == sorted_filtered(data, options).len() + 2,
        forall|i: int, j: int|
            0 <= i < sorted_filtered(data, options).len() && 0 <= j < columns_of(
                sorted_filtered(data, options),
            ).len() ==> (#[trigger] row_cells(
                sorted_filtered(data, options)[i],
                columns_of(sorted_filtered(data, options)),
                column_widths(
                    sorted_filtered(data, options),
                    columns_of(sorted_filtered(data, options)),
                    options.width,
                ),
            )[j]).len() <= column_widths(
                sorted_filtered(data, options),
                columns_of(sorted_filtered(data, options)),
                options.width,
            )[j],
        forall|j: int|
            0 <= j < columns_of(sorted_filtered(data, options)).len() ==> #[trigger] column_widths(
                sorted_filtered(data, options),
                columns_of(sorted_filtered(data, options)),
                options.width,
            )[j] as int <= match width_cap(
                options.width,
                columns_of(sorted_filtered(data, options)).len(),
            ) {
                Some(cap) => cap as int,
                None => usize::MAX as int,
            },
        single_line_cells(sorted_filtered(data, options), columns_of(sorted_filtered(data, options)))
            ==> forall|k: int|
            0 <= k < table_lines(data, options).len() ==> one_line(#[trigger] table_lines(data, options)[k]),
{
    let rows = sorted_filtered(data, options);
    let cols = columns_of(rows);
    let ws = column_widths(rows, cols, options.width);
    let lines = table_lines(data, options);
    let head = seq![join(padded_all(cols, ws), " | "@), fill('-', rule_len(ws))];
    let body = Seq::new(rows.len(), |i: int| plain_line(data, options, i));
    lemma_line_block_append(head, body);
    assert(head.drop_last() =~= seq![join(padded_all(cols, ws), " | "@)]);
    assert(seq![join(padded_all(cols, ws), " | "@)].drop_last() =~= Seq::<Seq<char>>::empty());
    assert(line_block(Seq::<Seq<char>>::empty()) == Seq::<char>::empty());
    assert(line_block(seq![join(padded_all(cols, ws), " | "@)]) =~= join(padded_all(cols, ws), " | "@)
        + "\n"@);
    assert(line_block(head) =~= join(padded_all(cols, ws), " | "@) + "\n"@ + fill('-', rule_len(ws))
        + "\n"@);
    assert(lines =~= head + body);
    assert(plain_table(data, options) == table_text(data, options, body));
    assert(line_block(lines) =~= table_text(data, options, body));
    assert forall|i: int, j: int| 0 <= i < rows.len() && 0 <= j < cols.len() implies (
    #[trigger] row_cells(rows[i], cols, ws)[j]).len() <= ws[j] by {
        law_truncated_fits(cell_text(rows[i], cols[j]), ws[j] as nat);
    }
    if single_line_cells(rows, cols) {
        reveal_strlit(" | ");
        assert(one_line(" | "@));
        assert forall|j: int| 0 <= j < padded_all(cols, ws).len() implies one_line(
            #[trigger] padded_all(cols, ws)[j],
        ) by {
            lemma_one_line_pad(cols[j], ws[j] as nat);
        }
        lemma_one_line_join(padded_all(cols, ws), " | "@);
        assert forall|i: int| 0 <= i < rows.len() implies one_line(#[trigger] plain_line(data, options, i)) by {
            let cells = row_cells(rows[i], cols, ws);
            assert forall|j: int| 0 <= j < padded_all(cells, ws).len() implies one_line(
                #[trigger] padded_all(cells, ws)[j],
            ) by {
                lemma_one_line_truncated(cell_text(rows[i], cols[j]), ws[j] as nat);
                lemma_one_line_pad(cells[j], ws[j] as nat);
            }
            lemma_one_line_join(padded_all(cells, ws), " | "@);
        }
        assert forall|k: int| 0 <= k < lines.len() implies one_line(#[trigger] lines[k]) by {
            if k >= 2 {
                assert(lines[k] == plain_line(data, options, k - 2));
            }
        }
    }
}

/// The lines of a table whose record lines show as `lines`: the header,
/// the rule, then `lines`.
pub open spec fn table_lines_with(data: Seq<Json>, options: RenderOptions, lines: Seq<Seq<char>>) -> Seq<
    Seq<char>,
> {
    let rows = sorted_filtered(data, options);
    let cols = columns_of(rows);
    let ws = column_widths(rows, cols, options.width);
    seq![join(padded_all(cols, ws), " | "@), fill('-', rule_len(ws))] + lines
}

/// The same layout holds with color on, whichever form the terminal
/// painter gives each status cell: a header line, a rule of dashes, and
/// one line per record, each ended by a line break; painting adds no line
/// and no line break.
pub proof fn law_colored_table_layout(
    data: Seq<Json>,
    options: RenderOptions,
    lines: Seq<Seq<char>>,
)
    requires
        columns_of(sorted_filtered(data, options)).len() > 0,
        lines.len() == sorted_filtered(data, options).len(),
        forall|i: int| 0 <= i < lines.len() ==> shown_line(data, options, i, #[trigger] lines[i]),
    ensures
        table_text(data, options, lines) == line_block(table_lines_with(data, options, lines)),
        table_lines_with(data, options, lines).len() == sorted_filtered(data, options).len() + 2,
        table_lines_with(data, options, lines)[1] == fill(
            '-',
            rule_len(
                column_widths(
                    sorted_filtered(data, options),
                    columns_of(sorted_filtered(data, options)),
                    options.width,
                ),
            ),
        ),
        single_line_cells(sorted_filtered(data, options), columns_of(sorted_filtered(data, options)))
            ==> forall|k: int|
            0 <= k < table_lines_with(data, options, lines).len() ==> one_line(
                #[trigger] table_lines_with(data, options, lines)[k],
            ),
{
    let rows = sorted_filtered(data, options);
    let cols = columns_of(rows);
    let ws = column_widths(rows, cols, options.width);
    let all = table_lines_with(data, options, lines);
    let head = seq![join(padded_all(cols, ws), " | "@), fill('-', rule_len(ws))];
    lemma_line_block_append(head, lines);
    assert(head.drop_last() =~= seq![join(padded_all(cols, ws), " | "@)]);
    assert(seq![join(padded_all(cols, ws), " | "@)].drop_last() =~= Seq::<Seq<char>>::empty());
    assert(line_block(Seq::<Seq<char>>::empty()) == Seq::<char>::empty());
    assert(line_block(seq![join(padded_all(cols, ws), " | "@)]) =~= join(padded_all(cols, ws), " | "@)
        + "\n"@);
    assert(line_block(head) =~= join(padded_all(cols, ws), " | "@) + "\n"@ + fill('-', rule_len(ws))
        + "\n"@);
    assert(all =~= head + lines);
    assert(line_block(all) =~= table_text(data, options, lines));
    if single_line_cells(rows, cols) {
        reveal_strlit(" | ");
        assert(one_line(" | "@));
        assert forall|j: int| 0 <= j < padded_all(cols, ws).len() implies one_line(
            #[trigger] padded_all(cols, ws)[j],
        ) by {
            lemma_one_line_pad(cols[j], ws[j] as nat);
        }
        lemma_one_line_join(padded_all(cols, ws), " | "@);
        assert forall|i: int| 0 <= i < lines.len() implies one_line(#[trigger] lines[i]) by {
            assert(shown_line(data, options, i, lines[i]));
            let cells = row_cells(rows[i], cols, ws);
            let outs = choose|outs: Seq<Seq<char>>|
                shown_row(outs, cols, cells, ws, options.color) && lines[i] == join(outs, " | "@);
            assert forall|j: int| 0 <= j < outs.len() implies one_line(#[trigger] outs[j]) by {
                lemma_one_line_truncated(cell_text(rows[i], cols[j]), ws[j] as nat);
                lemma_one_line_pad(cells[j], ws[j] as nat);
                assert(shown_cell(outs[j], cols[j], cells[j], ws[j] as nat, options.color));
                match status_color(cols[j], cells[j]) {
                    Some(c) => {
                        if options.color {
                            lemma_painted_one_line(outs[j], pad_right(cells[j], ws[j] as nat), c);
                        }
                    },
                    None => {},
                }
            }
            lemma_one_line_join(outs, " | "@);
        }
        assert forall|k: int| 0 <= k < all.len() implies one_line(#[trigger] all[k]) by {
            if k >= 2 {
                assert(all[k] == lines[k - 2]);
            }
        }
    }
}

impl Renderer for TableRenderer {
    fn render(&self, data: &[Json], options: &RenderOptions) -> (r: String)
        ensures
            exists|lines: Seq<Seq<char>>|
                lines.len() == sorted_filtered(data@, *options).len() && (forall|i: int|
                    0 <= i < lines.len() ==> shown_line(data@, *options, i, #[trigger] lines[i]))
                    && r@ == table_text(data@, *options, lines),
            !options.color ==> r@ == plain_table(data@, *options),
    {
        self.render_table(data, options)
    }
}

} // verus!
