//! `chart` mode: the records reduced to a series of `(label, value)`
//! points, drawn as a bar, line or pie chart.
//!
//! The value field is guessed from the first record: a preferred name
//! (value, usage, count, temperature) holding a number, else the first
//! field holding a number. The label field likewise: name, label,
//! interface, hostname or timestamp holding a string, else the first string
//! field.
//!
//! Scaling the points (how many cells a bar fills, which step of the
//! sparkline a value takes, how much of the pie a slice gets) and printing
//! their values is floating-point arithmetic done elsewhere; the charts are
//! laid out here from those integers and texts.
use vstd::prelude::*;
use crate::json::{Field, Json, JsonNumber, json_get};
use crate::render::rows::{RenderOptions, indices_in, rows_at, sorted_filtered,
    sorted_filtered_indices};
use crate::term::{TermColor, paint, painted};
use crate::text::{concat, char_count, decimal, fill, owned, pad_left, pad_right, padded, padded_left,
    push_char, push_str, repeat_char, usize_text, views};

verus! {

#[derive(Clone, Copy, Debug, PartialEq, Eq, Structural)]
pub enum ChartType {
    Bar,
    Line,
    Pie,
}

pub struct ChartRenderer {
    pub chart_type: ChartType,
}

pub open spec fn label_fields() -> Seq<Seq<char>> {
    seq!["name"@, "label"@, "interface"@, "hostname"@, "timestamp"@]
}

pub open spec fn value_fields() -> Seq<Seq<char>> {
    seq!["value"@, "usage"@, "count"@, "temperature"@]
}

/// A value the field search accepts: a number, or a string.
pub open spec fn accepts(v: Json, numbers: bool) -> bool {
    if numbers {
        v is Number
    } else {
        v is Str
    }
}

/// The first preferred name whose field is accepted.
pub open spec fn preferred_match(row: Json, preferred: Seq<Seq<char>>, numbers: bool) -> Option<
    Seq<char>,
>
    decreases preferred.len(),
{
    if preferred.len() == 0 {
        None
    } else {
        match json_get(row, preferred[0]) {
            Some(v) if accepts(v, numbers) => Some(preferred[0]),
            _ => preferred_match(row, preferred.drop_first(), numbers),
        }
    }
}

/// The name of the first field whose value is accepted.
pub open spec fn first_match(fields: Seq<Field>, numbers: bool) -> Option<Seq<char>>
    decreases fields.len(),
{
    if fields.len() == 0 {
        None
    } else if accepts(fields[0].value, numbers) {
        Some(fields[0].key@)
    } else {
        first_match(fields.drop_first(), numbers)
    }
}

/// A preferred field that is accepted, else the first field that is.
pub open spec fn pick_matching(row: Json, preferred: Seq<Seq<char>>, numbers: bool) -> Option<
    Seq<char>,
> {
    match preferred_match(row, preferred, numbers) {
        Some(f) => Some(f),
        None => match row {
            Json::Object { fields, .. } => first_match(fields@, numbers),
            _ => None,
        },
    }
}

/// The point of one record: its label and number, if it has a number in
/// the value field.
pub open spec fn point(row: Json, index: int, value_field: Seq<char>, label_field: Option<Seq<char>>) -> Option<
    (Seq<char>, JsonNumber),
> {
    match json_get(row, value_field) {
        Some(Json::Number(n)) => {
            let label = match label_field {
                Some(l) => match json_get(row, l) {
                    Some(Json::Str(s)) => s@,
                    _ => "#"@ + decimal((index + 1) as nat),
                },
                None => "#"@ + decimal((index + 1) as nat),
            };
            Some((label, n))
        },
        _ => None,
    }
}

pub open spec fn points(
    rows: Seq<Json>,
    value_field: Seq<char>,
    label_field: Option<Seq<char>>,
    k: nat,
) -> Seq<(Seq<char>, JsonNumber)>
    decreases k,
{
    if k == 0 {
        Seq::empty()
    } else {
        let r = points(rows, value_field, label_field, (k - 1) as nat);
        match point(rows[k - 1], k - 1, value_field, label_field) {
            Some(p) => r.push(p),
            None => r,
        }
    }
}

/// The series of the records: nothing unless the first record is an object
/// with a numeric field.
pub open spec fn series_of(rows: Seq<Json>) -> Seq<(Seq<char>, JsonNumber)> {
    if rows.len() == 0 || !(rows[0] is Object) {
        Seq::empty()
    } else {
        match pick_matching(rows[0], value_fields(), true) {
            Some(vf) => points(rows, vf, pick_matching(rows[0], label_fields(), false), rows.len()),
            None => Seq::empty(),
        }
    }
}

/// The chart width: `--width` (default 50), at least 20.
pub open spec fn chart_width_of(width: Option<usize>) -> usize {
    let w = match width {
        Some(w) => w,
        None => 50,
    };
    if w > 20 {
        w
    } else {
        20
    }
}

// ---------------------------------------------------------------------------
// Executable parts
// ---------------------------------------------------------------------------

fn accepted(v: &Json, numbers: bool) -> (r: bool)
    ensures
        r == accepts(*v, numbers),
{
    if numbers {
        v.is_number()
    } else {
        v.is_string()
    }
}

fn pick_matching_of(row: &Json, preferred: &Vec<&str>, numbers: bool) -> (r: Option<String>)
    ensures
        crate::text::opt_seq(r) == pick_matching(
            *row,
            Seq::new(preferred@.len(), |i: int| preferred@[i]@),
            numbers,
        ),
{
    let ghost all = Seq::new(preferred@.len(), |i: int| preferred@[i]@);
    assert(all.skip(0) =~= all);
    let mut i: usize = 0;
    while i < preferred.len()
        invariant
            i <= preferred@.len(),
            all == Seq::new(preferred@.len(), |i: int| preferred@[i]@),
            preferred_match(*row, all, numbers) == preferred_match(
                *row,
                all.skip(i as int),
                numbers,
            ),
        decreases preferred.len() - i,
    {
        assert(all.skip(i as int)[0] == preferred@[i as int]@);
        assert(all.skip(i as int).drop_first() =~= all.skip(i + 1));
        match row.get(preferred[i]) {
            Some(v) => {
                if accepted(v, numbers) {
                    return Some(owned(preferred[i]));
                }
            },
            None => {},
        }
        i = i + 1;
    }
    assert(all.skip(i as int).len() == 0);
    match row {
        Json::Object { fields, .. } => {
            let mut k: usize = 0;
            assert(fields@.skip(0) =~= fields@);
            assert(pick_matching(*row, all, numbers) == first_match(fields@, numbers));
            while k < fields.len()
                invariant
                    k <= fields@.len(),
                    all == Seq::new(preferred@.len(), |i: int| preferred@[i]@),
                    pick_matching(*row, all, numbers) == first_match(fields@, numbers),
                    first_match(fields@, numbers) == first_match(fields@.skip(k as int), numbers),
                decreases fields.len() - k,
            {
                assert(fields@.skip(k as int)[0] == fields@[k as int]);
                assert(fields@.skip(k as int).drop_first() =~= fields@.skip(k + 1));
                if accepted(&fields[k].value, numbers) {
                    return Some(owned(fields[k].key.as_str()));
                }
                k = k + 1;
            }
            None
        },
        _ => None,
    }
}

/// The field `name` of `row` holds a value the search accepts.
pub open spec fn holds_accepted(row: Json, name: Seq<char>, numbers: bool) -> bool {
    json_get(row, name) is Some && accepts(json_get(row, name)->Some_0, numbers)
}

proof fn lemma_preferred_at(row: Json, preferred: Seq<Seq<char>>, numbers: bool, i: int)
    requires
        0 <= i < preferred.len(),
        holds_accepted(row, preferred[i], numbers),
        forall|j: int| 0 <= j < i ==> !holds_accepted(row, #[trigger] preferred[j], numbers),
    ensures
        preferred_match(row, preferred, numbers) == Some(preferred[i]),
    decreases i,
{
    if i > 0 {
        assert(!holds_accepted(row, preferred[0], numbers));
        let rest = preferred.drop_first();
        assert forall|j: int| 0 <= j < i - 1 implies !holds_accepted(row, #[trigger] rest[j], numbers) by {
            assert(rest[j] == preferred[j + 1]);
        }
        lemma_preferred_at(row, rest, numbers, i - 1);
    }
}

proof fn lemma_preferred_none(row: Json, preferred: Seq<Seq<char>>, numbers: bool)
    requires
        forall|j: int| 0 <= j < preferred.len() ==> !holds_accepted(row, #[trigger] preferred[j], numbers),
    ensures
        preferred_match(row, preferred, numbers) is None,
    decreases preferred.len(),
{
    if preferred.len() > 0 {
        assert(!holds_accepted(row, preferred[0], numbers));
        let rest = preferred.drop_first();
        assert forall|j: int| 0 <= j < rest.len() implies !holds_accepted(row, #[trigger] rest[j], numbers) by {
            assert(rest[j] == preferred[j + 1]);
        }
        lemma_preferred_none(row, rest, numbers);
    }
}

proof fn lemma_first_at(fields: Seq<Field>, numbers: bool, j: int)
    requires
        0 <= j < fields.len(),
        accepts(fields[j].value, numbers),
        forall|l: int| 0 <= l < j ==> !accepts(#[trigger] fields[l].value, numbers),
    ensures
        first_match(fields, numbers) == Some(fields[j].key@),
    decreases j,
{
    if j > 0 {
        assert(!accepts(fields[0].value, numbers));
        let rest = fields.drop_first();
        assert forall|l: int| 0 <= l < j - 1 implies !accepts(#[trigger] rest[l].value, numbers) by {
            assert(rest[l] == fields[l + 1]);
        }
        lemma_first_at(rest, numbers, j - 1);
    }
}

proof fn lemma_first_none(fields: Seq<Field>, numbers: bool)
    requires
        forall|l: int| 0 <= l < fields.len() ==> !accepts(#[trigger] fields[l].value, numbers),
    ensures
        first_match(fields, numbers) is None,
    decreases fields.len(),
{
    if fields.len() > 0 {
        let rest = fields.drop_first();
        assert forall|l: int| 0 <= l < rest.len() implies !accepts(#[trigger] rest[l].value, numbers) by {
            assert(rest[l] == fields[l + 1]);
        }
        lemma_first_none(rest, numbers);
    }
}

/// A preferred name wins: where the row holds an accepted value under one
/// of the preferred names, the pick is the first such name in the
/// preferred order, whatever fields come before it in the row.
pub proof fn law_preferred_field_wins(row: Json, preferred: Seq<Seq<char>>, numbers: bool, i: int)
    requires
        0 <= i < preferred.len(),
        holds_accepted(row, preferred[i], numbers),
        forall|j: int| 0 <= j < i ==> !holds_accepted(row, #[trigger] preferred[j], numbers),
    ensures
        pick_matching(row, preferred, numbers) == Some(preferred[i]),
{
    lemma_preferred_at(row, preferred, numbers, i);
}

/// Only where no preferred name holds an accepted value does the pick fall
/// back to the row's own order: the key of its first field with an
/// accepted value, or nothing when it has none or is no object.
pub proof fn law_fallback_to_first_field(row: Json, preferred: Seq<Seq<char>>, numbers: bool)
    requires
        forall|j: int| 0 <= j < preferred.len() ==> !holds_accepted(row, #[trigger] preferred[j], numbers),
    ensures
        match row {
            Json::Object { fields, .. } => (forall|j: int|
                0 <= j < fields@.len() && accepts(fields@[j].value, numbers) && (forall|l: int|
                    0 <= l < j ==> !accepts(#[trigger] fields@[l].value, numbers))
                    ==> pick_matching(row, preferred, numbers) == Some(fields@[j].key@))
                && ((forall|l: int| 0 <= l < fields@.len() ==> !accepts(#[trigger] fields@[l].value, numbers))
                    ==> pick_matching(row, preferred, numbers) is None),
            _ => pick_matching(row, preferred, numbers) is None,
        },
{
    lemma_preferred_none(row, preferred, numbers);
    match row {
        Json::Object { fields, .. } => {
            assert forall|j: int|
                0 <= j < fields@.len() && accepts(fields@[j].value, numbers) && (forall|l: int|
                    0 <= l < j ==> !accepts(#[trigger] fields@[l].value, numbers))
                implies pick_matching(row, preferred, numbers) == Some(fields@[j].key@) by {
                lemma_first_at(fields@, numbers, j);
            }
            if forall|l: int| 0 <= l < fields@.len() ==> !accepts(#[trigger] fields@[l].value, numbers) {
                lemma_first_none(fields@, numbers);
            }
        },
        _ => {},
    }
}

/// The series plots the first of value, usage, count, temperature that the
/// first record holds as a number, whatever numeric fields come before it.
pub proof fn law_series_plots_preferred_value(rows: Seq<Json>, i: int)
    requires
        rows.len() > 0,
        rows[0] is Object,
        0 <= i < value_fields().len(),
        holds_accepted(rows[0], value_fields()[i], true),
        forall|j: int| 0 <= j < i ==> !holds_accepted(rows[0], #[trigger] value_fields()[j], true),
    ensures
        series_of(rows) == points(
            rows,
            value_fields()[i],
            pick_matching(rows[0], label_fields(), false),
            rows.len(),
        ),
{
    lemma_preferred_at(rows[0], value_fields(), true, i);
}

/// The points are labelled from the first of name, label, interface,
/// hostname, timestamp that the first record holds as a string, whatever
/// string fields come before it.
pub proof fn law_series_labels_from_preferred_label(rows: Seq<Json>, i: int)
    requires
        0 <= i < label_fields().len(),
        rows.len() > 0,
        holds_accepted(rows[0], label_fields()[i], false),
        forall|j: int| 0 <= j < i ==> !holds_accepted(rows[0], #[trigger] label_fields()[j], false),
    ensures
        pick_matching(rows[0], label_fields(), false) == Some(label_fields()[i]),
{
    lemma_preferred_at(rows[0], label_fields(), false, i);
}

/// The series of the records at `idx` (see `series_of`).
fn series_at<'a>(data: &'a [Json], idx: &Vec<usize>) -> (r: Vec<(String, &'a JsonNumber)>)
    requires
        indices_in(idx@, data@.len()),
    ensures
        r@.len() == series_of(rows_at(data@, idx@)).len(),
        forall|i: int|
            0 <= i < r@.len() ==> (#[trigger] r@[i]).0@ == series_of(rows_at(data@, idx@))[i].0
                && *r@[i].1 == series_of(rows_at(data@, idx@))[i].1,
{
    let ghost rows = rows_at(data@, idx@);
    let mut r: Vec<(String, &JsonNumber)> = Vec::new();
    if idx.len() == 0 || !data[idx[0]].is_object() {
        return r;
    }
    let first = &data[idx[0]];
    assert(rows[0] == *first);
    let value_field = match pick_matching_of(
        first,
        &vec!["value", "usage", "count", "temperature"],
        true,
    ) {
        Some(f) => f,
        None => {
            proof {
                assert(Seq::new(4, |i: int| seq!["value", "usage", "count", "temperature"][i]@)
                    =~= value_fields());
            }
            return r;
        },
    };
    let label_field = pick_matching_of(
        first,
        &vec!["name", "label", "interface", "hostname", "timestamp"],
        false,
    );
    proof {
        assert(Seq::new(4, |i: int| seq!["value", "usage", "count", "temperature"][i]@)
            =~= value_fields());
        assert(Seq::new(5, |i: int| seq!["name", "label", "interface", "hostname", "timestamp"][i]@)
            =~= label_fields());
    }
    let ghost vf = value_field@;
    let ghost lf = crate::text::opt_seq(label_field);
    assert(series_of(rows) == points(rows, vf, lf, rows.len()));
    let mut i: usize = 0;
    while i < idx.len()
        invariant
            i <= idx@.len(),
            indices_in(idx@, data@.len()),
            rows == rows_at(data@, idx@),
            vf == value_field@,
            lf == crate::text::opt_seq(label_field),
            r@.len() == points(rows, vf, lf, i as nat).len(),
            forall|q: int|
                0 <= q < r@.len() ==> (#[trigger] r@[q]).0@ == points(rows, vf, lf, i as nat)[q].0
                    && *r@[q].1 == points(rows, vf, lf, i as nat)[q].1,
        decreases idx.len() - i,
    {
        let row = &data[idx[i]];
        assert(rows[i as int] == *row);
        match row.get(value_field.as_str()) {
            Some(Json::Number(n)) => {
                let label = match &label_field {
                    Some(l) => match row.get(l.as_str()) {
                        Some(Json::Str(s)) => owned(s.as_str()),
                        _ => index_label(i),
                    },
                    None => index_label(i),
                };
                r.push((label, n));
            },
            _ => {},
        }
        i = i + 1;
    }
    r
}

/// `#n` for the record at 0-based position `i`.
fn index_label(i: usize) -> (r: String)
    requires
        i < usize::MAX,
    ensures
        r@ == "#"@ + decimal((i + 1) as nat),
{
    let mut r = owned("#");
    let n = usize_text(i + 1);
    push_str(&mut r, n.as_str());
    r
}

/// Reduces each record to a `(label, value)` point (see `series_of`).
pub fn extract_series<'a>(rows: &'a [Json]) -> (r: Vec<(String, &'a JsonNumber)>)
    ensures
        r@.len() == series_of(rows@).len(),
        forall|i: int|
            0 <= i < r@.len() ==> (#[trigger] r@[i]).0@ == series_of(rows@)[i].0 && *r@[i].1
                == series_of(rows@)[i].1,
{
    let mut idx: Vec<usize> = Vec::new();
    let mut i: usize = 0;
    while i < rows.len()
        invariant
            i <= rows@.len(),
            idx@ == Seq::new(i as nat, |k: int| k as usize),
        decreases rows.len() - i,
    {
        idx.push(i);
        i = i + 1;
        assert(idx@ =~= Seq::new(i as nat, |k: int| k as usize));
    }
    assert(rows_at(rows@, idx@) =~= rows@);
    series_at(rows, &idx)
}

impl ChartRenderer {
    /// The series of the records shown.
    pub fn series<'a>(&self, data: &'a [Json], options: &RenderOptions) -> (r: Vec<
        (String, &'a JsonNumber),
    >)
        ensures
            r@.len() == series_of(sorted_filtered(data@, *options)).len(),
            forall|i: int|
                0 <= i < r@.len() ==> (#[trigger] r@[i]).0@ == series_of(
                    sorted_filtered(data@, *options),
                )[i].0 && *r@[i].1 == series_of(sorted_filtered(data@, *options))[i].1,
    {
        let idx = sorted_filtered_indices(data, options);
        series_at(data, &idx)
    }

    /// The width the chart is drawn to (see `chart_width_of`).
    pub fn chart_width(&self, options: &RenderOptions) -> (r: usize)
        ensures
            r == chart_width_of(options.width),
    {
        let w = match options.width {
            Some(w) => w,
            None => 50,
        };
        if w > 20 {
            w
        } else {
            20
        }
    }
}

// ---------------------------------------------------------------------------
// Bar chart
// ---------------------------------------------------------------------------

/// One bar: how many cells it fills, and its value printed with two decimals.
pub struct BarPoint {
    pub filled: usize,
    pub value: String,
}

/// The widest label.
pub open spec fn label_width(labels: Seq<Seq<char>>) -> nat
    decreases labels.len(),
{
    if labels.len() == 0 {
        0
    } else {
        let w = label_width(labels.drop_last());
        if labels.last().len() > w {
            labels.last().len()
        } else {
            w
        }
    }
}

/// The cells of a bar: what the labels and the value column leave of the
/// width, at least ten.
pub open spec fn bar_cells(labels: Seq<Seq<char>>, width: usize) -> nat {
    let used = label_width(labels) + 12;
    let rest: nat = if width >= used {
        (width - used) as nat
    } else {
        0
    };
    if rest > 10 {
        rest
    } else {
        10
    }
}

pub open spec fn bar_shown(display: Seq<char>, filled: nat, color: bool) -> bool {
    if color {
        painted(display, fill('█', filled), TermColor::Cyan)
    } else {
        display == fill('█', filled)
    }
}

/// `label | ████░░░░ value`, the label padded to the widest, the value
/// right-aligned in eight columns.
pub open spec fn bar_line(label: Seq<char>, lw: nat, bar: Seq<char>, filled: nat, cells: nat, value: Seq<
    char,
>) -> Seq<char> {
    pad_right(label, lw) + " | "@ + bar + fill('░', (cells - filled) as nat) + " "@ + pad_left(
        value,
        8,
    ) + "\n"@
}

pub open spec fn bar_lines(
    labels: Seq<Seq<char>>,
    points: Seq<BarPoint>,
    cells: nat,
    bars: Seq<Seq<char>>,
    k: nat,
) -> Seq<char>
    decreases k,
{
    if k == 0 {
        Seq::empty()
    } else {
        bar_lines(labels, points, cells, bars, (k - 1) as nat) + bar_line(
            labels[k - 1],
            label_width(labels),
            bars[k - 1],
            points[k - 1].filled as nat,
            cells,
            points[k - 1].value@,
        )
    }
}

/// The bar chart, given how each bar shows.
pub open spec fn bar_chart_text(
    labels: Seq<Seq<char>>,
    points: Seq<BarPoint>,
    width: usize,
    bars: Seq<Seq<char>>,
) -> Seq<char> {
    bar_lines(labels, points, bar_cells(labels, width), bars, labels.len())
}

fn widest(labels: &Vec<String>) -> (r: usize)
    ensures
        r == label_width(views(labels@)),
{
    let mut w: usize = 0;
    let mut i: usize = 0;
    while i < labels.len()
        invariant
            i <= labels@.len(),
            w == label_width(views(labels@).take(i as int)),
        decreases labels.len() - i,
    {
        proof {
            let vs = views(labels@);
            assert(vs.take(i + 1).drop_last() =~= vs.take(i as int));
            assert(vs.take(i + 1).last() == labels@[i as int]@);
        }
        let n = char_count(labels[i].as_str());
        if n > w {
            w = n;
        }
        i = i + 1;
    }
    assert(views(labels@).take(labels@.len() as int) =~= views(labels@));
    w
}

/// The cells of a bar (see `bar_cells`).
pub fn bar_width(labels: &Vec<String>, width: usize) -> (r: usize)
    ensures
        r == bar_cells(views(labels@), width),
{
    let rest = width.saturating_sub(widest(labels).saturating_add(12));
    if rest > 10 {
        rest
    } else {
        10
    }
}

/// Draws a bar chart: one line per point.
pub fn bar_chart(labels: &Vec<String>, points: &Vec<BarPoint>, width: usize, color: bool) -> (r:
    String)
    requires
        points@.len() == labels@.len(),
        forall|i: int|
            0 <= i < points@.len() ==> #[trigger] points@[i].filled <= bar_cells(
                views(labels@),
                width,
            ),
    ensures
        exists|bars: Seq<Seq<char>>|
            bars.len() == labels@.len() && (forall|i: int|
                0 <= i < bars.len() ==> bar_shown(
                    #[trigger] bars[i],
                    points@[i].filled as nat,
                    color,
                )) && r@ == bar_chart_text(views(labels@), points@, width, bars),
{
    let lw = widest(labels);
    let cells = bar_width(labels, width);
    let mut out = String::new();
    let ghost mut bars = Seq::<Seq<char>>::empty();
    let mut i: usize = 0;
    while i < labels.len()
        invariant
            i <= labels@.len(),
            points@.len() == labels@.len(),
            lw == label_width(views(labels@)),
            cells == bar_cells(views(labels@), width),
            forall|q: int| 0 <= q < points@.len() ==> #[trigger] points@[q].filled <= cells,
            bars.len() == i,
            forall|q: int| 0 <= q < i ==> bar_shown(#[trigger] bars[q], points@[q].filled as nat, color),
            out@ == bar_lines(views(labels@), points@, cells as nat, bars, i as nat),
        decreases labels.len() - i,
    {
        let filled = points[i].filled;
        let ghost before = out@;
        let label = padded(labels[i].as_str(), lw);
        push_str(&mut out, label.as_str());
        push_str(&mut out, " | ");
        let full = repeat_char('█', filled);
        let bar = if color {
            paint(full.as_str(), TermColor::Cyan)
        } else {
            full
        };
        push_str(&mut out, bar.as_str());
        let rest = repeat_char('░', cells - filled);
        push_str(&mut out, rest.as_str());
        push_str(&mut out, " ");
        let value = padded_left(points[i].value.as_str(), 8);
        push_str(&mut out, value.as_str());
        push_str(&mut out, "\n");
        proof {
            let old_bars = bars;
            bars = bars.push(bar@);
            lemma_bar_lines_stable(views(labels@), points@, cells as nat, old_bars, bars, i as nat);
            assert(out@ =~= bar_lines(views(labels@), points@, cells as nat, bars, (i + 1) as nat));
            assert forall|q: int| 0 <= q < i + 1 implies bar_shown(
                #[trigger] bars[q],
                points@[q].filled as nat,
                color,
            ) by {
                if q < i {
                    assert(bars[q] == old_bars[q]);
                }
            }
        }
        i = i + 1;
    }
    assert(out@ == bar_chart_text(views(labels@), points@, width, bars));
    out
}

proof fn lemma_bar_lines_stable(
    labels: Seq<Seq<char>>,
    points: Seq<BarPoint>,
    cells: nat,
    a: Seq<Seq<char>>,
    b: Seq<Seq<char>>,
    k: nat,
)
    requires
        k <= a.len(),
        k <= b.len(),
        forall|q: int| 0 <= q < k ==> a[q] == b[q],
    ensures
        bar_lines(labels, points, cells, a, k) == bar_lines(labels, points, cells, b, k),
    decreases k,
{
    if k > 0 {
        lemma_bar_lines_stable(labels, points, cells, a, b, (k - 1) as nat);
    }
}

// ---------------------------------------------------------------------------
// Line chart
// ---------------------------------------------------------------------------

/// The eight steps of a sparkline, lowest first.
pub open spec fn spark_steps() -> Seq<char> {
    seq!['▁', '▂', '▃', '▄', '▅', '▆', '▇', '█']
}

pub open spec fn sparkline(levels: Seq<usize>) -> Seq<char> {
    Seq::new(levels.len(), |i: int| spark_steps()[levels[i] as int])
}

pub open spec fn spark_shown(display: Seq<char>, levels: Seq<usize>, color: bool) -> bool {
    if color {
        painted(display, sparkline(levels), TermColor::Cyan)
    } else {
        display == sparkline(levels)
    }
}

/// The sparkline, then the first label, the range and the last label.
pub open spec fn line_chart_text(
    labels: Seq<Seq<char>>,
    min: Seq<char>,
    max: Seq<char>,
    spark: Seq<char>,
) -> Seq<char> {
    let first = if labels.len() > 0 {
        labels[0]
    } else {
        Seq::empty()
    };
    let last = if labels.len() > 0 {
        labels.last()
    } else {
        Seq::empty()
    };
    spark + "\n"@ + pad_right(first, 20) + " min "@ + min + "   max "@ + max + "   "@ + pad_left(
        last,
        20,
    ) + "\n"@
}

/// Draws a sparkline of the points at the given steps (0 to 7), with the
/// range printed beneath.
pub fn line_chart(labels: &Vec<String>, levels: &Vec<usize>, min: &str, max: &str, color: bool) -> (r:
    String)
    requires
        forall|i: int| 0 <= i < levels@.len() ==> #[trigger] levels@[i] < 8,
    ensures
        exists|spark: Seq<char>|
            spark_shown(spark, levels@, color) && r@ == line_chart_text(
                views(labels@),
                min@,
                max@,
                spark,
            ),
{
    let steps = vec!['▁', '▂', '▃', '▄', '▅', '▆', '▇', '█'];
    let mut plain = String::new();
    let mut i: usize = 0;
    while i < levels.len()
        invariant
            i <= levels@.len(),
            steps@ == spark_steps(),
            forall|q: int| 0 <= q < levels@.len() ==> #[trigger] levels@[q] < 8,
            plain@ == sparkline(levels@.take(i as int)),
        decreases levels.len() - i,
    {
        push_char(&mut plain, steps[levels[i]]);
        i = i + 1;
        assert(plain@ =~= sparkline(levels@.take(i as int)));
    }
    assert(levels@.take(levels@.len() as int) =~= levels@);
    let spark = if color {
        paint(plain.as_str(), TermColor::Cyan)
    } else {
        plain
    };
    let mut out = String::new();
    push_str(&mut out, spark.as_str());
    push_str(&mut out, "\n");
    let none = String::new();
    let first = if labels.len() > 0 {
        padded(labels[0].as_str(), 20)
    } else {
        padded(none.as_str(), 20)
    };
    push_str(&mut out, first.as_str());
    push_str(&mut out, " min ");
    push_str(&mut out, min);
    push_str(&mut out, "   max ");
    push_str(&mut out, max);
    push_str(&mut out, "   ");
    let last = if labels.len() > 0 {
        padded_left(labels[labels.len() - 1].as_str(), 20)
    } else {
        padded_left(none.as_str(), 20)
    };
    push_str(&mut out, last.as_str());
    push_str(&mut out, "\n");
    proof {
        let vs = views(labels@);
        if labels@.len() > 0 {
            assert(vs.last() == labels@[labels@.len() - 1]@);
        }
        assert(out@ =~= line_chart_text(vs, min@, max@, spark@));
        assert(spark_shown(spark@, levels@, color));
    }
    out
}

// ---------------------------------------------------------------------------
// Pie chart
// ---------------------------------------------------------------------------

/// The fill of slice `i`: six glyphs in turn, so slices stay apart
/// without color.
pub open spec fn glyph(i: nat) -> char {
    seq!['█', '▓', '▒', '░', '▞', '▚'][(i % 6) as int]
}

/// The color of slice `i`: six colors in turn.
pub open spec fn swatch(i: nat) -> TermColor {
    seq![
        TermColor::Cyan,
        TermColor::Magenta,
        TermColor::Yellow,
        TermColor::Green,
        TermColor::Blue,
        TermColor::Red,
    ][(i % 6) as int]
}

/// The pie's width: the chart width, at most sixty cells.
pub open spec fn pie_cells(width: usize) -> nat {
    if width < 60 {
        width as nat
    } else {
        60
    }
}

/// Cells taken by the first `k` slices: each gets what it asks for while
/// cells remain.
pub open spec fn cells_used(asked: Seq<usize>, cells: nat, k: nat) -> nat
    decreases k,
{
    if k == 0 {
        0
    } else {
        let u = cells_used(asked, cells, (k - 1) as nat) + asked[k - 1];
        if u < cells {
            u as nat
        } else {
            cells
        }
    }
}

/// The cells slice `i` gets: what it asks, or what is left.
pub open spec fn slice_cells(asked: Seq<usize>, cells: nat, i: nat) -> nat {
    (cells_used(asked, cells, i + 1) - cells_used(asked, cells, i)) as nat
}

pub open spec fn paint_shown(display: Seq<char>, text: Seq<char>, color: Option<TermColor>) -> bool {
    match color {
        Some(c) => painted(display, text, c),
        None => display == text,
    }
}

pub open spec fn slice_color(i: nat, color: bool) -> Option<TermColor> {
    if color {
        Some(swatch(i))
    } else {
        None
    }
}


pub open spec fn legend(
    labels: Seq<Seq<char>>,
    percents: Seq<String>,
    markers: Seq<Seq<char>>,
    k: nat,
) -> Seq<char>
    decreases k,
{
    if k == 0 {
        Seq::empty()
    } else {
        legend(labels, percents, markers, (k - 1) as nat) + markers[k - 1] + " "@ + labels[k - 1]
            + ": "@ + percents[k - 1]@ + "%\n"@
    }
}

/// `[bar]` then the legend, given how each slice's block and marker show.
pub open spec fn pie_chart_text(
    labels: Seq<Seq<char>>,
    asked: Seq<usize>,
    percents: Seq<String>,
    width: usize,
    blocks: Seq<Seq<char>>,
    markers: Seq<Seq<char>>,
) -> Seq<char> {
    let cells = pie_cells(width);
    "["@ + concat(blocks) + fill(' ', (cells - cells_used(asked, cells, asked.len())) as nat) + "]\n"@
        + legend(labels, percents, markers, labels.len())
}

/// Slice `i`'s block and marker may show as `block` and `marker`.
pub open spec fn slice_shown(
    asked: Seq<usize>,
    cells: nat,
    i: nat,
    color: bool,
    block: Seq<char>,
    marker: Seq<char>,
) -> bool {
    &&& paint_shown(block, fill(glyph(i), slice_cells(asked, cells, i)), slice_color(i, color))
    &&& paint_shown(marker, seq![glyph(i)], slice_color(i, color))
}

proof fn lemma_cells_used_bounded(asked: Seq<usize>, cells: nat, k: nat)
    requires
        k <= asked.len(),
    ensures
        cells_used(asked, cells, k) <= cells,
    decreases k,
{
    if k > 0 {
        lemma_cells_used_bounded(asked, cells, (k - 1) as nat);
    }
}

fn painted_or_plain(text: &str, color: Option<TermColor>) -> (r: String)
    ensures
        paint_shown(r@, text@, color),
{
    match color {
        Some(c) => paint(text, c),
        None => owned(text),
    }
}

fn glyph_of(i: usize) -> (r: (char, TermColor))
    ensures
        r.0 == glyph(i as nat),
        r.1 == swatch(i as nat),
{
    let glyphs = vec!['█', '▓', '▒', '░', '▞', '▚'];
    let colors = vec![
        TermColor::Cyan,
        TermColor::Magenta,
        TermColor::Yellow,
        TermColor::Green,
        TermColor::Blue,
        TermColor::Red,
    ];
    assert(glyphs@ =~= seq!['█', '▓', '▒', '░', '▞', '▚']);
    assert(colors@ =~= seq![
        TermColor::Cyan,
        TermColor::Magenta,
        TermColor::Yellow,
        TermColor::Green,
        TermColor::Blue,
        TermColor::Red,
    ]);
    (glyphs[i % 6], colors[i % 6])
}

/// Draws a pie as a proportional bar of slices plus a legend. Slice `i`
/// asks for `asked[i]` cells and gets them while cells remain; its share
/// is printed as `percents[i]`.
pub fn pie_chart(
    labels: &Vec<String>,
    asked: &Vec<usize>,
    percents: &Vec<String>,
    width: usize,
    color: bool,
) -> (r: String)
    requires
        asked@.len() == labels@.len(),
        percents@.len() == labels@.len(),
    ensures
        exists|blocks: Seq<Seq<char>>, markers: Seq<Seq<char>>|
            blocks.len() == labels@.len() && markers.len() == labels@.len() && (forall|i: int|
                0 <= i < labels@.len() ==> slice_shown(
                    asked@,
                    pie_cells(width),
                    i as nat,
                    color,
                    #[trigger] blocks[i],
                    markers[i],
                )) && r@ == pie_chart_text(
                views(labels@),
                asked@,
                percents@,
                width,
                blocks,
                markers,
            ),
{
    let cells: usize = if width < 60 { width } else { 60 };
    let mut bar = String::new();
    let mut leg = String::new();
    let mut used: usize = 0;
    let ghost mut blocks = Seq::<Seq<char>>::empty();
    let ghost mut markers = Seq::<Seq<char>>::empty();
    let n = labels.len();
    let mut i: usize = 0;
    while i < n
        invariant
            n == labels@.len(),
            asked@.len() == n,
            percents@.len() == n,
            cells == pie_cells(width),
            i <= n,
            used == cells_used(asked@, cells as nat, i as nat),
            used <= cells,
            blocks.len() == i,
            markers.len() == i,
            forall|q: int|
                0 <= q < i ==> slice_shown(
                    asked@,
                    cells as nat,
                    q as nat,
                    color,
                    #[trigger] blocks[q],
                    markers[q],
                ),
            bar@ == concat(blocks),
            leg@ == legend(views(labels@), percents@, markers, i as nat),
        decreases n - i,
    {
        let left = cells - used;
        let seg = if asked[i] < left { asked[i] } else { left };
        assert(seg == slice_cells(asked@, cells as nat, i as nat));
        let (g, c) = glyph_of(i);
        let swatch_color = if color { Some(c) } else { None };
        let block_plain = repeat_char(g, seg);
        let block = painted_or_plain(block_plain.as_str(), swatch_color);
        push_str(&mut bar, block.as_str());
        let mut one = String::new();
        push_char(&mut one, g);
        let marker = painted_or_plain(one.as_str(), swatch_color);
        push_str(&mut leg, marker.as_str());
        push_str(&mut leg, " ");
        push_str(&mut leg, labels[i].as_str());
        push_str(&mut leg, ": ");
        push_str(&mut leg, percents[i].as_str());
        push_str(&mut leg, "%\n");
        used = used + seg;
        proof {
            let old_b = blocks;
            let old_m = markers;
            blocks = blocks.push(block@);
            markers = markers.push(marker@);
            assert(blocks.drop_last() =~= old_b);
            assert(one@ =~= seq![g]);
            lemma_legend_stable(views(labels@), percents@, old_m, markers, i as nat);
            assert(leg@ =~= legend(views(labels@), percents@, markers, (i + 1) as nat));
            assert forall|q: int| 0 <= q < i + 1 implies slice_shown(
                asked@,
                cells as nat,
                q as nat,
                color,
                #[trigger] blocks[q],
                markers[q],
            ) by {
                if q < i {
                    assert(blocks[q] == old_b[q]);
                    assert(markers[q] == old_m[q]);
                }
            }
        }
        i = i + 1;
    }
    let pad = repeat_char(' ', cells - used);
    push_str(&mut bar, pad.as_str());
    let mut out = owned("[");
    push_str(&mut out, bar.as_str());
    push_str(&mut out, "]\n");
    push_str(&mut out, leg.as_str());
    proof {
        assert(out@ =~= pie_chart_text(views(labels@), asked@, percents@, width, blocks, markers));
    }
    out
}

proof fn lemma_legend_stable(
    labels: Seq<Seq<char>>,
    percents: Seq<String>,
    a: Seq<Seq<char>>,
    b: Seq<Seq<char>>,
    k: nat,
)
    requires
        k <= a.len(),
        k <= b.len(),
        forall|q: int| 0 <= q < k ==> a[q] == b[q],
    ensures
        legend(labels, percents, a, k) == legend(labels, percents, b, k),
    decreases k,
{
    if k > 0 {
        lemma_legend_stable(labels, percents, a, b, (k - 1) as nat);
    }
}

/// The slices never take more cells than the pie has.
pub proof fn law_pie_slices_fit(asked: Seq<usize>, width: usize)
    ensures
        cells_used(asked, pie_cells(width), asked.len()) <= pie_cells(width),
{
    lemma_cells_used_bounded(asked, pie_cells(width), asked.len());
}

// ---------------------------------------------------------------------------
// The chart of the records shown
// ---------------------------------------------------------------------------

/// What floating-point scaling makes of a series, for each chart type.
pub enum ChartScale {
    /// Per point: filled cells and the value with two decimals.
    Bars(Vec<BarPoint>),
    /// Per point: the sparkline step (0 to 7); and the range, printed.
    Line { levels: Vec<usize>, min: String, max: String },
    /// Per point: the cells its slice asks for, and its share printed.
    Pie { asked: Vec<usize>, percents: Vec<String> },
}

/// The labels of the series of the records shown.
pub open spec fn series_labels(data: Seq<Json>, options: RenderOptions) -> Seq<Seq<char>> {
    let s = series_of(sorted_filtered(data, options));
    Seq::new(s.len(), |i: int| s[i].0)
}

/// The scale is of the chart's type and gives one entry per point.
pub open spec fn scale_fits(kind: ChartType, scale: ChartScale, labels: Seq<Seq<char>>, width: usize) -> bool {
    match scale {
        ChartScale::Bars(points) => kind == ChartType::Bar && points@.len() == labels.len() && forall|
            i: int,
        |
            0 <= i < points@.len() ==> #[trigger] points@[i].filled <= bar_cells(labels, width),
        ChartScale::Line { levels, .. } => kind == ChartType::Line && levels@.len() == labels.len()
            && forall|i: int| 0 <= i < levels@.len() ==> #[trigger] levels@[i] < 8,
        ChartScale::Pie { asked, percents } => kind == ChartType::Pie && asked@.len() == labels.len()
            && percents@.len() == labels.len(),
    }
}

/// `out` is the chart the scale draws over `labels`, colored or not.
pub open spec fn chart_drawn(
    scale: ChartScale,
    labels: Seq<Seq<char>>,
    width: usize,
    color: bool,
    out: Seq<char>,
) -> bool {
    match scale {
        ChartScale::Bars(points) => exists|bars: Seq<Seq<char>>|
            bars.len() == labels.len() && (forall|i: int|
                0 <= i < bars.len() ==> bar_shown(#[trigger] bars[i], points@[i].filled as nat, color))
                && out == bar_chart_text(labels, points@, width, bars),
        ChartScale::Line { levels, min, max } => exists|spark: Seq<char>|
            spark_shown(spark, levels@, color) && out == line_chart_text(labels, min@, max@, spark),
        ChartScale::Pie { asked, percents } => exists|blocks: Seq<Seq<char>>, markers: Seq<Seq<char>>|
            blocks.len() == labels.len() && markers.len() == labels.len() && (forall|i: int|
                0 <= i < labels.len() ==> slice_shown(
                    asked@,
                    pie_cells(width),
                    i as nat,
                    color,
                    #[trigger] blocks[i],
                    markers[i],
                )) && out == pie_chart_text(labels, asked@, percents@, width, blocks, markers),
    }
}

/// The pie's width in cells (see `pie_cells`).
pub fn pie_width(width: usize) -> (r: usize)
    ensures
        r == pie_cells(width),
{
    if width < 60 {
        width
    } else {
        60
    }
}

impl ChartRenderer {
    /// Draws the chart of the records shown: nothing when they give no
    /// point; otherwise the chart of the renderer's type, at the chart
    /// width, from the scaled series.
    pub fn render_chart(&self, data: &[Json], options: &RenderOptions, scale: &ChartScale) -> (r: String)
        requires
            series_labels(data@, *options).len() > 0 ==> scale_fits(
                self.chart_type,
                *scale,
                series_labels(data@, *options),
                chart_width_of(options.width),
            ),
        ensures
            series_labels(data@, *options).len() == 0 ==> r@ == Seq::<char>::empty(),
            series_labels(data@, *options).len() > 0 ==> chart_drawn(
                *scale,
                series_labels(data@, *options),
                chart_width_of(options.width),
                options.color,
                r@,
            ),
    {
        let series = self.series(data, options);
        if series.len() == 0 {
            return String::new();
        }
        let width = self.chart_width(options);
        let mut labels: Vec<String> = Vec::new();
        let mut i: usize = 0;
        while i < series.len()
            invariant
                i <= series@.len(),
                series@.len() == series_labels(data@, *options).len(),
                forall|q: int| 0 <= q < series@.len() ==> (#[trigger] series@[q]).0@ == series_labels(data@, *options)[q],
                views(labels@) == series_labels(data@, *options).take(i as int),
            decreases series.len() - i,
        {
            let ghost before = views(labels@);
            assert(series@[i as int].0@ == series_labels(data@, *options)[i as int]);
            labels.push(owned(series[i].0.as_str()));
            assert(views(labels@) =~= before.push(series_labels(data@, *options)[i as int]));
            i = i + 1;
            assert(views(labels@) =~= series_labels(data@, *options).take(i as int));
        }
        assert(views(labels@) =~= series_labels(data@, *options));
        match scale {
            ChartScale::Bars(points) => bar_chart(&labels, points, width, options.color),
            ChartScale::Line { levels, min, max } => line_chart(
                &labels,
                levels,
                min.as_str(),
                max.as_str(),
                options.color,
            ),
            ChartScale::Pie { asked, percents } => pie_chart(
                &labels,
                asked,
                percents,
                width,
                options.color,
            ),
        }
    }
}

} // verus!
