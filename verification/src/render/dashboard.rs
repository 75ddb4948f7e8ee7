//! `dashboard` mode: each record as a boxed panel of `field: value` lines.
//! A numeric field whose name mentions a 0-100 metric (signal, usage,
//! percent, cpu, memory, battery, load) shows as a twenty-cell gauge bar.
//!
//! How a number reads on a gauge (how many cells fill, the rounded
//! percentage, the color band) is a matter of floating-point arithmetic and
//! is handed in as a `GaugeReading` per gauge; everything else is laid out
//! here.
use vstd::prelude::*;
use crate::json::{Field, Json, JsonNumber, json_get, value_text, value_text_of};
use crate::render::rows::{RenderOptions, indices_in, rows_at, sorted_filtered,
    sorted_filtered_indices};
use crate::render::table::byte_width;
use crate::term::{TermColor, paint, painted};
use crate::text::{ascii_lower, contains_seq, lower_char, occurs_at, contains_str, fill, owned, push_str, repeat_char,
    to_lower};

verus! {

/// Cells in a gauge bar.
pub const GAUGE_WIDTH: usize = 20;

/// Panel width when `--width` is not given.
pub const DEFAULT_WIDTH: usize = 44;

/// The narrowest panel: room for a gauge and its label.
pub const MIN_WIDTH: usize = 40;

pub open spec fn gauge_names() -> Seq<Seq<char>> {
    seq!["signal"@, "usage"@, "percent"@, "cpu"@, "memory"@, "battery"@, "load"@]
}

pub open spec fn title_fields() -> Seq<Seq<char>> {
    seq!["name"@, "interface"@, "ssid"@, "host"@, "hostname"@, "id"@]
}

/// Whether `s` contains one of `names`.
pub open spec fn mentions_any(s: Seq<char>, names: Seq<Seq<char>>) -> bool
    decreases names.len(),
{
    names.len() > 0 && (contains_seq(s, names[0]) || mentions_any(s, names.drop_first()))
}

/// A field whose name, lower-cased, mentions a gauge metric.
pub open spec fn is_gauge_name(field: Seq<char>) -> bool {
    mentions_any(ascii_lower(field), gauge_names())
}

/// A field shown as a gauge: a gauge name holding a number.
pub open spec fn is_gauge(f: Field) -> bool {
    is_gauge_name(f.key@) && f.value is Number
}

/// How one gauge reads its number.
pub struct GaugeReading {
    /// Filled cells, out of `GAUGE_WIDTH`.
    pub filled: usize,
    /// The percentage as printed, without the `%` sign.
    pub percent: String,
    /// The color the bar takes when color is on.
    pub color: TermColor,
}

pub open spec fn readings_fit(readings: Seq<GaugeReading>) -> bool {
    forall|i: int| 0 <= i < readings.len() ==> #[trigger] readings[i].filled <= GAUGE_WIDTH
}

// ---------------------------------------------------------------------------
// Gauges and where they stand
// ---------------------------------------------------------------------------

/// The numbers of the gauge fields among `fields`, in order.
pub open spec fn gauge_values_in(fields: Seq<Field>) -> Seq<JsonNumber>
    decreases fields.len(),
{
    if fields.len() == 0 {
        Seq::empty()
    } else {
        let r = gauge_values_in(fields.drop_last());
        match fields.last().value {
            Json::Number(n) if is_gauge_name(fields.last().key@) => r.push(n),
            _ => r,
        }
    }
}

pub open spec fn row_gauge_values(row: Json) -> Seq<JsonNumber> {
    match row {
        Json::Object { fields, .. } => gauge_values_in(fields@),
        _ => Seq::empty(),
    }
}

/// The gauge numbers of the first `k` records, in order.
pub open spec fn gauge_values(rows: Seq<Json>, k: nat) -> Seq<JsonNumber>
    decreases k,
{
    if k == 0 {
        Seq::empty()
    } else {
        gauge_values(rows, (k - 1) as nat) + row_gauge_values(rows[k - 1])
    }
}

/// Every gauge number the dashboard shows, in the order it shows them.
pub open spec fn dashboard_gauges(data: Seq<Json>, options: RenderOptions) -> Seq<JsonNumber> {
    let rows = sorted_filtered(data, options);
    gauge_values(rows, rows.len())
}

// ---------------------------------------------------------------------------
// Lines
// ---------------------------------------------------------------------------

/// The bar of a gauge with `filled` cells filled.
pub open spec fn gauge_bar(filled: nat) -> Seq<char> {
    "["@ + fill('█', filled) + fill('░', (GAUGE_WIDTH - filled) as nat) + "]"@
}

/// A bar as shown: plain, or painted in the reading's color.
pub open spec fn bar_shown(display: Seq<char>, reading: GaugeReading, color: bool) -> bool {
    if color {
        painted(display, gauge_bar(reading.filled as nat), reading.color)
    } else {
        display == gauge_bar(reading.filled as nat)
    }
}

/// `field: value`, or for a gauge `field: [bar] NN%`.
pub open spec fn field_line(
    f: Field,
    index: int,
    readings: Seq<GaugeReading>,
    bars: Seq<Seq<char>>,
) -> Seq<char> {
    if is_gauge(f) {
        f.key@ + ": "@ + bars[index] + " "@ + readings[index].percent@ + "%"@
    } else {
        f.key@ + ": "@ + value_text(f.value)
    }
}

/// The lines of the first `k` fields; the record's gauges start at `start`.
pub open spec fn field_lines(
    fields: Seq<Field>,
    start: int,
    readings: Seq<GaugeReading>,
    bars: Seq<Seq<char>>,
    k: nat,
) -> Seq<char>
    decreases k,
{
    if k == 0 {
        Seq::empty()
    } else {
        field_lines(fields, start, readings, bars, (k - 1) as nat) + "│ "@ + field_line(
            fields[k - 1],
            start + gauge_values_in(fields.take(k - 1)).len(),
            readings,
            bars,
        ) + "\n"@
    }
}

/// The first string among the title fields, else `panel`.
pub open spec fn title_from(row: Json, candidates: Seq<Seq<char>>) -> Seq<char>
    decreases candidates.len(),
{
    if candidates.len() == 0 {
        "panel"@
    } else {
        match json_get(row, candidates[0]) {
            Some(Json::Str(s)) => s@,
            _ => title_from(row, candidates.drop_first()),
        }
    }
}

/// `┌─ title ───…`, the rule filling the panel width less the title's
/// UTF-8 length and three.
pub open spec fn top_line(title: Seq<char>, width: nat) -> Seq<char> {
    let used = byte_width(title) + 3;
    let rule: nat = if width >= used {
        (width - used) as nat
    } else {
        0
    };
    "┌─ "@ + title + " "@ + fill('─', rule) + "\n"@
}

/// A record's panel; nothing for a record that is not an object.
pub open spec fn panel_text(
    row: Json,
    width: nat,
    start: int,
    readings: Seq<GaugeReading>,
    bars: Seq<Seq<char>>,
) -> Seq<char> {
    match row {
        Json::Object { fields, .. } => top_line(title_from(row, title_fields()), width)
            + field_lines(fields@, start, readings, bars, fields@.len()) + "└"@ + fill(
            '─',
            width,
        ) + "\n"@,
        _ => Seq::empty(),
    }
}

pub open spec fn panels(
    rows: Seq<Json>,
    width: nat,
    readings: Seq<GaugeReading>,
    bars: Seq<Seq<char>>,
    k: nat,
) -> Seq<char>
    decreases k,
{
    if k == 0 {
        Seq::empty()
    } else {
        panels(rows, width, readings, bars, (k - 1) as nat) + panel_text(
            rows[k - 1],
            width,
            gauge_values(rows, (k - 1) as nat).len() as int,
            readings,
            bars,
        )
    }
}

/// The panel width: `--width` (default 44), at least 40.
pub open spec fn dashboard_width(width: Option<usize>) -> nat {
    let w = match width {
        Some(w) => w,
        None => DEFAULT_WIDTH,
    };
    if w > MIN_WIDTH {
        w as nat
    } else {
        MIN_WIDTH as nat
    }
}

/// The dashboard, given each gauge's reading and how its bar shows.
pub open spec fn dashboard_text(
    data: Seq<Json>,
    options: RenderOptions,
    readings: Seq<GaugeReading>,
    bars: Seq<Seq<char>>,
) -> Seq<char> {
    let rows = sorted_filtered(data, options);
    panels(rows, dashboard_width(options.width), readings, bars, rows.len())
}

/// The dashboard without colors.
pub open spec fn plain_dashboard(
    data: Seq<Json>,
    options: RenderOptions,
    readings: Seq<GaugeReading>,
) -> Seq<char> {
    dashboard_text(
        data,
        options,
        readings,
        Seq::new(readings.len(), |i: int| gauge_bar(readings[i].filled as nat)),
    )
}

// ---------------------------------------------------------------------------
// Executable parts
// ---------------------------------------------------------------------------

/// `s` mentions one of `names` exactly when one of them occurs in it at
/// some position, anywhere, not only at its start.
pub proof fn law_mentions_any_anywhere(s: Seq<char>, names: Seq<Seq<char>>)
    ensures
        mentions_any(s, names) <==> exists|i: int, p: int|
            0 <= i < names.len() && #[trigger] occurs_at(s, names[i], p),
    decreases names.len(),
{
    if names.len() > 0 {
        let rest = names.drop_first();
        law_mentions_any_anywhere(s, rest);
        if mentions_any(s, names) {
            if contains_seq(s, names[0]) {
                let p = choose|p: int| occurs_at(s, names[0], p);
                assert(occurs_at(s, names[0], p));
            } else {
                let (i, p) = choose|i: int, p: int| 0 <= i < rest.len() && #[trigger] occurs_at(s, rest[i], p);
                assert(names[i + 1] == rest[i]);
                assert(occurs_at(s, names[i + 1], p));
            }
        }
        if exists|i: int, p: int| 0 <= i < names.len() && #[trigger] occurs_at(s, names[i], p) {
            let (i, p) = choose|i: int, p: int| 0 <= i < names.len() && #[trigger] occurs_at(s, names[i], p);
            if i == 0 {
                assert(contains_seq(s, names[0]));
            } else {
                assert(rest[i - 1] == names[i]);
                assert(occurs_at(s, rest[i - 1], p));
            }
        }
    }
}

/// A field name is a gauge name exactly when its lower-cased text holds
/// one of the metric words at some position.
pub proof fn law_gauge_name_holds_a_metric_word(field: Seq<char>)
    ensures
        is_gauge_name(field) <==> exists|i: int, p: int|
            0 <= i < gauge_names().len() && #[trigger] occurs_at(ascii_lower(field), gauge_names()[i], p),
{
    law_mentions_any_anywhere(ascii_lower(field), gauge_names());
}

/// A metric word anywhere in a name, whatever text stands before and after
/// it, makes the name a gauge name (`mem_percent`, `disk_usage`,
/// `CPU_load`).
pub proof fn law_metric_word_anywhere_makes_a_gauge(before: Seq<char>, i: int, after: Seq<char>)
    requires
        0 <= i < gauge_names().len(),
    ensures
        is_gauge_name(before + gauge_names()[i] + after),
{
    reveal_strlit("signal");
    reveal_strlit("usage");
    reveal_strlit("percent");
    reveal_strlit("cpu");
    reveal_strlit("memory");
    reveal_strlit("battery");
    reveal_strlit("load");
    let g = gauge_names()[i];
    assert forall|k: int| 0 <= k < g.len() implies lower_char(#[trigger] g[k]) == g[k] by {
        assert('a' <= g[k] && g[k] <= 'z');
    }
    let name = before + g + after;
    let s = ascii_lower(name);
    assert(s.subrange(before.len() as int, (before.len() + g.len()) as int) =~= g) by {
        assert forall|k: int| 0 <= k < g.len() implies s[before.len() + k] == g[k] by {
            assert(name[before.len() + k] == g[k]);
        }
    }
    assert(occurs_at(s, g, before.len() as int));
    law_gauge_name_holds_a_metric_word(name);
}

/// Whether a field name marks a gauge (see `is_gauge_name`).
pub fn gauge_name(field: &str) -> (r: bool)
    ensures
        r == is_gauge_name(field@),
{
    let lower = to_lower(field);
    let names = vec!["signal", "usage", "percent", "cpu", "memory", "battery", "load"];
    let ghost all = gauge_names();
    assert(all =~= Seq::new(7, |i: int| names@[i]@));
    assert(all.skip(0) =~= all);
    let mut i: usize = 0;
    while i < names.len()
        invariant
            i <= names@.len(),
            names@.len() == 7,
            all == gauge_names(),
            all.len() == 7,
            lower@ == ascii_lower(field@),
            forall|j: int| 0 <= j < 7 ==> #[trigger] all[j] == names@[j]@,
            mentions_any(lower@, all) == mentions_any(lower@, all.skip(i as int)),
        decreases names.len() - i,
    {
        assert(all.skip(i as int)[0] == all[i as int]);
        assert(all.skip(i as int).drop_first() =~= all.skip(i + 1));
        if contains_str(lower.as_str(), names[i]) {
            assert(all[i as int] == names@[i as int]@);
            assert(mentions_any(lower@, all.skip(i as int)));
            return true;
        }
        i = i + 1;
    }
    assert(all.skip(7).len() == 0);
    false
}

fn title_of(row: &Json) -> (r: String)
    ensures
        r@ == title_from(*row, title_fields()),
{
    let cands = vec!["name", "interface", "ssid", "host", "hostname", "id"];
    let ghost all = title_fields();
    assert(all =~= Seq::new(6, |i: int| cands@[i]@));
    assert(all.skip(0) =~= all);
    let mut i: usize = 0;
    while i < cands.len()
        invariant
            i <= cands@.len(),
            cands@.len() == 6,
            all == title_fields(),
            all.len() == 6,
            forall|j: int| 0 <= j < 6 ==> #[trigger] all[j] == cands@[j]@,
            title_from(*row, all) == title_from(*row, all.skip(i as int)),
        decreases cands.len() - i,
    {
        assert(all.skip(i as int)[0] == all[i as int]);
        assert(all.skip(i as int).drop_first() =~= all.skip(i + 1));
        match row.get(cands[i]) {
            Some(Json::Str(s)) => {
                return owned(s.as_str());
            },
            _ => {},
        }
        i = i + 1;
    }
    assert(all.skip(6).len() == 0);
    owned("panel")
}

fn bar_of(reading: &GaugeReading, color: bool) -> (r: String)
    requires
        reading.filled <= GAUGE_WIDTH,
    ensures
        bar_shown(r@, *reading, color),
{
    let mut bar = owned("[");
    let full = repeat_char('█', reading.filled);
    push_str(&mut bar, full.as_str());
    let empty = repeat_char('░', GAUGE_WIDTH - reading.filled);
    push_str(&mut bar, empty.as_str());
    push_str(&mut bar, "]");
    assert(bar@ =~= gauge_bar(reading.filled as nat));
    if color {
        paint(bar.as_str(), reading.color)
    } else {
        bar
    }
}

/// The lines of a record's fields; its gauges take readings from `start`
/// on. Returns where the next record's gauges start, and the bars as shown.
fn push_field_lines(
    out: &mut String,
    fields: &Vec<Field>,
    start: usize,
    readings: &Vec<GaugeReading>,
    color: bool,
    Ghost(bars): Ghost<Seq<Seq<char>>>,
) -> (r: (usize, Ghost<Seq<Seq<char>>>))
    requires
        bars.len() == start,
        start + gauge_values_in(fields@).len() <= readings@.len(),
        readings_fit(readings@),
    ensures
        r.0 == start + gauge_values_in(fields@).len(),
        r.1@.len() == r.0,
        r.1@.take(start as int) == bars,
        forall|i: int| start <= i < r.0 ==> bar_shown(#[trigger] r.1@[i], readings@[i], color),
        final(out)@ == old(out)@ + field_lines(fields@, start as int, readings@, r.1@, fields@.len()),
{
    let ghost begin = out@;
    let ghost mut shown = bars;
    let total = readings.len();
    let mut g = start;
    let mut k: usize = 0;
    while k < fields.len()
        invariant
            k <= fields@.len(),
            total == readings@.len(),
            bars.len() == start,
            start + gauge_values_in(fields@).len() <= readings@.len(),
            readings_fit(readings@),
            g == start + gauge_values_in(fields@.take(k as int)).len(),
            shown.len() == g,
            shown.take(start as int) == bars,
            forall|i: int| start <= i < g ==> bar_shown(#[trigger] shown[i], readings@[i], color),
            out@ == begin + field_lines(fields@, start as int, readings@, shown, k as nat),
        decreases fields.len() - k,
    {
        let f = &fields[k];
        proof {
            assert(fields@.take(k + 1).drop_last() =~= fields@.take(k as int));
            assert(fields@.take(k + 1).last() == fields@[k as int]);
            lemma_gauges_prefix(fields@, (k + 1) as nat);
        }
        let gauge = gauge_name(f.key.as_str()) && f.value.is_number();
        push_str(out, "│ ");
        push_str(out, f.key.as_str());
        push_str(out, ": ");
        if gauge {
            assert(gauge_values_in(fields@.take(k + 1)).len() == g - start + 1);
            let bar = bar_of(&readings[g], color);
            push_str(out, bar.as_str());
            push_str(out, " ");
            push_str(out, readings[g].percent.as_str());
            push_str(out, "%");
            proof {
                let old_shown = shown;
                shown = shown.push(bar@);
                lemma_field_lines_stable(fields@, start as int, readings@, old_shown, shown, k as nat);
                assert(shown.take(start as int) =~= old_shown.take(start as int));
            }
            g = g + 1;
        } else {
            let v = value_text_of(&f.value);
            push_str(out, v.as_str());
        }
        push_str(out, "\n");
        proof {
            assert(out@ =~= begin + field_lines(fields@, start as int, readings@, shown, (k + 1) as nat));
        }
        k = k + 1;
    }
    assert(fields@.take(fields@.len() as int) =~= fields@);
    (g, Ghost(shown))
}

/// The gauges among the first `k` fields never outnumber the gauges of all
/// of them.
proof fn lemma_gauges_prefix(fields: Seq<Field>, k: nat)
    requires
        k <= fields.len(),
    ensures
        gauge_values_in(fields.take(k as int)).len() <= gauge_values_in(fields).len(),
    decreases fields.len() - k,
{
    if k < fields.len() {
        lemma_gauges_prefix(fields, (k + 1) as nat);
        assert(fields.take(k + 1 as int).drop_last() =~= fields.take(k as int));
    } else {
        assert(fields.take(k as int) =~= fields);
    }
}

/// Field lines read only the bars before the gauges they have passed.
proof fn lemma_field_lines_stable(
    fields: Seq<Field>,
    start: int,
    readings: Seq<GaugeReading>,
    a: Seq<Seq<char>>,
    b: Seq<Seq<char>>,
    k: nat,
)
    requires
        k <= fields.len(),
        start >= 0,
        start + gauge_values_in(fields.take(k as int)).len() <= a.len(),
        a.len() <= b.len(),
        forall|i: int| 0 <= i < a.len() ==> a[i] == b[i],
    ensures
        field_lines(fields, start, readings, a, k) == field_lines(fields, start, readings, b, k),
    decreases k,
{
    if k > 0 {
        assert(fields.take(k as int).drop_last() =~= fields.take(k - 1));
        assert(fields.take(k as int).last() == fields[k - 1]);
        lemma_field_lines_stable(fields, start, readings, a, b, (k - 1) as nat);
    }
}

/// Panels read only the bars of the records they show.
proof fn lemma_panels_stable(
    rows: Seq<Json>,
    width: nat,
    readings: Seq<GaugeReading>,
    a: Seq<Seq<char>>,
    b: Seq<Seq<char>>,
    k: nat,
)
    requires
        k <= rows.len(),
        gauge_values(rows, k).len() <= a.len(),
        a.len() <= b.len(),
        forall|i: int| 0 <= i < a.len() ==> a[i] == b[i],
    ensures
        panels(rows, width, readings, a, k) == panels(rows, width, readings, b, k),
    decreases k,
{
    if k > 0 {
        lemma_panels_stable(rows, width, readings, a, b, (k - 1) as nat);
        let start = gauge_values(rows, (k - 1) as nat).len() as int;
        match rows[k - 1] {
            Json::Object { fields, .. } => {
                assert(fields@.take(fields@.len() as int) =~= fields@);
                lemma_field_lines_stable(fields@, start, readings, a, b, fields@.len());
            },
            _ => {},
        }
    }
}

/// The gauge numbers the dashboard shows, in order: one reading is owed
/// for each.
pub fn gauge_numbers<'a>(data: &'a [Json], options: &RenderOptions) -> (r: Vec<&'a JsonNumber>)
    ensures
        r@.len() == dashboard_gauges(data@, *options).len(),
        forall|i: int| 0 <= i < r@.len() ==> *r@[i] == dashboard_gauges(data@, *options)[i],
{
    let idx = sorted_filtered_indices(data, options);
    let ghost rows = rows_at(data@, idx@);
    let mut r: Vec<&JsonNumber> = Vec::new();
    let mut i: usize = 0;
    while i < idx.len()
        invariant
            i <= idx@.len(),
            indices_in(idx@, data@.len()),
            rows == rows_at(data@, idx@),
            rows == sorted_filtered(data@, *options),
            r@.len() == gauge_values(rows, i as nat).len(),
            forall|q: int| 0 <= q < r@.len() ==> *r@[q] == gauge_values(rows, i as nat)[q],
        decreases idx.len() - i,
    {
        let row = &data[idx[i]];
        assert(rows[i as int] == *row);
        let ghost before = gauge_values(rows, i as nat);
        match row {
            Json::Object { fields, .. } => {
                let mut k: usize = 0;
                while k < fields.len()
                    invariant
                        k <= fields@.len(),
                        r@.len() == (before + gauge_values_in(fields@.take(k as int))).len(),
                        forall|q: int|
                            0 <= q < r@.len() ==> *r@[q] == (before + gauge_values_in(
                                fields@.take(k as int),
                            ))[q],
                    decreases fields.len() - k,
                {
                    proof {
                        assert(fields@.take(k + 1).drop_last() =~= fields@.take(k as int));
                        assert(fields@.take(k + 1).last() == fields@[k as int]);
                    }
                    match &fields[k].value {
                        Json::Number(n) => {
                            if gauge_name(fields[k].key.as_str()) {
                                r.push(n);
                            }
                        },
                        _ => {},
                    }
                    k = k + 1;
                }
                assert(fields@.take(fields@.len() as int) =~= fields@);
            },
            _ => {
                assert(before + row_gauge_values(*row) =~= before);
            },
        }
        i = i + 1;
    }
    r
}

pub struct DashboardRenderer;

impl DashboardRenderer {
    /// Renders the panels, the `i`-th gauge shown by `readings[i]`.
    pub fn render_dashboard(
        &self,
        data: &[Json],
        options: &RenderOptions,
        readings: &Vec<GaugeReading>,
    ) -> (r: String)
        requires
            readings@.len() == dashboard_gauges(data@, *options).len(),
            readings_fit(readings@),
        ensures
            exists|bars: Seq<Seq<char>>|
                bars.len() == readings@.len() && (forall|i: int|
                    0 <= i < bars.len() ==> bar_shown(#[trigger] bars[i], readings@[i], options.color))
                    && r@ == dashboard_text(data@, *options, readings@, bars),
            !options.color ==> r@ == plain_dashboard(data@, *options, readings@),
    {
        let idx = sorted_filtered_indices(data, options);
        let ghost rows = rows_at(data@, idx@);
        let w = match options.width {
            Some(w) => w,
            None => DEFAULT_WIDTH,
        };
        let width = if w > MIN_WIDTH { w } else { MIN_WIDTH };
        assert(width == dashboard_width(options.width));
        let mut out = String::new();
        let ghost mut bars = Seq::<Seq<char>>::empty();
        let mut g: usize = 0;
        let mut i: usize = 0;
        while i < idx.len()
            invariant
                i <= idx@.len(),
                indices_in(idx@, data@.len()),
                rows == rows_at(data@, idx@),
                rows == sorted_filtered(data@, *options),
                readings@.len() == gauge_values(rows, rows.len()).len(),
                readings_fit(readings@),
                width == dashboard_width(options.width),
                g == gauge_values(rows, i as nat).len(),
                bars.len() == g,
                forall|q: int| 0 <= q < g ==> bar_shown(#[trigger] bars[q], readings@[q], options.color),
                out@ == panels(rows, width as nat, readings@, bars, i as nat),
            decreases idx.len() - i,
        {
            let row = &data[idx[i]];
            assert(rows[i as int] == *row);
            proof {
                lemma_gauge_values_grow(rows, (i + 1) as nat, rows.len());
            }
            match row {
                Json::Object { fields, .. } => {
                    let ghost before = out@;
                    let title = title_of(row);
                    let rule = width.saturating_sub(title.as_str().len().saturating_add(3));
                    push_str(&mut out, "┌─ ");
                    push_str(&mut out, title.as_str());
                    push_str(&mut out, " ");
                    let line = repeat_char('─', rule);
                    push_str(&mut out, line.as_str());
                    push_str(&mut out, "\n");
                    assert(out@ =~= before + top_line(title_from(*row, title_fields()), width as nat));
                    let ghost mid = out@;
                    let (next, Ghost(shown)) = push_field_lines(
                        &mut out,
                        fields,
                        g,
                        readings,
                        options.color,
                        Ghost(bars),
                    );
                    push_str(&mut out, "└");
                    let bottom = repeat_char('─', width);
                    push_str(&mut out, bottom.as_str());
                    push_str(&mut out, "\n");
                    proof {
                        lemma_panels_stable(rows, width as nat, readings@, bars, shown, i as nat);
                        assert(bars =~= shown.take(g as int));
                        assert forall|q: int| 0 <= q < next implies bar_shown(
                            #[trigger] shown[q],
                            readings@[q],
                            options.color,
                        ) by {
                            if q < g {
                                assert(shown[q] == shown.take(g as int)[q]);
                            }
                        }
                        bars = shown;
                        assert(out@ =~= panels(rows, width as nat, readings@, bars, (i + 1) as nat));
                    }
                    g = next;
                },
                _ => {
                    assert(panels(rows, width as nat, readings@, bars, (i + 1) as nat) =~= out@);
                },
            }
            i = i + 1;
        }
        proof {
            assert(rows.len() == idx@.len());
            assert(out@ == dashboard_text(data@, *options, readings@, bars));
            if !options.color {
                assert(bars =~= Seq::new(
                    readings@.len(),
                    |q: int| gauge_bar(readings@[q].filled as nat),
                ));
            }
        }
        out
    }
}

/// Later records only add gauges.
proof fn lemma_gauge_values_grow(rows: Seq<Json>, j: nat, k: nat)
    requires
        j <= k <= rows.len(),
    ensures
        gauge_values(rows, j).len() <= gauge_values(rows, k).len(),
        gauge_values(rows, j) == gauge_values(rows, k).take(gauge_values(rows, j).len() as int),
    decreases k - j,
{
    if j < k {
        lemma_gauge_values_grow(rows, j, (k - 1) as nat);
        let a = gauge_values(rows, (k - 1) as nat);
        assert((a + row_gauge_values(rows[k - 1])).take(a.len() as int) =~= a);
    } else {
        assert(gauge_values(rows, k).take(gauge_values(rows, k).len() as int) =~= gauge_values(
            rows,
            k,
        ));
    }
}

} // verus!
