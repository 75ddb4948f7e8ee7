//! `timeline` mode: records as a chronological event list. Time, level,
//! message and source fields are picked by name from the first record;
//! unless `--sort` was given, the records are ordered by the time field's
//! text (stably), since chronology is the point of the mode.
//!
//! Each event prints as `├─ <time>  <[LEVEL]>  <message>  (<source>)`, the
//! time and level badge padded to the widest of them; `--width` bounds the
//! message, which then keeps at least ten characters. With color on, the
//! badge is painted by level: errors red, warnings yellow, info cyan,
//! debug/trace dark grey.
use vstd::prelude::*;
use crate::json::{Field, Json, cell_text, cell_text_of, keys_of, value_text,
    value_text_of};
use crate::render::map::branch;
use crate::render::rows::{RenderOptions, Renderer, indices_in, is_sorted_by,
    law_sort_rows_sorted_permutation, leads_with_object, pick, pick_field, rows_at, sort_indices,
    sort_rows, sorted_filtered, sorted_filtered_indices, str_views};
use crate::render::table::{lemma_line_block_append, lemma_one_line_truncated, line_block, truncate,
    truncated};
use crate::term::{TermColor, lemma_painted_one_line, paint, painted};
use crate::text::{lemma_one_line_concat, lemma_one_line_pad, lemma_one_line_upper, one_line,
    starts_with};
use crate::text::{ascii_lower, ascii_upper, char_count, join, join_strings, opt_seq, owned,
    pad_right, padded, push_str, str_eq, to_lower, to_upper, views};

verus! {

// ---------------------------------------------------------------------------
// Fields
// ---------------------------------------------------------------------------

pub open spec fn time_fields() -> Seq<Seq<char>> {
    seq!["timestamp"@, "time"@, "date"@]
}

pub open spec fn level_fields() -> Seq<Seq<char>> {
    seq!["level"@, "severity"@]
}

pub open spec fn message_fields() -> Seq<Seq<char>> {
    seq!["message"@, "event"@, "description"@, "summary"@]
}

pub open spec fn source_fields() -> Seq<Seq<char>> {
    seq!["source"@, "host"@, "origin"@]
}

/// The fields a timeline reads, picked from the first record.
pub struct TimelineFields {
    pub time: Option<Seq<char>>,
    pub level: Option<Seq<char>>,
    pub message: Option<Seq<char>>,
    pub source: Option<Seq<char>>,
}

pub open spec fn timeline_fields(first: Json) -> TimelineFields {
    let keys = keys_of(first);
    TimelineFields {
        time: pick(keys, time_fields()),
        level: pick(keys, level_fields()),
        message: pick(keys, message_fields()),
        source: pick(keys, source_fields()),
    }
}

/// The fields of the records on show.
pub open spec fn shown_fields(data: Seq<Json>, options: RenderOptions) -> TimelineFields {
    timeline_fields(sorted_filtered(data, options)[0])
}

/// The records in the order shown: without `--sort`, ordered by the time
/// field's text, stably.
pub open spec fn timeline_rows(data: Seq<Json>, options: RenderOptions) -> Seq<Json> {
    let rows = sorted_filtered(data, options);
    match (options.sort, shown_fields(data, options).time) {
        (None, Some(t)) => sort_rows(rows, t, false),
        _ => rows,
    }
}

// ---------------------------------------------------------------------------
// Entries
// ---------------------------------------------------------------------------

pub open spec fn is_used(f: TimelineFields, key: Seq<char>) -> bool {
    f.time == Some(key) || f.level == Some(key) || f.message == Some(key) || f.source == Some(
        key,
    )
}

/// `key=value` for each field no other part of the entry shows.
pub open spec fn fallback_parts(fields: Seq<Field>, f: TimelineFields) -> Seq<Seq<char>>
    decreases fields.len(),
{
    if fields.len() == 0 {
        Seq::empty()
    } else {
        let r = fallback_parts(fields.drop_last(), f);
        let last = fields.last();
        if is_used(f, last.key@) {
            r
        } else {
            r.push(last.key@ + "="@ + value_text(last.value))
        }
    }
}

/// The message of a record without a message field: its other fields as
/// `key=value`, joined by `, `.
pub open spec fn fallback_message(row: Json, f: TimelineFields) -> Seq<char> {
    match row {
        Json::Object { fields, .. } => join(fallback_parts(fields@, f), ", "@),
        _ => Seq::empty(),
    }
}

pub open spec fn entry_time(row: Json, f: TimelineFields) -> Seq<char> {
    match f.time {
        Some(t) => cell_text(row, t),
        None => Seq::empty(),
    }
}

pub open spec fn entry_level(row: Json, f: TimelineFields) -> Option<Seq<char>> {
    match f.level {
        Some(l) => Some(cell_text(row, l)),
        None => None,
    }
}

pub open spec fn entry_message(row: Json, f: TimelineFields) -> Seq<char> {
    match f.message {
        Some(m) => cell_text(row, m),
        None => fallback_message(row, f),
    }
}

pub open spec fn entry_source(row: Json, f: TimelineFields) -> Option<Seq<char>> {
    match f.source {
        Some(s) => Some(cell_text(row, s)),
        None => None,
    }
}

// ---------------------------------------------------------------------------
// Widths
// ---------------------------------------------------------------------------

/// The widest time among the first `k` records.
pub open spec fn time_width(rows: Seq<Json>, f: TimelineFields, k: nat) -> nat
    decreases k,
{
    if k == 0 {
        0
    } else {
        let w = time_width(rows, f, (k - 1) as nat);
        let t = entry_time(rows[k - 1], f).len();
        if t > w {
            t
        } else {
            w
        }
    }
}

/// The room a level badge takes: the level and its brackets (a width past
/// `usize::MAX` cannot be held; it stops there).
pub open spec fn badge_room(level: Option<Seq<char>>) -> nat {
    match level {
        Some(l) => if l.len() + 2 > usize::MAX {
            usize::MAX as nat
        } else {
            (l.len() + 2) as nat
        },
        None => 0,
    }
}

/// The widest badge among the first `k` records.
pub open spec fn level_width(rows: Seq<Json>, f: TimelineFields, k: nat) -> nat
    decreases k,
{
    if k == 0 {
        0
    } else {
        let w = level_width(rows, f, (k - 1) as nat);
        let b = badge_room(entry_level(rows[k - 1], f));
        if b > w {
            b
        } else {
            w
        }
    }
}

/// The room `--width` leaves a message: what the time, the badge and the
/// separators do not take, and never under ten characters.
pub open spec fn message_width(width: Option<usize>, tw: nat, lw: nat) -> Option<nat> {
    match width {
        Some(w) => {
            let budget = tw + lw + 10;
            let rest: nat = if w >= budget {
                (w - budget) as nat
            } else {
                0
            };
            Some(
                if rest > 10 {
                    rest
                } else {
                    10
                },
            )
        },
        None => None,
    }
}

// ---------------------------------------------------------------------------
// Lines
// ---------------------------------------------------------------------------

/// `[LEVEL]`, upper-cased; nothing without a level.
pub open spec fn badge_text(level: Option<Seq<char>>) -> Seq<char> {
    match level {
        Some(l) => "["@ + ascii_upper(l) + "]"@,
        None => Seq::empty(),
    }
}

pub open spec fn badge_color(level: Option<Seq<char>>) -> Option<TermColor> {
    match level {
        Some(l) => {
            let k = ascii_lower(l);
            if k == "error"@ || k == "fatal"@ || k == "critical"@ {
                Some(TermColor::Red)
            } else if k == "warn"@ || k == "warning"@ {
                Some(TermColor::Yellow)
            } else if k == "info"@ {
                Some(TermColor::Cyan)
            } else if k == "debug"@ || k == "trace"@ {
                Some(TermColor::DarkGrey)
            } else {
                None
            }
        },
        None => None,
    }
}

/// A padded badge as shown: as it is without color, else painted by level.
/// The badge is padded before it is painted, so the escape codes take no
/// part in the padding.
pub open spec fn badge_shown(
    display: Seq<char>,
    padded: Seq<char>,
    level: Option<Seq<char>>,
    color: bool,
) -> bool {
    match badge_color(level) {
        Some(c) if color => painted(display, padded, c),
        _ => display == padded,
    }
}

pub open spec fn shown_message(message: Seq<char>, width: Option<nat>) -> Seq<char> {
    match width {
        Some(w) => truncated(message, w),
        None => message,
    }
}

pub open spec fn source_suffix(source: Option<Seq<char>>) -> Seq<char> {
    match source {
        Some(s) => "  ("@ + s + ")"@,
        None => Seq::empty(),
    }
}

/// One event, without its line break.
pub open spec fn event_body(
    row: Json,
    index: int,
    count: int,
    f: TimelineFields,
    tw: nat,
    mw: Option<nat>,
    badge: Seq<char>,
) -> Seq<char> {
    branch(index + 1 == count) + " "@ + pad_right(entry_time(row, f), tw) + "  "@ + badge + "  "@
        + shown_message(entry_message(row, f), mw) + source_suffix(entry_source(row, f))
}

/// One event line.
pub open spec fn event_line(
    row: Json,
    index: int,
    count: int,
    f: TimelineFields,
    tw: nat,
    mw: Option<nat>,
    badge: Seq<char>,
) -> Seq<char> {
    event_body(row, index, count, f, tw, mw, badge) + "\n"@
}

pub open spec fn event_lines(
    rows: Seq<Json>,
    f: TimelineFields,
    tw: nat,
    mw: Option<nat>,
    badges: Seq<Seq<char>>,
    k: nat,
) -> Seq<char>
    decreases k,
{
    if k == 0 {
        Seq::empty()
    } else {
        event_lines(rows, f, tw, mw, badges, (k - 1) as nat) + event_line(
            rows[k - 1],
            k - 1,
            rows.len() as int,
            f,
            tw,
            mw,
            badges[k - 1],
        )
    }
}

/// The timeline, given how each badge shows.
pub open spec fn timeline_text(data: Seq<Json>, options: RenderOptions, badges: Seq<Seq<char>>) -> Seq<
    char,
> {
    if !leads_with_object(data, options) {
        Seq::empty()
    } else {
        let rows = timeline_rows(data, options);
        let f = shown_fields(data, options);
        let tw = time_width(rows, f, rows.len());
        let lw = level_width(rows, f, rows.len());
        "│\n"@ + event_lines(rows, f, tw, message_width(options.width, tw, lw), badges, rows.len())
    }
}

/// The padded badge of event `i`.
pub open spec fn padded_badge(data: Seq<Json>, options: RenderOptions, i: int) -> Seq<char> {
    let rows = timeline_rows(data, options);
    let f = shown_fields(data, options);
    pad_right(badge_text(entry_level(rows[i], f)), level_width(rows, f, rows.len()))
}

/// How the badge of event `i` may show.
pub open spec fn shown_badge(data: Seq<Json>, options: RenderOptions, i: int, display: Seq<char>) -> bool {
    let rows = timeline_rows(data, options);
    badge_shown(
        display,
        padded_badge(data, options, i),
        entry_level(rows[i], shown_fields(data, options)),
        options.color,
    )
}

/// The timeline without colors.
pub open spec fn plain_timeline(data: Seq<Json>, options: RenderOptions) -> Seq<char> {
    timeline_text(
        data,
        options,
        Seq::new(timeline_rows(data, options).len(), |i: int| padded_badge(data, options, i)),
    )
}

// ---------------------------------------------------------------------------
// Executable parts
// ---------------------------------------------------------------------------

/// The fields of the first record, as strings.
struct PickedFields {
    time: Option<String>,
    level: Option<String>,
    message: Option<String>,
    source: Option<String>,
}

impl PickedFields {
    spec fn view(&self) -> TimelineFields {
        TimelineFields {
            time: opt_seq(self.time),
            level: opt_seq(self.level),
            message: opt_seq(self.message),
            source: opt_seq(self.source),
        }
    }
}

fn names(field: &Option<String>, key: &str) -> (r: bool)
    ensures
        r == (opt_seq(*field) == Some(key@)),
{
    match field {
        Some(f) => str_eq(f.as_str(), key),
        None => false,
    }
}

fn fallback_of(row: &Json, f: &PickedFields) -> (r: String)
    ensures
        r@ == fallback_message(*row, f.view()),
{
    match row {
        Json::Object { fields, .. } => {
            let mut parts: Vec<String> = Vec::new();
            let mut i: usize = 0;
            while i < fields.len()
                invariant
                    i <= fields@.len(),
                    views(parts@) == fallback_parts(fields@.take(i as int), f.view()),
                decreases fields.len() - i,
            {
                let key = fields[i].key.as_str();
                proof {
                    assert(fields@.take(i + 1).drop_last() =~= fields@.take(i as int));
                    assert(fields@.take(i + 1).last() == fields@[i as int]);
                }
                let used = names(&f.time, key) || names(&f.level, key) || names(&f.message, key)
                    || names(&f.source, key);
                if !used {
                    let ghost before = views(parts@);
                    let mut part = owned(key);
                    push_str(&mut part, "=");
                    let v = value_text_of(&fields[i].value);
                    push_str(&mut part, v.as_str());
                    parts.push(part);
                    assert(views(parts@) =~= before.push(
                        fields@[i as int].key@ + "="@ + value_text(fields@[i as int].value),
                    ));
                }
                i = i + 1;
            }
            assert(fields@.take(fields@.len() as int) =~= fields@);
            join_strings(&parts, ", ")
        },
        _ => String::new(),
    }
}

fn field_text(row: &Json, field: &Option<String>) -> (r: Option<String>)
    ensures
        opt_seq(r) == match opt_seq(*field) {
            Some(t) => Some(cell_text(*row, t)),
            None => None,
        },
{
    match field {
        Some(t) => Some(cell_text_of(row, t.as_str())),
        None => None,
    }
}

fn time_of(row: &Json, f: &PickedFields) -> (r: String)
    ensures
        r@ == entry_time(*row, f.view()),
{
    match field_text(row, &f.time) {
        Some(t) => t,
        None => String::new(),
    }
}

fn message_of(row: &Json, f: &PickedFields) -> (r: String)
    ensures
        r@ == entry_message(*row, f.view()),
{
    match field_text(row, &f.message) {
        Some(m) => m,
        None => fallback_of(row, f),
    }
}

fn badge_room_of(level: &Option<String>) -> (r: usize)
    ensures
        r == badge_room(opt_seq(*level)),
{
    match level {
        Some(l) => char_count(l.as_str()).saturating_add(2),
        None => 0,
    }
}

fn colorize_badge(padded_badge: &str, level: &Option<String>) -> (r: String)
    ensures
        badge_shown(r@, padded_badge@, opt_seq(*level), true),
{
    let color = match level {
        Some(l) => {
            let k = to_lower(l.as_str());
            let k = k.as_str();
            if str_eq(k, "error") || str_eq(k, "fatal") || str_eq(k, "critical") {
                Some(TermColor::Red)
            } else if str_eq(k, "warn") || str_eq(k, "warning") {
                Some(TermColor::Yellow)
            } else if str_eq(k, "info") {
                Some(TermColor::Cyan)
            } else if str_eq(k, "debug") || str_eq(k, "trace") {
                Some(TermColor::DarkGrey)
            } else {
                None
            }
        },
        None => None,
    };
    assert(color == badge_color(opt_seq(*level)));
    match color {
        Some(c) => paint(padded_badge, c),
        None => owned(padded_badge),
    }
}

/// Appends one event line (see `event_line`).
fn push_event(
    out: &mut String,
    row: &Json,
    index: usize,
    count: usize,
    f: &PickedFields,
    tw: usize,
    mw: Option<usize>,
    badge: &str,
)
    requires
        index < count,
    ensures
        final(out)@ == old(out)@ + event_line(
            *row,
            index as int,
            count as int,
            f.view(),
            tw as nat,
            match mw {
                Some(w) => Some(w as nat),
                None => None,
            },
            badge@,
        ),
{
    let ghost start = out@;
    let t = padded(time_of(row, f).as_str(), tw);
    let m = shown_message_of(row, f, mw);
    let suffix = suffix_of(row, f);
    push_str(out, if index + 1 == count { "└─" } else { "├─" });
    push_str(out, " ");
    push_str(out, t.as_str());
    push_str(out, "  ");
    push_str(out, badge);
    push_str(out, "  ");
    push_str(out, m.as_str());
    push_str(out, suffix.as_str());
    push_str(out, "\n");
    assert(out@ =~= start + (branch(index + 1 == count) + " "@ + t@ + "  "@ + badge@ + "  "@ + m@
        + suffix@ + "\n"@));
}

fn shown_message_of(row: &Json, f: &PickedFields, mw: Option<usize>) -> (r: String)
    ensures
        r@ == shown_message(
            entry_message(*row, f.view()),
            match mw {
                Some(w) => Some(w as nat),
                None => None,
            },
        ),
{
    let m = message_of(row, f);
    match mw {
        Some(w) => truncate(m.as_str(), w),
        None => m,
    }
}

fn suffix_of(row: &Json, f: &PickedFields) -> (r: String)
    ensures
        r@ == source_suffix(entry_source(*row, f.view())),
{
    let mut r = String::new();
    match field_text(row, &f.source) {
        Some(s) => {
            push_str(&mut r, "  (");
            push_str(&mut r, s.as_str());
            push_str(&mut r, ")");
        },
        None => {},
    }
    r
}

/// The widest time and badge among the records at `idx`.
fn widths(data: &[Json], idx: &Vec<usize>, f: &PickedFields) -> (r: (usize, usize))
    requires
        indices_in(idx@, data@.len()),
    ensures
        r.0 == time_width(rows_at(data@, idx@), f.view(), idx@.len()),
        r.1 == level_width(rows_at(data@, idx@), f.view(), idx@.len()),
{
    let ghost rows = rows_at(data@, idx@);
    let mut tw: usize = 0;
    let mut lw: usize = 0;
    let mut i: usize = 0;
    while i < idx.len()
        invariant
            i <= idx@.len(),
            indices_in(idx@, data@.len()),
            rows == rows_at(data@, idx@),
            tw == time_width(rows, f.view(), i as nat),
            lw == level_width(rows, f.view(), i as nat),
        decreases idx.len() - i,
    {
        let row = &data[idx[i]];
        assert(rows[i as int] == *row);
        let t = char_count(time_of(row, f).as_str());
        if t > tw {
            tw = t;
        }
        let level = field_text(row, &f.level);
        let b = badge_room_of(&level);
        if b > lw {
            lw = b;
        }
        i = i + 1;
    }
    (tw, lw)
}

pub struct TimelineRenderer;

impl TimelineRenderer {
    pub fn render_timeline(&self, data: &[Json], options: &RenderOptions) -> (r: String)
        ensures
            !leads_with_object(data@, *options) ==> r@ == Seq::<char>::empty(),
            leads_with_object(data@, *options) ==> exists|badges: Seq<Seq<char>>|
                badges.len() == timeline_rows(data@, *options).len() && (forall|i: int|
                    0 <= i < badges.len() ==> shown_badge(data@, *options, i, #[trigger] badges[i]))
                    && r@ == timeline_text(data@, *options, badges),
            !options.color ==> r@ == plain_timeline(data@, *options),
    {
        let idx = sorted_filtered_indices(data, options);
        if idx.len() == 0 || !data[idx[0]].is_object() {
            proof {
                let rows = sorted_filtered(data@, *options);
                if rows.len() > 0 {
                    assert(rows[0] == data@[idx@[0] as int]);
                }
            }
            return String::new();
        }
        let ghost first = data@[idx@[0] as int];
        assert(first == sorted_filtered(data@, *options)[0]);
        let keys = data[idx[0]].keys();
        assert(views(keys@) =~= keys_of(first));
        let f = PickedFields {
            time: pick_field(&keys, &vec!["timestamp", "time", "date"]),
            level: pick_field(&keys, &vec!["level", "severity"]),
            message: pick_field(&keys, &vec!["message", "event", "description", "summary"]),
            source: pick_field(&keys, &vec!["source", "host", "origin"]),
        };
        proof {
            assert(str_views(seq!["timestamp", "time", "date"]) =~= time_fields());
            assert(str_views(seq!["level", "severity"]) =~= level_fields());
            assert(str_views(seq!["message", "event", "description", "summary"])
                =~= message_fields());
            assert(str_views(seq!["source", "host", "origin"]) =~= source_fields());
            assert(f.view() == shown_fields(data@, *options));
        }
        let idx = match (&options.sort, &f.time) {
            (None, Some(t)) => sort_indices(data, idx, t.as_str(), false),
            _ => idx,
        };
        let ghost rows = rows_at(data@, idx@);
        assert(rows == timeline_rows(data@, *options));
        let (tw, lw) = widths(data, &idx, &f);
        let mw: Option<usize> = match options.width {
            Some(w) => {
                let rest = w.saturating_sub(tw.saturating_add(lw).saturating_add(10));
                Some(if rest > 10 { rest } else { 10 })
            },
            None => None,
        };
        let ghost mwv = message_width(options.width, tw as nat, lw as nat);
        assert(mwv == match mw {
            Some(w) => Some(w as nat),
            None => None::<nat>,
        });
        let mut out = owned("│\n");
        let ghost mut badges = Seq::<Seq<char>>::empty();
        let n = idx.len();
        let mut i: usize = 0;
        while i < n
            invariant
                n == idx@.len(),
                indices_in(idx@, data@.len()),
                rows == rows_at(data@, idx@),
                rows == timeline_rows(data@, *options),
                leads_with_object(data@, *options),
                f.view() == shown_fields(data@, *options),
                tw == time_width(rows, f.view(), rows.len()),
                lw == level_width(rows, f.view(), rows.len()),
                mwv == message_width(options.width, tw as nat, lw as nat),
                mwv == match mw {
                    Some(w) => Some(w as nat),
                    None => None::<nat>,
                },
                i <= n,
                badges.len() == i,
                forall|q: int| 0 <= q < i ==> shown_badge(data@, *options, q, #[trigger] badges[q]),
                !options.color ==> forall|q: int|
                    0 <= q < i ==> #[trigger] badges[q] == padded_badge(data@, *options, q),
                out@ == "│\n"@ + event_lines(rows, f.view(), tw as nat, mwv, badges, i as nat),
            decreases n - i,
        {
            let row = &data[idx[i]];
            assert(rows[i as int] == *row);
            let level = field_text(row, &f.level);
            let mut badge = String::new();
            match &level {
                Some(l) => {
                    push_str(&mut badge, "[");
                    let up = to_upper(l.as_str());
                    push_str(&mut badge, up.as_str());
                    push_str(&mut badge, "]");
                },
                None => {},
            }
            assert(badge@ == badge_text(opt_seq(level)));
            let pb = padded(badge.as_str(), lw);
            let display = if options.color {
                colorize_badge(pb.as_str(), &level)
            } else {
                pb
            };
            push_event(&mut out, row, i, n, &f, tw, mw, display.as_str());
            proof {
                let old_b = badges;
                badges = badges.push(display@);
                assert(badges.drop_last() =~= old_b);
                lemma_event_lines_prefix(rows, f.view(), tw as nat, mwv, old_b, badges, i as nat);
                assert(out@ =~= "│\n"@ + event_lines(
                    rows,
                    f.view(),
                    tw as nat,
                    mwv,
                    badges,
                    (i + 1) as nat,
                ));
                assert forall|q: int| 0 <= q < i + 1 implies shown_badge(
                    data@,
                    *options,
                    q,
                    #[trigger] badges[q],
                ) by {
                    if q < i {
                        assert(badges[q] == old_b[q]);
                    }
                }
                if !options.color {
                    assert forall|q: int| 0 <= q < i + 1 implies #[trigger] badges[q]
                        == padded_badge(data@, *options, q) by {
                        if q < i {
                            assert(badges[q] == old_b[q]);
                        }
                    }
                }
            }
            i = i + 1;
        }
        proof {
            assert(rows.len() == n);
            assert(out@ == timeline_text(data@, *options, badges));
            if !options.color {
                assert(badges =~= Seq::new(rows.len(), |q: int| padded_badge(data@, *options, q)));
            }
        }
        out
    }
}

proof fn lemma_event_lines_prefix(
    rows: Seq<Json>,
    f: TimelineFields,
    tw: nat,
    mw: Option<nat>,
    a: Seq<Seq<char>>,
    b: Seq<Seq<char>>,
    k: nat,
)
    requires
        k <= a.len(),
        k <= b.len(),
        forall|q: int| 0 <= q < k ==> a[q] == b[q],
    ensures
        event_lines(rows, f, tw, mw, a, k) == event_lines(rows, f, tw, mw, b, k),
    decreases k,
{
    if k > 0 {
        lemma_event_lines_prefix(rows, f, tw, mw, a, b, (k - 1) as nat);
    }
}

/// Without `--sort`, a timeline is chronological: its events are the
/// records shown, each once, ordered by the time field's text.
pub proof fn law_timeline_is_chronological(data: Seq<Json>, options: RenderOptions)
    requires
        leads_with_object(data, options),
        options.sort is None,
        shown_fields(data, options).time is Some,
    ensures
        is_sorted_by(
            timeline_rows(data, options),
            shown_fields(data, options).time->0,
            false,
        ),
        timeline_rows(data, options).to_multiset() == sorted_filtered(data, options).to_multiset(),
{
    law_sort_rows_sorted_permutation(
        sorted_filtered(data, options),
        shown_fields(data, options).time->0,
        false,
    );
}

/// With `--sort`, the events keep the order the sort gave them.
pub proof fn law_timeline_keeps_explicit_sort(data: Seq<Json>, options: RenderOptions)
    requires
        options.sort is Some,
    ensures
        timeline_rows(data, options) == sorted_filtered(data, options),
{
}

// ---------------------------------------------------------------------------
// Layout law
// ---------------------------------------------------------------------------

/// The lines of a timeline whose badges show as `badges`: `│`, then one
/// line per event.
pub open spec fn timeline_lines_with(
    data: Seq<Json>,
    options: RenderOptions,
    badges: Seq<Seq<char>>,
) -> Seq<Seq<char>> {
    let rows = timeline_rows(data, options);
    let f = shown_fields(data, options);
    let tw = time_width(rows, f, rows.len());
    let lw = level_width(rows, f, rows.len());
    seq!["│"@] + Seq::new(
        rows.len(),
        |i: int|
            event_body(
                rows[i],
                i,
                rows.len() as int,
                f,
                tw,
                message_width(options.width, tw, lw),
                badges[i],
            ),
    )
}

/// The badges of a timeline without colors.
pub open spec fn plain_badges(data: Seq<Json>, options: RenderOptions) -> Seq<Seq<char>> {
    Seq::new(timeline_rows(data, options).len(), |i: int| padded_badge(data, options, i))
}

/// The lines of a timeline without colors.
pub open spec fn timeline_lines(data: Seq<Json>, options: RenderOptions) -> Seq<Seq<char>> {
    timeline_lines_with(data, options, plain_badges(data, options))
}

/// An event none of whose parts (time, level, message, source) holds a
/// line break.
pub open spec fn single_line_event(row: Json, f: TimelineFields) -> bool {
    &&& one_line(entry_time(row, f))
    &&& one_line(entry_message(row, f))
    &&& entry_level(row, f) matches Some(l) ==> one_line(l)
    &&& entry_source(row, f) matches Some(s) ==> one_line(s)
}

/// No event of the timeline has a part holding a line break.
pub open spec fn single_line_events(data: Seq<Json>, options: RenderOptions) -> bool {
    forall|i: int|
        0 <= i < timeline_rows(data, options).len() ==> single_line_event(
            #[trigger] timeline_rows(data, options)[i],
            shown_fields(data, options),
        )
}

proof fn lemma_starts_with_prefix(a: Seq<char>, b: Seq<char>)
    ensures
        starts_with(a + b, a),
{
    assert((a + b).take(a.len() as int) =~= a);
}

proof fn lemma_event_lines_block(
    rows: Seq<Json>,
    f: TimelineFields,
    tw: nat,
    mw: Option<nat>,
    badges: Seq<Seq<char>>,
    k: nat,
)
    requires
        k <= rows.len(),
        k <= badges.len(),
    ensures
        event_lines(rows, f, tw, mw, badges, k) == line_block(
            Seq::new(k, |i: int| event_body(rows[i], i, rows.len() as int, f, tw, mw, badges[i])),
        ),
    decreases k,
{
    let ls = Seq::new(k, |i: int| event_body(rows[i], i, rows.len() as int, f, tw, mw, badges[i]));
    if k > 0 {
        lemma_event_lines_block(rows, f, tw, mw, badges, (k - 1) as nat);
        assert(ls.drop_last() =~= Seq::new(
            (k - 1) as nat,
            |i: int| event_body(rows[i], i, rows.len() as int, f, tw, mw, badges[i]),
        ));
    } else {
        assert(ls =~= Seq::<Seq<char>>::empty());
    }
}

/// A badge with no line break in its level has none when padded.
proof fn lemma_badge_one_line(level: Option<Seq<char>>, lw: nat)
    requires
        level matches Some(l) ==> one_line(l),
    ensures
        one_line(pad_right(badge_text(level), lw)),
{
    reveal_strlit("[");
    reveal_strlit("]");
    match level {
        Some(l) => {
            lemma_one_line_upper(l);
            lemma_one_line_concat("["@, ascii_upper(l));
            lemma_one_line_concat("["@ + ascii_upper(l), "]"@);
        },
        None => {},
    }
    lemma_one_line_pad(badge_text(level), lw);
}

/// Event `i`'s line holds no line break when none of its parts, nor its
/// badge as shown, does.
proof fn lemma_event_one_line(
    row: Json,
    i: int,
    n: int,
    f: TimelineFields,
    tw: nat,
    mw: Option<nat>,
    badge: Seq<char>,
)
    requires
        single_line_event(row, f),
        one_line(badge),
    ensures
        one_line(event_body(row, i, n, f, tw, mw, badge)),
{
    reveal_strlit("├─");
    reveal_strlit("└─");
    reveal_strlit(" ");
    reveal_strlit("  ");
    reveal_strlit("  (");
    reveal_strlit(")");
    lemma_one_line_pad(entry_time(row, f), tw);
    match mw {
        Some(w) => lemma_one_line_truncated(entry_message(row, f), w),
        None => {},
    }
    let time = pad_right(entry_time(row, f), tw);
    let msg = shown_message(entry_message(row, f), mw);
    let src = source_suffix(entry_source(row, f));
    match entry_source(row, f) {
        Some(s) => {
            lemma_one_line_concat("  ("@, s);
            lemma_one_line_concat("  ("@ + s, ")"@);
        },
        None => {},
    }
    let br = branch(i + 1 == n);
    assert(one_line(br));
    lemma_one_line_concat(br, " "@);
    lemma_one_line_concat(br + " "@, time);
    lemma_one_line_concat(br + " "@ + time, "  "@);
    lemma_one_line_concat(br + " "@ + time + "  "@, badge);
    lemma_one_line_concat(br + " "@ + time + "  "@ + badge, "  "@);
    lemma_one_line_concat(br + " "@ + time + "  "@ + badge + "  "@, msg);
    lemma_one_line_concat(br + " "@ + time + "  "@ + badge + "  "@ + msg, src);
}

/// Event `i`'s line starts with its connector.
proof fn lemma_event_starts(
    row: Json,
    i: int,
    n: int,
    f: TimelineFields,
    tw: nat,
    mw: Option<nat>,
    badge: Seq<char>,
)
    ensures
        starts_with(
            event_body(row, i, n, f, tw, mw, badge),
            if i + 1 == n {
                "└─ "@
            } else {
                "├─ "@
            },
        ),
{
    reveal_strlit("├─");
    reveal_strlit("└─");
    reveal_strlit(" ");
    reveal_strlit("├─ ");
    reveal_strlit("└─ ");
    let head = branch(i + 1 == n) + " "@;
    let rest = pad_right(entry_time(row, f), tw) + "  "@ + badge + "  "@ + shown_message(
        entry_message(row, f),
        mw,
    ) + source_suffix(entry_source(row, f));
    assert(head =~= if i + 1 == n {
        "└─ "@
    } else {
        "├─ "@
    });
    assert(event_body(row, i, n, f, tw, mw, badge) =~= head + rest);
    lemma_starts_with_prefix(head, rest);
}

proof fn lemma_timeline_text(data: Seq<Json>, options: RenderOptions, badges: Seq<Seq<char>>)
    requires
        leads_with_object(data, options),
        badges.len() == timeline_rows(data, options).len(),
    ensures
        timeline_text(data, options, badges) == line_block(
            timeline_lines_with(data, options, badges),
        ),
{
    let rows = timeline_rows(data, options);
    let f = shown_fields(data, options);
    let tw = time_width(rows, f, rows.len());
    let lw = level_width(rows, f, rows.len());
    let mw = message_width(options.width, tw, lw);
    let n = rows.len();
    let body = Seq::new(n, |i: int| event_body(rows[i], i, n as int, f, tw, mw, badges[i]));
    assert(timeline_lines_with(data, options, badges) =~= seq!["│"@] + body);
    lemma_event_lines_block(rows, f, tw, mw, badges, n);
    lemma_line_block_append(seq!["│"@], body);
    assert(seq!["│"@].drop_last() =~= Seq::<Seq<char>>::empty());
    assert(line_block(Seq::<Seq<char>>::empty()) == Seq::<char>::empty());
    assert(line_block(seq!["│"@]) =~= "│"@ + "\n"@);
    reveal_strlit("│\n");
    reveal_strlit("│");
    reveal_strlit("\n");
    assert("│\n"@ =~= "│"@ + "\n"@);
    assert(line_block(seq!["│"@] + body) =~= "│\n"@ + event_lines(rows, f, tw, mw, badges, n));
}

/// The layout of a timeline whose badges show as `badges` (see
/// `law_timeline_layout` and `law_colored_timeline_layout`).
proof fn lemma_layout_with(data: Seq<Json>, options: RenderOptions, badges: Seq<Seq<char>>)
    requires
        leads_with_object(data, options),
        badges.len() == timeline_rows(data, options).len(),
    ensures
        timeline_text(data, options, badges) == line_block(
            timeline_lines_with(data, options, badges),
        ),
        timeline_lines_with(data, options, badges).len() == timeline_rows(data, options).len() + 1,
        timeline_rows(data, options).len() == sorted_filtered(data, options).len(),
        timeline_lines_with(data, options, badges)[0] == "│"@,
        forall|k: int|
            1 <= k < timeline_lines_with(data, options, badges).len() - 1 ==> starts_with(
                #[trigger] timeline_lines_with(data, options, badges)[k],
                "├─ "@,
            ),
        starts_with(timeline_lines_with(data, options, badges).last(), "└─ "@),
        single_line_events(data, options) && (forall|i: int|
            0 <= i < badges.len() ==> one_line(#[trigger] badges[i])) ==> forall|k: int|
            0 <= k < timeline_lines_with(data, options, badges).len() ==> one_line(
                #[trigger] timeline_lines_with(data, options, badges)[k],
            ),
{
    let rows = timeline_rows(data, options);
    let f = shown_fields(data, options);
    let tw = time_width(rows, f, rows.len());
    let lw = level_width(rows, f, rows.len());
    let mw = message_width(options.width, tw, lw);
    let n = rows.len();
    let lines = timeline_lines_with(data, options, badges);
    lemma_timeline_text(data, options, badges);
    match (options.sort, f.time) {
        (None, Some(t)) => {
            law_sort_rows_sorted_permutation(sorted_filtered(data, options), t, false);
            vstd::seq_lib::to_multiset_len(rows);
            vstd::seq_lib::to_multiset_len(sorted_filtered(data, options));
        },
        _ => {},
    }
    assert forall|k: int| 1 <= k < lines.len() implies starts_with(
        #[trigger] lines[k],
        if k == lines.len() - 1 {
            "└─ "@
        } else {
            "├─ "@
        },
    ) by {
        lemma_event_starts(rows[k - 1], k - 1, n as int, f, tw, mw, badges[k - 1]);
    }
    assert(lines.last() == lines[lines.len() - 1]);
    if single_line_events(data, options) && (forall|i: int|
        0 <= i < badges.len() ==> one_line(#[trigger] badges[i])) {
        reveal_strlit("│");
        assert forall|k: int| 0 <= k < lines.len() implies one_line(#[trigger] lines[k]) by {
            if k > 0 {
                assert(single_line_event(rows[k - 1], f));
                assert(one_line(badges[k - 1]));
                lemma_event_one_line(rows[k - 1], k - 1, n as int, f, tw, mw, badges[k - 1]);
            }
        }
    }
}

/// A timeline is a `│` line, then one line per event, each ended by a
/// line break: every event but the last starts with `├─ `, the last with
/// `└─ `. When no event part holds a line break, no line does.
pub proof fn law_timeline_layout(data: Seq<Json>, options: RenderOptions)
    requires
        leads_with_object(data, options),
    ensures
        plain_timeline(data, options) == line_block(timeline_lines(data, options)),
        timeline_lines(data, options).len() == timeline_rows(data, options).len() + 1,
        timeline_rows(data, options).len() == sorted_filtered(data, options).len(),
        timeline_lines(data, options)[0] == "│"@,
        forall|k: int|
            1 <= k < timeline_lines(data, options).len() - 1 ==> starts_with(
                #[trigger] timeline_lines(data, options)[k],
                "├─ "@,
            ),
        starts_with(timeline_lines(data, options).last(), "└─ "@),
        single_line_events(data, options) ==> forall|k: int|
            0 <= k < timeline_lines(data, options).len() ==> one_line(
                #[trigger] timeline_lines(data, options)[k],
            ),
{
    let badges = plain_badges(data, options);
    let rows = timeline_rows(data, options);
    let f = shown_fields(data, options);
    if single_line_events(data, options) {
        assert forall|i: int| 0 <= i < badges.len() implies one_line(#[trigger] badges[i]) by {
            assert(single_line_event(rows[i], f));
            lemma_badge_one_line(entry_level(rows[i], f), level_width(rows, f, rows.len()));
        }
    }
    lemma_layout_with(data, options, badges);
}

/// The same layout holds with color on, whichever form the terminal
/// painter gives each badge: painting adds no line and no line break.
pub proof fn law_colored_timeline_layout(
    data: Seq<Json>,
    options: RenderOptions,
    badges: Seq<Seq<char>>,
)
    requires
        leads_with_object(data, options),
        badges.len() == timeline_rows(data, options).len(),
        forall|i: int| 0 <= i < badges.len() ==> shown_badge(data, options, i, #[trigger] badges[i]),
    ensures
        timeline_text(data, options, badges) == line_block(
            timeline_lines_with(data, options, badges),
        ),
        timeline_lines_with(data, options, badges).len() == sorted_filtered(data, options).len() + 1,
        timeline_lines_with(data, options, badges)[0] == "│"@,
        forall|k: int|
            1 <= k < timeline_lines_with(data, options, badges).len() - 1 ==> starts_with(
                #[trigger] timeline_lines_with(data, options, badges)[k],
                "├─ "@,
            ),
        starts_with(timeline_lines_with(data, options, badges).last(), "└─ "@),
        single_line_events(data, options) ==> forall|k: int|
            0 <= k < timeline_lines_with(data, options, badges).len() ==> one_line(
                #[trigger] timeline_lines_with(data, options, badges)[k],
            ),
{
    let rows = timeline_rows(data, options);
    let f = shown_fields(data, options);
    if single_line_events(data, options) {
        assert forall|i: int| 0 <= i < badges.len() implies one_line(#[trigger] badges[i]) by {
            assert(single_line_event(rows[i], f));
            let level = entry_level(rows[i], f);
            lemma_badge_one_line(level, level_width(rows, f, rows.len()));
            assert(shown_badge(data, options, i, badges[i]));
            match badge_color(level) {
                Some(c) => {
                    if options.color {
                        lemma_painted_one_line(badges[i], padded_badge(data, options, i), c);
                    }
                },
                None => {},
            }
        }
    }
    lemma_layout_with(data, options, badges);
}

impl Renderer for TimelineRenderer {
    fn render(&self, data: &[Json], options: &RenderOptions) -> (r: String)
        ensures
            !leads_with_object(data@, *options) ==> r@ == Seq::<char>::empty(),
            leads_with_object(data@, *options) ==> exists|badges: Seq<Seq<char>>|
                badges.len() == timeline_rows(data@, *options).len() && (forall|i: int|
                    0 <= i < badges.len() ==> shown_badge(data@, *options, i, #[trigger] badges[i]))
                    && r@ == timeline_text(data@, *options, badges),
            !options.color ==> r@ == plain_timeline(data@, *options),
    {
        self.render_timeline(data, options)
    }
}

} // verus!
