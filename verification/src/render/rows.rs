//! Options every mode shares, and the row pipeline they all start with:
//! `--filter field=value` keeps the records whose field reads exactly
//! `value`; `--sort field` then orders them by that field, stably.
//!
//! Sort order: records whose field holds a number come first, ordered by
//! numeric value; all others follow, ordered by the field's display text
//! (a missing field reads as the empty text). Records that compare equal
//! keep their input order.
use vstd::prelude::*;
use vstd::multiset::Multiset;
use crate::json::{Json, cell_text, cell_text_of, json_get};
use crate::text::{seq_lt, str_lt, str_eq, lemma_seq_lt_irreflexive, lemma_seq_lt_transitive,
    lemma_seq_lt_total, lemma_seq_lt_asymmetric};

verus! {

pub struct RenderOptions {
    /// `--sort <field>`.
    pub sort: Option<String>,
    /// `--filter <field>=<value>`, already split at the first `=`.
    pub filter: Option<(String, String)>,
    /// `--width <cols>`.
    pub width: Option<usize>,
    /// Whether to emit ANSI colors.
    pub color: bool,
}

/// A mode's renderer: records in, rendered text out.
pub trait Renderer {
    fn render(&self, data: &[Json], options: &RenderOptions) -> String;
}

// ---------------------------------------------------------------------------
// Filtering
// ---------------------------------------------------------------------------

pub open spec fn keeps(row: Json, filter: Option<(String, String)>) -> bool {
    match filter {
        None => true,
        Some(f) => cell_text(row, f.0@) == f.1@,
    }
}

pub open spec fn filter_rows(data: Seq<Json>, filter: Option<(String, String)>) -> Seq<Json>
    decreases data.len(),
{
    if data.len() == 0 {
        Seq::empty()
    } else {
        let r = filter_rows(data.drop_last(), filter);
        if keeps(data.last(), filter) {
            r.push(data.last())
        } else {
            r
        }
    }
}

// ---------------------------------------------------------------------------
// Ordering
// ---------------------------------------------------------------------------

/// The order key of a record's field when numbers sort numerically.
pub open spec fn num_key(row: Json, field: Seq<char>) -> Option<u64> {
    match json_get(row, field) {
        Some(Json::Number(n)) => Some(n.key),
        _ => None,
    }
}

/// Strict "sorts before" on records by `field`. With `numeric`, number
/// fields come first in numeric order; otherwise (and among non-numbers)
/// records order by the field's display text.
pub open spec fn key_lt(a: Json, b: Json, field: Seq<char>, numeric: bool) -> bool {
    let ka = num_key(a, field);
    let kb = num_key(b, field);
    if numeric && ka is Some && kb is Some {
        ka->0 < kb->0
    } else if numeric && ka is Some {
        true
    } else if numeric && kb is Some {
        false
    } else {
        seq_lt(cell_text(a, field), cell_text(b, field))
    }
}

pub proof fn lemma_key_lt_irreflexive(a: Json, field: Seq<char>, numeric: bool)
    ensures
        !key_lt(a, a, field, numeric),
{
    lemma_seq_lt_irreflexive(cell_text(a, field));
}

pub proof fn lemma_key_lt_asymmetric(a: Json, b: Json, field: Seq<char>, numeric: bool)
    ensures
        key_lt(a, b, field, numeric) ==> !key_lt(b, a, field, numeric),
{
    lemma_seq_lt_asymmetric(cell_text(a, field), cell_text(b, field));
}

pub proof fn lemma_key_le_transitive(a: Json, b: Json, c: Json, field: Seq<char>, numeric: bool)
    ensures
        !key_lt(b, a, field, numeric) && !key_lt(c, b, field, numeric) ==> !key_lt(
            c,
            a,
            field,
            numeric,
        ),
{
    let (ta, tb, tc) = (cell_text(a, field), cell_text(b, field), cell_text(c, field));
    lemma_seq_lt_total(ta, tb);
    lemma_seq_lt_total(tb, tc);
    lemma_seq_lt_total(ta, tc);
    if seq_lt(tc, ta) && !seq_lt(tb, ta) && !seq_lt(tc, tb) {
        if seq_lt(ta, tb) {
            lemma_seq_lt_transitive(tc, ta, tb);
        }
    }
}

pub proof fn lemma_key_lt_transitive(a: Json, b: Json, c: Json, field: Seq<char>, numeric: bool)
    ensures
        key_lt(a, b, field, numeric) && key_lt(b, c, field, numeric) ==> key_lt(
            a,
            c,
            field,
            numeric,
        ),
{
    let (ta, tb, tc) = (cell_text(a, field), cell_text(b, field), cell_text(c, field));
    if seq_lt(ta, tb) && seq_lt(tb, tc) {
        lemma_seq_lt_transitive(ta, tb, tc);
    }
}

/// "Sorts before" is a strict order: irreflexive, asymmetric and
/// transitive, for every field and either way of comparing numbers.
pub proof fn law_sort_key_is_a_strict_order(
    a: Json,
    b: Json,
    c: Json,
    field: Seq<char>,
    numeric: bool,
)
    ensures
        !key_lt(a, a, field, numeric),
        key_lt(a, b, field, numeric) ==> !key_lt(b, a, field, numeric),
        key_lt(a, b, field, numeric) && key_lt(b, c, field, numeric) ==> key_lt(
            a,
            c,
            field,
            numeric,
        ),
{
    lemma_key_lt_irreflexive(a, field, numeric);
    lemma_key_lt_asymmetric(a, b, field, numeric);
    lemma_key_lt_transitive(a, b, c, field, numeric);
}

/// Inserts `x` after every element that does not sort after it.
pub open spec fn insert_sorted(s: Seq<Json>, x: Json, field: Seq<char>, numeric: bool) -> Seq<
    Json,
>
    decreases s.len(),
{
    if s.len() == 0 {
        seq![x]
    } else if key_lt(x, s.last(), field, numeric) {
        insert_sorted(s.drop_last(), x, field, numeric).push(s.last())
    } else {
        s.push(x)
    }
}

/// Stable insertion sort by `field`.
pub open spec fn sort_rows(s: Seq<Json>, field: Seq<char>, numeric: bool) -> Seq<Json>
    decreases s.len(),
{
    if s.len() == 0 {
        s
    } else {
        insert_sorted(sort_rows(s.drop_last(), field, numeric), s.last(), field, numeric)
    }
}

/// The records a renderer shows, in the order it shows them.
pub open spec fn sorted_filtered(data: Seq<Json>, options: RenderOptions) -> Seq<Json> {
    let kept = filter_rows(data, options.filter);
    match options.sort {
        Some(field) => sort_rows(kept, field@, true),
        None => kept,
    }
}

/// Whether the records shown start with an object, the record whose field
/// names the record-based modes pick from.
pub open spec fn leads_with_object(data: Seq<Json>, options: RenderOptions) -> bool {
    let rows = sorted_filtered(data, options);
    rows.len() > 0 && rows[0] is Object
}

/// The records at the given positions.
pub open spec fn rows_at(data: Seq<Json>, idx: Seq<usize>) -> Seq<Json> {
    Seq::new(idx.len(), |k: int| data[idx[k] as int])
}

pub open spec fn indices_in(idx: Seq<usize>, n: nat) -> bool {
    forall|k: int| 0 <= k < idx.len() ==> #[trigger] idx[k] < n
}

/// Where the scan from the end stops is where `insert_sorted` puts `x`.
proof fn lemma_insert_sorted_at(s: Seq<Json>, x: Json, field: Seq<char>, numeric: bool, pos: int)
    requires
        0 <= pos <= s.len(),
        forall|q: int| pos <= q < s.len() ==> key_lt(x, #[trigger] s[q], field, numeric),
        pos > 0 ==> !key_lt(x, s[pos - 1], field, numeric),
    ensures
        insert_sorted(s, x, field, numeric) == s.insert(pos, x),
    decreases s.len(),
{
    if s.len() == 0 {
        assert(s.insert(pos, x) =~= seq![x]);
    } else if key_lt(x, s.last(), field, numeric) {
        let d = s.drop_last();
        assert(pos < s.len());
        lemma_insert_sorted_at(d, x, field, numeric, pos);
        assert(d.insert(pos, x).push(s.last()) =~= s.insert(pos, x));
    } else {
        assert(pos == s.len());
        assert(s.push(x) =~= s.insert(pos, x));
    }
}

/// `a` sorts before `b` (see `key_lt`).
pub fn sorts_before(a: &Json, b: &Json, field: &str, numeric: bool) -> (r: bool)
    ensures
        r == key_lt(*a, *b, field@, numeric),
{
    let na = match a.get(field) {
        Some(Json::Number(n)) => Some(n.key),
        _ => None,
    };
    let nb = match b.get(field) {
        Some(Json::Number(n)) => Some(n.key),
        _ => None,
    };
    if numeric && na.is_some() && nb.is_some() {
        na.unwrap() < nb.unwrap()
    } else if numeric && na.is_some() {
        true
    } else if numeric && nb.is_some() {
        false
    } else {
        let ta = cell_text_of(a, field);
        let tb = cell_text_of(b, field);
        str_lt(ta.as_str(), tb.as_str())
    }
}

/// Stable sort of positions into `data` by the records' `field`.
pub(crate) fn sort_indices(data: &[Json], idx: Vec<usize>, field: &str, numeric: bool) -> (r: Vec<usize>)
    requires
        indices_in(idx@, data@.len()),
    ensures
        indices_in(r@, data@.len()),
        rows_at(data@, r@) == sort_rows(rows_at(data@, idx@), field@, numeric),
{
    let mut res: Vec<usize> = Vec::new();
    let mut t: usize = 0;
    while t < idx.len()
        invariant
            t <= idx.len(),
            indices_in(idx@, data@.len()),
            indices_in(res@, data@.len()),
            rows_at(data@, res@) == sort_rows(rows_at(data@, idx@).take(t as int), field@, numeric),
        decreases idx.len() - t,
    {
        let j = idx[t];
        let ghost s = rows_at(data@, res@);
        let mut pos: usize = res.len();
        while pos > 0 && sorts_before(&data[j], &data[res[pos - 1]], field, numeric)
            invariant
                pos <= res.len(),
                j < data@.len(),
                indices_in(res@, data@.len()),
                s == rows_at(data@, res@),
                forall|q: int| pos <= q < s.len() ==> key_lt(data@[j as int], #[trigger] s[q], field@, numeric),
            decreases pos,
        {
            pos = pos - 1;
        }
        proof {
            lemma_insert_sorted_at(s, data@[j as int], field@, numeric, pos as int);
        }
        res.insert(pos, j);
        proof {
            let all = rows_at(data@, idx@);
            assert(all.take(t + 1).drop_last() =~= all.take(t as int));
            assert(all.take(t + 1).last() == data@[j as int]);
            assert(rows_at(data@, res@) =~= s.insert(pos as int, data@[j as int]));
        }
        t = t + 1;
    }
    assert(rows_at(data@, idx@).take(idx.len() as int) =~= rows_at(data@, idx@));
    res
}

/// Applies `--filter` then `--sort`, giving the positions of the records to
/// show, in order.
pub fn sorted_filtered_indices(data: &[Json], options: &RenderOptions) -> (r: Vec<usize>)
    ensures
        indices_in(r@, data@.len()),
        rows_at(data@, r@) == sorted_filtered(data@, *options),
{
    let mut kept: Vec<usize> = Vec::new();
    let mut i: usize = 0;
    while i < data.len()
        invariant
            i <= data@.len(),
            indices_in(kept@, data@.len()),
            rows_at(data@, kept@) == filter_rows(data@.take(i as int), options.filter),
        decreases data.len() - i,
    {
        let keep = match &options.filter {
            None => true,
            Some(f) => {
                let t = cell_text_of(&data[i], f.0.as_str());
                str_eq(t.as_str(), f.1.as_str())
            },
        };
        proof {
            assert(data@.take(i + 1).drop_last() =~= data@.take(i as int));
            assert(data@.take(i + 1).last() == data@[i as int]);
        }
        if keep {
            kept.push(i);
            assert(rows_at(data@, kept@) =~= filter_rows(data@.take(i as int), options.filter).push(
                data@[i as int],
            ));
        }
        i = i + 1;
    }
    assert(data@.take(data@.len() as int) =~= data@);
    match &options.sort {
        Some(field) => sort_indices(data, kept, field.as_str(), true),
        None => kept,
    }
}

// ---------------------------------------------------------------------------
// Picking a field by name
// ---------------------------------------------------------------------------

pub open spec fn str_views(v: Seq<&str>) -> Seq<Seq<char>> {
    Seq::new(v.len(), |i: int| v[i]@)
}

/// The first preferred name that is one of `keys`.
pub open spec fn pick(keys: Seq<Seq<char>>, preferred: Seq<Seq<char>>) -> Option<Seq<char>>
    decreases preferred.len(),
{
    if preferred.len() == 0 {
        None
    } else if keys.contains(preferred[0]) {
        Some(preferred[0])
    } else {
        pick(keys, preferred.drop_first())
    }
}

fn has_key(keys: &Vec<String>, name: &str) -> (r: bool)
    ensures
        r == crate::text::views(keys@).contains(name@),
{
    let mut i: usize = 0;
    while i < keys.len()
        invariant
            i <= keys@.len(),
            forall|j: int| 0 <= j < i ==> keys@[j]@ != name@,
        decreases keys.len() - i,
    {
        if str_eq(keys[i].as_str(), name) {
            assert(crate::text::views(keys@)[i as int] == name@);
            return true;
        }
        i = i + 1;
    }
    assert forall|j: int| 0 <= j < keys@.len() implies crate::text::views(keys@)[j] != name@ by {}
    false
}

/// The first of `preferred` that names a field among `keys`.
pub fn pick_field(keys: &Vec<String>, preferred: &Vec<&str>) -> (r: Option<String>)
    ensures
        r matches Some(f) ==> pick(crate::text::views(keys@), str_views(preferred@)) == Some(f@),
        r is None ==> pick(crate::text::views(keys@), str_views(preferred@)) is None,
{
    let mut i: usize = 0;
    assert(str_views(preferred@).skip(0) =~= str_views(preferred@));
    while i < preferred.len()
        invariant
            i <= preferred@.len(),
            pick(crate::text::views(keys@), str_views(preferred@)) == pick(
                crate::text::views(keys@),
                str_views(preferred@).skip(i as int),
            ),
        decreases preferred.len() - i,
    {
        assert(str_views(preferred@).skip(i as int)[0] == preferred@[i as int]@);
        if has_key(keys, preferred[i]) {
            return Some(crate::text::owned(preferred[i]));
        }
        assert(str_views(preferred@).skip(i as int).drop_first() =~= str_views(preferred@).skip(
            i + 1,
        ));
        i = i + 1;
    }
    None
}

// ---------------------------------------------------------------------------
// Laws of the row pipeline
// ---------------------------------------------------------------------------

pub open spec fn is_sorted_by(s: Seq<Json>, field: Seq<char>, numeric: bool) -> bool {
    forall|i: int, j: int| 0 <= i < j < s.len() ==> !key_lt(s[j], s[i], field, numeric)
}

proof fn lemma_insert_sorted_props(s: Seq<Json>, x: Json, field: Seq<char>, numeric: bool)
    requires
        is_sorted_by(s, field, numeric),
    ensures
        is_sorted_by(insert_sorted(s, x, field, numeric), field, numeric),
        insert_sorted(s, x, field, numeric).to_multiset() == s.to_multiset().insert(x),
    decreases s.len(),
{
    broadcast use vstd::seq_lib::group_seq_properties;

    let r = insert_sorted(s, x, field, numeric);
    if s.len() == 0 {
        assert(r =~= seq![x]);
        assert(s =~= Seq::<Json>::empty());
    } else if key_lt(x, s.last(), field, numeric) {
        let d = s.drop_last();
        assert(is_sorted_by(d, field, numeric));
        lemma_insert_sorted_props(d, x, field, numeric);
        let rd = insert_sorted(d, x, field, numeric);
        assert(rd.to_multiset().contains(x));
        assert forall|i: int, j: int| 0 <= i < j < r.len() implies !key_lt(
            r[j],
            r[i],
            field,
            numeric,
        ) by {
            if j == r.len() - 1 {
                // r[i] is x or an element of d; all of those sort no later than s.last()
                assert(rd.to_multiset().contains(r[i]));
                assert(rd.contains(r[i]));
                if r[i] == x {
                    lemma_key_lt_asymmetric(x, s.last(), field, numeric);
                } else {
                    assert(d.to_multiset().contains(r[i]));
                    assert(d.contains(r[i]));
                    let k = choose|k: int| 0 <= k < d.len() && d[k] == r[i];
                    assert(s[k] == d[k]);
                    assert(!key_lt(s[s.len() - 1], s[k], field, numeric));
                }
            }
        }
        assert(s =~= d.push(s.last()));
    } else {
        assert forall|i: int, j: int| 0 <= i < j < r.len() implies !key_lt(
            r[j],
            r[i],
            field,
            numeric,
        ) by {
            if j == r.len() - 1 && i < s.len() - 1 {
                lemma_key_le_transitive(s[i], s.last(), x, field, numeric);
            }
        }
    }
}

/// Sorting orders the records by the sort key, and keeps every record
/// exactly as often as it occurred (the result is a permutation).
pub proof fn law_sort_rows_sorted_permutation(s: Seq<Json>, field: Seq<char>, numeric: bool)
    ensures
        is_sorted_by(sort_rows(s, field, numeric), field, numeric),
        sort_rows(s, field, numeric).to_multiset() == s.to_multiset(),
    decreases s.len(),
{
    broadcast use vstd::seq_lib::group_seq_properties;

    if s.len() > 0 {
        law_sort_rows_sorted_permutation(s.drop_last(), field, numeric);
        lemma_insert_sorted_props(sort_rows(s.drop_last(), field, numeric), s.last(), field, numeric);
        assert(s =~= s.drop_last().push(s.last()));
    } else {
        assert(s.to_multiset() =~= Multiset::empty());
    }
}

/// The sort is stable: records already in order stay exactly as they are.
pub proof fn law_sorting_sorted_rows_changes_nothing(s: Seq<Json>, field: Seq<char>, numeric: bool)
    requires
        is_sorted_by(s, field, numeric),
    ensures
        sort_rows(s, field, numeric) == s,
    decreases s.len(),
{
    if s.len() > 0 {
        let d = s.drop_last();
        assert(is_sorted_by(d, field, numeric));
        law_sorting_sorted_rows_changes_nothing(d, field, numeric);
        if d.len() > 0 {
            assert(!key_lt(s[s.len() - 1], s[s.len() - 2], field, numeric));
        }
        assert(d.push(s.last()) =~= s);
    }
}

/// Filtering keeps exactly the records whose filter field reads as the
/// filter value, in their input order.
pub proof fn law_filter_keeps_exactly_matching(data: Seq<Json>, filter: Option<(String, String)>)
    ensures
        forall|r: Json| #[trigger] filter_rows(data, filter).contains(r) <==> (data.contains(r) && keeps(r, filter)),
        filter_rows(data, filter).len() <= data.len(),
    decreases data.len(),
{
    if data.len() > 0 {
        let d = data.drop_last();
        law_filter_keeps_exactly_matching(d, filter);
        let fd = filter_rows(d, filter);
        assert forall|r: Json| #[trigger] filter_rows(data, filter).contains(r) <==> (data.contains(r)
            && keeps(r, filter)) by {
            if data.contains(r) && keeps(r, filter) {
                let k = choose|k: int| 0 <= k < data.len() && data[k] == r;
                if k < data.len() - 1 {
                    assert(d[k] == r);
                    assert(fd.contains(r));
                    let m = choose|m: int| 0 <= m < fd.len() && fd[m] == r;
                    if keeps(data.last(), filter) {
                        assert(fd.push(data.last())[m] == r);
                    }
                } else {
                    assert(filter_rows(data, filter).last() == r);
                }
            }
            if filter_rows(data, filter).contains(r) {
                let m = choose|m: int|
                    0 <= m < filter_rows(data, filter).len() && filter_rows(data, filter)[m] == r;
                if m < fd.len() {
                    assert(fd[m] == r);
                    assert(fd.contains(r));
                    let k = choose|k: int| 0 <= k < d.len() && d[k] == r;
                    assert(data[k] == r);
                } else {
                    assert(data[data.len() - 1] == r);
                }
            }
        }
    }
}

/// With no `--sort`, records keep their input order: only filtering applies.
pub proof fn law_unsorted_keeps_input_order(data: Seq<Json>, options: RenderOptions)
    requires
        options.sort is None,
    ensures
        sorted_filtered(data, options) == filter_rows(data, options.filter),
{
}

/// With neither option, every record is shown in input order.
pub proof fn law_no_options_shows_all(data: Seq<Json>, options: RenderOptions)
    requires
        options.sort is None,
        options.filter is None,
    ensures
        sorted_filtered(data, options) == data,
    decreases data.len(),
{
    if data.len() > 0 {
        law_no_options_shows_all(data.drop_last(), options);
        assert(data =~= data.drop_last().push(data.last()));
    } else {
        assert(data =~= Seq::<Json>::empty());
    }
}

} // verus!
