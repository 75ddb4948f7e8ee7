//! `--export <format>`: wraps *any* mode's rendered text in a container
//! format (distinct from the `html`/`md` render modes, which build a
//! data-aware report). `pdf` is listed by the command but not implemented:
//! selecting it fails with a clear error rather than writing something
//! broken.
use vstd::prelude::*;
use crate::render::html::{escape, html_escaped, is_markup_char, law_escaped_has_no_markup};
use crate::text::{concat, one_line};
use crate::text::{decimal, fill, owned, push_str, push_char, chars_of, repeat_char, ends_with_char,
    contains_seq, occurs_at, char_count};

verus! {

#[derive(Clone, Copy, Debug, PartialEq, Eq, Structural)]
pub enum ExportFormat {
    Html,
    Md,
    Svg,
    Pdf,
}

#[derive(Debug)]
pub enum ExportError {
    /// `--export pdf`.
    PdfNotImplemented,
}

impl ExportError {
    pub fn message(&self) -> (r: String)
        ensures
            r@ == PDF_NOT_IMPLEMENTED@,
    {
        owned(PDF_NOT_IMPLEMENTED)
    }
}

pub const PDF_NOT_IMPLEMENTED: &'static str = "--export pdf is not implemented: PDF generation needs a dedicated dependency this build doesn't include";

pub open spec fn exported(format: ExportFormat, rendered: Seq<char>) -> Option<Seq<char>> {
    match format {
        ExportFormat::Html => Some(html_export(rendered)),
        ExportFormat::Md => Some(md_export(rendered)),
        ExportFormat::Svg => Some(svg_export(rendered)),
        ExportFormat::Pdf => None,
    }
}

/// Wraps `rendered` in `format`; `pdf` always fails.
pub fn apply(format: ExportFormat, rendered: &str) -> (r: Result<String, ExportError>)
    requires
        rendered@.len() < usize::MAX,
    ensures
        r matches Ok(t) ==> exported(format, rendered@) == Some(t@),
        r is Err <==> exported(format, rendered@) is None,
{
    match format {
        ExportFormat::Html => Ok(html(rendered)),
        ExportFormat::Md => Ok(md(rendered)),
        ExportFormat::Svg => Ok(svg(rendered)),
        ExportFormat::Pdf => Err(ExportError::PdfNotImplemented),
    }
}

// ---------------------------------------------------------------------------
// html
// ---------------------------------------------------------------------------

pub const HTML_EXPORT_HEAD: &'static str = "<!doctype html>
<html lang=\"en\">
<head>
<meta charset=\"utf-8\">
<title>Presentation Export</title>
<style>
  body { margin: 2rem; background: #fff; color: #1a1a1a; }
  pre { font-family: ui-monospace, Consolas, monospace; font-size: 0.9rem; white-space: pre-wrap; }
</style>
</head>
<body>
<pre>";

pub const HTML_EXPORT_TAIL: &'static str = "</pre>
</body>
</html>
";

/// `--export pdf` fails for every rendered text; the other formats never do.
pub proof fn law_only_pdf_fails(format: ExportFormat, rendered: Seq<char>)
    ensures
        exported(format, rendered) is None <==> format == ExportFormat::Pdf,
{
}

pub open spec fn html_export(rendered: Seq<char>) -> Seq<char> {
    HTML_EXPORT_HEAD@ + html_escaped(rendered) + HTML_EXPORT_TAIL@
}

fn html(rendered: &str) -> (r: String)
    ensures
        r@ == html_export(rendered@),
{
    let mut out = owned(HTML_EXPORT_HEAD);
    push_str(&mut out, escape(rendered).as_str());
    push_str(&mut out, HTML_EXPORT_TAIL);
    out
}

// ---------------------------------------------------------------------------
// md
// ---------------------------------------------------------------------------

/// (longest backtick run so far, length of the run ending at the end).
pub open spec fn backtick_runs(s: Seq<char>) -> (nat, nat)
    decreases s.len(),
{
    if s.len() == 0 {
        (0, 0)
    } else {
        let (longest, current) = backtick_runs(s.drop_last());
        if s.last() == '`' {
            let c = current + 1;
            (if c > longest { c } else { longest }, c)
        } else {
            (longest, 0)
        }
    }
}

pub open spec fn longest_run(s: Seq<char>) -> nat {
    backtick_runs(s).0
}

/// The longest run of consecutive backticks in `line`.
pub fn longest_backtick_run(line: &str) -> (n: usize)
    ensures
        n == longest_run(line@),
        n <= line@.len(),
{
    let v = chars_of(line);
    let mut max_run: usize = 0;
    let mut current: usize = 0;
    let mut i: usize = 0;
    while i < v.len()
        invariant
            v@ == line@,
            i <= v.len(),
            current <= i,
            max_run <= i,
            (max_run as nat, current as nat) == backtick_runs(line@.take(i as int)),
        decreases v.len() - i,
    {
        assert(line@.take(i + 1).drop_last() =~= line@.take(i as int));
        if v[i] == '`' {
            current = current + 1;
            if current > max_run {
                max_run = current;
            }
        } else {
            current = 0;
        }
        i = i + 1;
    }
    assert(line@.take(v.len() as int) =~= line@);
    max_run
}

/// The fence: one backtick longer than the longest run in the content,
/// and at least three.
pub open spec fn fence_len(rendered: Seq<char>) -> nat {
    if longest_run(rendered) + 1 > 3 {
        longest_run(rendered) + 1
    } else {
        3
    }
}

pub open spec fn md_body(rendered: Seq<char>) -> Seq<char> {
    if rendered.len() > 0 && rendered.last() == '\n' {
        rendered
    } else {
        rendered.push('\n')
    }
}

pub open spec fn md_export(rendered: Seq<char>) -> Seq<char> {
    let fence = fill('`', fence_len(rendered));
    fence + "text\n"@ + md_body(rendered) + fence + "\n"@
}

/// Wraps `rendered` in a fenced code block whose fence is longer than any
/// backtick run already in the content, so embedded backticks can never
/// close the fence early. (A run never spans a line break, so the longest
/// run of the whole text is the longest run of any of its lines.)
fn md(rendered: &str) -> (r: String)
    requires
        rendered@.len() < usize::MAX,
    ensures
        r@ == md_export(rendered@),
{
    let longest = longest_backtick_run(rendered);
    let n = if longest + 1 > 3 {
        longest + 1
    } else {
        3
    };
    let fence = repeat_char('`', n);
    let mut out = owned(fence.as_str());
    push_str(&mut out, "text\n");
    push_str(&mut out, rendered);
    if !ends_with_char(rendered, '\n') {
        push_char(&mut out, '\n');
    }
    push_str(&mut out, fence.as_str());
    push_str(&mut out, "\n");
    out
}

proof fn lemma_run_bound(s: Seq<char>, i: int, k: nat)
    requires
        0 <= i,
        i + k <= s.len(),
        forall|j: int| i <= j < i + k ==> s[j] == '`',
    ensures
        backtick_runs(s.take(i + k)).1 >= k,
        backtick_runs(s.take(i + k)).0 >= k,
        longest_run(s) >= backtick_runs(s.take(i + k)).0,
    decreases k,
{
    lemma_longest_monotone(s, i + k);
    if k > 0 {
        lemma_run_bound(s, i, (k - 1) as nat);
        assert(s.take(i + k).drop_last() =~= s.take(i + k - 1));
        assert(s.take(i + k).last() == s[i + k - 1]);
    }
}

proof fn lemma_longest_monotone(s: Seq<char>, n: int)
    requires
        0 <= n <= s.len(),
    ensures
        backtick_runs(s.take(n)).0 <= longest_run(s),
        backtick_runs(s.take(n)).1 <= backtick_runs(s.take(n)).0,
    decreases s.len() - n,
{
    lemma_current_le_longest(s.take(n));
    if n < s.len() {
        lemma_longest_monotone(s, n + 1);
        assert(s.take(n + 1).drop_last() =~= s.take(n));
    } else {
        assert(s.take(n) =~= s);
    }
}

proof fn lemma_current_le_longest(s: Seq<char>)
    ensures
        backtick_runs(s).1 <= backtick_runs(s).0,
    decreases s.len(),
{
    if s.len() > 0 {
        lemma_current_le_longest(s.drop_last());
    }
}

/// The content never holds a backtick run as long as the fence.
pub proof fn law_fence_not_in_content(rendered: Seq<char>)
    ensures
        fence_len(rendered) > longest_run(rendered),
        !contains_seq(rendered, fill('`', fence_len(rendered))),
{
    let k = fence_len(rendered);
    if contains_seq(rendered, fill('`', k)) {
        let i = choose|i: int| occurs_at(rendered, fill('`', k), i);
        assert forall|j: int| i <= j < i + k implies rendered[j] == '`' by {
            assert(rendered.subrange(i, i + k)[j - i] == fill('`', k)[j - i]);
        }
        lemma_run_bound(rendered, i, k);
    }
}

// ---------------------------------------------------------------------------
// The fence, line by line
// ---------------------------------------------------------------------------

/// `k` backticks start at position `i` of `s`.
pub open spec fn ticks_at(s: Seq<char>, i: int, k: nat) -> bool {
    0 <= i && i + k <= s.len() && forall|j: int| i <= j < i + k ==> #[trigger] s[j] == '`'
}

/// Somewhere in `s` stand `k` backticks in a row.
pub open spec fn has_ticks(s: Seq<char>, k: nat) -> bool {
    exists|i: int| ticks_at(s, i, k)
}

/// The longest backtick run of any of the lines.
pub open spec fn longest_line_run(ls: Seq<Seq<char>>) -> nat
    decreases ls.len(),
{
    if ls.len() == 0 {
        0
    } else {
        let m = longest_line_run(ls.drop_last());
        if longest_run(ls.last()) > m {
            longest_run(ls.last())
        } else {
            m
        }
    }
}

/// Some line holds `k` backticks in a row.
pub open spec fn some_line_has_ticks(ls: Seq<Seq<char>>, k: nat) -> bool {
    exists|j: int| 0 <= j < ls.len() && has_ticks(#[trigger] ls[j], k)
}

proof fn lemma_runs_witness(s: Seq<char>)
    ensures
        backtick_runs(s).1 <= s.len(),
        forall|j: int| s.len() - backtick_runs(s).1 <= j < s.len() ==> #[trigger] s[j] == '`',
        backtick_runs(s).0 >= 1 ==> has_ticks(s, backtick_runs(s).0),
    decreases s.len(),
{
    if s.len() > 0 {
        let d = s.drop_last();
        lemma_runs_witness(d);
        let (ld, cd) = backtick_runs(d);
        assert forall|j: int| 0 <= j < d.len() implies s[j] == d[j] by {}
        if s.last() == '`' {
            let c = cd + 1;
            assert forall|j: int| s.len() - c <= j < s.len() implies #[trigger] s[j] == '`' by {
                if j < s.len() - 1 {
                    assert(s[j] == d[j]);
                }
            }
            if c > ld {
                assert(ticks_at(s, s.len() - c, c));
            } else if ld >= 1 {
                let i = choose|i: int| ticks_at(d, i, ld);
                assert forall|j: int| i <= j < i + ld implies #[trigger] s[j] == '`' by {
                    assert(s[j] == d[j]);
                }
                assert(ticks_at(s, i, ld));
            }
        } else if ld >= 1 {
            let i = choose|i: int| ticks_at(d, i, ld);
            assert forall|j: int| i <= j < i + ld implies #[trigger] s[j] == '`' by {
                assert(s[j] == d[j]);
            }
            assert(ticks_at(s, i, ld));
        }
    }
}

/// `k` backticks stand somewhere in `s` exactly when its longest run is at
/// least `k`.
proof fn lemma_has_ticks_iff(s: Seq<char>, k: nat)
    requires
        k >= 1,
    ensures
        has_ticks(s, k) <==> longest_run(s) >= k,
{
    if has_ticks(s, k) {
        let i = choose|i: int| ticks_at(s, i, k);
        lemma_run_bound(s, i, k);
    }
    if longest_run(s) >= k {
        lemma_runs_witness(s);
        let l = longest_run(s);
        let i = choose|i: int| ticks_at(s, i, l);
        assert(ticks_at(s, i, k));
    }
}

/// A line break parts a text: `k` backticks in a row lie wholly before it
/// or wholly after it.
proof fn lemma_ticks_split(a: Seq<char>, b: Seq<char>, k: nat)
    requires
        k >= 1,
    ensures
        has_ticks(a + seq!['\n'] + b, k) <==> has_ticks(a, k) || has_ticks(b, k),
{
    let t = a + seq!['\n'] + b;
    if has_ticks(t, k) {
        let i = choose|i: int| ticks_at(t, i, k);
        if i + k <= a.len() {
            assert forall|j: int| i <= j < i + k implies #[trigger] a[j] == '`' by {
                assert(t[j] == a[j]);
            }
            assert(ticks_at(a, i, k));
        } else if i > a.len() {
            let i2 = i - a.len() - 1;
            assert forall|j: int| i2 <= j < i2 + k implies #[trigger] b[j] == '`' by {
                assert(t[j + a.len() + 1] == b[j]);
            }
            assert(ticks_at(b, i2, k));
        } else {
            assert(t[a.len() as int] == '\n');
        }
    }
    if has_ticks(a, k) {
        let i = choose|i: int| ticks_at(a, i, k);
        assert forall|j: int| i <= j < i + k implies #[trigger] t[j] == '`' by {
            assert(t[j] == a[j]);
        }
        assert(ticks_at(t, i, k));
    }
    if has_ticks(b, k) {
        let i = choose|i: int| ticks_at(b, i, k);
        let i2 = i + a.len() + 1;
        assert forall|j: int| i2 <= j < i2 + k implies #[trigger] t[j] == '`' by {
            assert(t[j] == b[j - a.len() - 1]);
        }
        assert(ticks_at(t, i2, k));
    }
}

proof fn lemma_ticks_strip_cr(c: Seq<char>, k: nat)
    requires
        k >= 1,
    ensures
        has_ticks(strip_cr(c), k) <==> has_ticks(c, k),
{
    if c.len() > 0 && c.last() == '\r' {
        let d = c.drop_last();
        if has_ticks(c, k) {
            let i = choose|i: int| ticks_at(c, i, k);
            if i + k > d.len() {
                assert(c[c.len() - 1] == '`');
            }
            assert forall|j: int| i <= j < i + k implies #[trigger] d[j] == '`' by {
                assert(d[j] == c[j]);
            }
            assert(ticks_at(d, i, k));
        }
        if has_ticks(d, k) {
            let i = choose|i: int| ticks_at(d, i, k);
            assert forall|j: int| i <= j < i + k implies #[trigger] c[j] == '`' by {
                assert(d[j] == c[j]);
            }
            assert(ticks_at(c, i, k));
        }
    }
}

proof fn lemma_lines_from_ticks(s: Seq<char>, cur: Seq<char>, acc: Seq<Seq<char>>, k: nat)
    requires
        k >= 1,
    ensures
        some_line_has_ticks(lines_from(s, cur, acc), k) <==> some_line_has_ticks(acc, k)
            || has_ticks(cur + s, k),
    decreases s.len(),
{
    if s.len() == 0 {
        assert(cur + s =~= cur);
        if cur.len() == 0 {
            assert(!has_ticks(cur, k));
            assert(lines_from(s, cur, acc) == acc);
        } else {
            let acc2 = acc.push(cur);
            assert(lines_from(s, cur, acc) == acc2);
            if some_line_has_ticks(acc2, k) {
                let j = choose|j: int| 0 <= j < acc2.len() && has_ticks(#[trigger] acc2[j], k);
                if j < acc.len() {
                    assert(acc2[j] == acc[j]);
                }
            }
            if some_line_has_ticks(acc, k) {
                let j = choose|j: int| 0 <= j < acc.len() && has_ticks(#[trigger] acc[j], k);
                assert(acc2[j] == acc[j]);
            }
            if has_ticks(cur, k) {
                assert(acc2[acc.len() as int] == cur);
            }
        }
    } else if s[0] == '\n' {
        let rest = s.drop_first();
        let acc2 = acc.push(strip_cr(cur));
        lemma_lines_from_ticks(rest, Seq::empty(), acc2, k);
        assert(lines_from(s, cur, acc) == lines_from(rest, Seq::empty(), acc2));
        assert(Seq::<char>::empty() + rest =~= rest);
        assert(cur + s =~= cur + seq!['\n'] + rest);
        lemma_ticks_split(cur, rest, k);
        lemma_ticks_strip_cr(cur, k);
        if some_line_has_ticks(acc2, k) {
            let j = choose|j: int| 0 <= j < acc2.len() && has_ticks(#[trigger] acc2[j], k);
            if j < acc.len() {
                assert(acc2[j] == acc[j]);
            }
        }
        if some_line_has_ticks(acc, k) {
            let j = choose|j: int| 0 <= j < acc.len() && has_ticks(#[trigger] acc[j], k);
            assert(acc2[j] == acc[j]);
        }
        if has_ticks(strip_cr(cur), k) {
            assert(acc2[acc.len() as int] == strip_cr(cur));
        }
    } else {
        let rest = s.drop_first();
        lemma_lines_from_ticks(rest, cur.push(s[0]), acc, k);
        assert(lines_from(s, cur, acc) == lines_from(rest, cur.push(s[0]), acc));
        assert(cur.push(s[0]) + rest =~= cur + s);
    }
}

proof fn lemma_longest_line_run(ls: Seq<Seq<char>>)
    ensures
        forall|j: int| 0 <= j < ls.len() ==> longest_run(#[trigger] ls[j]) <= longest_line_run(ls),
        longest_line_run(ls) >= 1 ==> exists|j: int|
            0 <= j < ls.len() && longest_run(#[trigger] ls[j]) == longest_line_run(ls),
    decreases ls.len(),
{
    if ls.len() > 0 {
        let d = ls.drop_last();
        lemma_longest_line_run(d);
        assert forall|j: int| 0 <= j < ls.len() implies longest_run(#[trigger] ls[j])
            <= longest_line_run(ls) by {
            if j < d.len() {
                assert(ls[j] == d[j]);
            }
        }
        if longest_run(ls.last()) > longest_line_run(d) {
            assert(longest_run(ls[ls.len() - 1]) == longest_line_run(ls));
        } else if longest_line_run(d) >= 1 {
            let j = choose|j: int| 0 <= j < d.len() && longest_run(#[trigger] d[j]) == longest_line_run(d);
            assert(ls[j] == d[j]);
        }
    }
}

/// The longest backtick run of a text is the longest run of any of its
/// lines: no run crosses a line break.
proof fn lemma_run_by_lines(rendered: Seq<char>)
    ensures
        longest_run(rendered) == longest_line_run(lines_of(rendered)),
{
    let ls = lines_of(rendered);
    let a = longest_run(rendered);
    let b = longest_line_run(ls);
    lemma_longest_line_run(ls);
    assert(Seq::<Seq<char>>::empty().len() == 0);
    assert(Seq::<char>::empty() + rendered =~= rendered);
    if a >= 1 {
        lemma_has_ticks_iff(rendered, a);
        lemma_lines_from_ticks(rendered, Seq::empty(), Seq::empty(), a);
        assert(!some_line_has_ticks(Seq::<Seq<char>>::empty(), a));
        let j = choose|j: int| 0 <= j < ls.len() && has_ticks(#[trigger] ls[j], a);
        lemma_has_ticks_iff(ls[j], a);
    }
    if b >= 1 {
        let j = choose|j: int| 0 <= j < ls.len() && longest_run(#[trigger] ls[j]) == b;
        lemma_has_ticks_iff(ls[j], b);
        lemma_lines_from_ticks(rendered, Seq::empty(), Seq::empty(), b);
        assert(some_line_has_ticks(ls, b));
        assert(!some_line_has_ticks(Seq::<Seq<char>>::empty(), b));
        lemma_has_ticks_iff(rendered, b);
    }
}

/// Line by line: the fence is one backtick longer than the longest run of
/// backticks in any line of the content, and at least three, so it is
/// longer than every run in every line.
pub proof fn law_fence_by_lines(rendered: Seq<char>)
    ensures
        fence_len(rendered) == if longest_line_run(lines_of(rendered)) + 1 > 3 {
            longest_line_run(lines_of(rendered)) + 1
        } else {
            3
        },
        forall|j: int|
            0 <= j < lines_of(rendered).len() ==> longest_run(#[trigger] lines_of(rendered)[j])
                < fence_len(rendered),
{
    lemma_run_by_lines(rendered);
    lemma_longest_line_run(lines_of(rendered));
}

// ---------------------------------------------------------------------------
// svg
// ---------------------------------------------------------------------------

/// Drops one `\r` ending a line.
pub open spec fn strip_cr(line: Seq<char>) -> Seq<char> {
    if line.len() > 0 && line.last() == '\r' {
        line.drop_last()
    } else {
        line
    }
}

/// `str::lines` from position-by-position scanning: `cur` is the line in
/// progress, `acc` the lines finished so far.
pub open spec fn lines_from(s: Seq<char>, cur: Seq<char>, acc: Seq<Seq<char>>) -> Seq<Seq<char>>
    decreases s.len(),
{
    if s.len() == 0 {
        if cur.len() == 0 {
            acc
        } else {
            acc.push(cur)
        }
    } else if s[0] == '\n' {
        lines_from(s.drop_first(), Seq::empty(), acc.push(strip_cr(cur)))
    } else {
        lines_from(s.drop_first(), cur.push(s[0]), acc)
    }
}

/// The lines of `s` as `str::lines` gives them: split at `\n`, a `\r`
/// before a `\n` dropped, no empty last line after a final `\n`.
pub open spec fn lines_of(s: Seq<char>) -> Seq<Seq<char>> {
    lines_from(s, Seq::empty(), Seq::empty())
}

fn lines(s: &str) -> (r: Vec<String>)
    ensures
        r@.len() == lines_of(s@).len(),
        forall|i: int| 0 <= i < r@.len() ==> #[trigger] r@[i]@ == lines_of(s@)[i],
{
    let v = chars_of(s);
    let mut acc: Vec<String> = Vec::new();
    let mut cur: Vec<char> = Vec::new();
    let mut i: usize = 0;
    let ghost views = Seq::<Seq<char>>::empty();
    assert(s@.skip(0) =~= s@);
    while i < v.len()
        invariant
            v@ == s@,
            i <= v.len(),
            acc@.len() == views.len(),
            forall|j: int| 0 <= j < acc@.len() ==> #[trigger] acc@[j]@ == views[j],
            lines_of(s@) == lines_from(s@.skip(i as int), cur@, views),
        decreases v.len() - i,
    {
        assert(s@.skip(i as int).drop_first() =~= s@.skip(i + 1));
        assert(s@.skip(i as int)[0] == v@[i as int]);
        if v[i] == '\n' {
            let n = cur.len();
            if n > 0 && cur[n - 1] == '\r' {
                cur.pop();
            }
            let line = crate::text::from_chars(&cur);
            proof {
                views = views.push(line@);
            }
            acc.push(line);
            cur = Vec::new();
        } else {
            cur.push(v[i]);
        }
        i = i + 1;
    }
    if cur.len() > 0 {
        let line = crate::text::from_chars(&cur);
        proof {
            views = views.push(line@);
        }
        acc.push(line);
    }
    acc
}

pub const SVG_CHAR_WIDTH: u64 = 8;
pub const SVG_LINE_HEIGHT: u64 = 18;
pub const SVG_FONT_SIZE: u64 = 14;
pub const SVG_PADDING: u64 = 10;

pub open spec fn max_line_len(ls: Seq<Seq<char>>) -> nat
    decreases ls.len(),
{
    if ls.len() == 0 {
        0
    } else {
        let m = max_line_len(ls.drop_last());
        if ls.last().len() > m {
            ls.last().len()
        } else {
            m
        }
    }
}

/// Canvas width in pixels: the longest line's characters at 8 px, plus
/// padding, at least 200.
pub open spec fn svg_width(ls: Seq<Seq<char>>) -> nat {
    let w = max_line_len(ls) * 8 + 20;
    if w > 200 {
        w
    } else {
        200
    }
}

/// Canvas height: 18 px per line plus padding, at least 40.
pub open spec fn svg_height(ls: Seq<Seq<char>>) -> nat {
    let h = ls.len() * 18 + 20;
    if h > 40 {
        h
    } else {
        40
    }
}

pub open spec fn svg_text(i: nat, line: Seq<char>) -> Seq<char> {
    "  <text x=\"10\" y=\""@ + decimal(24 + i * 18) + ".0\" font-family=\"monospace\" font-size=\"14\" fill=\"#1a1a1a\" xml:space=\"preserve\">"@
        + html_escaped(line) + "</text>\n"@
}

pub open spec fn svg_texts(ls: Seq<Seq<char>>) -> Seq<char>
    decreases ls.len(),
{
    if ls.len() == 0 {
        Seq::empty()
    } else {
        svg_texts(ls.drop_last()) + svg_text((ls.len() - 1) as nat, ls.last())
    }
}

pub open spec fn svg_export(rendered: Seq<char>) -> Seq<char> {
    let ls = lines_of(rendered);
    let w = decimal(svg_width(ls));
    let h = decimal(svg_height(ls));
    "<svg xmlns=\"http://www.w3.org/2000/svg\" width=\""@ + w + "\" height=\""@ + h
        + "\" viewBox=\"0 0 "@ + w + " "@ + h
        + "\">\n  <rect width=\"100%\" height=\"100%\" fill=\"#ffffff\"/>\n"@ + svg_texts(ls)
        + "</svg>\n"@
}

/// One `<text>` element per line, in order.
pub open spec fn svg_elements(ls: Seq<Seq<char>>) -> Seq<Seq<char>> {
    Seq::new(ls.len(), |k: int| svg_text(k as nat, ls[k]))
}

proof fn lemma_svg_texts(ls: Seq<Seq<char>>)
    ensures
        svg_texts(ls) == concat(svg_elements(ls)),
    decreases ls.len(),
{
    if ls.len() > 0 {
        lemma_svg_texts(ls.drop_last());
        assert(svg_elements(ls).drop_last() =~= svg_elements(ls.drop_last()));
    } else {
        assert(svg_elements(ls) =~= Seq::<Seq<char>>::empty());
    }
}

proof fn lemma_max_line_len(ls: Seq<Seq<char>>)
    ensures
        forall|k: int| 0 <= k < ls.len() ==> (#[trigger] ls[k]).len() <= max_line_len(ls),
        ls.len() > 0 ==> exists|k: int| 0 <= k < ls.len() && ls[k].len() == max_line_len(ls),
        ls.len() == 0 ==> max_line_len(ls) == 0,
    decreases ls.len(),
{
    if ls.len() > 0 {
        let d = ls.drop_last();
        lemma_max_line_len(d);
        assert forall|k: int| 0 <= k < ls.len() implies (#[trigger] ls[k]).len() <= max_line_len(ls) by {
            if k < d.len() {
                assert(ls[k] == d[k]);
            }
        }
        if ls.last().len() <= max_line_len(d) && d.len() > 0 {
            let k = choose|k: int| 0 <= k < d.len() && d[k].len() == max_line_len(d);
            assert(ls[k] == d[k]);
        } else {
            assert(ls[ls.len() - 1].len() == max_line_len(ls));
        }
    }
}

proof fn lemma_lines_from_one_line(s: Seq<char>, cur: Seq<char>, acc: Seq<Seq<char>>)
    requires
        one_line(cur),
        forall|k: int| 0 <= k < acc.len() ==> one_line(#[trigger] acc[k]),
    ensures
        forall|k: int| 0 <= k < lines_from(s, cur, acc).len() ==> one_line(
            #[trigger] lines_from(s, cur, acc)[k],
        ),
    decreases s.len(),
{
    if s.len() > 0 {
        if s[0] == '\n' {
            assert(one_line(strip_cr(cur))) by {
                if cur.len() > 0 && cur.last() == '\r' {
                    assert forall|i: int| 0 <= i < cur.drop_last().len() implies cur.drop_last()[i]
                        != '\n' by {
                        assert(cur.drop_last()[i] == cur[i]);
                    }
                }
            }
            let acc2 = acc.push(strip_cr(cur));
            assert forall|k: int| 0 <= k < acc2.len() implies one_line(#[trigger] acc2[k]) by {
                if k < acc.len() {
                    assert(acc2[k] == acc[k]);
                }
            }
            lemma_lines_from_one_line(s.drop_first(), Seq::empty(), acc2);
            assert(lines_from(s, cur, acc) == lines_from(s.drop_first(), Seq::empty(), acc2));
        } else {
            let cur2 = cur.push(s[0]);
            assert forall|i: int| 0 <= i < cur2.len() implies cur2[i] != '\n' by {
                if i < cur.len() {
                    assert(cur2[i] == cur[i]);
                }
            }
            lemma_lines_from_one_line(s.drop_first(), cur2, acc);
            assert(lines_from(s, cur, acc) == lines_from(s.drop_first(), cur2, acc));
        }
    } else if cur.len() > 0 {
        let acc2 = acc.push(cur);
        assert forall|k: int| 0 <= k < acc2.len() implies one_line(#[trigger] acc2[k]) by {
            if k < acc.len() {
                assert(acc2[k] == acc[k]);
            }
        }
        assert(lines_from(s, cur, acc) == acc2);
    } else {
        assert(lines_from(s, cur, acc) == acc);
    }
}

/// An SVG export is a header sized to the text, then one `<text>` element
/// per line of the rendered text (a line holds no line break, and a final
/// `\r` is dropped), at heights 24, 42, 60, ..., holding the line escaped,
/// then the closing tag. The width is eight units per character of the
/// longest line plus 20 (at least 200); the height eighteen per line plus
/// 20 (at least 40). No escaped line holds a markup character.
pub proof fn law_svg_layout(rendered: Seq<char>)
    ensures
        svg_export(rendered) == "<svg xmlns=\"http://www.w3.org/2000/svg\" width=\""@ + decimal(
            svg_width(lines_of(rendered)),
        ) + "\" height=\""@ + decimal(svg_height(lines_of(rendered))) + "\" viewBox=\"0 0 "@
            + decimal(svg_width(lines_of(rendered))) + " "@ + decimal(svg_height(lines_of(rendered)))
            + "\">\n  <rect width=\"100%\" height=\"100%\" fill=\"#ffffff\"/>\n"@ + concat(
            svg_elements(lines_of(rendered)),
        ) + "</svg>\n"@,
        svg_width(lines_of(rendered)) == if max_line_len(lines_of(rendered)) * 8 + 20 > 200 {
            max_line_len(lines_of(rendered)) * 8 + 20
        } else {
            200
        },
        svg_height(lines_of(rendered)) == if lines_of(rendered).len() * 18 + 20 > 40 {
            lines_of(rendered).len() * 18 + 20
        } else {
            40
        },
        forall|k: int|
            0 <= k < lines_of(rendered).len() ==> (#[trigger] lines_of(rendered)[k]).len()
                <= max_line_len(lines_of(rendered)) && one_line(lines_of(rendered)[k]),
        lines_of(rendered).len() > 0 ==> exists|k: int|
            0 <= k < lines_of(rendered).len() && lines_of(rendered)[k].len() == max_line_len(
                lines_of(rendered),
            ),
        forall|k: int|
            0 <= k < lines_of(rendered).len() ==> #[trigger] svg_elements(lines_of(rendered))[k]
                == "  <text x=\"10\" y=\""@ + decimal(24 + (k as nat) * 18)
                + ".0\" font-family=\"monospace\" font-size=\"14\" fill=\"#1a1a1a\" xml:space=\"preserve\">"@
                + html_escaped(lines_of(rendered)[k]) + "</text>\n"@,
        forall|t: Seq<char>, i: int|
            0 <= i < html_escaped(t).len() ==> !is_markup_char(#[trigger] html_escaped(t)[i]),
{
    let ls = lines_of(rendered);
    lemma_svg_texts(ls);
    lemma_max_line_len(ls);
    lemma_lines_from_one_line(rendered, Seq::empty(), Seq::empty());
    assert forall|t: Seq<char>, i: int| 0 <= i < html_escaped(t).len() implies !is_markup_char(
        #[trigger] html_escaped(t)[i],
    ) by {
        law_escaped_has_no_markup(t);
    }
}

pub fn u128_text(n: u128) -> (r: String)
    ensures
        r@ == decimal(n as nat),
    decreases n,
{
    if n < 10 {
        let mut r = String::new();
        push_char(&mut r, ((n as u8) + 48) as char);
        r
    } else {
        let mut r = u128_text(n / 10);
        push_char(&mut r, (((n % 10) as u8) + 48) as char);
        r
    }
}

/// Renders the text as an SVG image of monospace lines.
fn svg(rendered: &str) -> (r: String)
    ensures
        r@ == svg_export(rendered@),
{
    let ls = lines(rendered);
    let ghost lv = lines_of(rendered@);
    let mut max_len: usize = 0;
    let mut texts = String::new();
    let mut i: usize = 0;
    while i < ls.len()
        invariant
            i <= ls@.len(),
            ls@.len() == lv.len(),
            forall|j: int| 0 <= j < ls@.len() ==> #[trigger] ls@[j]@ == lv[j],
            max_len == max_line_len(lv.take(i as int)),
            texts@ == svg_texts(lv.take(i as int)),
        decreases ls.len() - i,
    {
        let line = ls[i].as_str();
        let n = char_count(line);
        if n > max_len {
            max_len = n;
        }
        push_str(&mut texts, "  <text x=\"10\" y=\"");
        push_str(&mut texts, u128_text(24 + (i as u128) * 18).as_str());
        push_str(
            &mut texts,
            ".0\" font-family=\"monospace\" font-size=\"14\" fill=\"#1a1a1a\" xml:space=\"preserve\">",
        );
        push_str(&mut texts, escape(line).as_str());
        push_str(&mut texts, "</text>\n");
        proof {
            assert(lv.take(i + 1).drop_last() =~= lv.take(i as int));
            assert(lv.take(i + 1).last() == lv[i as int]);
        }
        i = i + 1;
    }
    assert(lv.take(ls@.len() as int) =~= lv);
    let w0 = (max_len as u128) * 8 + 20;
    let w = if w0 > 200 {
        w0
    } else {
        200
    };
    let h0 = (ls.len() as u128) * 18 + 20;
    let h = if h0 > 40 {
        h0
    } else {
        40
    };
    let wt = u128_text(w);
    let ht = u128_text(h);
    let mut out = owned("<svg xmlns=\"http://www.w3.org/2000/svg\" width=\"");
    push_str(&mut out, wt.as_str());
    push_str(&mut out, "\" height=\"");
    push_str(&mut out, ht.as_str());
    push_str(&mut out, "\" viewBox=\"0 0 ");
    push_str(&mut out, wt.as_str());
    push_str(&mut out, " ");
    push_str(&mut out, ht.as_str());
    push_str(&mut out, "\">\n  <rect width=\"100%\" height=\"100%\" fill=\"#ffffff\"/>\n");
    push_str(&mut out, texts.as_str());
    push_str(&mut out, "</svg>\n");
    out
}

} // verus!
