//! Decisions of a rendering session that sit around the renderers: how
//! `--filter field=value` splits, and how `--live` treats each line of
//! input (one payload per line).
use vstd::prelude::*;
use crate::mode::Mode;
use crate::text::{chars_of, from_chars, owned};

verus! {

/// The position of the first `=` in `s`, if any.
pub open spec fn first_equals(s: Seq<char>) -> Option<int> {
    if exists|i: int| 0 <= i < s.len() && s[i] == '=' {
        Some(choose|i: int| 0 <= i < s.len() && s[i] == '=' && forall|j: int| 0 <= j < i ==> s[j] != '=')
    } else {
        None
    }
}

/// `field=value` split at the first `=`; nothing without one.
pub open spec fn filter_parts(s: Seq<char>) -> Option<(Seq<char>, Seq<char>)> {
    match first_equals(s) {
        Some(i) => Some((s.take(i), s.skip(i + 1))),
        None => None,
    }
}

/// Splits a `--filter` argument at its first `=` (`str::split_once`).
pub fn split_filter(arg: &str) -> (r: Option<(String, String)>)
    ensures
        match filter_parts(arg@) {
            Some((k, v)) => r matches Some(p) && p.0@ == k && p.1@ == v,
            None => r is None,
        },
{
    let v = chars_of(arg);
    let mut i: usize = 0;
    while i < v.len()
        invariant
            v@ == arg@,
            i <= v@.len(),
            forall|j: int| 0 <= j < i ==> v@[j] != '=',
        decreases v.len() - i,
    {
        if v[i] == '=' {
            let mut key: Vec<char> = Vec::new();
            let mut k: usize = 0;
            while k < i
                invariant
                    v@ == arg@,
                    k <= i < v@.len(),
                    key@ == arg@.take(k as int),
                decreases i - k,
            {
                key.push(v[k]);
                k = k + 1;
                assert(key@ =~= arg@.take(k as int));
            }
            let mut value: Vec<char> = Vec::new();
            let mut m: usize = i + 1;
            while m < v.len()
                invariant
                    v@ == arg@,
                    i < v@.len(),
                    i + 1 <= m <= v@.len(),
                    value@ == arg@.subrange(i + 1, m as int),
                decreases v.len() - m,
            {
                value.push(v[m]);
                m = m + 1;
                assert(value@ =~= arg@.subrange(i + 1, m as int));
            }
            proof {
                let w = choose|w: int|
                    0 <= w < arg@.len() && arg@[w] == '=' && forall|j: int| 0 <= j < w ==> arg@[j] != '=';
                assert(arg@[i as int] == '=');
                assert(0 <= w < arg@.len() && arg@[w] == '=' && forall|j: int| 0 <= j < w ==> arg@[j]
                    != '=');
                if w < i {
                    assert(v@[w] != '=');
                }
                if w > i {
                    assert(arg@[i as int] != '=');
                }
                assert(w == i);
                assert(arg@.subrange(i + 1, arg@.len() as int) =~= arg@.skip(i + 1));
            }
            return Some((from_chars(&key), from_chars(&value)));
        }
        i = i + 1;
    }
    None
}

// ---------------------------------------------------------------------------
// Live mode
// ---------------------------------------------------------------------------

/// Modes that can redraw frame by frame under `--live`.
pub open spec fn live_capable(mode: Mode) -> bool {
    mode == Mode::Dashboard || mode == Mode::Timeline
}

pub fn supports_live(mode: Mode) -> (r: bool)
    ensures
        r == live_capable(mode),
{
    mode == Mode::Dashboard || mode == Mode::Timeline
}

/// The notice printed when `--live` is asked of a mode that cannot redraw.
pub const LIVE_UNSUPPORTED: &'static str = "presentation: --live only supports dashboard/timeline; rendering a single frame";

/// The notice `--live` gives before it starts, if any.
pub fn live_notice(mode: Mode) -> (r: Option<String>)
    ensures
        live_capable(mode) <==> r is None,
        r matches Some(t) ==> t@ == LIVE_UNSUPPORTED@,
{
    if supports_live(mode) {
        None
    } else {
        Some(owned(LIVE_UNSUPPORTED))
    }
}

/// What `--live` does with a line of input.
#[derive(Clone, Copy, Debug, PartialEq, Eq, Structural)]
pub enum LiveStep {
    /// Parse the line as a payload and draw it as the next frame.
    Render,
    /// Nothing to draw on this line.
    Skip,
    /// Stop reading: the mode draws a single frame.
    Stop,
}

pub open spec fn is_blank_char(c: char) -> bool {
    c == ' ' || c == '\t' || c == '\r' || c == '\n'
}

pub open spec fn is_blank(line: Seq<char>) -> bool {
    forall|i: int| 0 <= i < line.len() ==> is_blank_char(#[trigger] line[i])
}

/// A blank line draws nothing; a mode that cannot redraw stops after its
/// first frame; every other line is the next frame.
pub open spec fn live_step_of(mode: Mode, line: Seq<char>, drawn: nat) -> LiveStep {
    if !live_capable(mode) && drawn > 0 {
        LiveStep::Stop
    } else if is_blank(line) {
        LiveStep::Skip
    } else {
        LiveStep::Render
    }
}

/// Decides what to do with the next line of `--live` input, after `drawn`
/// frames.
pub fn live_step(mode: Mode, line: &str, drawn: usize) -> (r: LiveStep)
    ensures
        r == live_step_of(mode, line@, drawn as nat),
{
    if !supports_live(mode) && drawn > 0 {
        return LiveStep::Stop;
    }
    let v = chars_of(line);
    let mut i: usize = 0;
    while i < v.len()
        invariant
            v@ == line@,
            i <= v@.len(),
            live_capable(mode) || drawn == 0,
            forall|j: int| 0 <= j < i ==> is_blank_char(#[trigger] line@[j]),
        decreases v.len() - i,
    {
        let c = v[i];
        if !(c == ' ' || c == '\t' || c == '\r' || c == '\n') {
            assert(!is_blank_char(line@[i as int]));
            return LiveStep::Render;
        }
        i = i + 1;
    }
    LiveStep::Skip
}

/// Clears a terminal and homes the cursor before a frame is redrawn.
pub const CLEAR_SCREEN: &'static str = "\x1b[2J\x1b[H";

/// A live frame as written: on a terminal it replaces the previous one.
pub fn frame_text(frame: &str, terminal: bool) -> (r: String)
    ensures
        r@ == if terminal {
            CLEAR_SCREEN@ + frame@
        } else {
            frame@
        },
{
    let mut r = String::new();
    if terminal {
        crate::text::push_str(&mut r, CLEAR_SCREEN);
    }
    crate::text::push_str(&mut r, frame);
    r
}

/// A mode that cannot redraw draws at most one frame, however many lines
/// follow.
pub proof fn law_single_frame_outside_live_modes(mode: Mode, line: Seq<char>, drawn: nat)
    requires
        !live_capable(mode),
        drawn >= 1,
    ensures
        live_step_of(mode, line, drawn) == LiveStep::Stop,
{
}

/// Live modes draw every non-blank line.
pub proof fn law_live_modes_draw_every_frame(mode: Mode, line: Seq<char>, drawn: nat)
    requires
        live_capable(mode),
        !is_blank(line),
    ensures
        live_step_of(mode, line, drawn) == LiveStep::Render,
{
}

} // verus!
