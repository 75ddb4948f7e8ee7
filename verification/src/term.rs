//! Terminal colors: painting text with an ANSI foreground color through
//! crossterm.
use vstd::prelude::*;
use crate::text::{lemma_one_line_concat, one_line};
use crossterm::style::Stylize;

verus! {

/// The foreground colors the renderers use.
#[derive(Clone, Copy, Debug, PartialEq, Eq, Structural)]
pub enum TermColor {
    Green,
    Red,
    Yellow,
    Cyan,
    DarkGrey,
    Magenta,
    Blue,
}

/// The SGR parameters crossterm writes for a foreground color.
pub open spec fn color_code(color: TermColor) -> Seq<char> {
    match color {
        TermColor::Green => "38;5;10"@,
        TermColor::Red => "38;5;9"@,
        TermColor::Yellow => "38;5;11"@,
        TermColor::Cyan => "38;5;14"@,
        TermColor::DarkGrey => "38;5;8"@,
        TermColor::Magenta => "38;5;13"@,
        TermColor::Blue => "38;5;12"@,
    }
}

/// What crossterm may make of `text` painted `color`: the text between the
/// color's escape sequence and the foreground reset; or, when the
/// environment sets `NO_COLOR`, the text between two empty escape sequences;
/// or, on a Windows console without ANSI support (where crossterm changes the
/// console's color by a system call instead), nothing.
pub open spec fn painted(out: Seq<char>, text: Seq<char>, color: TermColor) -> bool {
    ||| out == "\x1b["@ + color_code(color) + "m"@ + text + "\x1b[39m"@
    ||| out == "\x1b[m"@ + text + "\x1b[m"@
    ||| out == Seq::<char>::empty()
}

/// Painting never adds a line break: whatever form crossterm writes, it
/// holds a line break only where the text does.
pub proof fn lemma_painted_one_line(out: Seq<char>, text: Seq<char>, color: TermColor)
    requires
        painted(out, text, color),
        one_line(text),
    ensures
        one_line(out),
{
    reveal_strlit("\x1b[");
    reveal_strlit("m");
    reveal_strlit("\x1b[39m");
    reveal_strlit("\x1b[m");
    reveal_strlit("38;5;10");
    reveal_strlit("38;5;9");
    reveal_strlit("38;5;11");
    reveal_strlit("38;5;14");
    reveal_strlit("38;5;8");
    reveal_strlit("38;5;13");
    reveal_strlit("38;5;12");
    let esc = "\x1b["@;
    let code = color_code(color);
    assert(one_line(esc));
    assert(one_line(code));
    assert(one_line("m"@));
    assert(one_line("\x1b[39m"@));
    assert(one_line("\x1b[m"@));
    lemma_one_line_concat(esc, code);
    lemma_one_line_concat(esc + code, "m"@);
    lemma_one_line_concat(esc + code + "m"@, text);
    lemma_one_line_concat(esc + code + "m"@ + text, "\x1b[39m"@);
    lemma_one_line_concat("\x1b[m"@, text);
    lemma_one_line_concat("\x1b[m"@ + text, "\x1b[m"@);
}

/// Paints `text` with a foreground color.
/// Trusted: wraps crossterm's `Stylize::with` on a `String` and formats the
/// `StyledContent` it returns. crossterm writes `ESC [ <code> m`, the text,
/// then `ESC [ 39 m`; its color formatting writes no parameters when the
/// `NO_COLOR` environment variable is set and non-empty (read once per
/// process); on Windows consoles without ANSI support the styled content
/// writes nothing. Which case applies depends on the environment, so the
/// contract states only that one of them holds.
#[verifier::external_body]
pub fn paint(text: &str, color: TermColor) -> (r: String)
    ensures
        painted(r@, text@, color),
{
    let c = match color {
        TermColor::Green => crossterm::style::Color::Green,
        TermColor::Red => crossterm::style::Color::Red,
        TermColor::Yellow => crossterm::style::Color::Yellow,
        TermColor::Cyan => crossterm::style::Color::Cyan,
        TermColor::DarkGrey => crossterm::style::Color::DarkGrey,
        TermColor::Magenta => crossterm::style::Color::Magenta,
        TermColor::Blue => crossterm::style::Color::Blue,
    };
    text.to_string().with(c).to_string()
}

} // verus!
