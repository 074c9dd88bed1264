use colored::{Color, Colorize};
use vstd::prelude::*;

verus! {

/// The colours that the reports use.
#[derive(Debug, Clone, Copy, PartialEq, Eq, Structural)]
pub enum Paint {
    Red,
    Yellow,
    Green,
    Cyan,
    BrightGreen,
    BrightYellow,
}

/// The terminal's escape sequence that ends a colour.
pub open spec fn reset_code() -> Seq<char> {
    seq!['\u{1b}', '[', '0', 'm']
}

/// The terminal's escape sequence that starts a colour.
pub open spec fn start_code(paint: Paint) -> Seq<char> {
    match paint {
        Paint::Red => seq!['\u{1b}', '[', '3', '1', 'm'],
        Paint::Green => seq!['\u{1b}', '[', '3', '2', 'm'],
        Paint::Yellow => seq!['\u{1b}', '[', '3', '3', 'm'],
        Paint::Cyan => seq!['\u{1b}', '[', '3', '6', 'm'],
        Paint::BrightGreen => seq!['\u{1b}', '[', '9', '2', 'm'],
        Paint::BrightYellow => seq!['\u{1b}', '[', '9', '3', 'm'],
    }
}

/// A text in which a colour starts anew wherever an inner colour ends.
pub open spec fn restarted(text: Seq<char>, start: Seq<char>) -> Seq<char>
    decreases text.len(),
{
    if text.len() < 4 {
        text
    } else if text.take(4) == reset_code() {
        reset_code() + start + restarted(text.skip(4), start)
    } else {
        seq![text[0]] + restarted(text.skip(1), start)
    }
}

/// The two ways in which a text can come out: as it is where colours are off, and between the
/// escape sequences of its colour where they are on.
pub open spec fn painted(text: Seq<char>, paint: Paint, out: Seq<char>) -> bool {
    ||| out == text
    ||| out == start_code(paint) + restarted(text, start_code(paint)) + reset_code()
}

/// Colours a text with `Colorize::color` of `colored`.
///
/// Claimed of it: the text comes out unchanged, or between the escape sequence of the colour and
/// the one that ends it, with the colour started again after every inner end. Which of the two
/// depends on the environment and is left open.
#[verifier::external_body]
pub(crate) fn paint(text: &str, tone: Paint) -> (out: String)
    ensures
        painted(text@, tone, out@),
{
    let color: Color = match tone {
        Paint::Red => Color::Red,
        Paint::Yellow => Color::Yellow,
        Paint::Green => Color::Green,
        Paint::Cyan => Color::Cyan,
        Paint::BrightGreen => Color::BrightGreen,
        Paint::BrightYellow => Color::BrightYellow,
    };
    text.color(color).to_string()
}

/// Whether texts are coloured, as `ShouldColorize::should_colorize` of `colored` says.
///
/// Nothing is claimed of it: the answer comes from the environment and from what the program set.
#[verifier::external_body]
pub(crate) fn colours_on() -> (b: bool) {
    colored::control::SHOULD_COLORIZE.should_colorize()
}

} // verus!
