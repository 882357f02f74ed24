//! How the lines look on a terminal: the colour of each display category,
//! and the styled strings that the `colored` crate makes of them.

use vstd::prelude::*;
use vstd::utf8::is_ascii_chars;
use colored::{ColoredString, Colorize};
use crate::entry::ColorClass;
use crate::render::RenderLine;

verus! {

/// `colored::ColoredString`: a text with the colours and the style in which
/// it is written. Nothing of what it holds is read here.
#[verifier::external_type_specification]
#[verifier::external_body]
pub struct ExColoredString(colored::ColoredString);

/// The name of the colour in which a display category is written.
pub open spec fn color_name(class: ColorClass) -> Seq<char> {
    match class {
        ColorClass::Directory => "blue"@,
        ColorClass::SymbolicLink => "bright cyan"@,
        ColorClass::ExecutableFile => "green"@,
        ColorClass::PlainFile => "white"@,
        ColorClass::Unknown => "yellow"@,
    }
}

/// The name of the colour in which a display category is written.
pub fn color_of(class: ColorClass) -> (name: &'static str)
    ensures
        name@ == color_name(class),
        is_ascii_chars(name@),
{
    proof {
        reveal_strlit("blue");
        reveal_strlit("bright cyan");
        reveal_strlit("green");
        reveal_strlit("white");
        reveal_strlit("yellow");
    }
    match class {
        ColorClass::Directory => "blue",
        ColorClass::SymbolicLink => "bright cyan",
        ColorClass::ExecutableFile => "green",
        ColorClass::PlainFile => "white",
        ColorClass::Unknown => "yellow",
    }
}

/// The styled string that `colored` makes of a text and the name of a
/// foreground colour.
pub uninterp spec fn colored_text(text: Seq<char>, color: Seq<char>) -> ColoredString;

/// The styled string that `colored` makes of a styled string by giving it a
/// bright white background.
pub uninterp spec fn on_bright_white_of(styled: ColoredString) -> ColoredString;

/// Calls `Colorize::color` of `colored` on a string slice, with the colour
/// given by name. The result holds a copy of the text, the colour that the
/// name stands for, no background and no style; the contract only names it.
/// The name must be plain ASCII: `colored` cuts a name that starts with `#`
/// at fixed byte offsets, which fails inside a longer character.
#[verifier::external_body]
fn paint(text: &str, color: &str) -> (styled: ColoredString)
    requires
        is_ascii_chars(color@),
    ensures
        styled == colored_text(text@, color@),
{
    text.color(color)
}

/// Calls `Colorize::on_bright_white` of `colored` on a styled string. The
/// result is the argument with its background set; the contract only names
/// it.
#[verifier::external_body]
fn on_bright_white(styled: ColoredString) -> (backed: ColoredString)
    ensures
        backed == on_bright_white_of(styled),
{
    styled.on_bright_white()
}

/// The name of a line in the colour of its display category.
pub fn styled_name(line: &RenderLine) -> (styled: ColoredString)
    ensures
        styled == colored_text(line@.name, color_name(line@.class)),
{
    paint(line.name.as_str(), color_of(line.class))
}

/// The announcement of the root, in the colour of directories.
pub fn styled_root(label: &str) -> (styled: ColoredString)
    ensures
        styled == colored_text(label@, color_name(ColorClass::Directory)),
{
    paint(label, color_of(ColorClass::Directory))
}

/// The label in front of every notice: green on bright white.
pub fn notice_label() -> (styled: ColoredString)
    ensures
        styled == on_bright_white_of(colored_text("Tip"@, "green"@)),
{
    proof {
        reveal_strlit("green");
    }
    on_bright_white(paint("Tip", "green"))
}

} // verus!
