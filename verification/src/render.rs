//! The lines of the tree: prefix, connector, name and display category.

use vstd::prelude::*;
use vstd::string::StringExecFns;
use crate::entry::{class_of, ColorClass, Entry, EntryView};

verus! {

/// The connector in front of a name: an elbow for the last entry of a
/// directory, a tee for the others.
pub open spec fn connector_text(is_last: bool) -> Seq<char> {
    if is_last {
        "└── "@
    } else {
        "├── "@
    }
}

/// What one level adds to the prefix of the lines below an entry: blanks
/// below the last entry of a directory, a vertical bar and blanks below the
/// others.
pub open spec fn segment_text(is_last: bool) -> Seq<char> {
    if is_last {
        "    "@
    } else {
        "│   "@
    }
}

/// The connector in front of a name.
pub fn connector(is_last: bool) -> (text: &'static str)
    ensures
        text@ == connector_text(is_last),
{
    if is_last {
        "└── "
    } else {
        "├── "
    }
}

/// The prefix of the lines below an entry that has the prefix `prefix`.
pub fn child_prefix(prefix: &str, is_last: bool) -> (below: String)
    ensures
        below@ == prefix@ + segment_text(is_last),
{
    let start = String::from_str(prefix);
    if is_last {
        start.concat("    ")
    } else {
        start.concat("│   ")
    }
}

/// One line of the tree.
#[derive(Debug, PartialEq, Eq)]
pub struct RenderLine {
    /// One segment for each directory above the entry, the root left out.
    pub prefix: String,
    /// Whether the entry is the last one listed of its directory.
    pub is_last: bool,
    pub name: String,
    pub class: ColorClass,
    /// How many levels below the root the entry stands; 1 for the entries
    /// of the root.
    pub depth: usize,
}

/// A line as a plain value.
pub ghost struct RenderLineView {
    pub prefix: Seq<char>,
    pub is_last: bool,
    pub name: Seq<char>,
    pub class: ColorClass,
    pub depth: nat,
}

impl View for RenderLine {
    type V = RenderLineView;

    open spec fn view(&self) -> RenderLineView {
        RenderLineView {
            prefix: self.prefix@,
            is_last: self.is_last,
            name: self.name@,
            class: self.class,
            depth: self.depth as nat,
        }
    }
}

/// The line of `entry` under `prefix`.
pub open spec fn line_of(entry: EntryView, prefix: Seq<char>, is_last: bool, depth: nat)
    -> RenderLineView {
    RenderLineView {
        prefix,
        is_last,
        name: entry.name,
        class: class_of(entry.kind, entry.executable),
        depth,
    }
}

/// The characters of a line: prefix, connector, name.
pub open spec fn line_text(line: RenderLineView) -> Seq<char> {
    line.prefix + connector_text(line.is_last) + line.name
}

/// Draws the line of `entry` under `prefix`.
pub fn render(entry: &Entry, prefix: &str, is_last: bool, depth: usize) -> (line: RenderLine)
    ensures
        line@ == line_of(entry@, prefix@, is_last, depth as nat),
{
    RenderLine {
        prefix: String::from_str(prefix),
        is_last,
        name: entry.name.clone(),
        class: entry.color_class(),
        depth,
    }
}

impl RenderLine {
    /// The connector of this line.
    pub fn connector(&self) -> (text: &'static str)
        ensures
            text@ == connector_text(self.is_last),
    {
        connector(self.is_last)
    }

    /// The characters of this line.
    pub fn text(&self) -> (text: String)
        ensures
            text@ == line_text(self@),
    {
        self.prefix.clone().concat(connector(self.is_last)).concat(self.name.as_str())
    }
}

} // verus!
