//! The texts that go with a run: notices, the help text, the version line
//! and the announcement of the root.

use vstd::prelude::*;
use vstd::string::{StrSliceExecFns, StringExecFns};
use crate::args::{texts, ArgFault, FaultView};
use crate::render::line_text;
use crate::walk::{EventView, ReadFailure, RenderEvent};

verus! {

/// What a notice says of a directory that could not be read.
pub open spec fn failure_text(path: Seq<char>, reason: ReadFailure) -> Seq<char> {
    match reason {
        ReadFailure::PermissionDenied => "Permission denied: "@ + path,
        ReadFailure::Other => "Error reading directory: "@ + path,
    }
}

/// What a notice says of a directory that could not be read.
pub fn failure_message(path: &str, reason: ReadFailure) -> (text: String)
    ensures
        text@ == failure_text(path@, reason),
{
    match reason {
        ReadFailure::PermissionDenied => String::from_str("Permission denied: ").concat(path),
        ReadFailure::Other => String::from_str("Error reading directory: ").concat(path),
    }
}

/// The characters of an event: those of its line, or what its notice says.
pub open spec fn event_text(event: EventView) -> Seq<char> {
    match event {
        EventView::Line(line) => line_text(line),
        EventView::ReadFailed { path, reason } => failure_text(path, reason),
    }
}

impl RenderEvent {
    /// The characters of this event.
    pub fn text(&self) -> (text: String)
        ensures
            text@ == event_text(self@),
    {
        match self {
            RenderEvent::Line(line) => line.text(),
            RenderEvent::ReadFailed { path, reason } => failure_message(path.as_str(), *reason),
        }
    }
}

/// What a notice says of a refused command line.
pub open spec fn fault_text(fault: FaultView) -> Seq<char> {
    match fault {
        FaultView::InvalidDepth { flag } => "Invalid value for "@ + flag
            + ", expected a number."@,
        FaultView::MissingValue { flag } => "missing value for "@ + flag,
        FaultView::NoSuchDirectory { path } => "The specified directory '"@ + path
            + "' does not exist."@,
        FaultView::NotADirectory { path } => "'"@ + path + "' is not a valid directory."@,
        FaultView::Conflict => "You can't specify both --directory and --fileonly."@,
    }
}

impl ArgFault {
    /// What a notice says of this fault.
    pub fn message(&self) -> (text: String)
        ensures
            text@ == fault_text(self@),
    {
        match self {
            ArgFault::InvalidDepth { flag } => String::from_str("Invalid value for ").concat(
                flag.as_str(),
            ).concat(", expected a number."),
            ArgFault::MissingValue { flag } => String::from_str("missing value for ").concat(
                flag.as_str(),
            ),
            ArgFault::NoSuchDirectory { path } => String::from_str(
                "The specified directory '",
            ).concat(path.as_str()).concat("' does not exist."),
            ArgFault::NotADirectory { path } => String::from_str("'").concat(
                path.as_str(),
            ).concat("' is not a valid directory."),
            ArgFault::Conflict => String::from_str(
                "You can't specify both --directory and --fileonly.",
            ),
        }
    }
}

/// The announcement of the root: a dot for the current directory, else the
/// path.
pub open spec fn root_text(path: Seq<char>, is_current: bool) -> Seq<char> {
    if is_current {
        "."@
    } else {
        path
    }
}

/// The announcement of the root.
pub fn root_label(path: &str, is_current: bool) -> (text: String)
    ensures
        text@ == root_text(path@, is_current),
{
    if is_current {
        String::from_str(".")
    } else {
        String::from_str(path)
    }
}

/// The version line for the given version and authors.
pub open spec fn version_text(version: Seq<char>, authors: Seq<char>) -> Seq<char> {
    "rtree v"@ + version + " © 2024 by "@ + authors
}

/// The version line for the given version and authors.
pub fn version_line(version: &str, authors: &str) -> (text: String)
    ensures
        text@ == version_text(version@, authors@),
{
    String::from_str("rtree v").concat(version).concat(" © 2024 by ").concat(authors)
}

/// `count` blanks.
pub open spec fn blanks(count: nat) -> Seq<char> {
    Seq::new(count, |i: int| ' ')
}

/// The text, filled up with blanks on the right to `width` characters.
pub open spec fn padded(text: Seq<char>, width: nat) -> Seq<char> {
    if text.len() >= width {
        text
    } else {
        text + blanks((width - text.len()) as nat)
    }
}

/// Fills the text up with blanks on the right to `width` characters.
pub fn pad(text: &str, width: usize) -> (out: String)
    ensures
        out@ == padded(text@, width as nat),
{
    let mut out = String::from_str(text);
    let mut length = text.unicode_len();
    proof {
        reveal_strlit(" ");
    }
    while length < width
        invariant
            text@.len() <= length,
            length <= width || length == text@.len(),
            out@ == text@ + blanks((length - text@.len()) as nat),
            " "@ == seq![' '],
        decreases width - length,
    {
        out.append(" ");
        length += 1;
    }
    out
}

/// How wide the column of the options is in the help text.
pub const OPTION_WIDTH: usize = 30;

/// One row of the help text: the option in its column, a blank, and what
/// the option does.
pub open spec fn row_text(option: Seq<char>, what: Seq<char>) -> Seq<char> {
    padded(option, OPTION_WIDTH as nat) + " "@ + what
}

/// One row of the help text.
pub fn help_row(option: &str, what: &str) -> (row: String)
    ensures
        row@ == row_text(option@, what@),
{
    pad(option, OPTION_WIDTH).concat(" ").concat(what)
}

/// The lines of the help text.
pub open spec fn help_text() -> Seq<Seq<char>> {
    seq![
        "Usage: rtree [OPTION] [DIRECTORY]"@,
        "       rtree [DIRECTORY] [OPTION]"@,
        Seq::<char>::empty(),
        "Options:"@,
        row_text("-h, --help"@, "Print this help message"@),
        row_text("[DIRECTORY]"@, "The directory to list (default: current directory)"@),
        row_text(
            "--depth DEPTH, -L DEPTH"@,
            "Set the maximum depth of the tree (default: 0)"@,
        ),
        row_text("--all, -a"@, "Show hidden files and directories"@),
        row_text("-d, --directory"@, "List directories only"@),
        row_text("--fileonly"@, "List files only"@),
        row_text("-V, --version"@, "Print the version of rtree"@),
    ]
}

/// The lines of the help text.
pub fn help_lines() -> (lines: Vec<String>)
    ensures
        texts(lines@) == help_text(),
{
    let mut lines: Vec<String> = Vec::new();
    lines.push(String::from_str("Usage: rtree [OPTION] [DIRECTORY]"));
    lines.push(String::from_str("       rtree [DIRECTORY] [OPTION]"));
    lines.push(String::new());
    lines.push(String::from_str("Options:"));
    lines.push(help_row("-h, --help", "Print this help message"));
    lines.push(help_row("[DIRECTORY]", "The directory to list (default: current directory)"));
    lines.push(
        help_row("--depth DEPTH, -L DEPTH", "Set the maximum depth of the tree (default: 0)"),
    );
    lines.push(help_row("--all, -a", "Show hidden files and directories"));
    lines.push(help_row("-d, --directory", "List directories only"));
    lines.push(help_row("--fileonly", "List files only"));
    lines.push(help_row("-V, --version", "Print the version of rtree"));
    lines
}

} // verus!
