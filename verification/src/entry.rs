//! Directory entries, the options of a walk, and which entries are shown.

use vstd::prelude::*;
use crate::text::{hidden, is_hidden, lowercase, lowercase_of, same_text};

verus! {

/// What kind of filesystem object an entry is, judged by the entry itself
/// and never by what a link points to.
#[derive(Clone, Copy, Debug, PartialEq, Eq, Structural)]
pub enum FileType {
    File,
    Directory,
    SymbolicLink,
    Unknown,
}

/// The display category of an entry. How a category looks on a terminal is
/// decided where the lines are written.
#[derive(Clone, Copy, Debug, PartialEq, Eq, Structural)]
pub enum ColorClass {
    Directory,
    SymbolicLink,
    ExecutableFile,
    PlainFile,
    Unknown,
}

/// The options of a walk.
#[derive(Clone, Copy, Debug, PartialEq, Eq, Structural)]
pub struct Config {
    /// How many levels below the root are listed; 0 lists all of them.
    pub max_depth: usize,
    /// Whether entries whose name starts with a dot are shown.
    pub show_hidden: bool,
    /// Show directories only.
    pub directory_only: bool,
    /// Show files only.
    pub file_only: bool,
}

/// One object inside a directory.
#[derive(Debug, PartialEq, Eq)]
pub struct Entry {
    /// The name inside its directory.
    pub name: String,
    /// The path under which the entry is reached.
    pub path: String,
    pub kind: FileType,
    /// Whether a file counts as executable. Read for files only.
    pub executable: bool,
}

/// An entry as a plain value.
pub ghost struct EntryView {
    pub name: Seq<char>,
    pub path: Seq<char>,
    pub kind: FileType,
    pub executable: bool,
}

impl View for Entry {
    type V = EntryView;

    open spec fn view(&self) -> EntryView {
        EntryView { name: self.name@, path: self.path@, kind: self.kind, executable: self.executable }
    }
}

impl Clone for Entry {
    fn clone(&self) -> (copy: Self)
        ensures
            copy@ == self@,
    {
        Entry {
            name: self.name.clone(),
            path: self.path.clone(),
            kind: self.kind,
            executable: self.executable,
        }
    }
}

/// The entries of a listing as plain values.
pub open spec fn entry_views(entries: Seq<Entry>) -> Seq<EntryView> {
    entries.map_values(|e: Entry| e@)
}

/// The display category of an entry of the given kind.
pub open spec fn class_of(kind: FileType, executable: bool) -> ColorClass {
    match kind {
        FileType::Directory => ColorClass::Directory,
        FileType::SymbolicLink => ColorClass::SymbolicLink,
        FileType::File => if executable {
            ColorClass::ExecutableFile
        } else {
            ColorClass::PlainFile
        },
        FileType::Unknown => ColorClass::Unknown,
    }
}

/// Whether an entry with this name and kind is shown under `config`: hidden
/// names need `show_hidden`, and each of the two kind filters lets pass its
/// own kind alone.
pub open spec fn shown(name: Seq<char>, kind: FileType, config: Config) -> bool {
    &&& config.show_hidden || !hidden(name)
    &&& config.directory_only ==> kind == FileType::Directory
    &&& config.file_only ==> kind == FileType::File
}

/// Whether the walk goes into an entry of this kind that stands at `depth`
/// levels below the root: only into directories, and only while the next
/// level is within the limit.
pub open spec fn descends(kind: FileType, depth: nat, config: Config) -> bool {
    kind == FileType::Directory && (config.max_depth == 0 || depth + 1 <= config.max_depth)
}

/// The kind of an object, from what its own metadata says it is. A link is
/// a link whatever it points to; what is neither link, directory nor file
/// is unknown.
pub open spec fn kind_of(is_link: bool, is_directory: bool, is_file: bool) -> FileType {
    if is_link {
        FileType::SymbolicLink
    } else if is_directory {
        FileType::Directory
    } else if is_file {
        FileType::File
    } else {
        FileType::Unknown
    }
}

/// The kind of an object, from what its own metadata says it is.
pub fn file_type(is_link: bool, is_directory: bool, is_file: bool) -> (kind: FileType)
    ensures
        kind == kind_of(is_link, is_directory, is_file),
{
    if is_link {
        FileType::SymbolicLink
    } else if is_directory {
        FileType::Directory
    } else if is_file {
        FileType::File
    } else {
        FileType::Unknown
    }
}

/// Whether permission bits allow anyone to execute.
pub open spec fn mode_executable(mode: u32) -> bool {
    mode & 0o111 != 0
}

/// Whether permission bits allow anyone to execute.
pub fn is_executable_mode(mode: u32) -> (r: bool)
    ensures
        r == mode_executable(mode),
{
    mode & 0o111 != 0
}

/// Whether a file name extension, in lowercase, marks an executable file
/// where permission bits do not.
pub open spec fn extension_executable(extension: Seq<char>) -> bool {
    extension == "exe"@ || extension == "bat"@ || extension == "cmd"@ || extension == "msi"@
        || extension == "vbs"@ || extension == "ps1"@
}

/// Whether a file name extension that is given in lowercase marks an
/// executable file.
pub fn marks_executable(folded: &str) -> (r: bool)
    ensures
        r == extension_executable(folded@),
{
    same_text(folded, "exe") || same_text(folded, "bat") || same_text(folded, "cmd")
        || same_text(folded, "msi") || same_text(folded, "vbs") || same_text(folded, "ps1")
}

/// Whether a file name extension, in any case, marks an executable file.
pub fn is_executable_extension(extension: &str) -> (r: bool)
    ensures
        r == extension_executable(lowercase_of(extension@)),
{
    let folded = lowercase(extension);
    marks_executable(folded.as_str())
}

impl Entry {
    /// The display category of this entry.
    pub fn color_class(&self) -> (class: ColorClass)
        ensures
            class == class_of(self.kind, self.executable),
    {
        match self.kind {
            FileType::Directory => ColorClass::Directory,
            FileType::SymbolicLink => ColorClass::SymbolicLink,
            FileType::File => if self.executable {
                ColorClass::ExecutableFile
            } else {
                ColorClass::PlainFile
            },
            FileType::Unknown => ColorClass::Unknown,
        }
    }

    /// Whether this entry is shown under `config`.
    pub fn is_shown(&self, config: &Config) -> (r: bool)
        ensures
            r == shown(self.name@, self.kind, *config),
    {
        if !config.show_hidden && is_hidden(self.name.as_str()) {
            return false;
        }
        if config.directory_only && !matches!(self.kind, FileType::Directory) {
            return false;
        }
        if config.file_only && !matches!(self.kind, FileType::File) {
            return false;
        }
        true
    }
}

} // verus!
