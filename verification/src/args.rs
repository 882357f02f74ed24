//! The command line: what the arguments ask for, and the help text.

use vstd::prelude::*;
use vstd::string::StringExecFns;
use crate::entry::Config;
use crate::text::{decimal_value, parse_decimal, same_text};

verus! {

/// What a command line asks to print.
#[derive(Debug, PartialEq, Eq)]
pub struct TreePrintArgs {
    pub config: Config,
    /// The directory to list; the current directory when there is none.
    pub directory: Option<String>,
}

/// The arguments of a run as plain values.
pub ghost struct ArgsView {
    pub config: Config,
    pub directory: Option<Seq<char>>,
}

impl View for TreePrintArgs {
    type V = ArgsView;

    open spec fn view(&self) -> ArgsView {
        ArgsView {
            config: self.config,
            directory: match self.directory {
                Some(path) => Some(path@),
                None => None,
            },
        }
    }
}

/// What the caller found at the path that the first free argument names.
#[derive(Clone, Copy, Debug, PartialEq, Eq, Structural)]
pub enum TargetStatus {
    Directory,
    NotDirectory,
    Missing,
}

/// Why a command line is refused.
#[derive(Debug, PartialEq, Eq)]
pub enum ArgFault {
    /// The value behind the depth flag is no number.
    InvalidDepth { flag: String },
    /// The depth flag is the last argument.
    MissingValue { flag: String },
    /// Nothing exists at the path.
    NoSuchDirectory { path: String },
    /// What exists at the path is no directory.
    NotADirectory { path: String },
    /// Both directories only and files only.
    Conflict,
}

/// A fault as a plain value.
pub ghost enum FaultView {
    InvalidDepth { flag: Seq<char> },
    MissingValue { flag: Seq<char> },
    NoSuchDirectory { path: Seq<char> },
    NotADirectory { path: Seq<char> },
    Conflict,
}

impl View for ArgFault {
    type V = FaultView;

    open spec fn view(&self) -> FaultView {
        match self {
            ArgFault::InvalidDepth { flag } => FaultView::InvalidDepth { flag: flag@ },
            ArgFault::MissingValue { flag } => FaultView::MissingValue { flag: flag@ },
            ArgFault::NoSuchDirectory { path } => FaultView::NoSuchDirectory { path: path@ },
            ArgFault::NotADirectory { path } => FaultView::NotADirectory { path: path@ },
            ArgFault::Conflict => FaultView::Conflict,
        }
    }
}

/// What a command line comes to.
#[derive(Debug, PartialEq, Eq)]
pub enum Parsed {
    /// Print the tree.
    Run(TreePrintArgs),
    /// Print the help text and nothing else.
    Help,
    /// Print the version and nothing else.
    Version,
    /// Print the fault and nothing else.
    Refused(ArgFault),
}

/// The outcome as a plain value.
pub ghost enum ParsedView {
    Run(ArgsView),
    Help,
    Version,
    Refused(FaultView),
}

impl View for Parsed {
    type V = ParsedView;

    open spec fn view(&self) -> ParsedView {
        match self {
            Parsed::Run(args) => ParsedView::Run(args@),
            Parsed::Help => ParsedView::Help,
            Parsed::Version => ParsedView::Version,
            Parsed::Refused(fault) => ParsedView::Refused(fault@),
        }
    }
}

/// The arguments as character sequences.
pub open spec fn texts(args: Seq<String>) -> Seq<Seq<char>> {
    args.map_values(|s: String| s@)
}

/// What an argument is.
#[derive(Clone, Copy, Debug, PartialEq, Eq, Structural)]
pub enum Word {
    Depth,
    All,
    DirectoryOnly,
    FileOnly,
    Version,
    Help,
    /// Anything else: the directory to list.
    Free,
}

/// What the argument `arg` is.
pub open spec fn word_of(arg: Seq<char>) -> Word {
    if arg == "--depth"@ || arg == "-L"@ {
        Word::Depth
    } else if arg == "--all"@ || arg == "-a"@ {
        Word::All
    } else if arg == "-d"@ || arg == "--directory"@ {
        Word::DirectoryOnly
    } else if arg == "--fileonly"@ {
        Word::FileOnly
    } else if arg == "-V"@ || arg == "--version"@ {
        Word::Version
    } else if arg == "-h"@ || arg == "--help"@ {
        Word::Help
    } else {
        Word::Free
    }
}

/// What the argument `arg` is.
pub fn classify(arg: &str) -> (word: Word)
    ensures
        word == word_of(arg@),
{
    if same_text(arg, "--depth") || same_text(arg, "-L") {
        Word::Depth
    } else if same_text(arg, "--all") || same_text(arg, "-a") {
        Word::All
    } else if same_text(arg, "-d") || same_text(arg, "--directory") {
        Word::DirectoryOnly
    } else if same_text(arg, "--fileonly") {
        Word::FileOnly
    } else if same_text(arg, "-V") || same_text(arg, "--version") {
        Word::Version
    } else if same_text(arg, "-h") || same_text(arg, "--help") {
        Word::Help
    } else {
        Word::Free
    }
}

/// The arguments of a run before any flag is read: no limit, nothing
/// hidden shown, no filter, no directory.
pub open spec fn no_args() -> ArgsView {
    ArgsView {
        config: Config {
            max_depth: 0,
            show_hidden: false,
            directory_only: false,
            file_only: false,
        },
        directory: None,
    }
}

/// What `args[at..]` comes to when `so_far` was gathered from the arguments
/// before. The arguments are read from left to right. The depth flag takes
/// the next argument as its value. The help and version flags, and every
/// fault, end the reading. The first free argument names the directory,
/// which `status` must find to be one; further free arguments are passed
/// over. The two kind filters together are refused at the end.
pub open spec fn scan(args: Seq<Seq<char>>, at: int, so_far: ArgsView, status: TargetStatus)
    -> ParsedView
    decreases args.len() - at,
{
    if at < 0 || at >= args.len() {
        if so_far.config.directory_only && so_far.config.file_only {
            ParsedView::Refused(FaultView::Conflict)
        } else {
            ParsedView::Run(so_far)
        }
    } else {
        let arg = args[at];
        let config = so_far.config;
        match word_of(arg) {
            Word::Depth => if at + 1 >= args.len() {
                ParsedView::Refused(FaultView::MissingValue { flag: arg })
            } else {
                match decimal_value(args[at + 1]) {
                    Some(depth) => scan(
                        args,
                        at + 2,
                        ArgsView { config: Config { max_depth: depth, ..config }, ..so_far },
                        status,
                    ),
                    None => ParsedView::Refused(FaultView::InvalidDepth { flag: arg }),
                }
            },
            Word::All => scan(
                args,
                at + 1,
                ArgsView { config: Config { show_hidden: true, ..config }, ..so_far },
                status,
            ),
            Word::DirectoryOnly => scan(
                args,
                at + 1,
                ArgsView { config: Config { directory_only: true, ..config }, ..so_far },
                status,
            ),
            Word::FileOnly => scan(
                args,
                at + 1,
                ArgsView { config: Config { file_only: true, ..config }, ..so_far },
                status,
            ),
            Word::Version => ParsedView::Version,
            Word::Help => ParsedView::Help,
            Word::Free => if so_far.directory is Some {
                scan(args, at + 1, so_far, status)
            } else {
                match status {
                    TargetStatus::Directory => scan(
                        args,
                        at + 1,
                        ArgsView { directory: Some(arg), ..so_far },
                        status,
                    ),
                    TargetStatus::Missing => ParsedView::Refused(
                        FaultView::NoSuchDirectory { path: arg },
                    ),
                    TargetStatus::NotDirectory => ParsedView::Refused(
                        FaultView::NotADirectory { path: arg },
                    ),
                }
            },
        }
    }
}

/// What a command line comes to. The first argument is the name of the
/// program and is not read.
pub open spec fn parse_spec(args: Seq<Seq<char>>, status: TargetStatus) -> ParsedView {
    scan(args, 1, no_args(), status)
}

/// Where in `args[at..]` the reading comes upon its first free argument,
/// if it gets that far.
pub open spec fn target_from(args: Seq<Seq<char>>, at: int) -> Option<int>
    decreases args.len() - at,
{
    if at < 0 || at >= args.len() {
        None
    } else {
        match word_of(args[at]) {
            Word::Depth => if at + 1 < args.len() && decimal_value(args[at + 1]) is Some {
                target_from(args, at + 2)
            } else {
                None
            },
            Word::All | Word::DirectoryOnly | Word::FileOnly => target_from(args, at + 1),
            Word::Version | Word::Help => None,
            Word::Free => Some(at),
        }
    }
}

/// Which argument names the directory whose status the reading of the
/// command line asks for: the first free argument, unless the reading ends
/// before it.
pub fn target_index(args: &Vec<String>) -> (index: Option<usize>)
    ensures
        match index {
            Some(i) => target_from(texts(args@), 1) == Some(i as int),
            None => target_from(texts(args@), 1) is None,
        },
{
    let ghost all = texts(args@);
    let mut at: usize = 1;
    while at < args.len()
        invariant
            1 <= at,
            all == texts(args@),
            target_from(all, at as int) == target_from(all, 1),
        decreases args.len() - at,
    {
        match classify(args[at].as_str()) {
            Word::Depth => {
                if at + 1 >= args.len() {
                    return None;
                }
                if parse_decimal(args[at + 1].as_str()).is_none() {
                    return None;
                }
                at += 2;
            },
            Word::All | Word::DirectoryOnly | Word::FileOnly => {
                at += 1;
            },
            Word::Version | Word::Help => {
                return None;
            },
            Word::Free => {
                return Some(at);
            },
        }
    }
    None
}

/// Reads a command line. `status` says what the caller found at the path
/// that the argument at `target_index` names; without such an argument it
/// is not read.
pub fn parse_args(args: &Vec<String>, status: TargetStatus) -> (parsed: Parsed)
    ensures
        parsed@ == parse_spec(texts(args@), status),
{
    let ghost all = texts(args@);
    let mut config = Config {
        max_depth: 0,
        show_hidden: false,
        directory_only: false,
        file_only: false,
    };
    let mut directory: Option<String> = None;
    let mut at: usize = 1;
    while at < args.len()
        invariant
            1 <= at,
            all == texts(args@),
            scan(
                all,
                at as int,
                (TreePrintArgs { config, directory })@,
                status,
            ) == parse_spec(all, status),
        decreases args.len() - at,
    {
        match classify(args[at].as_str()) {
            Word::Depth => {
                if at + 1 >= args.len() {
                    return Parsed::Refused(ArgFault::MissingValue { flag: args[at].clone() });
                }
                match parse_decimal(args[at + 1].as_str()) {
                    Some(depth) => {
                        config.max_depth = depth;
                    },
                    None => {
                        return Parsed::Refused(ArgFault::InvalidDepth { flag: args[at].clone() });
                    },
                }
                at += 2;
            },
            Word::All => {
                config.show_hidden = true;
                at += 1;
            },
            Word::DirectoryOnly => {
                config.directory_only = true;
                at += 1;
            },
            Word::FileOnly => {
                config.file_only = true;
                at += 1;
            },
            Word::Version => {
                return Parsed::Version;
            },
            Word::Help => {
                return Parsed::Help;
            },
            Word::Free => {
                if directory.is_none() {
                    match status {
                        TargetStatus::Directory => {
                            directory = Some(args[at].clone());
                        },
                        TargetStatus::Missing => {
                            return Parsed::Refused(
                                ArgFault::NoSuchDirectory { path: args[at].clone() },
                            );
                        },
                        TargetStatus::NotDirectory => {
                            return Parsed::Refused(
                                ArgFault::NotADirectory { path: args[at].clone() },
                            );
                        },
                    }
                }
                at += 1;
            },
        }
    }
    if config.directory_only && config.file_only {
        Parsed::Refused(ArgFault::Conflict)
    } else {
        Parsed::Run(TreePrintArgs { config, directory })
    }
}

/// When the reading comes upon no free argument, what the command line
/// comes to does not depend on the status.
pub proof fn lemma_status_unread(
    args: Seq<Seq<char>>,
    at: int,
    so_far: ArgsView,
    first: TargetStatus,
    second: TargetStatus,
)
    requires
        target_from(args, at) is None,
        so_far.directory is None,
    ensures
        scan(args, at, so_far, first) == scan(args, at, so_far, second),
    decreases args.len() - at,
{
    if 0 <= at < args.len() {
        let config = so_far.config;
        match word_of(args[at]) {
            Word::Depth => {
                if at + 1 < args.len() {
                    match decimal_value(args[at + 1]) {
                        Some(depth) => {
                            lemma_status_unread(
                                args,
                                at + 2,
                                ArgsView {
                                    config: Config { max_depth: depth, ..config },
                                    ..so_far
                                },
                                first,
                                second,
                            );
                        },
                        None => {},
                    }
                }
            },
            Word::All => {
                lemma_status_unread(
                    args,
                    at + 1,
                    ArgsView { config: Config { show_hidden: true, ..config }, ..so_far },
                    first,
                    second,
                );
            },
            Word::DirectoryOnly => {
                lemma_status_unread(
                    args,
                    at + 1,
                    ArgsView { config: Config { directory_only: true, ..config }, ..so_far },
                    first,
                    second,
                );
            },
            Word::FileOnly => {
                lemma_status_unread(
                    args,
                    at + 1,
                    ArgsView { config: Config { file_only: true, ..config }, ..so_far },
                    first,
                    second,
                );
            },
            _ => {},
        }
    }
}

/// When the reading comes upon a free argument and the caller found no
/// directory at the path that it names, the command line is refused with
/// the fault that names this path.
pub proof fn lemma_bad_target_refused(
    args: Seq<Seq<char>>,
    at: int,
    so_far: ArgsView,
    status: TargetStatus,
)
    requires
        target_from(args, at) is Some,
        so_far.directory is None,
        status != TargetStatus::Directory,
    ensures
        scan(args, at, so_far, status) == ParsedView::Refused(
            match status {
                TargetStatus::NotDirectory => FaultView::NotADirectory {
                    path: args[target_from(args, at)->Some_0],
                },
                _ => FaultView::NoSuchDirectory { path: args[target_from(args, at)->Some_0] },
            },
        ),
    decreases args.len() - at,
{
    if 0 <= at < args.len() {
        let config = so_far.config;
        match word_of(args[at]) {
            Word::Depth => {
                let depth = decimal_value(args[at + 1])->Some_0;
                lemma_bad_target_refused(
                    args,
                    at + 2,
                    ArgsView { config: Config { max_depth: depth, ..config }, ..so_far },
                    status,
                );
            },
            Word::All => {
                lemma_bad_target_refused(
                    args,
                    at + 1,
                    ArgsView { config: Config { show_hidden: true, ..config }, ..so_far },
                    status,
                );
            },
            Word::DirectoryOnly => {
                lemma_bad_target_refused(
                    args,
                    at + 1,
                    ArgsView { config: Config { directory_only: true, ..config }, ..so_far },
                    status,
                );
            },
            Word::FileOnly => {
                lemma_bad_target_refused(
                    args,
                    at + 1,
                    ArgsView { config: Config { file_only: true, ..config }, ..so_far },
                    status,
                );
            },
            _ => {},
        }
    }
}

/// A command line that asks for directories only and for files only is
/// never run, whatever else it holds.
pub proof fn lemma_conflict_never_runs(
    args: Seq<Seq<char>>,
    at: int,
    so_far: ArgsView,
    status: TargetStatus,
)
    ensures
        scan(args, at, so_far, status) matches ParsedView::Run(run) ==> !(
        run.config.directory_only && run.config.file_only),
    decreases args.len() - at,
{
    if 0 <= at < args.len() {
        let config = so_far.config;
        match word_of(args[at]) {
            Word::Depth => {
                if at + 1 < args.len() {
                    match decimal_value(args[at + 1]) {
                        Some(depth) => {
                            lemma_conflict_never_runs(
                                args,
                                at + 2,
                                ArgsView {
                                    config: Config { max_depth: depth, ..config },
                                    ..so_far
                                },
                                status,
                            );
                        },
                        None => {},
                    }
                }
            },
            Word::All => {
                lemma_conflict_never_runs(
                    args,
                    at + 1,
                    ArgsView { config: Config { show_hidden: true, ..config }, ..so_far },
                    status,
                );
            },
            Word::DirectoryOnly => {
                lemma_conflict_never_runs(
                    args,
                    at + 1,
                    ArgsView { config: Config { directory_only: true, ..config }, ..so_far },
                    status,
                );
            },
            Word::FileOnly => {
                lemma_conflict_never_runs(
                    args,
                    at + 1,
                    ArgsView { config: Config { file_only: true, ..config }, ..so_far },
                    status,
                );
            },
            Word::Free => {
                if so_far.directory is Some {
                    lemma_conflict_never_runs(args, at + 1, so_far, status);
                } else if status == TargetStatus::Directory {
                    lemma_conflict_never_runs(
                        args,
                        at + 1,
                        ArgsView { directory: Some(args[at]), ..so_far },
                        status,
                    );
                }
            },
            _ => {},
        }
    }
}

} // verus!
