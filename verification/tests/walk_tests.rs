use rtree::entry::{Config, Entry, FileType};
use rtree::walk::{Listing, ReadFailure, RenderEvent, RootReadError, Step, Walker};

fn config(max_depth: usize, show_hidden: bool) -> Config {
    Config { max_depth, show_hidden, directory_only: false, file_only: false }
}

fn entry(dir: &str, name: &str, kind: FileType) -> Entry {
    Entry { name: name.to_string(), path: format!("{}/{}", dir, name), kind, executable: false }
}

fn file(dir: &str, name: &str) -> Entry {
    entry(dir, name, FileType::File)
}

fn dir(parent: &str, name: &str) -> Entry {
    entry(parent, name, FileType::Directory)
}

/// Drives a walker to its end. Each request is answered from `dirs`; a
/// directory that `dirs` lacks is empty. Gives back the texts of the events
/// and the paths that were asked for, in order.
fn run(config: Config, root: Vec<Entry>, dirs: Vec<(&str, Listing)>) -> (Vec<String>, Vec<String>) {
    let mut dirs = dirs;
    let mut walker = Walker::start(config, Listing::Entries(root)).unwrap();
    let mut out = Vec::new();
    let mut asked = Vec::new();
    loop {
        match walker.advance() {
            Step::Emit(event) => out.push(event.text()),
            Step::Read(path) => {
                let found = dirs.iter().position(|(p, _)| *p == path);
                let listing = match found {
                    Some(i) => dirs.remove(i).1,
                    None => Listing::Entries(vec![]),
                };
                asked.push(path);
                walker.supply(listing);
            }
            Step::Done => break,
        }
    }
    (out, asked)
}

fn two_levels() -> (Vec<Entry>, Vec<(&'static str, Listing)>) {
    let root = vec![dir("r", "a"), file("r", "z.txt"), dir("r", "m")];
    let dirs = vec![
        ("r/a", Listing::Entries(vec![dir("r/a", "inner"), file("r/a", "one")])),
        ("r/a/inner", Listing::Entries(vec![file("r/a/inner", "deep")])),
        ("r/m", Listing::Entries(vec![file("r/m", "two")])),
    ];
    (root, dirs)
}

#[test]
fn example_root_with_two_files_and_an_empty_directory() {
    let root = vec![file("root", "b.txt"), file("root", "A.txt"), dir("root", "sub")];
    let (lines, asked) = run(config(0, false), root, vec![]);
    assert_eq!(lines, vec!["├── A.txt", "├── b.txt", "└── sub"]);
    assert_eq!(asked, vec!["root/sub"]);
}

#[test]
fn unlimited_depth_prints_every_level() {
    let (root, dirs) = two_levels();
    let (lines, asked) = run(config(0, false), root, dirs);
    assert_eq!(
        lines,
        vec![
            "├── a",
            "│   ├── inner",
            "│   │   └── deep",
            "│   └── one",
            "├── m",
            "│   └── two",
            "└── z.txt",
        ]
    );
    assert_eq!(asked, vec!["r/a", "r/a/inner", "r/m"]);
}

#[test]
fn max_depth_one_prints_first_level_only() {
    let (root, dirs) = two_levels();
    let (lines, asked) = run(config(1, false), root, dirs);
    assert_eq!(lines, vec!["├── a", "├── m", "└── z.txt"]);
    assert!(asked.is_empty());
}

#[test]
fn max_depth_two_stops_above_the_third_level() {
    let (root, dirs) = two_levels();
    let (lines, asked) = run(config(2, false), root, dirs);
    assert_eq!(
        lines,
        vec!["├── a", "│   ├── inner", "│   └── one", "├── m", "│   └── two", "└── z.txt"]
    );
    assert_eq!(asked, vec!["r/a", "r/m"]);
}

#[test]
fn blank_prefix_below_a_last_directory() {
    let root = vec![file("r", "a"), dir("r", "z")];
    let dirs = vec![
        ("r/z", Listing::Entries(vec![dir("r/z", "y"), file("r/z", "x")])),
        ("r/z/y", Listing::Entries(vec![file("r/z/y", "w")])),
    ];
    let (lines, _) = run(config(0, false), root, dirs);
    assert_eq!(lines, vec!["├── a", "└── z", "    ├── x", "    └── y", "        └── w"]);
}

#[test]
fn permission_denied_subdirectory_keeps_siblings() {
    let root = vec![dir("r", "locked"), dir("r", "open"), file("r", "z")];
    let dirs = vec![
        ("r/locked", Listing::Failed(ReadFailure::PermissionDenied)),
        ("r/open", Listing::Entries(vec![file("r/open", "inside")])),
    ];
    let (lines, asked) = run(config(0, false), root, dirs);
    assert_eq!(
        lines,
        vec![
            "├── locked",
            "Permission denied: r/locked",
            "├── open",
            "│   └── inside",
            "└── z",
        ]
    );
    assert_eq!(asked, vec!["r/locked", "r/open"]);
}

#[test]
fn other_read_failure_gives_the_generic_notice() {
    let root = vec![dir("r", "gone"), file("r", "z")];
    let dirs = vec![("r/gone", Listing::Failed(ReadFailure::Other))];
    let (lines, _) = run(config(0, false), root, dirs);
    assert_eq!(lines, vec!["├── gone", "Error reading directory: r/gone", "└── z"]);
}

#[test]
fn failure_event_carries_path_and_reason() {
    let mut walker =
        Walker::start(config(0, false), Listing::Entries(vec![dir("r", "locked")])).unwrap();
    assert!(matches!(walker.advance(), Step::Emit(RenderEvent::Line(_))));
    assert!(walker.is_awaiting());
    assert_eq!(walker.advance(), Step::Read("r/locked".to_string()));
    walker.supply(Listing::Failed(ReadFailure::PermissionDenied));
    assert!(!walker.is_awaiting());
    assert_eq!(
        walker.advance(),
        Step::Emit(RenderEvent::ReadFailed {
            path: "r/locked".to_string(),
            reason: ReadFailure::PermissionDenied,
        })
    );
    assert_eq!(walker.advance(), Step::Done);
}

#[test]
fn unreadable_root_is_an_error() {
    let denied = Walker::start(config(0, false), Listing::Failed(ReadFailure::PermissionDenied));
    assert_eq!(denied.err(), Some(RootReadError { reason: ReadFailure::PermissionDenied }));
    let other = Walker::start(config(0, false), Listing::Failed(ReadFailure::Other));
    assert_eq!(other.err(), Some(RootReadError { reason: ReadFailure::Other }));
}

#[test]
fn empty_root_is_done_at_once() {
    let mut walker = Walker::start(config(0, false), Listing::Entries(vec![])).unwrap();
    assert_eq!(walker.advance(), Step::Done);
    assert_eq!(walker.advance(), Step::Done);
}

#[test]
fn hidden_entries_need_show_hidden() {
    let root = || vec![file("r", ".git"), file("r", "a"), dir("r", ".cache"), file("r", "b.")];
    let (lines, asked) = run(config(0, false), root(), vec![]);
    assert_eq!(lines, vec!["├── a", "└── b."]);
    assert!(asked.is_empty());
    let (lines, asked) = run(config(0, true), root(), vec![]);
    assert_eq!(lines, vec!["├── .cache", "├── .git", "├── a", "└── b."]);
    assert_eq!(asked, vec!["r/.cache"]);
}

#[test]
fn hidden_test_reads_the_name_only() {
    let root = vec![dir("r/.hidden", "shown")];
    let dirs = vec![("r/.hidden/shown", Listing::Entries(vec![file("r/.hidden/shown", "x")]))];
    let (lines, _) = run(config(0, false), root, dirs);
    assert_eq!(lines, vec!["└── shown", "    └── x"]);
}

#[test]
fn directory_only_keeps_directories_alone() {
    let root = vec![
        file("r", "f"),
        dir("r", "d"),
        entry("r", "link", FileType::SymbolicLink),
        entry("r", "odd", FileType::Unknown),
    ];
    let dirs = vec![("r/d", Listing::Entries(vec![file("r/d", "g"), dir("r/d", "e")]))];
    let options = Config { directory_only: true, ..config(0, false) };
    let (lines, _) = run(options, root, dirs);
    assert_eq!(lines, vec!["└── d", "    └── e"]);
}

#[test]
fn file_only_keeps_files_alone() {
    let root = vec![
        file("r", "f"),
        dir("r", "d"),
        entry("r", "link", FileType::SymbolicLink),
        entry("r", "odd", FileType::Unknown),
    ];
    let options = Config { file_only: true, ..config(0, false) };
    let (lines, asked) = run(options, root, vec![]);
    assert_eq!(lines, vec!["└── f"]);
    assert!(asked.is_empty());
}

#[test]
fn both_filters_print_nothing() {
    let (root, dirs) = two_levels();
    let options = Config { directory_only: true, file_only: true, ..config(0, true) };
    let (lines, asked) = run(options, root, dirs);
    assert!(lines.is_empty());
    assert!(asked.is_empty());
}

#[test]
fn symbolic_link_is_not_entered() {
    let root = vec![entry("r", "link", FileType::SymbolicLink), dir("r", "real")];
    let (lines, asked) = run(config(0, false), root, vec![]);
    assert_eq!(lines, vec!["├── link", "└── real"]);
    assert_eq!(asked, vec!["r/real"]);
}

#[test]
fn one_elbow_for_each_listing_that_shows_something() {
    let root = vec![dir("r", "a"), dir("r", "b"), dir("r", "c"), file("r", "d")];
    let dirs = vec![
        ("r/a", Listing::Entries(vec![file("r/a", "x"), file("r/a", "y")])),
        ("r/b", Listing::Entries(vec![file("r/b", ".hidden")])),
        ("r/c", Listing::Failed(ReadFailure::Other)),
    ];
    let (lines, _) = run(config(0, false), root, dirs);
    let elbows = lines.iter().filter(|line| line.contains("└── ")).count();
    assert_eq!(elbows, 2);
    assert_eq!(lines.len(), 7);
}

#[test]
fn lines_carry_depth_class_and_last_flag() {
    let mut exe = file("r/d", "run");
    exe.executable = true;
    let root = vec![dir("r", "d")];
    let mut walker = Walker::start(config(0, false), Listing::Entries(root)).unwrap();
    let first = match walker.advance() {
        Step::Emit(RenderEvent::Line(line)) => line,
        other => panic!("unexpected step {:?}", other),
    };
    assert_eq!(first.depth, 1);
    assert!(first.is_last);
    assert_eq!(first.prefix, "");
    assert_eq!(first.name, "d");
    assert_eq!(first.class, rtree::entry::ColorClass::Directory);
    assert_eq!(walker.advance(), Step::Read("r/d".to_string()));
    walker.supply(Listing::Entries(vec![exe, file("r/d", "plain")]));
    let second = match walker.advance() {
        Step::Emit(RenderEvent::Line(line)) => line,
        other => panic!("unexpected step {:?}", other),
    };
    assert_eq!(second.depth, 2);
    assert!(!second.is_last);
    assert_eq!(second.prefix, "    ");
    assert_eq!(second.name, "plain");
    assert_eq!(second.class, rtree::entry::ColorClass::PlainFile);
    let third = match walker.advance() {
        Step::Emit(RenderEvent::Line(line)) => line,
        other => panic!("unexpected step {:?}", other),
    };
    assert_eq!(third.depth, 2);
    assert!(third.is_last);
    assert_eq!(third.class, rtree::entry::ColorClass::ExecutableFile);
    assert_eq!(walker.advance(), Step::Done);
}

#[test]
fn waiting_walker_repeats_its_request() {
    let mut walker =
        Walker::start(config(0, false), Listing::Entries(vec![dir("r", "d")])).unwrap();
    assert!(!walker.is_awaiting());
    assert!(matches!(walker.advance(), Step::Emit(_)));
    assert_eq!(walker.advance(), Step::Read("r/d".to_string()));
    assert_eq!(walker.advance(), Step::Read("r/d".to_string()));
    walker.supply(Listing::Entries(vec![]));
    assert_eq!(walker.advance(), Step::Done);
}

#[test]
fn listing_that_was_not_asked_for_is_dropped() {
    let mut walker =
        Walker::start(config(0, false), Listing::Entries(vec![file("r", "a")])).unwrap();
    walker.supply(Listing::Entries(vec![file("r", "intruder")]));
    walker.supply(Listing::Failed(ReadFailure::Other));
    assert_eq!(text_of(&walker.advance()), Some("└── a".to_string()));
    assert_eq!(walker.advance(), Step::Done);
}

fn text_of(step: &Step) -> Option<String> {
    match step {
        Step::Emit(event) => Some(event.text()),
        _ => None,
    }
}

#[test]
fn depth_limit_cuts_the_unlimited_walk() {
    let (root, dirs) = two_levels();
    let mut walker = Walker::start(config(0, false), Listing::Entries(root)).unwrap();
    let mut dirs = dirs;
    let mut all = Vec::new();
    loop {
        match walker.advance() {
            Step::Emit(RenderEvent::Line(line)) => all.push(line),
            Step::Emit(_) => panic!("no directory fails here"),
            Step::Read(path) => {
                let at = dirs.iter().position(|(p, _)| *p == path).unwrap();
                walker.supply(dirs.remove(at).1);
            }
            Step::Done => break,
        }
    }
    for limit in 1..4usize {
        let (root, dirs) = two_levels();
        let (limited, _) = run(config(limit, false), root, dirs);
        let cut: Vec<String> =
            all.iter().filter(|line| line.depth <= limit).map(|line| line.text()).collect();
        assert_eq!(limited, cut, "limit {}", limit);
    }
}

#[test]
fn two_walks_of_one_tree_give_the_same() {
    let (root, dirs) = two_levels();
    let first = run(config(0, true), root, dirs);
    let (root, dirs) = two_levels();
    let second = run(config(0, true), root, dirs);
    assert_eq!(first, second);
}

#[test]
fn walker_keeps_its_options() {
    let options = Config { max_depth: 3, show_hidden: true, directory_only: true, file_only: false };
    let walker = Walker::start(options, Listing::Entries(vec![])).unwrap();
    assert_eq!(walker.config(), options);
}
