use rtree::entry::{
    file_type, is_executable_extension, is_executable_mode, marks_executable, ColorClass, Config,
    Entry, FileType,
};
use rtree::render::{child_prefix, connector, render, RenderLine};

fn entry(name: &str, kind: FileType, executable: bool) -> Entry {
    Entry { name: name.to_string(), path: format!("/x/{}", name), kind, executable }
}

#[test]
fn connector_is_elbow_for_the_last_and_tee_for_the_others() {
    assert_eq!(connector(true), "└── ");
    assert_eq!(connector(false), "├── ");
}

#[test]
fn child_prefix_adds_one_segment() {
    assert_eq!(child_prefix("", true), "    ");
    assert_eq!(child_prefix("", false), "│   ");
    assert_eq!(child_prefix("│   ", true), "│       ");
    assert_eq!(child_prefix("    ", false), "    │   ");
}

#[test]
fn color_class_goes_by_kind_and_executability() {
    assert_eq!(entry("d", FileType::Directory, false).color_class(), ColorClass::Directory);
    assert_eq!(entry("d", FileType::Directory, true).color_class(), ColorClass::Directory);
    assert_eq!(entry("l", FileType::SymbolicLink, false).color_class(), ColorClass::SymbolicLink);
    assert_eq!(entry("l", FileType::SymbolicLink, true).color_class(), ColorClass::SymbolicLink);
    assert_eq!(entry("f", FileType::File, true).color_class(), ColorClass::ExecutableFile);
    assert_eq!(entry("f", FileType::File, false).color_class(), ColorClass::PlainFile);
    assert_eq!(entry("u", FileType::Unknown, false).color_class(), ColorClass::Unknown);
    assert_eq!(entry("u", FileType::Unknown, true).color_class(), ColorClass::Unknown);
}

#[test]
fn render_draws_a_line() {
    let line = render(&entry("main.rs", FileType::File, false), "│   ", false, 2);
    assert_eq!(
        line,
        RenderLine {
            prefix: "│   ".to_string(),
            is_last: false,
            name: "main.rs".to_string(),
            class: ColorClass::PlainFile,
            depth: 2,
        }
    );
    assert_eq!(line.connector(), "├── ");
    assert_eq!(line.text(), "│   ├── main.rs");
    let last = render(&entry("src", FileType::Directory, false), "", true, 1);
    assert_eq!(last.connector(), "└── ");
    assert_eq!(last.text(), "└── src");
    assert_eq!(last.class, ColorClass::Directory);
}

#[test]
fn entry_is_shown_by_name_and_kind() {
    let plain = Config { max_depth: 0, show_hidden: false, directory_only: false, file_only: false };
    let hidden_file = entry(".env", FileType::File, false);
    let dir = entry("src", FileType::Directory, false);
    let link = entry("link", FileType::SymbolicLink, false);
    assert!(!hidden_file.is_shown(&plain));
    assert!(hidden_file.is_shown(&Config { show_hidden: true, ..plain }));
    assert!(dir.is_shown(&plain));
    assert!(dir.is_shown(&Config { directory_only: true, ..plain }));
    assert!(!dir.is_shown(&Config { file_only: true, ..plain }));
    assert!(!link.is_shown(&Config { directory_only: true, ..plain }));
    assert!(!link.is_shown(&Config { file_only: true, ..plain }));
    assert!(!hidden_file.is_shown(&Config { file_only: true, ..plain }));
    assert!(hidden_file.is_shown(&Config { file_only: true, show_hidden: true, ..plain }));
    assert!(!dir.is_shown(&Config { file_only: true, directory_only: true, ..plain }));
}

#[test]
fn file_type_puts_links_first() {
    assert_eq!(file_type(true, true, false), FileType::SymbolicLink);
    assert_eq!(file_type(true, false, true), FileType::SymbolicLink);
    assert_eq!(file_type(true, false, false), FileType::SymbolicLink);
    assert_eq!(file_type(false, true, false), FileType::Directory);
    assert_eq!(file_type(false, true, true), FileType::Directory);
    assert_eq!(file_type(false, false, true), FileType::File);
    assert_eq!(file_type(false, false, false), FileType::Unknown);
}

#[test]
fn any_execute_bit_makes_executable() {
    assert!(is_executable_mode(0o755));
    assert!(is_executable_mode(0o100));
    assert!(is_executable_mode(0o010));
    assert!(is_executable_mode(0o001));
    assert!(is_executable_mode(0o100644 | 0o001));
    assert!(!is_executable_mode(0o644));
    assert!(!is_executable_mode(0o100644));
    assert!(!is_executable_mode(0));
    assert!(!is_executable_mode(0o666));
}

#[test]
fn executable_extensions_in_any_case() {
    for ext in ["exe", "bat", "cmd", "msi", "vbs", "ps1", "EXE", "Bat", "pS1"] {
        assert!(is_executable_extension(ext), "{}", ext);
    }
    for ext in ["", "txt", "ex", "exe1", "sh", "com"] {
        assert!(!is_executable_extension(ext), "{}", ext);
    }
}

#[test]
fn marks_executable_reads_the_lowercase_form() {
    for ext in ["exe", "bat", "cmd", "msi", "vbs", "ps1"] {
        assert!(marks_executable(ext), "{}", ext);
    }
    for ext in ["EXE", "Exe", "", "exes", "txt"] {
        assert!(!marks_executable(ext), "{}", ext);
    }
}

#[test]
fn entry_clone_keeps_everything() {
    let e = entry("n", FileType::File, true);
    assert_eq!(e.clone(), e);
}
