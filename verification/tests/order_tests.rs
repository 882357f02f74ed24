use rtree::entry::{Config, Entry, FileType};
use rtree::order::{arrange, precedes, precedes_folded, prepare, select, Slot};

fn all() -> Config {
    Config { max_depth: 0, show_hidden: true, directory_only: false, file_only: false }
}

fn named(name: &str, kind: FileType) -> Entry {
    Entry { name: name.to_string(), path: format!("p/{}", name), kind, executable: false }
}

fn names(slots: &[Slot]) -> Vec<(usize, String)> {
    slots.iter().map(|s| (s.index, s.entry.name.clone())).collect()
}

#[test]
fn lowercase_name_comes_before_its_capital_twin() {
    assert!(precedes("readme", "README"));
    assert!(!precedes("README", "readme"));
    assert!(precedes("readme", "Readme"));
    assert!(precedes("Readme", "README"));
}

#[test]
fn names_are_compared_in_lowercase_first() {
    assert!(precedes("apple", "Banana"));
    assert!(!precedes("Banana", "apple"));
    assert!(precedes("A.txt", "b.txt"));
    assert!(precedes("b.txt", "sub"));
    assert!(precedes("Zebra", "zoo"));
    assert!(precedes("ÄPFEL", "äpfel2"));
}

#[test]
fn no_name_comes_before_itself() {
    assert!(!precedes("same", "same"));
    assert!(!precedes("", ""));
    assert!(precedes("", "a"));
    assert!(!precedes("a", ""));
}

#[test]
fn shorter_name_comes_before_its_extension() {
    assert!(precedes("ab", "abc"));
    assert!(!precedes("abc", "ab"));
}

#[test]
fn arrange_sorts_and_remembers_positions() {
    let listing = vec![
        named("b.txt", FileType::File),
        named("A.txt", FileType::File),
        named("sub", FileType::Directory),
        named("a.txt", FileType::File),
    ];
    let slots = arrange(listing, &all());
    assert_eq!(
        names(&slots),
        vec![
            (3, "a.txt".to_string()),
            (1, "A.txt".to_string()),
            (0, "b.txt".to_string()),
            (2, "sub".to_string()),
        ]
    );
}

#[test]
fn arrange_keeps_equal_names_in_listing_order() {
    let listing = vec![
        named("same", FileType::Directory),
        named("other", FileType::File),
        named("same", FileType::File),
        named("same", FileType::SymbolicLink),
    ];
    let slots = arrange(listing, &all());
    let kinds: Vec<(usize, FileType)> = slots.iter().map(|s| (s.index, s.entry.kind)).collect();
    assert_eq!(
        kinds,
        vec![
            (1, FileType::File),
            (0, FileType::Directory),
            (2, FileType::File),
            (3, FileType::SymbolicLink),
        ]
    );
}

#[test]
fn arrange_drops_what_is_not_shown() {
    let listing = vec![
        named(".hidden", FileType::File),
        named("dir", FileType::Directory),
        named("file", FileType::File),
    ];
    let shown = Config { show_hidden: false, ..all() };
    assert_eq!(
        names(&arrange(listing.clone(), &shown)),
        vec![(1, "dir".to_string()), (2, "file".to_string())]
    );
    let dirs = Config { directory_only: true, ..all() };
    assert_eq!(names(&arrange(listing.clone(), &dirs)), vec![(1, "dir".to_string())]);
    let files = Config { file_only: true, ..all() };
    assert_eq!(
        names(&arrange(listing.clone(), &files)),
        vec![(0, ".hidden".to_string()), (2, "file".to_string())]
    );
    let both = Config { directory_only: true, file_only: true, ..all() };
    assert!(arrange(listing, &both).is_empty());
}

#[test]
fn arrange_of_nothing_is_nothing() {
    assert!(arrange(vec![], &all()).is_empty());
}

#[test]
fn slot_clone_keeps_everything() {
    let slot = Slot { index: 4, folded: "n".to_string(), entry: named("N", FileType::Unknown) };
    assert_eq!(slot.clone(), slot);
}

#[test]
fn precedes_folded_goes_by_the_lowercase_names_first() {
    assert!(precedes_folded("apple", "apple", "banana", "Banana"));
    assert!(!precedes_folded("banana", "Banana", "apple", "apple"));
    assert!(precedes_folded("a", "zzz", "b", "aaa"));
    assert!(!precedes_folded("b", "aaa", "a", "zzz"));
}

#[test]
fn precedes_folded_breaks_ties_in_reverse() {
    assert!(precedes_folded("readme", "readme", "readme", "README"));
    assert!(!precedes_folded("readme", "README", "readme", "readme"));
    assert!(precedes_folded("readme", "Readme", "readme", "README"));
    assert!(precedes_folded("k", "b", "k", "a"));
    assert!(!precedes_folded("k", "a", "k", "b"));
    assert!(!precedes_folded("k", "a", "k", "a"));
}

#[test]
fn prepare_numbers_and_folds() {
    let found = prepare(vec![named("Zed", FileType::File), named("ÄB", FileType::Directory)]);
    assert_eq!(
        found,
        vec![
            Slot { index: 0, folded: "zed".to_string(), entry: named("Zed", FileType::File) },
            Slot { index: 1, folded: "äb".to_string(), entry: named("ÄB", FileType::Directory) },
        ]
    );
    assert!(prepare(vec![]).is_empty());
}

fn candidate(index: usize, folded: &str, name: &str) -> Slot {
    Slot { index, folded: folded.to_string(), entry: named(name, FileType::File) }
}

#[test]
fn select_sorts_by_what_the_slots_hold() {
    let slots = select(
        vec![
            candidate(7, "m", "first"),
            candidate(3, "a", "second"),
            candidate(9, "m", "first"),
            candidate(1, "m", "zeta"),
            candidate(5, "z", "third"),
        ],
        &all(),
    );
    let order: Vec<usize> = slots.iter().map(|s| s.index).collect();
    assert_eq!(order, vec![3, 1, 7, 9, 5]);
}

#[test]
fn select_drops_what_is_not_shown() {
    let hidden = Config { show_hidden: false, ..all() };
    let slots = select(
        vec![candidate(0, "b", ".b"), candidate(1, "a", "a"), candidate(2, ".c", "c")],
        &hidden,
    );
    let order: Vec<usize> = slots.iter().map(|s| s.index).collect();
    assert_eq!(order, vec![2, 1]);
}

#[test]
fn select_sorts_many() {
    let mut candidates = Vec::new();
    for i in 0..200usize {
        let key = format!("{:03}", (i * 37) % 101);
        candidates.push(candidate(i, &key, "same"));
    }
    let slots = select(candidates, &all());
    assert_eq!(slots.len(), 200);
    for pair in slots.windows(2) {
        assert!(pair[0].folded <= pair[1].folded);
        if pair[0].folded == pair[1].folded {
            assert!(pair[0].index < pair[1].index);
        }
    }
}
