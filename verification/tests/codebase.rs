use dryguard::codebase::{DirectoryEntry, EntryKind, TypescriptWalk};

fn entry(name: &str, kind: EntryKind) -> DirectoryEntry {
    DirectoryEntry { name: name.to_owned(), kind }
}

fn walk(tree: &[(&str, Vec<DirectoryEntry>)]) -> Vec<String> {
    let mut walk = TypescriptWalk::new("/repo");
    while let Some(directory) = walk.next_directory() {
        let entries = tree
            .iter()
            .find(|(listed, _)| *listed == directory)
            .map(|(_, entries)| entries.clone())
            .unwrap_or_default();
        walk.visit(&directory, &entries);
    }
    walk.paths()
}

fn sample_tree() -> Vec<(&'static str, Vec<DirectoryEntry>)> {
    vec![
        (
            "/repo",
            vec![
                entry("src", EntryKind::Directory),
                entry("node_modules", EntryKind::Directory),
                entry("dist", EntryKind::Directory),
                entry("README.md", EntryKind::File),
            ],
        ),
        (
            "/repo/src",
            vec![
                entry("shared", EntryKind::Directory),
                entry("billing", EntryKind::Directory),
                entry("linked-billing", EntryKind::Other),
                entry("report", EntryKind::Directory),
                entry("notes.md", EntryKind::File),
            ],
        ),
        (
            "/repo/src/billing",
            vec![entry("invoice.ts", EntryKind::File), entry("discount.ts", EntryKind::File)],
        ),
        ("/repo/src/report", vec![entry("Badge.tsx", EntryKind::File)]),
        ("/repo/src/shared", vec![entry("adder.ts", EntryKind::File)]),
        ("/repo/node_modules", vec![entry("lib.ts", EntryKind::File)]),
        ("/repo/dist", vec![entry("out.ts", EntryKind::File)]),
    ]
}

#[test]
fn test_walk_returns_every_typescript_file_in_path_order() {
    assert_eq!(
        walk(&sample_tree()),
        vec![
            "/repo/src/billing/discount.ts",
            "/repo/src/billing/invoice.ts",
            "/repo/src/report/Badge.tsx",
            "/repo/src/shared/adder.ts",
        ]
    );
}

#[test]
fn test_walk_leaves_out_the_excluded_directories() {
    let paths = walk(&sample_tree());

    assert!(!paths.iter().any(|p| p.contains("node_modules") || p.contains("/dist/")), "{paths:?}");
}

#[test]
fn test_walk_does_not_enter_an_entry_that_is_neither_file_nor_directory() {
    let paths = walk(&sample_tree());

    assert!(!paths.iter().any(|p| p.contains("linked-billing")), "{paths:?}");
}

#[test]
fn test_walk_leaves_out_files_with_another_extension() {
    let paths = walk(&sample_tree());

    assert!(!paths.iter().any(|p| p.ends_with(".md")), "{paths:?}");
}

#[test]
fn test_walk_orders_a_separator_before_any_other_character() {
    let tree = vec![
        ("/repo", vec![entry("a-b.ts", EntryKind::File), entry("a", EntryKind::Directory)]),
        ("/repo/a", vec![entry("b.ts", EntryKind::File)]),
    ];

    assert_eq!(walk(&tree), vec!["/repo/a/b.ts", "/repo/a-b.ts"]);
}

#[test]
fn test_walk_lists_the_root_first_and_its_subdirectories_last_listed_first() {
    let mut walk = TypescriptWalk::new("/repo/");
    assert_eq!(walk.next_directory(), Some("/repo/".to_owned()));
    walk.visit(
        "/repo/",
        &vec![entry("x", EntryKind::Directory), entry("y", EntryKind::Directory)],
    );
    assert_eq!(walk.next_directory(), Some("/repo/y".to_owned()));
    assert_eq!(walk.next_directory(), Some("/repo/x".to_owned()));
    assert_eq!(walk.next_directory(), None);
}

#[test]
fn test_walk_keeps_a_file_seen_twice_once() {
    let mut walk = TypescriptWalk::new("/repo");
    let entries = vec![entry("a.ts", EntryKind::File)];
    walk.visit("/repo", &entries);
    walk.visit("/repo", &entries);

    assert_eq!(walk.paths(), vec!["/repo/a.ts"]);
}
