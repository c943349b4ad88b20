use dryguard::lsp::workspace::{ancestors_of, enclosing_project, ProjectRoot, WorkspaceError, WorkspaceRoot};

const CURRENT: &str = "/work/repo";

fn paths(list: &[&str]) -> Vec<String> {
    list.iter().map(|p| p.to_string()).collect()
}

#[test]
fn test_enclosing_files_in_the_same_directory_is_that_directory() {
    let root = WorkspaceRoot::enclosing(&paths(&["src/lsp/uri.rs", "src/lsp/workspace.rs"]), CURRENT)
        .expect("a root");

    assert_eq!(root.directory(), "/work/repo/src/lsp");
    assert_eq!(root.uri().as_str(), "file:///work/repo/src/lsp");
}

#[test]
fn test_enclosing_files_at_different_depths_is_the_shared_ancestor() {
    let root = WorkspaceRoot::enclosing(&paths(&["src/lib.rs", "src/lsp/uri.rs"]), CURRENT)
        .expect("a root");

    assert_eq!(root.directory(), "/work/repo/src");
}

#[test]
fn test_enclosing_a_single_file_is_its_directory() {
    let root = WorkspaceRoot::enclosing(&paths(&["/repo/src/lsp/uri.rs"]), CURRENT).expect("a root");

    assert_eq!(root.directory(), "/repo/src/lsp");
}

#[test]
fn test_enclosing_directories_that_share_only_a_name_prefix_stops_at_their_parent() {
    let root = WorkspaceRoot::enclosing(
        &paths(&[
            "/repo/tests/fixtures/scan/src/shared/adder.ts",
            "/repo/tests/fixtures/scan-skipped/src/sound.ts",
        ]),
        CURRENT,
    )
    .expect("a root");

    assert_eq!(root.directory(), "/repo/tests/fixtures");
}

#[test]
fn test_enclosing_no_paths_reports_it() {
    let error = WorkspaceRoot::enclosing(&Vec::new(), CURRENT).expect_err("no root");

    assert!(matches!(error, WorkspaceError::NoPaths));
}

#[test]
fn test_enclosing_files_with_nothing_in_common_but_the_root_is_the_root() {
    let root = WorkspaceRoot::enclosing(&paths(&["/a/x.ts", "/b/y.ts"]), CURRENT).expect("a root");

    assert_eq!(root.directory(), "/");
    assert_eq!(root.uri().as_str(), "file:///");
}

#[test]
fn test_ancestors_of_a_directory_run_up_to_the_root() {
    assert_eq!(ancestors_of("/repo/src/billing"), vec!["/repo/src/billing", "/repo/src", "/repo", "/"]);
}

#[test]
fn test_enclosing_project_climbs_to_the_nearest_marked_directory() {
    let files = paths(&["/repo/src/billing/discount.ts", "/repo/src/billing/scale.ts"]);

    let root = enclosing_project(&files, CURRENT, &vec![false, false, true, true]).expect("a root");

    assert!(matches!(&root, ProjectRoot::Marked(r) if r.directory() == "/repo"), "{root:?}");
}

#[test]
fn test_enclosing_project_without_any_marker_stays_at_the_common_ancestor() {
    let files = paths(&["/repo/src/billing/discount.ts", "/repo/src/report/monthly.ts"]);

    let root = enclosing_project(&files, CURRENT, &vec![false, false, false]).expect("a root");

    assert!(matches!(&root, ProjectRoot::Unmarked(r) if r.directory() == "/repo/src"), "{root:?}");
    assert_eq!(root.workspace_root().directory(), "/repo/src");
}

#[test]
fn test_enclosing_project_with_the_marker_at_the_common_ancestor_stops_there() {
    let files = paths(&["/repo/src/billing/discount.ts", "/repo/src/report/monthly.ts"]);

    let root = enclosing_project(&files, CURRENT, &vec![true, true, false]).expect("a root");

    assert!(matches!(&root, ProjectRoot::Marked(r) if r.directory() == "/repo/src"), "{root:?}");
}

#[test]
fn test_enclosing_does_not_look_at_the_file_system() {
    let files = paths(&["/work/repo/src/lib.rs", "/work/repo/src/dryguard-no-such-file.rs"]);

    let root = WorkspaceRoot::enclosing(&files, CURRENT).expect("a root");

    assert_eq!(root.uri().as_str(), "file:///work/repo/src");
}

/// Files gathered under `.../references/src/billing/`, whose marker sits one level up.
fn paths_under_a_marked_ancestor() -> Vec<String> {
    paths(&[
        "/work/repo/tests/fixtures/references/src/billing/discount.ts",
        "/work/repo/tests/fixtures/references/src/billing/scale.ts",
    ])
}

#[test]
fn test_enclosing_project_climbs_to_the_directory_holding_the_marker() {
    // Of the ancestors of `billing`, only `references/src` holds `tsconfig.json`.
    let root = enclosing_project(&paths_under_a_marked_ancestor(), CURRENT, &vec![false, true])
        .expect("a root");

    assert!(
        matches!(&root, ProjectRoot::Marked(r) if r.directory() == "/work/repo/tests/fixtures/references/src"),
        "{root:?}"
    );
}

#[test]
fn test_enclosing_project_with_markers_at_two_depths_takes_the_nearest() {
    // `tsconfig.json` marks `references/src`; `Cargo.toml` marks the repository's root.
    let marked = vec![false, true, false, false, false, true];

    let root = enclosing_project(&paths_under_a_marked_ancestor(), CURRENT, &marked).expect("a root");

    assert!(
        matches!(&root, ProjectRoot::Marked(r) if r.directory() == "/work/repo/tests/fixtures/references/src"),
        "{root:?}"
    );
}

#[test]
fn test_enclosing_project_with_no_paths_reports_it() {
    let error = enclosing_project(&Vec::new(), CURRENT, &vec![true]).expect_err("no root");

    assert!(matches!(error, WorkspaceError::NoPaths));
}

#[test]
fn test_enclosing_an_empty_path_reports_which_one() {
    let files = paths(&["/work/repo/src/lib.rs", ""]);

    let error = WorkspaceRoot::enclosing(&files, CURRENT).expect_err("no root");

    assert!(matches!(error, WorkspaceError::PathNotAbsolute { path, .. } if path.is_empty()));
}
