use wip::build_script::{
    join_path, rerun_if_changed, try_rerun_if_changed, FileTree, MyMetadata, SubtreeMetadata,
};

fn strings(v: &[&str]) -> Vec<String> {
    v.iter().map(|s| s.to_string()).collect()
}

#[test]
fn rerun_lines_are_relative_to_the_crate() {
    let included = strings(&["crates/app/src", "shared/lib.rs"]);
    let lines = rerun_if_changed(&included, "/repo", "/repo/crates/app");
    assert_eq!(
        lines,
        strings(&["cargo:rerun-if-changed=src", "cargo:rerun-if-changed=../../shared/lib.rs"])
    );
    assert_eq!(try_rerun_if_changed(&included, "/repo", "/repo/crates/app"), Some(lines));
}

#[test]
fn rerun_lines_refuse_absolute_or_unreachable_paths() {
    assert_eq!(try_rerun_if_changed(&strings(&["src", "/etc"]), "/repo", "/repo/app"), None);
    // A relative repository root cannot be named from an absolute crate directory.
    assert_eq!(try_rerun_if_changed(&strings(&["src"]), "repo", "/repo/app"), None);
    assert_eq!(try_rerun_if_changed(&vec![], "repo", "/repo/app"), Some(vec![]));
}

#[test]
fn metadata_from_manifest() {
    let m = MyMetadata {
        subtree: SubtreeMetadata { default_include: false, included: strings(&["src"]) },
    };
    let got = MyMetadata::from_manifest(Some(Some(m)));
    assert_eq!(got.subtree.included, strings(&["src"]));
    assert!(!got.subtree.default_include);
}

#[test]
fn file_tree_from_paths() {
    FileTree::<()>::from_paths();
    let t = FileTree::Directory {
        name: "a".to_string(),
        contents: Box::new(FileTree::File { name: "b".to_string(), contents: () }),
    };
    assert!(matches!(t, FileTree::Directory { .. }));
}

#[test]
fn joining_paths() {
    assert_eq!(join_path("/repo", "src/lib.rs"), "/repo/src/lib.rs");
    assert_eq!(join_path("/repo", "/abs"), "/abs");
    assert_eq!(join_path("", "x"), "x");
}
