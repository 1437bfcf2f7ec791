use std::str::FromStr;
use wip::commit::{
    bin_dir, classify_commit, frame_commit_message, okay, resolved_tag, split_commit_message,
    subset_tree_hash, tag_ref, working_tree_commit, working_tree_dirty, BuildInfo, CommitMessage,
    VersionedTarget, WorkingTreeCommit, SEPARATOR,
};
use wip::config::{InfluencesBuild, Target};
use wip::error::WipError;
use wip::version::SemVer;

const METADATA: &str = "[[build]]\nname = \"web\"\nversion = \"1.0.0\"\nsubset_tree = \"abc\"\n";

#[test]
fn separator_text() {
    assert_eq!(SEPARATOR, "\n\n--- something\n\n");
}

#[test]
fn framed_message_round_trips() {
    let framed = frame_commit_message("Fix the build\n\nDetails", METADATA);
    assert_eq!(framed, format!("Fix the build\n\nDetails{}{}", SEPARATOR, METADATA));
    let (message, metadata) = split_commit_message(&framed);
    assert_eq!(message, "Fix the build\n\nDetails");
    assert_eq!(metadata.as_deref(), Some(METADATA));
}

#[test]
fn message_holding_a_separator_still_round_trips() {
    let message = format!("first{}second", SEPARATOR);
    let framed = frame_commit_message(&message, METADATA);
    let (m, t) = split_commit_message(&framed);
    assert_eq!(m, message);
    assert_eq!(t.as_deref(), Some(METADATA));
}

#[test]
fn metadata_that_continues_the_separator_does_not_round_trip() {
    // The separator ends as it starts ("\n\n"), so metadata that starts with
    // the rest of it makes a later separator.
    let metadata = "--- something\n\nx";
    let framed = frame_commit_message("m", metadata);
    let (m, t) = split_commit_message(&framed);
    assert_eq!(m, format!("m\n\n--- something"));
    assert_eq!(t.as_deref(), Some("x"));
}

#[test]
fn split_parts_rejoin_to_the_message() {
    for s in [
        format!("a{}b{}c", SEPARATOR, SEPARATOR),
        format!("{}", SEPARATOR),
        "no separator".to_string(),
    ] {
        let (m, t) = split_commit_message(&s);
        match t {
            Some(t) => assert_eq!(frame_commit_message(&m, &t), s),
            None => assert_eq!(m, s),
        }
    }
    let (m, t) = split_commit_message(&format!("a{}b{}c", SEPARATOR, SEPARATOR));
    assert_eq!(m, format!("a{}b", SEPARATOR));
    assert_eq!(t.as_deref(), Some("c"));
}

#[test]
fn message_without_metadata() {
    let (m, t) = split_commit_message("just a message\n");
    assert_eq!(m, "just a message\n");
    assert_eq!(t, None);
    let plain = CommitMessage::plain("just a message\n");
    assert_eq!(plain.message, "just a message\n");
    assert!(plain.metadata.is_empty());
}

#[test]
fn render_frames_the_message() {
    let c = CommitMessage { message: "abc".to_string(), metadata: Vec::new() };
    assert_eq!(c.render("[[build]]\n"), "abc\n\n--- something\n\n[[build]]\n");
}

#[test]
fn okay_parses_the_metadata() {
    let framed = frame_commit_message("abc", METADATA);
    let (m, v) = okay(&framed).unwrap();
    assert_eq!(m, "abc");
    let v = v.unwrap();
    assert_eq!(v["build"][0]["name"].as_str(), Some("web"));
    let (m, v) = okay("no metadata").unwrap();
    assert_eq!(m, "no metadata");
    assert!(v.is_none());
    let broken = frame_commit_message("abc", "[[build");
    let expected = toml::Value::from_str("[[build").unwrap_err().to_string();
    assert!(matches!(okay(&broken), Err(WipError::Toml(m)) if m == expected));
}

#[test]
fn working_tree_commits() {
    assert!(matches!(working_tree_commit("wip 0123abcd\n"), Ok(WorkingTreeCommit::Wip(h)) if h == "0123abcd"));
    assert!(matches!(working_tree_commit("  head ffff\n"), Ok(WorkingTreeCommit::Head(h)) if h == "ffff"));
    match working_tree_commit("other 1234") {
        Err(e @ WipError::UnknownCommitKind(_)) => {
            assert_eq!(e.message(), "commit is neither wip nor head: other")
        }
        _ => panic!("expected UnknownCommitKind"),
    }
    assert!(matches!(classify_commit("wip", "h"), Ok(WorkingTreeCommit::Wip(h)) if h == "h"));
    assert!(matches!(classify_commit("Wip", "h"), Err(WipError::UnknownCommitKind(k)) if k == "Wip"));
}

#[test]
fn dirty_working_tree() {
    assert!(!working_tree_dirty(""));
    assert!(!working_tree_dirty("\n"));
    assert!(working_tree_dirty(" M src/lib.rs\n"));
}

#[test]
fn git_tags() {
    assert_eq!(tag_ref("v1.0.0"), "refs/tags/v1.0.0");
    assert_eq!(resolved_tag("abcdef\n"), Some("abcdef".to_string()));
    assert_eq!(resolved_tag("  \n"), None);
}

#[test]
fn subset_tree_hash_is_trimmed() {
    assert_eq!(subset_tree_hash("0123456789abcdef\n"), "0123456789abcdef");
}

#[test]
fn bin_dir_is_three_levels_up() {
    assert_eq!(bin_dir("/home/x/wip/target/debug/wip-amend-commit"), "/home/x/wip/bin");
    assert_eq!(bin_dir("/a/b"), "/bin");
    assert_eq!(bin_dir("/"), "/bin");
}

#[test]
fn versioned_target_text() {
    let t = Target {
        name: "web".to_string(),
        version: SemVer::parse("1.2.3-rc.1").unwrap(),
        influences_build: InfluencesBuild { included: vec![], exclude: vec![] },
    };
    let v = VersionedTarget::from_wip_toml(&t);
    assert_eq!(v.name, "web");
    assert_eq!(v.to_string(), "web-1.2.3-rc.1");
    let info = BuildInfo { target: v, subset_tree: "abc".to_string(), build_warnings: None };
    assert_eq!(info.subset_tree, "abc");
}

#[test]
fn error_messages() {
    assert_eq!(WipError::NotAFile.message(), "wip.toml is expected to be a file");
    assert_eq!(
        WipError::NotCargoToml("/x/y.toml".into()).message(),
        "Can only extract version from Cargo.toml: can't read from /x/y.toml"
    );
    assert_eq!(WipError::NoPackageSection.message(), "No package section in Cargo.toml");
    assert_eq!(WipError::NoVersionField.message(), "No version field in Cargo.toml");
    assert_eq!(WipError::VersionNotString.message(), "Version field is not string in Cargo.toml");
    assert_eq!(WipError::NoParentDirectory.message(), "No parent directory");
    assert_eq!(WipError::Read("boom".into()).message(), "boom");
    assert_eq!(WipError::Toml("bad".into()).message(), "bad");
    assert_eq!(WipError::SemVer("v".into()).message(), "v");
}
