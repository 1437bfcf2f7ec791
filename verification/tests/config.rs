use std::str::FromStr;
use wip::config::{
    cargo_toml_file, collect_files, map_version, version_from_cargo_toml, Config, DependencyToml,
    InfluencesBuild, Target, UnevaluatedVersion, VersionFrom, WalkEntry, WipDependency, WipToml,
    WipTomlBase, WipTomlUnevaluated,
};
use wip::error::WipError;
use wip::version::SemVer;

fn strings(v: &[&str]) -> Vec<String> {
    v.iter().map(|s| s.to_string()).collect()
}

fn influences(included: &[&str], excluded: &[&str]) -> InfluencesBuild {
    InfluencesBuild { included: strings(included), exclude: strings(excluded) }
}

fn direct(name: &str, version: &str, included: &[&str]) -> Target<UnevaluatedVersion> {
    Target {
        name: name.to_string(),
        version: UnevaluatedVersion::Direct(SemVer::parse(version).unwrap()),
        influences_build: influences(included, &[]),
    }
}

fn from_toml(name: &str, from: &str) -> Target<UnevaluatedVersion> {
    Target {
        name: name.to_string(),
        version: UnevaluatedVersion::FromToml(VersionFrom { from: from.to_string() }),
        influences_build: influences(&["src"], &["README.md"]),
    }
}

fn document(targets: Vec<Target<UnevaluatedVersion>>) -> WipTomlUnevaluated {
    WipTomlBase { target: targets, path: String::new(), git_root: String::new() }
}

const CARGO: &str = "[package]\nname = \"x\"\nversion = \"1.4.2\"\n";

#[test]
fn version_read_from_cargo_toml() {
    let v = version_from_cargo_toml(CARGO).unwrap();
    assert_eq!(v.to_string(), "1.4.2");
}

#[test]
fn cargo_toml_errors() {
    assert!(matches!(version_from_cargo_toml("[package"), Err(WipError::Toml(_))));
    assert!(matches!(version_from_cargo_toml("[lib]\nname = \"x\""), Err(WipError::NoPackageSection)));
    assert!(matches!(
        version_from_cargo_toml("[package]\nname = \"x\""),
        Err(WipError::NoVersionField)
    ));
    assert!(matches!(
        version_from_cargo_toml("[package]\nversion = 3"),
        Err(WipError::VersionNotString)
    ));
    assert!(matches!(
        version_from_cargo_toml("[package]\nversion = \"3\""),
        Err(WipError::SemVer(_))
    ));
    // A top-level `package` that is not a table has no `version` key.
    assert!(matches!(version_from_cargo_toml("package = 1"), Err(WipError::NoVersionField)));
}

#[test]
fn parser_messages_are_kept() {
    let bad_toml = "[package";
    let expected = toml::Value::from_str(bad_toml).unwrap_err().to_string();
    assert!(matches!(version_from_cargo_toml(bad_toml), Err(WipError::Toml(m)) if m == expected));
    let expected = semver::Version::parse("3").unwrap_err().to_string();
    assert!(matches!(
        version_from_cargo_toml("[package]\nversion = \"3\""),
        Err(WipError::SemVer(m)) if m == expected
    ));
}

#[test]
fn eval_version_keeps_the_git_root() {
    let mut doc = document(vec![direct("a", "1.0.0", &[])]);
    doc.path = "/repo/sub/wip.toml".to_string();
    doc.git_root = "/repo".to_string();
    let t = doc.eval_version(&vec![Err(String::new())]).unwrap();
    assert_eq!(t.git_root, "/repo");
}

#[test]
fn cargo_toml_file_paths() {
    assert_eq!(cargo_toml_file("/repo/app", "Cargo.toml").unwrap(), "/repo/app/Cargo.toml");
    assert_eq!(cargo_toml_file("/repo/app", "../lib/Cargo.toml").unwrap(), "/repo/app/../lib/Cargo.toml");
    assert_eq!(cargo_toml_file("/repo/app", "/elsewhere/Cargo.toml").unwrap(), "/elsewhere/Cargo.toml");
    assert!(matches!(cargo_toml_file("/repo/app", ".."), Err(WipError::NotCargoToml(p)) if p == "/repo/app/.."));
    match cargo_toml_file("/repo/app", "package.json") {
        Err(WipError::NotCargoToml(p)) => assert_eq!(p, "/repo/app/package.json"),
        _ => panic!("expected NotCargoToml"),
    }
}

#[test]
fn map_version_cases() {
    let v = map_version("/r", UnevaluatedVersion::Direct(SemVer::parse("2.0.0").unwrap()), &Err("unused".into()));
    assert_eq!(v.unwrap().to_string(), "2.0.0");
    let from = || UnevaluatedVersion::FromToml(VersionFrom { from: "Cargo.toml".to_string() });
    assert_eq!(map_version("/r", from(), &Ok(CARGO.to_string())).unwrap().to_string(), "1.4.2");
    match map_version("/r", from(), &Err("No such file".to_string())) {
        Err(WipError::Read(m)) => assert_eq!(m, "No such file"),
        _ => panic!("expected Read"),
    }
}

#[test]
fn cargo_toml_files_to_read() {
    let mut doc = document(vec![
        direct("a", "1.0.0", &[]),
        from_toml("b", "b/Cargo.toml"),
        from_toml("c", "c/other.toml"),
    ]);
    doc.path = "/repo/wip.toml".to_string();
    let files = doc.cargo_toml_files();
    assert_eq!(files, vec![None, Some("/repo/b/Cargo.toml".to_string()), None]);
    doc.path = String::new();
    assert_eq!(doc.cargo_toml_files(), vec![None, None, None]);
}

#[test]
fn eval_version_resolves_in_order() {
    let mut doc = document(vec![direct("a", "1.0.0", &["src"]), from_toml("b", "Cargo.toml")]);
    doc.path = "/repo/wip.toml".to_string();
    let reads = vec![Err(String::new()), Ok(CARGO.to_string())];
    let t = doc.eval_version(&reads).unwrap();
    assert_eq!(t.path, "/repo/wip.toml");
    assert_eq!(t.target.len(), 2);
    assert_eq!(t.target[0].name, "a");
    assert_eq!(t.target[0].version.to_string(), "1.0.0");
    assert_eq!(t.target[0].influences_build.included, strings(&["src"]));
    assert_eq!(t.target[1].name, "b");
    assert_eq!(t.target[1].version.to_string(), "1.4.2");
}

#[test]
fn eval_version_stops_at_first_failure() {
    let mut doc = document(vec![
        direct("a", "1.0.0", &[]),
        from_toml("b", "x.toml"),
        from_toml("c", "Cargo.toml"),
    ]);
    doc.path = "/repo/wip.toml".to_string();
    let reads = vec![Err(String::new()), Err(String::new()), Err("unreadable".to_string())];
    match doc.eval_version(&reads) {
        Err(WipError::NotCargoToml(p)) => assert_eq!(p, "/repo/x.toml"),
        _ => panic!("expected NotCargoToml"),
    }
}

#[test]
fn eval_version_needs_a_file_path() {
    let doc = document(vec![direct("a", "1.0.0", &[])]);
    assert!(matches!(doc.eval_version(&vec![Err(String::new())]), Err(WipError::NotAFile)));
    let mut doc = document(vec![]);
    doc.path = "/".to_string();
    assert!(matches!(doc.eval_version(&vec![]), Err(WipError::NotAFile)));
}

#[test]
fn read_toml_accepts_relative_paths() {
    let doc = document(vec![direct("a", "1.0.0", &["src", "lib/x.rs"]), direct("b", "0.2.0", &[])]);
    let reads = vec![Err(String::new()), Err(String::new())];
    let t = WipToml::read_toml("/repo/wip.toml", "/repo", doc, &reads).unwrap();
    assert_eq!(t.path, "/repo/wip.toml");
    assert_eq!(t.git_root, "/repo");
    assert_eq!(t.target[1].version.to_string(), "0.2.0");
}

#[test]
fn read_toml_rejects_absolute_paths() {
    let doc = document(vec![
        direct("a", "1.0.0", &["src"]),
        direct("b", "1.0.0", &["ok", "/etc/passwd", "/tmp"]),
    ]);
    let reads = vec![Err(String::new()), Err(String::new())];
    match WipToml::read_toml("/repo/wip.toml", "/repo", doc, &reads) {
        Err(e @ WipError::AbsoluteInclude(_)) => {
            assert_eq!(e.message(), "Absolute path found in influences_build.include: /etc/passwd")
        }
        _ => panic!("expected AbsoluteInclude"),
    }
}

#[test]
fn read_toml_reports_version_errors_first() {
    let doc = document(vec![from_toml("a", "Cargo.toml"), direct("b", "1.0.0", &["/abs"])]);
    let reads = vec![Ok("[package]\n".to_string()), Err(String::new())];
    assert!(matches!(
        WipToml::read_toml("/repo/wip.toml", "/repo", doc, &reads),
        Err(WipError::NoVersionField)
    ));
}

fn resolved() -> WipToml {
    let doc = document(vec![
        Target {
            name: "web".to_string(),
            version: UnevaluatedVersion::Direct(SemVer::parse("1.0.0").unwrap()),
            influences_build: influences(&["web", "lib"], &["web/README.md"]),
        },
        direct("web", "2.0.0", &[]),
    ]);
    WipToml::read_toml("/repo/wip.toml", "/repo", doc, &vec![Err(String::new()), Err(String::new())]).unwrap()
}

#[test]
fn get_target_takes_the_first_match() {
    let t = resolved();
    let web = t.get_target("web").unwrap();
    assert_eq!(web.version.to_string(), "1.0.0");
    match t.get_target("api") {
        Err(e @ WipError::TargetNotFound(_)) => assert_eq!(e.message(), "Target api not found"),
        _ => panic!("expected TargetNotFound"),
    }
}

#[test]
fn influence_roots_are_joined_to_the_directory() {
    let t = resolved();
    let (ex, inc) = t.influence_roots("web").unwrap();
    assert_eq!(ex, strings(&["/repo/web/README.md"]));
    assert_eq!(inc, strings(&["/repo/web", "/repo/lib"]));
    assert!(matches!(t.influence_roots("nope"), Err(WipError::TargetNotFound(_))));
    let mut orphan = resolved();
    orphan.path = String::new();
    assert!(matches!(orphan.influence_roots("web"), Err(WipError::NoParentDirectory)));
}

fn entry(path: &str, is_dir: bool) -> WalkEntry {
    WalkEntry { path: path.to_string(), is_dir }
}

#[test]
fn all_files_leaves_out_excluded_and_directories() {
    let t = resolved();
    let excluded = vec![entry("/repo/web/README.md", false)];
    let included = vec![
        entry("/repo/web", true),
        entry("/repo/web/README.md", false),
        entry("/repo/web/main.rs", false),
        entry("/repo/lib", true),
        entry("/repo/lib/x.rs", false),
        entry("/repo/web/main.rs", false),
    ];
    let files = t.all_files("web", &excluded, &included).unwrap();
    assert_eq!(files, strings(&["/repo/web/main.rs", "/repo/lib/x.rs"]));
    assert!(matches!(t.all_files("api", &excluded, &included), Err(WipError::TargetNotFound(_))));
}

#[test]
fn collect_files_excludes_only_files() {
    let excluded = vec![entry("/a", true), entry("/b", false)];
    let included = vec![entry("/a", false), entry("/b", false), entry("/c", true)];
    assert_eq!(collect_files(&excluded, &included), strings(&["/a"]));
}

#[test]
fn config_checks_dependency_paths() {
    let ok = DependencyToml {
        depends_on: WipDependency { included: strings(&["src", "Cargo.toml"]), exclude: strings(&["src/gen"]) },
    };
    let c = Config::read_toml("/repo/app/wip.toml", ok).unwrap();
    assert_eq!(c.path, "/repo/app/wip.toml");
    let (ex, inc) = c.roots().unwrap();
    assert_eq!(ex, strings(&["/repo/app/src/gen"]));
    assert_eq!(inc, strings(&["/repo/app/src", "/repo/app/Cargo.toml"]));
    let files = c
        .all_files(&vec![entry("/repo/app/src/gen/a.rs", false)], &vec![
            entry("/repo/app/src/gen/a.rs", false),
            entry("/repo/app/src/lib.rs", false),
        ])
        .unwrap();
    assert_eq!(files, strings(&["/repo/app/src/lib.rs"]));

    let bad = DependencyToml {
        depends_on: WipDependency { included: strings(&["/abs", "/abs2"]), exclude: vec![] },
    };
    match Config::read_toml("/repo/wip.toml", bad) {
        Err(e @ WipError::AbsoluteDependency(_)) => {
            assert_eq!(e.message(), "Absolute path found in depends_on.include: /abs")
        }
        _ => panic!("expected AbsoluteDependency"),
    }
}

#[test]
fn config_without_directory() {
    let c = Config::read_toml("", DependencyToml {
        depends_on: WipDependency { included: vec![], exclude: vec![] },
    })
    .unwrap();
    assert!(matches!(c.roots(), Err(WipError::NoParentDirectory)));
    assert!(matches!(c.all_files(&vec![], &vec![]), Err(WipError::NoParentDirectory)));
}

#[test]
fn more_taken_in_and_less_left_out_keeps_files() {
    let ex = vec![entry("/r/a/skip.rs", false)];
    let inc = vec![entry("/r/a/x.rs", false), entry("/r/a/skip.rs", false)];
    let small = collect_files(&ex, &inc);
    let mut inc_more = inc.clone();
    inc_more.push(entry("/r/b/y.rs", false));
    let bigger = collect_files(&vec![], &inc_more);
    for f in &small {
        assert!(bigger.contains(f));
    }
    assert_eq!(bigger, strings(&["/r/a/x.rs", "/r/a/skip.rs", "/r/b/y.rs"]));
    // Reordering and repeating entries keeps the same set.
    let mut shuffled = vec![inc[1].clone(), inc[0].clone(), inc[0].clone()];
    shuffled.reverse();
    let mut a = collect_files(&ex, &shuffled);
    let mut b = small.clone();
    a.sort();
    b.sort();
    assert_eq!(a, b);
}
