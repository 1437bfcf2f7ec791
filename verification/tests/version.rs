use wip::error::WipError;
use wip::version::SemVer;

#[test]
fn parses_full_version() {
    let v = SemVer::parse("1.22.333-alpha.1+build.5").unwrap();
    assert_eq!((v.major, v.minor, v.patch), (1, 22, 333));
    assert_eq!(v.pre, "alpha.1");
    assert_eq!(v.build, "build.5");
}

#[test]
fn parses_plain_version() {
    let v = SemVer::parse("0.1.0").unwrap();
    assert_eq!((v.major, v.minor, v.patch), (0, 1, 0));
    assert_eq!(v.pre, "");
    assert_eq!(v.build, "");
}

#[test]
fn rejects_non_version() {
    assert!(matches!(SemVer::parse("1.2"), Err(WipError::SemVer(_))));
    assert!(matches!(SemVer::parse("one.two.three"), Err(WipError::SemVer(_))));
    let expected = semver::Version::parse("1.2").unwrap_err().to_string();
    assert!(matches!(SemVer::parse("1.2"), Err(WipError::SemVer(m)) if m == expected));
}

#[test]
fn renders_like_semver_display() {
    for text in ["1.2.3", "0.0.0", "10.20.30-rc.1", "1.0.0+sha.abc", "2.0.0-beta+exp.1"] {
        let v = SemVer::parse(text).unwrap();
        assert_eq!(v.to_string(), text);
        assert_eq!(v.to_string(), semver::Version::parse(text).unwrap().to_string());
    }
}

#[test]
fn duplicate_keeps_every_field() {
    let v = SemVer::parse("3.4.5-x+y").unwrap();
    let d = v.duplicate();
    assert_eq!(d.to_string(), "3.4.5-x+y");
}
