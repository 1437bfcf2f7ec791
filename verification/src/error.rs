//! The errors of the library, with the messages that the tools print.

use vstd::prelude::*;
use vstd::string::*;

verus! {

/// Why reading a `wip.toml`, resolving a version or reading a git helper's
/// output failed.
#[derive(Debug, Clone)]
pub enum WipError {
    /// The `wip.toml` path has no parent directory.
    NotAFile,
    /// A version is to be read from a file that is not a `Cargo.toml`.
    NotCargoToml(String),
    /// Reading a file failed; the message of the I/O error.
    Read(String),
    /// A `Cargo.toml` is not valid TOML; the parser's message.
    Toml(String),
    /// A `Cargo.toml` has no `package` table.
    NoPackageSection,
    /// A `Cargo.toml` package has no `version`.
    NoVersionField,
    /// A `Cargo.toml` package version is not a string.
    VersionNotString,
    /// A version string is not a semantic version; the parser's message.
    SemVer(String),
    /// A path listed under `influences_build` to be taken in is absolute.
    AbsoluteInclude(String),
    /// A path listed under `depends_on` to be taken in is absolute.
    AbsoluteDependency(String),
    /// No target has the requested name.
    TargetNotFound(String),
    /// The configuration file has no parent directory.
    NoParentDirectory,
    /// The working tree helper named neither a wip nor a head commit.
    UnknownCommitKind(String),
}

/// The TOML key of the list of paths taken in, as the messages name it.
pub open spec fn list_key() -> Seq<char> {
    seq!['i', 'n', 'c', 'l', 'u', 'd', 'e']
}

fn push_list_key(s: &mut String)
    ensures
        final(s)@ == old(s)@ + list_key(),
{
    proof {
        reveal_strlit("in");
        reveal_strlit("clude");
    }
    s.append("in");
    s.append("clude");
    assert(old(s)@ + "in"@ + "clude"@ =~= old(s)@ + list_key());
}

/// The message of an error, as the tools print it.
pub open spec fn error_text(e: WipError) -> Seq<char> {
    match e {
        WipError::NotAFile => "wip.toml is expected to be a file"@,
        WipError::NotCargoToml(p) => "Can only extract version from Cargo.toml: can't read from "@
            + p@,
        WipError::Read(m) => m@,
        WipError::Toml(m) => m@,
        WipError::NoPackageSection => "No package section in Cargo.toml"@,
        WipError::NoVersionField => "No version field in Cargo.toml"@,
        WipError::VersionNotString => "Version field is not string in Cargo.toml"@,
        WipError::SemVer(m) => m@,
        WipError::AbsoluteInclude(p) => "Absolute path found in influences_build."@ + list_key()
            + ": "@ + p@,
        WipError::AbsoluteDependency(p) => "Absolute path found in depends_on."@ + list_key() + ": "@
            + p@,
        WipError::TargetNotFound(n) => "Target "@ + n@ + " not found"@,
        WipError::NoParentDirectory => "No parent directory"@,
        WipError::UnknownCommitKind(k) => "commit is neither wip nor head: "@ + k@,
    }
}

impl WipError {
    /// The message of the error.
    pub fn message(&self) -> (r: String)
        ensures
            r@ == error_text(*self),
    {
        match self {
            WipError::NotAFile => String::from_str("wip.toml is expected to be a file"),
            WipError::NotCargoToml(p) => {
                let mut s = String::from_str(
                    "Can only extract version from Cargo.toml: can't read from ",
                );
                s.append(p.as_str());
                s
            },
            WipError::Read(m) => m.clone(),
            WipError::Toml(m) => m.clone(),
            WipError::NoPackageSection => String::from_str("No package section in Cargo.toml"),
            WipError::NoVersionField => String::from_str("No version field in Cargo.toml"),
            WipError::VersionNotString => String::from_str(
                "Version field is not string in Cargo.toml",
            ),
            WipError::SemVer(m) => m.clone(),
            WipError::AbsoluteInclude(p) => {
                let mut s = String::from_str("Absolute path found in influences_build.");
                push_list_key(&mut s);
                s.append(": ");
                s.append(p.as_str());
                s
            },
            WipError::AbsoluteDependency(p) => {
                let mut s = String::from_str("Absolute path found in depends_on.");
                push_list_key(&mut s);
                s.append(": ");
                s.append(p.as_str());
                s
            },
            WipError::TargetNotFound(n) => {
                let mut s = String::from_str("Target ");
                s.append(n.as_str());
                s.append(" not found");
                s
            },
            WipError::NoParentDirectory => String::from_str("No parent directory"),
            WipError::UnknownCommitKind(k) => {
                let mut s = String::from_str("commit is neither wip nor head: ");
                s.append(k.as_str());
                s
            },
        }
    }
}

} // verus!
