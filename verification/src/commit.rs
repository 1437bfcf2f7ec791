//! Build metadata framed in commit messages, and the text that the git
//! helpers print.
//!
//! A commit message with build metadata is the message, the separator
//! [`SEPARATOR`], and the metadata as TOML. Reading one back splits at the
//! last separator.

use vstd::prelude::*;
use vstd::string::*;
use crate::config::Target;
use crate::error::WipError;
use crate::paths::{join, path_join, pop, popped};
use crate::text::{
    chars_of, first_two_words, first_two_words_of, has_non_white, is_blank, is_last_occurrence,
    last_occurrence, occurs_at, trim, trimmed,
};
use crate::toml_doc::{parse_document, toml_document, toml_entries, TomlEntries};
use crate::version::{version_text, SemVer};

verus! {

/// A git object hash, as text.
pub type Sha1 = String;

/// What stands between a commit message and its build metadata.
pub const SEPARATOR: &'static str = "\n\n--- something\n\n";

/// The text of [`SEPARATOR`].
pub open spec fn separator() -> Seq<char> {
    SEPARATOR@
}

/// A commit message `message` followed by the build metadata `metadata`.
pub open spec fn commit_text(message: Seq<char>, metadata: Seq<char>) -> Seq<char> {
    message + separator() + metadata
}

/// The parts of a commit message: the text before the last separator and
/// the text after it; the whole text and `None` when there is no separator.
pub open spec fn commit_parts(s: Seq<char>) -> (Seq<char>, Option<Seq<char>>) {
    if exists|i: int| #[trigger] occurs_at(s, separator(), i) {
        let i = choose|i: int| #[trigger] is_last_occurrence(s, separator(), i);
        (s.take(i), Some(s.skip(i + separator().len())))
    } else {
        (s, None)
    }
}

proof fn lemma_last_occurrence_unique(s: Seq<char>, p: Seq<char>, i: int, k: int)
    requires
        is_last_occurrence(s, p, i),
        is_last_occurrence(s, p, k),
    ensures
        i == k,
{
    assert(occurs_at(s, p, i) && occurs_at(s, p, k));
}

proof fn lemma_commit_parts_at(s: Seq<char>, i: int)
    requires
        is_last_occurrence(s, separator(), i),
    ensures
        commit_parts(s) == (s.take(i), Some(s.skip(i + separator().len()))),
{
    assert(occurs_at(s, separator(), i));
    let k = choose|k: int| #[trigger] is_last_occurrence(s, separator(), k);
    lemma_last_occurrence_unique(s, separator(), i, k);
}

/// A commit message read back from what [`commit_text`] wrote is the message
/// and the metadata written, provided the metadata does not make another
/// separator appear after the one written: no separator starts in the
/// written separator followed by the metadata, past its first character.
pub proof fn lemma_commit_round_trip(message: Seq<char>, metadata: Seq<char>)
    requires
        forall|j: int| 1 <= j ==> !#[trigger] occurs_at(separator() + metadata, separator(), j),
    ensures
        commit_parts(commit_text(message, metadata)) == (message, Some(metadata)),
{
    let s = commit_text(message, metadata);
    let n = message.len() as int;
    let tail = separator() + metadata;
    assert(s.subrange(n, n + separator().len()) =~= separator());
    assert forall|j: int| #[trigger] occurs_at(s, separator(), j) implies j <= n by {
        if j > n {
            assert(tail.subrange(j - n, j - n + separator().len()) =~= s.subrange(
                j,
                j + separator().len(),
            ));
            assert(occurs_at(tail, separator(), j - n));
        }
    }
    lemma_commit_parts_at(s, n);
    assert(s.take(n) =~= message);
    assert(s.skip(n + separator().len()) =~= metadata);
}

/// The round trip of [`lemma_commit_round_trip`] for metadata that holds no
/// separator and does not start with a newline or `-` (TOML that the `toml`
/// crate writes for build records starts with `[`).
pub proof fn lemma_commit_round_trip_plain(message: Seq<char>, metadata: Seq<char>)
    requires
        forall|j: int| !#[trigger] occurs_at(metadata, separator(), j),
        metadata.len() > 0 ==> metadata[0] != '\n' && metadata[0] != '-',
    ensures
        commit_parts(commit_text(message, metadata)) == (message, Some(metadata)),
{
    reveal_strlit("\n\n--- something\n\n");
    let sep = separator();
    let tail = sep + metadata;
    assert(sep.len() == 17);
    assert(sep[0] == '\n' && sep[1] == '\n' && sep[2] == '-' && sep[3] == '-' && sep[4] == '-');
    assert(sep[15] == '\n' && sep[16] == '\n');
    assert(sep[5] == ' ' && sep[6] == 's' && sep[7] == 'o' && sep[8] == 'm' && sep[9] == 'e');
    assert(sep[10] == 't' && sep[11] == 'h' && sep[12] == 'i' && sep[13] == 'n' && sep[14] == 'g');
    assert forall|j: int| 1 <= j implies !#[trigger] occurs_at(tail, sep, j) by {
        if occurs_at(tail, sep, j) {
            let w = tail.subrange(j, j + 17);
            assert(w == sep);
            if j >= 17 {
                assert(metadata.subrange(j - 17, j - 17 + 17) =~= w);
                assert(occurs_at(metadata, sep, j - 17));
            } else {
                assert(w[0] == tail[j] && w[1] == tail[j + 1] && w[2] == tail[j + 2]);
                if j <= 14 {
                    assert(tail[j] == sep[j] && tail[j + 1] == sep[j + 1] && tail[j + 2] == sep[j + 2]);
                } else if j == 15 {
                    assert(tail[17] == metadata[0]);
                } else {
                    assert(tail[17] == metadata[0]);
                }
            }
        }
    }
    lemma_commit_round_trip(message, metadata);
}

/// Splitting a commit message and joining the parts again gives the message
/// back: with a separator, the parts framed by [`commit_text`]; without, the
/// whole text.
pub proof fn lemma_commit_parts_rejoin(s: Seq<char>)
    ensures
        commit_parts(s).1 is None ==> commit_parts(s).0 == s,
        commit_parts(s).1 matches Some(t) ==> commit_text(commit_parts(s).0, t) == s,
{
    if exists|i: int| #[trigger] occurs_at(s, separator(), i) {
        let j = choose|i: int| #[trigger] occurs_at(s, separator(), i);
        lemma_last_exists(s, separator(), j);
        let i = choose|i: int| #[trigger] is_last_occurrence(s, separator(), i);
        let k = i + separator().len();
        assert(s.subrange(i, k) == separator());
        assert(s.take(i) + separator() + s.skip(k) =~= s);
    }
}

proof fn lemma_last_exists(s: Seq<char>, p: Seq<char>, j: int)
    requires
        occurs_at(s, p, j),
    ensures
        exists|i: int| #[trigger] is_last_occurrence(s, p, i),
    decreases s.len() - j,
{
    if !is_last_occurrence(s, p, j) {
        let k = choose|k: int| #[trigger] occurs_at(s, p, k) && k > j;
        lemma_last_exists(s, p, k);
    }
}

/// The text of [`SEPARATOR`].
fn separator_text() -> (r: &'static str)
    ensures
        r@ == separator(),
{
    SEPARATOR
}

/// A commit message followed by its build metadata, framed by [`SEPARATOR`].
pub fn frame_commit_message(message: &str, metadata: &str) -> (r: String)
    ensures
        r@ == commit_text(message@, metadata@),
{
    let mut s = String::from_str(message);
    s.append(separator_text());
    s.append(metadata);
    s
}

/// Splits a commit message at its last [`SEPARATOR`] into the message and
/// the build metadata; the whole text and `None` when there is no separator.
pub fn split_commit_message(s: &str) -> (r: (String, Option<String>))
    ensures
        r.0@ == commit_parts(s@).0,
        r.1 is None <==> commit_parts(s@).1 is None,
        r.1 matches Some(t) ==> commit_parts(s@).1 == Some(t@),
        r.1 is None <==> forall|j: int| !#[trigger] occurs_at(s@, separator(), j),
        r.1 is None ==> r.0@ == s@,
{
    let chars = chars_of(s);
    let sep = chars_of(separator_text());
    match last_occurrence(&chars, &sep) {
        None => (String::from_str(s), None),
        Some(i) => {
            let n = chars.len();
            let k = i + sep.len();
            proof {
                lemma_commit_parts_at(s@, i as int);
            }
            let message = String::from_str(s.substring_char(0, i));
            let metadata = String::from_str(s.substring_char(k, n));
            assert(s@.subrange(0, i as int) =~= s@.take(i as int));
            assert(s@.subrange(k as int, n as int) =~= s@.skip(k as int));
            (message, Some(metadata))
        },
    }
}

/// A version-qualified target: its name and version.
pub struct VersionedTarget {
    pub name: String,
    pub version: SemVer,
}

impl VersionedTarget {
    /// The name and version of a `wip.toml` target.
    pub fn from_wip_toml(target: &Target<SemVer>) -> (r: VersionedTarget)
        ensures
            r.name@ == target.name@,
            r.version@ == target.version@,
    {
        VersionedTarget { name: target.name.clone(), version: target.version.duplicate() }
    }

    /// `name-version`, as the tools print a versioned target.
    pub fn to_string(&self) -> (r: String)
        ensures
            r@ == self.name@ + "-"@ + version_text(self.version@),
    {
        let mut s = self.name.clone();
        s.append("-");
        let v = self.version.to_string();
        s.append(v.as_str());
        s
    }
}

/// The record of one build kept in a commit message.
pub struct BuildInfo {
    pub target: VersionedTarget,
    pub subset_tree: Sha1,
    pub build_warnings: Option<String>,
}

/// A commit message and the builds recorded in it.
pub struct CommitMessage {
    pub message: String,
    pub metadata: Vec<BuildInfo>,
}

impl CommitMessage {
    /// The full text of the commit message, given its build records written
    /// as TOML (`metadata`).
    pub fn render(&self, metadata: &str) -> (r: String)
        ensures
            r@ == commit_text(self.message@, metadata@),
    {
        frame_commit_message(self.message.as_str(), metadata)
    }

    /// A commit message without build records.
    pub fn plain(message: &str) -> (r: CommitMessage)
        ensures
            r.message@ == message@,
            r.metadata@.len() == 0,
    {
        CommitMessage { message: String::from_str(message), metadata: Vec::new() }
    }
}

/// A commit message split as [`split_commit_message`] does, with the build
/// metadata parsed as a TOML document.
pub fn okay(s: &str) -> (r: Result<(String, Option<toml::Value>), WipError>)
    ensures
        r is Err <==> (commit_parts(s@).1 matches Some(t) && toml_document(t) is Err),
        r matches Err(e) ==> (e matches WipError::Toml(m) && toml_document(commit_parts(s@).1.unwrap())
            == Err::<TomlEntries, Seq<char>>(m@)),
        r matches Ok((m, v)) ==> {
            &&& m@ == commit_parts(s@).0
            &&& v is Some <==> commit_parts(s@).1 is Some
            &&& v is None <==> forall|j: int| !#[trigger] occurs_at(s@, separator(), j)
            &&& v is None ==> m@ == s@
            &&& v matches Some(x) ==> toml_document(commit_parts(s@).1.unwrap()) == Ok::<
                TomlEntries,
                Seq<char>,
            >(toml_entries(x))
        },
{
    let (message, metadata) = split_commit_message(s);
    match metadata {
        None => Ok((message, None)),
        Some(text) => match parse_document(text.as_str()) {
            Ok(v) => Ok((message, Some(v))),
            Err(msg) => Err(WipError::Toml(msg)),
        },
    }
}

/// The commit that a working tree stands at, as the working tree helper
/// reports it.
pub enum WorkingTreeCommit {
    /// The wip commit for a dirty working tree.
    Wip(Sha1),
    /// The head commit of a clean working tree.
    Head(Sha1),
}

/// The commit that the working tree helper names with a kind (`wip` or
/// `head`) and a hash.
pub fn classify_commit(kind: &str, hash: &str) -> (r: Result<WorkingTreeCommit, WipError>)
    ensures
        kind@ == "wip"@ ==> (r matches Ok(WorkingTreeCommit::Wip(h)) && h@ == hash@),
        kind@ == "head"@ ==> (r matches Ok(WorkingTreeCommit::Head(h)) && h@ == hash@),
        kind@ != "wip"@ && kind@ != "head"@ ==> (r matches Err(WipError::UnknownCommitKind(k)) && k@
            == kind@),
{
    proof {
        reveal_strlit("wip");
        reveal_strlit("head");
        assert("wip"@.len() == 3 && "head"@.len() == 4);
        assert("wip"@ != "head"@);
    }
    let k = String::from_str(kind);
    if k == String::from_str("wip") {
        Ok(WorkingTreeCommit::Wip(String::from_str(hash)))
    } else if k == String::from_str("head") {
        Ok(WorkingTreeCommit::Head(String::from_str(hash)))
    } else {
        Err(WipError::UnknownCommitKind(k))
    }
}

/// The commit that the working tree helper prints: its first two words are
/// the kind and the hash.
pub fn working_tree_commit(stdout: &str) -> (r: Result<WorkingTreeCommit, WipError>)
    requires
        first_two_words_of(stdout@) is Some,
    ensures
        ({
            let (kind, hash) = first_two_words_of(stdout@).unwrap();
            &&& kind == "wip"@ ==> (r matches Ok(WorkingTreeCommit::Wip(h)) && h@ == hash)
            &&& kind == "head"@ ==> (r matches Ok(WorkingTreeCommit::Head(h)) && h@ == hash)
            &&& kind != "wip"@ && kind != "head"@ ==> (r matches Err(WipError::UnknownCommitKind(k))
                && k@ == kind)
        }),
{
    match first_two_words(stdout) {
        Some((kind, hash)) => classify_commit(kind.as_str(), hash.as_str()),
        None => {
            assert(false);
            Err(WipError::UnknownCommitKind(String::new()))
        },
    }
}

/// Whether `git status --porcelain` printed `stdout` for a dirty working
/// tree: it printed something other than white space.
pub fn working_tree_dirty(stdout: &str) -> (r: bool)
    ensures
        r == has_non_white(stdout@),
{
    !is_blank(stdout)
}

/// The reference that names the tag `tag`.
pub fn tag_ref(tag: &str) -> (r: String)
    ensures
        r@ == "refs/tags/"@ + tag@,
{
    let mut s = String::from_str("refs/tags/");
    s.append(tag);
    s
}

/// The hash that `git rev-parse` printed for a tag, without surrounding
/// white space; `None` when it printed nothing but white space.
pub fn resolved_tag(stdout: &str) -> (r: Option<String>)
    ensures
        trimmed(stdout@).len() == 0 ==> r is None,
        trimmed(stdout@).len() > 0 ==> (r matches Some(h) && h@ == trimmed(stdout@)),
{
    let t = trim(stdout);
    if t.as_str().is_empty() {
        None
    } else {
        Some(t)
    }
}

/// The hash of a subset tree as the helper prints it, without surrounding
/// white space.
pub fn subset_tree_hash(stdout: &str) -> (r: String)
    ensures
        r@ == trimmed(stdout@),
{
    trim(stdout)
}

/// The directory of the helper scripts for an installed binary at the
/// canonical path `binary`: three levels up, then `bin`.
pub fn bin_dir(binary: &str) -> (r: String)
    ensures
        r@ == path_join(popped(popped(popped(binary@))), "bin"@),
{
    let p1 = pop(binary);
    let p2 = pop(p1.as_str());
    let p3 = pop(p2.as_str());
    join(p3.as_str(), "bin")
}

} // verus!
