//! The `wip.toml` configuration: targets, their versions (given directly or
//! read from a `Cargo.toml`), and the paths that influence their build.

use vstd::prelude::*;
use vstd::string::*;
use crate::error::WipError;
use crate::paths::{
    file_name, is_absolute, is_absolute_path, join, parent, path_file_name, path_join,
    path_parent,
};
use crate::toml_doc::{as_str, get, parse_document, toml_document, TomlEntries};
use crate::version::{semver_parse, SemVer, SemVerView};

verus! {

/// A version to be read from the `package.version` field of a `Cargo.toml`
/// (`version = { from = "Cargo.toml" }`).
#[derive(Debug, Clone)]
pub struct VersionFrom {
    pub from: String,
}

/// A target's version as written in `wip.toml`: given directly, or read
/// from a `Cargo.toml`.
#[derive(Debug, Clone)]
pub enum UnevaluatedVersion {
    Direct(SemVer),
    FromToml(VersionFrom),
}

/// The paths (relative to the directory of `wip.toml`) whose files influence
/// the build of a target.
#[derive(Debug, Clone)]
pub struct InfluencesBuild {
    pub included: Vec<String>,
    pub exclude: Vec<String>,
}

/// A build target of `wip.toml`.
#[derive(Debug, Clone)]
pub struct Target<V> {
    pub name: String,
    pub version: V,
    pub influences_build: InfluencesBuild,
}

/// The contents of a `wip.toml` file, the path it was read from and the
/// root directory of the git repository that holds it.
#[derive(Debug, Clone)]
pub struct WipTomlBase<V> {
    pub target: Vec<Target<V>>,
    pub path: String,
    pub git_root: String,
}

/// A `wip.toml` whose versions are not resolved yet.
pub type WipTomlUnevaluated = WipTomlBase<UnevaluatedVersion>;

/// A `wip.toml` with every target's version resolved.
pub type WipToml = WipTomlBase<SemVer>;

/// What resolving one version comes to.
pub enum VersionOutcome {
    Found(SemVerView),
    NotCargoToml(Seq<char>),
    ReadFailed(Seq<char>),
    TomlInvalid(Seq<char>),
    NoPackageSection,
    NoVersionField,
    VersionNotString,
    SemVerInvalid(Seq<char>),
}

/// `e` is the error that `o` describes.
pub open spec fn error_fits(e: WipError, o: VersionOutcome) -> bool {
    match o {
        VersionOutcome::Found(_) => false,
        VersionOutcome::NotCargoToml(p) => e matches WipError::NotCargoToml(q) && q@ == p,
        VersionOutcome::ReadFailed(m) => e matches WipError::Read(q) && q@ == m,
        VersionOutcome::TomlInvalid(m) => e matches WipError::Toml(q) && q@ == m,
        VersionOutcome::NoPackageSection => e is NoPackageSection,
        VersionOutcome::NoVersionField => e is NoVersionField,
        VersionOutcome::VersionNotString => e is VersionNotString,
        VersionOutcome::SemVerInvalid(m) => e matches WipError::SemVer(q) && q@ == m,
    }
}

/// `r` is the result that `o` describes.
pub open spec fn outcome_fits(r: Result<SemVer, WipError>, o: VersionOutcome) -> bool {
    match r {
        Ok(v) => o == VersionOutcome::Found(v@),
        Err(e) => error_fits(e, o),
    }
}

/// The key path `package.version`.
pub open spec fn package_version_path() -> Seq<Seq<char>> {
    seq!["package"@, "version"@]
}

/// What the `package.version` field of a `Cargo.toml` with text `contents`
/// gives: the document must parse, have a `package` table with a
/// `version` string, and that string must be a semantic version; each
/// failure carries the parser's message where there is one.
pub open spec fn cargo_toml_outcome(contents: Seq<char>) -> VersionOutcome {
    match toml_document(contents) {
        Err(msg) => VersionOutcome::TomlInvalid(msg),
        Ok(m) => if !m.dom().contains(seq!["package"@]) {
            VersionOutcome::NoPackageSection
        } else if !m.dom().contains(package_version_path()) {
            VersionOutcome::NoVersionField
        } else {
            match m[package_version_path()] {
                None => VersionOutcome::VersionNotString,
                Some(text) => match semver_parse(text) {
                    Err(msg) => VersionOutcome::SemVerInvalid(msg),
                    Ok(v) => VersionOutcome::Found(v),
                },
            }
        },
    }
}

/// Reads the version in the `package.version` field of a `Cargo.toml`
/// whose text is `contents`.
pub fn version_from_cargo_toml(contents: &str) -> (r: Result<SemVer, WipError>)
    ensures
        outcome_fits(r, cargo_toml_outcome(contents@)),
{
    let doc = match parse_document(contents) {
        Ok(doc) => doc,
        Err(msg) => return Err(WipError::Toml(msg)),
    };
    let package = match get(&doc, "package") {
        Some(p) => p,
        None => return Err(WipError::NoPackageSection),
    };
    let version = match get(package, "version") {
        Some(v) => v,
        None => {
            assert(seq!["package"@] + seq!["version"@] =~= package_version_path());
            return Err(WipError::NoVersionField);
        },
    };
    assert(seq!["package"@] + seq!["version"@] =~= package_version_path());
    assert(seq!["package"@] + (seq!["version"@] + Seq::<Seq<char>>::empty()) =~= package_version_path());
    let text = match as_str(version) {
        Some(t) => t,
        None => return Err(WipError::VersionNotString),
    };
    SemVer::parse(text)
}


/// The file a version is read from: `from`, taken relative to `base` unless
/// it is absolute.
pub open spec fn cargo_toml_path(base: Seq<char>, from: Seq<char>) -> Seq<char> {
    if is_absolute_path(from) {
        from
    } else {
        path_join(base, from)
    }
}

/// The file name of `p` is `Cargo.toml`.
pub open spec fn names_cargo_toml(p: Seq<char>) -> bool {
    path_file_name(p) == Some("Cargo.toml"@)
}

/// What resolving the version `v` comes to, for a `wip.toml` in the
/// directory `base`, where `read` is what reading the file that `v` names
/// gave (its text, or the message of the I/O error).
pub open spec fn version_outcome(
    base: Seq<char>,
    v: UnevaluatedVersion,
    read: Result<String, String>,
) -> VersionOutcome {
    match v {
        UnevaluatedVersion::Direct(x) => VersionOutcome::Found(x@),
        UnevaluatedVersion::FromToml(f) => {
            let p = cargo_toml_path(base, f.from@);
            if !names_cargo_toml(p) {
                VersionOutcome::NotCargoToml(p)
            } else {
                match read {
                    Err(m) => VersionOutcome::ReadFailed(m@),
                    Ok(c) => cargo_toml_outcome(c@),
                }
            }
        },
    }
}

/// The `Cargo.toml` that a version given as `from` names, for a `wip.toml`
/// in the directory `base`; an error if the file is not named `Cargo.toml`.
pub fn cargo_toml_file(base: &str, from: &str) -> (r: Result<String, WipError>)
    ensures
        names_cargo_toml(cargo_toml_path(base@, from@)) ==> (r matches Ok(p) && p@ == cargo_toml_path(
            base@,
            from@,
        )),
        !names_cargo_toml(cargo_toml_path(base@, from@)) ==> (r matches Err(WipError::NotCargoToml(
            p,
        )) && p@ == cargo_toml_path(base@, from@)),
{
    let path = if !is_absolute(from) {
        join(base, from)
    } else {
        String::from_str(from)
    };
    let wanted = String::from_str("Cargo.toml");
    let ok = match file_name(path.as_str()) {
        Some(n) => n == wanted,
        None => false,
    };
    if ok {
        Ok(path)
    } else {
        Err(WipError::NotCargoToml(path))
    }
}

/// Resolves one version for a `wip.toml` in the directory `base`; `read` is
/// what reading the `Cargo.toml` it names gave, and is not looked at for a
/// version given directly or naming another file.
pub fn map_version(base: &str, version: UnevaluatedVersion, read: &Result<String, String>) -> (r:
    Result<SemVer, WipError>)
    ensures
        outcome_fits(r, version_outcome(base@, version, *read)),
{
    match version {
        UnevaluatedVersion::Direct(v) => Ok(v),
        UnevaluatedVersion::FromToml(f) => {
            let _path = cargo_toml_file(base, f.from.as_str())?;
            match read {
                Err(m) => Err(WipError::Read(m.clone())),
                Ok(contents) => version_from_cargo_toml(contents.as_str()),
            }
        },
    }
}

/// Reading a `Cargo.toml` gives exactly the version that `semver` parses
/// from its `package.version` string, every field included, where the
/// document parses and has that string. (`r` is any result that meets the
/// `ensures` of [`version_from_cargo_toml`].)
pub proof fn lemma_cargo_version_exact(
    contents: Seq<char>,
    r: Result<SemVer, WipError>,
    m: TomlEntries,
    text: Seq<char>,
    v: SemVerView,
)
    requires
        outcome_fits(r, cargo_toml_outcome(contents)),
        toml_document(contents) matches Ok(d) && d == m,
        m.dom().contains(seq!["package"@]),
        m.dom().contains(seq!["package"@, "version"@]),
        m[seq!["package"@, "version"@]] == Some(text),
        semver_parse(text) matches Ok(p) && p == v,
    ensures
        r matches Ok(x) && x@ == v,
{
    assert(seq!["package"@, "version"@] =~= package_version_path());
}

/// A version given directly is the version resolved, unchanged. (`r` is any
/// result that meets the `ensures` of [`map_version`].)
pub proof fn lemma_direct_version_kept(
    base: Seq<char>,
    x: SemVer,
    read: Result<String, String>,
    r: Result<SemVer, WipError>,
)
    requires
        outcome_fits(r, version_outcome(base, UnevaluatedVersion::Direct(x), read)),
    ensures
        r matches Ok(y) && y@ == x@,
{
}

/// A version given as a file resolves to the version in that file, whatever
/// the path: when the file named (`from`, taken from the `wip.toml`
/// directory `base` unless it starts with `/`) has the file name
/// `Cargo.toml`, was read, and its `package.version` string parses, the
/// result is that version. (`r` is any result that meets the `ensures` of
/// [`map_version`].)
pub proof fn lemma_version_from_file(
    base: Seq<char>,
    f: VersionFrom,
    read: Result<String, String>,
    r: Result<SemVer, WipError>,
    m: TomlEntries,
    text: Seq<char>,
    v: SemVerView,
)
    requires
        outcome_fits(r, version_outcome(base, UnevaluatedVersion::FromToml(f), read)),
        path_file_name(
            if f.from@.len() > 0 && f.from@[0] == '/' {
                f.from@
            } else {
                path_join(base, f.from@)
            },
        ) == Some("Cargo.toml"@),
        read matches Ok(c) && toml_document(c@) matches Ok(d) && d == m,
        m.dom().contains(seq!["package"@]),
        m.dom().contains(seq!["package"@, "version"@]),
        m[seq!["package"@, "version"@]] == Some(text),
        semver_parse(text) matches Ok(p) && p == v,
    ensures
        r matches Ok(x) && x@ == v,
{
    assert(seq!["package"@, "version"@] =~= package_version_path());
}

/// Index `i` is the first target whose version does not resolve.
pub open spec fn first_failure(
    targets: Seq<Target<UnevaluatedVersion>>,
    base: Seq<char>,
    reads: Seq<Result<String, String>>,
    i: int,
) -> bool {
    &&& 0 <= i < targets.len()
    &&& !(version_outcome(base, targets[i].version, reads[i]) is Found)
    &&& forall|j: int|
        0 <= j < i ==> #[trigger] version_outcome(base, targets[j].version, reads[j]) is Found
}

/// `out` is `targets` with every version resolved: same names and paths,
/// in the same order.
pub open spec fn evaluated(
    targets: Seq<Target<UnevaluatedVersion>>,
    base: Seq<char>,
    reads: Seq<Result<String, String>>,
    out: Seq<Target<SemVer>>,
) -> bool {
    &&& out.len() == targets.len()
    &&& forall|i: int|
        0 <= i < out.len() ==> {
            &&& #[trigger] out[i].name == targets[i].name
            &&& out[i].influences_build == targets[i].influences_build
            &&& version_outcome(base, targets[i].version, reads[i]) == VersionOutcome::Found(
                out[i].version@,
            )
        }
}

/// `r` is what resolving every version of `targets` gives: the resolved
/// targets, or the error of the first target that does not resolve.
pub open spec fn evaluation_fits(
    targets: Seq<Target<UnevaluatedVersion>>,
    base: Seq<char>,
    reads: Seq<Result<String, String>>,
    r: Result<Vec<Target<SemVer>>, WipError>,
) -> bool {
    match r {
        Ok(out) => evaluated(targets, base, reads, out@),
        Err(e) => exists|i: int|
            #[trigger] first_failure(targets, base, reads, i) && error_fits(
                e,
                version_outcome(base, targets[i].version, reads[i]),
            ),
    }
}

/// Resolves the versions of `targets`, in order, stopping at the first that
/// fails.
fn eval_targets(
    base: &str,
    targets: Vec<Target<UnevaluatedVersion>>,
    reads: &Vec<Result<String, String>>,
) -> (r: Result<Vec<Target<SemVer>>, WipError>)
    requires
        reads@.len() == targets@.len(),
    ensures
        evaluation_fits(targets@, base@, reads@, r),
{
    let ghost all = targets@;
    let mut rest = targets;
    let mut out: Vec<Target<SemVer>> = Vec::new();
    let total = rest.len();
    let mut i: usize = 0;
    while rest.len() > 0
        invariant
            all == targets@,
            total == all.len(),
            reads@.len() == all.len(),
            i + rest@.len() == all.len(),
            rest@ == all.skip(i as int),
            evaluated(all.take(i as int), base@, reads@, out@),
            forall|j: int|
                0 <= j < i ==> #[trigger] version_outcome(base@, all[j].version, reads@[j]) is Found,
        decreases rest@.len(),
    {
        let t = rest.remove(0);
        assert(t == all[i as int]);
        let Target { name, version, influences_build } = t;
        match map_version(base, version, &reads[i]) {
            Ok(v) => {
                let ghost prev = out@;
                out.push(Target { name, version: v, influences_build });
                proof {
                    let done = all.take(i + 1);
                    assert forall|k: int| 0 <= k < out@.len() implies {
                        &&& #[trigger] out@[k].name == done[k].name
                        &&& out@[k].influences_build == done[k].influences_build
                        &&& version_outcome(base@, done[k].version, reads@[k])
                            == VersionOutcome::Found(out@[k].version@)
                    } by {
                        if k < i {
                            assert(out@[k] == prev[k]);
                            assert(done[k] == all.take(i as int)[k]);
                            assert(prev[k].name == all.take(i as int)[k].name);
                        }
                    }
                }
            },
            Err(e) => {
                assert(first_failure(all, base@, reads@, i as int) && error_fits(
                    e,
                    version_outcome(base@, all[i as int].version, reads@[i as int]),
                ));
                return Err(e);
            },
        }
        i = i + 1;
        assert(rest@ =~= all.skip(i as int));
    }
    assert(all.take(i as int) =~= all);
    Ok(out)
}


/// `(i, j)` names the first absolute path in the lists of paths taken in
/// by `targets` (targets in order, then each target's list in order).
pub open spec fn is_first_absolute<V>(targets: Seq<Target<V>>, i: int, j: int) -> bool {
    &&& 0 <= i < targets.len()
    &&& 0 <= j < targets[i].influences_build.included@.len()
    &&& is_absolute_path(targets[i].influences_build.included@[j]@)
    &&& forall|i2: int, j2: int|
        0 <= i2 < targets.len() && 0 <= j2 < targets[i2].influences_build.included@.len() && (i2
            < i || (i2 == i && j2 < j)) ==> !is_absolute_path(
            #[trigger] targets[i2].influences_build.included@[j2]@,
        )
}

/// No target takes in an absolute path.
pub open spec fn all_relative<V>(targets: Seq<Target<V>>) -> bool {
    forall|i: int, j: int|
        0 <= i < targets.len() && 0 <= j < targets[i].influences_build.included@.len()
            ==> !is_absolute_path(#[trigger] targets[i].influences_build.included@[j]@)
}

/// The first absolute path taken in by a target, as indices.
fn first_absolute<V>(targets: &Vec<Target<V>>) -> (r: Option<(usize, usize)>)
    ensures
        r is None <==> all_relative(targets@),
        r matches Some((i, j)) ==> is_first_absolute(targets@, i as int, j as int),
{
    let mut i: usize = 0;
    while i < targets.len()
        invariant
            i <= targets@.len(),
            forall|i2: int, j2: int|
                0 <= i2 < i && 0 <= j2 < targets@[i2].influences_build.included@.len()
                    ==> !is_absolute_path(#[trigger] targets@[i2].influences_build.included@[j2]@),
        decreases targets@.len() - i,
    {
        let paths = &targets[i].influences_build.included;
        let mut j: usize = 0;
        while j < paths.len()
            invariant
                i < targets@.len(),
                *paths == targets@[i as int].influences_build.included,
                j <= paths@.len(),
                forall|i2: int, j2: int|
                    0 <= i2 < i && 0 <= j2 < targets@[i2].influences_build.included@.len()
                        ==> !is_absolute_path(
                        #[trigger] targets@[i2].influences_build.included@[j2]@,
                    ),
                forall|j2: int| 0 <= j2 < j ==> !is_absolute_path(#[trigger] paths@[j2]@),
            decreases paths@.len() - j,
        {
            if is_absolute(paths[j].as_str()) {
                return Some((i, j));
            }
            j = j + 1;
        }
        i = i + 1;
    }
    None
}

/// `r` is what reading a `wip.toml` at `file_path`, in the git repository
/// whose root directory is `git_root`, with the given targets comes to: the
/// path must have a parent directory, every version must resolve, and no
/// target may take in an absolute path.
pub open spec fn read_toml_fits(
    file_path: Seq<char>,
    git_root: Seq<char>,
    targets: Seq<Target<UnevaluatedVersion>>,
    reads: Seq<Result<String, String>>,
    r: Result<WipToml, WipError>,
) -> bool {
    match path_parent(file_path) {
        None => r matches Err(WipError::NotAFile),
        Some(base) => match r {
            Ok(t) => t.path@ == file_path && t.git_root@ == git_root && evaluated(targets, base, reads, t.target@)
                && all_relative(targets),
            Err(e) => if exists|out: Seq<Target<SemVer>>| #[trigger] evaluated(targets, base, reads, out) {
                exists|i: int, j: int|
                    #[trigger] is_first_absolute(targets, i, j) && (e matches WipError::AbsoluteInclude(
                        p,
                    ) && p@ == targets[i].influences_build.included@[j]@)
            } else {
                evaluation_fits(targets, base, reads, Err(e))
            },
        },
    }
}

/// Every path that a target of a successfully read `wip.toml` takes in is
/// relative.
pub proof fn lemma_read_toml_paths_relative(
    file_path: Seq<char>,
    git_root: Seq<char>,
    targets: Seq<Target<UnevaluatedVersion>>,
    reads: Seq<Result<String, String>>,
    t: WipToml,
)
    requires
        read_toml_fits(file_path, git_root, targets, reads, Ok(t)),
    ensures
        all_relative(t.target@),
{
    assert forall|i: int, j: int|
        0 <= i < t.target@.len() && 0 <= j < t.target@[i].influences_build.included@.len()
            implies !is_absolute_path(#[trigger] t.target@[i].influences_build.included@[j]@) by {
        assert(t.target@[i].name == targets[i].name);
    }
}

/// A `wip.toml` in which some target takes in a path that starts with `/`
/// is refused, however long the path. (`r` is any result that meets the
/// `ensures` of [`WipTomlBase::read_toml`].)
pub proof fn lemma_read_toml_refuses_rooted(
    file_path: Seq<char>,
    git_root: Seq<char>,
    targets: Seq<Target<UnevaluatedVersion>>,
    reads: Seq<Result<String, String>>,
    r: Result<WipToml, WipError>,
    i: int,
    j: int,
)
    requires
        read_toml_fits(file_path, git_root, targets, reads, r),
        0 <= i < targets.len(),
        0 <= j < targets[i].influences_build.included@.len(),
        targets[i].influences_build.included@[j]@.len() > 0,
        targets[i].influences_build.included@[j]@[0] == '/',
    ensures
        r is Err,
{
    assert(is_absolute_path(targets[i].influences_build.included@[j]@));
}

/// Resolving versions keeps a version given directly as it is, and takes a
/// version given as a file from that `Cargo.toml`'s `package.version`.
pub proof fn lemma_versions_resolved(
    targets: Seq<Target<UnevaluatedVersion>>,
    base: Seq<char>,
    reads: Seq<Result<String, String>>,
    out: Seq<Target<SemVer>>,
    i: int,
)
    requires
        evaluated(targets, base, reads, out),
        0 <= i < targets.len(),
    ensures
        targets[i].version matches UnevaluatedVersion::Direct(v) ==> out[i].version@ == v@,
        targets[i].version matches UnevaluatedVersion::FromToml(f) ==> names_cargo_toml(
            cargo_toml_path(base, f.from@),
        ),
        targets[i].version is FromToml ==> (reads[i] matches Ok(c) && cargo_toml_outcome(c@)
            == VersionOutcome::Found(out[i].version@)),
{
    assert(out[i].name == targets[i].name);
}

/// `t1` and `t2` hold the same things: path, git root, and targets with the
/// same names, versions and paths, in the same order.
pub open spec fn same_wip_toml(t1: WipToml, t2: WipToml) -> bool {
    &&& t1.path@ == t2.path@
    &&& t1.git_root@ == t2.git_root@
    &&& t1.target@.len() == t2.target@.len()
    &&& forall|i: int|
        0 <= i < t1.target@.len() ==> {
            &&& #[trigger] t1.target@[i].name == t2.target@[i].name
            &&& t1.target@[i].version@ == t2.target@[i].version@
            &&& t1.target@[i].influences_build == t2.target@[i].influences_build
        }
}

proof fn lemma_error_fits_text(e1: WipError, e2: WipError, o: VersionOutcome)
    requires
        error_fits(e1, o),
        error_fits(e2, o),
    ensures
        crate::error::error_text(e1) == crate::error::error_text(e2),
{
}

proof fn lemma_first_failure_unique(
    targets: Seq<Target<UnevaluatedVersion>>,
    base: Seq<char>,
    reads: Seq<Result<String, String>>,
    i: int,
    k: int,
)
    requires
        first_failure(targets, base, reads, i),
        first_failure(targets, base, reads, k),
    ensures
        i == k,
{
    if i < k {
        assert(version_outcome(base, targets[i].version, reads[i]) is Found);
    } else if k < i {
        assert(version_outcome(base, targets[k].version, reads[k]) is Found);
    }
}

proof fn lemma_first_absolute_unique<V>(targets: Seq<Target<V>>, i: int, j: int, i2: int, j2: int)
    requires
        is_first_absolute(targets, i, j),
        is_first_absolute(targets, i2, j2),
    ensures
        i == i2 && j == j2,
{
    if i2 < i || (i2 == i && j2 < j) {
        assert(!is_absolute_path(targets[i2].influences_build.included@[j2]@));
    } else if i < i2 || (i == i2 && j < j2) {
        assert(!is_absolute_path(targets[i].influences_build.included@[j]@));
    }
}

/// Reading the same `wip.toml` twice (same path, git root, contents and
/// `Cargo.toml` files) gives the same result: the same targets, or errors
/// with the same message.
pub proof fn lemma_read_toml_deterministic(
    file_path: Seq<char>,
    git_root: Seq<char>,
    targets: Seq<Target<UnevaluatedVersion>>,
    reads: Seq<Result<String, String>>,
    r1: Result<WipToml, WipError>,
    r2: Result<WipToml, WipError>,
)
    requires
        read_toml_fits(file_path, git_root, targets, reads, r1),
        read_toml_fits(file_path, git_root, targets, reads, r2),
    ensures
        r1 is Ok <==> r2 is Ok,
        r1 matches Ok(t1) ==> (r2 matches Ok(t2) && same_wip_toml(t1, t2)),
        r1 matches Err(e1) ==> (r2 matches Err(e2) && crate::error::error_text(e1)
            == crate::error::error_text(e2)),
{
    if path_parent(file_path) is Some {
        let base = path_parent(file_path).unwrap();
        if exists|out: Seq<Target<SemVer>>| #[trigger] evaluated(targets, base, reads, out) {
            match (r1, r2) {
                (Ok(t1), Ok(t2)) => {
                    assert forall|i: int| 0 <= i < t1.target@.len() implies {
                        &&& #[trigger] t1.target@[i].name == t2.target@[i].name
                        &&& t1.target@[i].version@ == t2.target@[i].version@
                        &&& t1.target@[i].influences_build == t2.target@[i].influences_build
                    } by {
                        assert(t1.target@[i].name == targets[i].name);
                        assert(t2.target@[i].name == targets[i].name);
                    }
                },
                (Ok(t1), Err(e2)) => {
                    let (i, j) = choose|i: int, j: int| #[trigger] is_first_absolute(targets, i, j);
                    assert(!is_absolute_path(targets[i].influences_build.included@[j]@));
                },
                (Err(e1), Ok(t2)) => {
                    let (i, j) = choose|i: int, j: int|
                        #[trigger] is_first_absolute(targets, i, j) && (e1 matches WipError::AbsoluteInclude(
                            p,
                        ) && p@ == targets[i].influences_build.included@[j]@);
                    assert(!is_absolute_path(targets[i].influences_build.included@[j]@));
                },
                (Err(e1), Err(e2)) => {
                    let (i, j) = choose|i: int, j: int|
                        #[trigger] is_first_absolute(targets, i, j) && (e1 matches WipError::AbsoluteInclude(
                            p,
                        ) && p@ == targets[i].influences_build.included@[j]@);
                    let (i2, j2) = choose|i: int, j: int|
                        #[trigger] is_first_absolute(targets, i, j) && (e2 matches WipError::AbsoluteInclude(
                            p,
                        ) && p@ == targets[i].influences_build.included@[j]@);
                    lemma_first_absolute_unique(targets, i, j, i2, j2);
                },
            }
        } else {
            match (r1, r2) {
                (Ok(t1), _) => {
                    assert(evaluated(targets, base, reads, t1.target@));
                },
                (_, Ok(t2)) => {
                    assert(evaluated(targets, base, reads, t2.target@));
                },
                (Err(e1), Err(e2)) => {
                    let i = choose|i: int|
                        #[trigger] first_failure(targets, base, reads, i) && error_fits(
                            e1,
                            version_outcome(base, targets[i].version, reads[i]),
                        );
                    let k = choose|i: int|
                        #[trigger] first_failure(targets, base, reads, i) && error_fits(
                            e2,
                            version_outcome(base, targets[i].version, reads[i]),
                        );
                    lemma_first_failure_unique(targets, base, reads, i, k);
                    lemma_error_fits_text(e1, e2, version_outcome(base, targets[i].version, reads[i]));
                },
            }
        }
    }
}

impl WipTomlBase<UnevaluatedVersion> {
    /// The `Cargo.toml` files to read for the targets whose version is read
    /// from one: `Some(path)` at a target's index where its version names a
    /// `Cargo.toml`, `None` elsewhere (and everywhere when the `wip.toml`
    /// path has no parent directory).
    pub fn cargo_toml_files(&self) -> (r: Vec<Option<String>>)
        ensures
            r@.len() == self.target@.len(),
            forall|i: int|
                0 <= i < r@.len() ==> match (path_parent(self.path@), #[trigger] self.target@[i].version) {
                    (Some(base), UnevaluatedVersion::FromToml(f)) => if names_cargo_toml(
                        cargo_toml_path(base, f.from@),
                    ) {
                        r@[i] matches Some(p) && p@ == cargo_toml_path(base, f.from@)
                    } else {
                        r@[i] is None
                    },
                    _ => r@[i] is None,
                },
    {
        let base = parent(self.path.as_str());
        let mut r: Vec<Option<String>> = Vec::new();
        let mut i: usize = 0;
        while i < self.target.len()
            invariant
                i <= self.target@.len(),
                r@.len() == i,
                base is Some <==> path_parent(self.path@) is Some,
                base matches Some(b) ==> path_parent(self.path@) == Some(b@),
                forall|k: int|
                    0 <= k < i ==> match (path_parent(self.path@), #[trigger] self.target@[k].version) {
                        (Some(base), UnevaluatedVersion::FromToml(f)) => if names_cargo_toml(
                            cargo_toml_path(base, f.from@),
                        ) {
                            r@[k] matches Some(p) && p@ == cargo_toml_path(base, f.from@)
                        } else {
                            r@[k] is None
                        },
                        _ => r@[k] is None,
                    },
            decreases self.target@.len() - i,
        {
            let entry = match (&base, &self.target[i].version) {
                (Some(b), UnevaluatedVersion::FromToml(f)) => match cargo_toml_file(
                    b.as_str(),
                    f.from.as_str(),
                ) {
                    Ok(p) => Some(p),
                    Err(_) => None,
                },
                _ => None,
            };
            r.push(entry);
            i = i + 1;
        }
        r
    }

    /// Resolves every target's version. `reads` holds, at the index of each
    /// target whose version names a `Cargo.toml`, what reading that file
    /// gave (see [`Self::cargo_toml_files`]); other entries are not looked at.
    pub fn eval_version(self, reads: &Vec<Result<String, String>>) -> (r: Result<WipToml, WipError>)
        requires
            reads@.len() == self.target@.len(),
        ensures
            match path_parent(self.path@) {
                None => r matches Err(WipError::NotAFile),
                Some(base) => match r {
                    Ok(t) => t.path == self.path && t.git_root == self.git_root && evaluated(
                        self.target@,
                        base,
                        reads@,
                        t.target@,
                    ),
                    Err(e) => evaluation_fits(self.target@, base, reads@, Err(e)),
                },
            },
    {
        let WipTomlBase { target, path, git_root } = self;
        let base = match parent(path.as_str()) {
            Some(b) => b,
            None => return Err(WipError::NotAFile),
        };
        let new_target = eval_targets(base.as_str(), target, reads)?;
        Ok(WipTomlBase { target: new_target, path, git_root })
    }
}

impl WipTomlBase<SemVer> {
    /// Reads a `wip.toml` at `file_path` whose contents are `document`, in
    /// the git repository whose root directory is `git_root`: records both,
    /// resolves the versions (`reads` as for [`WipTomlBase::eval_version`])
    /// and checks that every path a target takes in is relative.
    pub fn read_toml(
        file_path: &str,
        git_root: &str,
        document: WipTomlUnevaluated,
        reads: &Vec<Result<String, String>>,
    ) -> (r: Result<WipToml, WipError>)
        requires
            reads@.len() == document.target@.len(),
        ensures
            read_toml_fits(file_path@, git_root@, document.target@, reads@, r),
    {
        let ghost targets = document.target@;
        let mut doc = document;
        doc.path = String::from_str(file_path);
        doc.git_root = String::from_str(git_root);
        let toml = match doc.eval_version(reads) {
            Ok(t) => t,
            Err(e) => {
                proof {
                    if path_parent(file_path@) is Some {
                        let base = path_parent(file_path@).unwrap();
                        if exists|out: Seq<Target<SemVer>>| #[trigger] evaluated(targets, base, reads@, out) {
                            let out = choose|out: Seq<Target<SemVer>>| #[trigger] evaluated(targets, base, reads@, out);
                            let i = choose|i: int| #[trigger] first_failure(targets, base, reads@, i) && error_fits(
                                e,
                                version_outcome(base, targets[i].version, reads@[i]),
                            );
                            assert(out[i].name == targets[i].name);
                        }
                    }
                }
                return Err(e);
            },
        };
        let ghost base = path_parent(file_path@).unwrap();
        assert(evaluated(targets, base, reads@, toml.target@));
        match first_absolute(&toml.target) {
            Some((i, j)) => {
                let p = toml.target[i].influences_build.included[j].clone();
                proof {
                    assert(toml.target@[i as int].name == targets[i as int].name);
                    assert forall|i2: int, j2: int|
                        0 <= i2 < targets.len() && 0 <= j2 < targets[i2].influences_build.included@.len()
                            && (i2 < i || (i2 == i && j2 < j)) implies !is_absolute_path(
                        #[trigger] targets[i2].influences_build.included@[j2]@,
                    ) by {
                        assert(toml.target@[i2].name == targets[i2].name);
                    }
                    assert(is_first_absolute(targets, i as int, j as int));
                }
                Err(WipError::AbsoluteInclude(p))
            },
            None => {
                proof {
                    assert forall|i2: int, j2: int|
                        0 <= i2 < targets.len() && 0 <= j2 < targets[i2].influences_build.included@.len()
                            implies !is_absolute_path(
                        #[trigger] targets[i2].influences_build.included@[j2]@,
                    ) by {
                        assert(toml.target@[i2].name == targets[i2].name);
                    }
                }
                Ok(toml)
            },
        }
    }
}


/// Index `i` is the first target named `name`.
pub open spec fn is_first_named<V>(targets: Seq<Target<V>>, name: Seq<char>, i: int) -> bool {
    &&& 0 <= i < targets.len()
    &&& targets[i].name@ == name
    &&& forall|j: int| 0 <= j < i ==> #[trigger] targets[j].name@ != name
}

/// Some target is named `name`.
pub open spec fn has_target<V>(targets: Seq<Target<V>>, name: Seq<char>) -> bool {
    exists|i: int| 0 <= i < targets.len() && #[trigger] targets[i].name@ == name
}

/// The index of the first target named `name`.
fn find_target<V>(targets: &Vec<Target<V>>, name: &str) -> (r: Option<usize>)
    ensures
        r is None <==> !has_target(targets@, name@),
        r matches Some(i) ==> is_first_named(targets@, name@, i as int),
{
    let wanted = String::from_str(name);
    let mut i: usize = 0;
    while i < targets.len()
        invariant
            wanted@ == name@,
            i <= targets@.len(),
            forall|j: int| 0 <= j < i ==> #[trigger] targets@[j].name@ != name@,
        decreases targets@.len() - i,
    {
        if targets[i].name == wanted {
            return Some(i);
        }
        i = i + 1;
    }
    None
}

/// `out` holds each of `paths` joined to `dir`, in order.
pub open spec fn joined_all(dir: Seq<char>, paths: Seq<String>, out: Seq<String>) -> bool {
    &&& out.len() == paths.len()
    &&& forall|k: int| 0 <= k < out.len() ==> #[trigger] out[k]@ == path_join(dir, paths[k]@)
}

/// Each of `paths` joined to `dir`.
fn join_all(dir: &str, paths: &Vec<String>) -> (r: Vec<String>)
    ensures
        joined_all(dir@, paths@, r@),
{
    let mut r: Vec<String> = Vec::new();
    let mut k: usize = 0;
    while k < paths.len()
        invariant
            k <= paths@.len(),
            r@.len() == k,
            forall|m: int| 0 <= m < k ==> #[trigger] r@[m]@ == path_join(dir@, paths@[m]@),
        decreases paths@.len() - k,
    {
        r.push(join(dir, paths[k].as_str()));
        k = k + 1;
    }
    r
}

/// An entry met while walking a directory tree: its canonical path and
/// whether it is a directory.
#[derive(Debug, Clone)]
pub struct WalkEntry {
    pub path: String,
    pub is_dir: bool,
}

/// `p` is the path of a file (not a directory) among `entries`.
pub open spec fn walked_file(entries: Seq<WalkEntry>, p: Seq<char>) -> bool {
    exists|k: int| 0 <= k < entries.len() && !entries[k].is_dir && #[trigger] entries[k].path@ == p
}

/// Some element of `v` has the text `p`.
pub open spec fn holds_text(v: Seq<String>, p: Seq<char>) -> bool {
    exists|m: int| 0 <= m < v.len() && #[trigger] v[m]@ == p
}

/// `files` is the set of files met walking the trees taken in that were not
/// met walking the trees left out, each once.
pub open spec fn files_fit(excluded: Seq<WalkEntry>, included: Seq<WalkEntry>, files: Seq<String>) -> bool {
    &&& forall|a: int, b: int| 0 <= a < b < files.len() ==> files[a]@ != files[b]@
    &&& forall|m: int|
        0 <= m < files.len() ==> walked_file(included, #[trigger] files[m]@) && !walked_file(
            excluded,
            files[m]@,
        )
    &&& forall|k: int|
        0 <= k < included.len() && !included[k].is_dir && !walked_file(
            excluded,
            #[trigger] included[k].path@,
        ) ==> holds_text(files, included[k].path@)
}

/// Every file among the entries `a` is a file among the entries `b`.
pub open spec fn files_within(a: Seq<WalkEntry>, b: Seq<WalkEntry>) -> bool {
    forall|p: Seq<char>| #[trigger] walked_file(a, p) ==> walked_file(b, p)
}

/// Taking in more files and leaving out fewer keeps every file: with walks
/// whose files taken in are among those of the second and whose files left
/// out include those of the second, every file of the first result is in the
/// second. Reordering or repeating walk entries changes neither.
pub proof fn lemma_files_monotonic(
    excluded1: Seq<WalkEntry>,
    included1: Seq<WalkEntry>,
    files1: Seq<String>,
    excluded2: Seq<WalkEntry>,
    included2: Seq<WalkEntry>,
    files2: Seq<String>,
)
    requires
        files_fit(excluded1, included1, files1),
        files_fit(excluded2, included2, files2),
        files_within(included1, included2),
        files_within(excluded2, excluded1),
    ensures
        forall|m: int| 0 <= m < files1.len() ==> holds_text(files2, #[trigger] files1[m]@),
{
    assert forall|m: int| 0 <= m < files1.len() implies holds_text(files2, #[trigger] files1[m]@) by {
        let p = files1[m]@;
        assert(walked_file(included1, p));
        assert(walked_file(included2, p));
        let k = choose|k: int| 0 <= k < included2.len() && !included2[k].is_dir && #[trigger] included2[k].path@ == p;
        if walked_file(excluded2, p) {
            assert(walked_file(excluded1, p));
        }
        assert(!walked_file(excluded2, included2[k].path@));
    }
}

/// Two results of the same walks hold the same files: the file set does not
/// depend on how it was computed (for a target of `wip.toml` or for the
/// single-target configuration).
pub proof fn lemma_files_agree(
    excluded: Seq<WalkEntry>,
    included: Seq<WalkEntry>,
    files1: Seq<String>,
    files2: Seq<String>,
)
    requires
        files_fit(excluded, included, files1),
        files_fit(excluded, included, files2),
    ensures
        forall|m: int| 0 <= m < files1.len() ==> holds_text(files2, #[trigger] files1[m]@),
        forall|m: int| 0 <= m < files2.len() ==> holds_text(files1, #[trigger] files2[m]@),
{
    lemma_files_monotonic(excluded, included, files1, excluded, included, files2);
    lemma_files_monotonic(excluded, included, files2, excluded, included, files1);
}

/// Joining the same paths to the same directory gives the same roots; and
/// appending paths to the list appends their roots, keeping the others: the
/// roots of `paths + more` start with the roots of `paths`.
pub proof fn lemma_joined_all_extends(
    dir: Seq<char>,
    paths: Seq<String>,
    more: Seq<String>,
    roots: Seq<String>,
    roots_more: Seq<String>,
)
    requires
        joined_all(dir, paths, roots),
        joined_all(dir, paths + more, roots_more),
    ensures
        roots_more.len() == roots.len() + more.len(),
        forall|k: int| 0 <= k < roots.len() ==> #[trigger] roots_more[k]@ == roots[k]@,
        forall|k: int|
            0 <= k < more.len() ==> #[trigger] roots_more[roots.len() + k]@ == path_join(dir, more[k]@),
{
    assert forall|k: int| 0 <= k < roots.len() implies #[trigger] roots_more[k]@ == roots[k]@ by {
        assert((paths + more)[k] == paths[k]);
    }
    assert forall|k: int| 0 <= k < more.len() implies #[trigger] roots_more[roots.len() + k]@
        == path_join(dir, more[k]@) by {
        assert((paths + more)[roots.len() + k] == more[k]);
    }
}

/// Whether some element of `v` has the text of `p`.
fn contains_text(v: &Vec<String>, p: &String) -> (r: bool)
    ensures
        r == holds_text(v@, p@),
{
    let mut m: usize = 0;
    while m < v.len()
        invariant
            m <= v@.len(),
            forall|j: int| 0 <= j < m ==> #[trigger] v@[j]@ != p@,
        decreases v@.len() - m,
    {
        if v[m] == *p {
            return true;
        }
        m = m + 1;
    }
    false
}

/// The files met walking the trees taken in that were not met walking the
/// trees left out, each once, in the order first met.
pub fn collect_files(excluded: &Vec<WalkEntry>, included: &Vec<WalkEntry>) -> (r: Vec<String>)
    ensures
        files_fit(excluded@, included@, r@),
{
    let mut left_out: Vec<String> = Vec::new();
    let mut k: usize = 0;
    while k < excluded.len()
        invariant
            k <= excluded@.len(),
            forall|m: int| 0 <= m < left_out@.len() ==> walked_file(excluded@, #[trigger] left_out@[m]@),
            forall|j: int|
                0 <= j < k && !excluded@[j].is_dir ==> holds_text(left_out@, #[trigger] excluded@[j].path@),
        decreases excluded@.len() - k,
    {
        if !excluded[k].is_dir {
            let ghost prev = left_out@;
            left_out.push(excluded[k].path.clone());
            proof {
                assert(left_out@[prev.len() as int] == excluded@[k as int].path);
                assert forall|j: int|
                    0 <= j < k + 1 && !excluded@[j].is_dir implies holds_text(
                    left_out@,
                    #[trigger] excluded@[j].path@,
                ) by {
                    if j < k {
                        let m = choose|m: int| 0 <= m < prev.len() && #[trigger] prev[m]@ == excluded@[j].path@;
                        assert(left_out@[m] == prev[m]);
                    }
                }
                assert forall|m: int| 0 <= m < left_out@.len() implies walked_file(
                    excluded@,
                    #[trigger] left_out@[m]@,
                ) by {
                    if m < prev.len() {
                        assert(left_out@[m] == prev[m]);
                    } else {
                        assert(excluded@[k as int].path@ == left_out@[m]@);
                    }
                }
            }
        }
        k = k + 1;
    }
    proof {
        assert forall|p: Seq<char>| walked_file(excluded@, p) implies holds_text(left_out@, p) by {
            let j = choose|j: int| 0 <= j < excluded@.len() && !excluded@[j].is_dir && #[trigger] excluded@[j].path@ == p;
            assert(holds_text(left_out@, excluded@[j].path@));
        }
    }
    let mut files: Vec<String> = Vec::new();
    let mut k: usize = 0;
    while k < included.len()
        invariant
            k <= included@.len(),
            forall|p: Seq<char>| walked_file(excluded@, p) ==> #[trigger] holds_text(left_out@, p),
            forall|m: int| 0 <= m < left_out@.len() ==> walked_file(excluded@, #[trigger] left_out@[m]@),
            forall|a: int, b: int| 0 <= a < b < files@.len() ==> files@[a]@ != files@[b]@,
            forall|m: int|
                0 <= m < files@.len() ==> walked_file(included@, #[trigger] files@[m]@) && !walked_file(
                    excluded@,
                    files@[m]@,
                ),
            forall|j: int|
                0 <= j < k && !included@[j].is_dir && !walked_file(excluded@, #[trigger] included@[j].path@)
                    ==> holds_text(files@, included@[j].path@),
        decreases included@.len() - k,
    {
        let entry = &included[k];
        if !entry.is_dir {
            let out = contains_text(&left_out, &entry.path);
            let seen = contains_text(&files, &entry.path);
            proof {
                if out {
                    let m = choose|m: int| 0 <= m < left_out@.len() && #[trigger] left_out@[m]@ == entry.path@;
                    assert(walked_file(excluded@, left_out@[m]@));
                } else {
                    if walked_file(excluded@, entry.path@) {
                        assert(holds_text(left_out@, entry.path@));
                    }
                }
            }
            if !out && !seen {
                let ghost prev = files@;
                files.push(entry.path.clone());
                proof {
                    let n = prev.len() as int;
                    assert(files@[n] == entry.path);
                    assert(walked_file(included@, files@[n]@)) by {
                        assert(!included@[k as int].is_dir && included@[k as int].path@ == files@[n]@);
                    }
                    assert forall|a: int, b: int| 0 <= a < b < files@.len() implies files@[a]@
                        != files@[b]@ by {
                        if b == n {
                            assert(files@[a] == prev[a]);
                        } else {
                            assert(files@[a] == prev[a] && files@[b] == prev[b]);
                        }
                    }
                    assert forall|m: int| 0 <= m < files@.len() implies walked_file(
                        included@,
                        #[trigger] files@[m]@,
                    ) && !walked_file(excluded@, files@[m]@) by {
                        if m < n {
                            assert(files@[m] == prev[m]);
                        }
                    }
                    assert forall|j: int|
                        0 <= j < k + 1 && !included@[j].is_dir && !walked_file(
                            excluded@,
                            #[trigger] included@[j].path@,
                        ) implies holds_text(files@, included@[j].path@) by {
                        if j < k {
                            let m = choose|m: int| 0 <= m < prev.len() && #[trigger] prev[m]@ == included@[j].path@;
                            assert(files@[m] == prev[m]);
                        } else {
                            assert(files@[n]@ == included@[j].path@);
                        }
                    }
                }
            }
        }
        k = k + 1;
    }
    files
}

impl WipTomlBase<SemVer> {
    /// The target named `target_name`, the first one if several are.
    pub fn get_target(&self, target_name: &str) -> (r: Result<&Target<SemVer>, WipError>)
        ensures
            r is Err <==> !has_target(self.target@, target_name@),
            r matches Ok(t) ==> exists|i: int|
                #[trigger] is_first_named(self.target@, target_name@, i) && *t == self.target@[i],
            r matches Err(e) ==> (e matches WipError::TargetNotFound(n) && n@ == target_name@),
    {
        match find_target(&self.target, target_name) {
            Some(i) => Ok(&self.target[i]),
            None => Err(WipError::TargetNotFound(String::from_str(target_name))),
        }
    }

    /// The trees to walk for the target named `target_name`: the paths it
    /// leaves out and the paths it takes in, each joined to the directory of
    /// the `wip.toml`.
    pub fn influence_roots(&self, target_name: &str) -> (r: Result<(Vec<String>, Vec<String>), WipError>)
        ensures
            match path_parent(self.path@) {
                None => r matches Err(WipError::NoParentDirectory),
                Some(dir) => if has_target(self.target@, target_name@) {
                    exists|i: int|
                        #[trigger] is_first_named(self.target@, target_name@, i) && (r matches Ok((ex, inc))
                            && joined_all(dir, self.target@[i].influences_build.exclude@, ex@)
                            && joined_all(dir, self.target@[i].influences_build.included@, inc@))
                } else {
                    r matches Err(WipError::TargetNotFound(n)) && n@ == target_name@
                },
            },
    {
        let dir = match parent(self.path.as_str()) {
            Some(d) => d,
            None => return Err(WipError::NoParentDirectory),
        };
        match find_target(&self.target, target_name) {
            Some(i) => {
                let t = &self.target[i];
                let ex = join_all(dir.as_str(), &t.influences_build.exclude);
                let inc = join_all(dir.as_str(), &t.influences_build.included);
                Ok((ex, inc))
            },
            None => Err(WipError::TargetNotFound(String::from_str(target_name))),
        }
    }

    /// The files that influence the build of the target named `target_name`:
    /// those met walking the trees it takes in (`included`, walked from the
    /// second list of [`Self::influence_roots`]) and not met walking the
    /// trees it leaves out (`excluded`, from the first list), each once.
    pub fn all_files(&self, target_name: &str, excluded: &Vec<WalkEntry>, included: &Vec<WalkEntry>) -> (r:
        Result<Vec<String>, WipError>)
        ensures
            match path_parent(self.path@) {
                None => r matches Err(WipError::NoParentDirectory),
                Some(dir) => if has_target(self.target@, target_name@) {
                    r matches Ok(files) && files_fit(excluded@, included@, files@)
                } else {
                    r matches Err(WipError::TargetNotFound(n)) && n@ == target_name@
                },
            },
    {
        let _roots = self.influence_roots(target_name)?;
        Ok(collect_files(excluded, included))
    }
}

/// The `depends_on` table of the older single-target configuration.
#[derive(Debug, Clone)]
pub struct WipDependency {
    pub included: Vec<String>,
    pub exclude: Vec<String>,
}

/// The older single-target configuration file.
#[derive(Debug, Clone)]
pub struct DependencyToml {
    pub depends_on: WipDependency,
}

/// The older single-target configuration and the path it was read from.
#[derive(Debug, Clone)]
pub struct Config {
    pub wip: DependencyToml,
    pub path: String,
}

/// Index `j` is the first absolute path of `paths`.
pub open spec fn is_first_absolute_path(paths: Seq<String>, j: int) -> bool {
    &&& 0 <= j < paths.len()
    &&& is_absolute_path(paths[j]@)
    &&& forall|k: int| 0 <= k < j ==> !is_absolute_path(#[trigger] paths[k]@)
}

/// The index of the first absolute path of `paths`.
fn first_absolute_path(paths: &Vec<String>) -> (r: Option<usize>)
    ensures
        r is None <==> forall|k: int| 0 <= k < paths@.len() ==> !is_absolute_path(#[trigger] paths@[k]@),
        r matches Some(j) ==> is_first_absolute_path(paths@, j as int),
{
    let mut j: usize = 0;
    while j < paths.len()
        invariant
            j <= paths@.len(),
            forall|k: int| 0 <= k < j ==> !is_absolute_path(#[trigger] paths@[k]@),
        decreases paths@.len() - j,
    {
        if is_absolute(paths[j].as_str()) {
            return Some(j);
        }
        j = j + 1;
    }
    None
}

/// A single-target configuration that takes in a path starting with `/` is
/// refused, however long the path; one whose paths all start otherwise is
/// taken. (`r` is any result that meets the `ensures` of
/// [`Config::read_toml`].)
pub proof fn lemma_config_refuses_rooted(document: DependencyToml, r: Result<Config, WipError>)
    requires
        r is Ok <==> forall|k: int|
            0 <= k < document.depends_on.included@.len() ==> !is_absolute_path(
                #[trigger] document.depends_on.included@[k]@,
            ),
    ensures
        r is Err <==> exists|k: int|
            0 <= k < document.depends_on.included@.len() && (#[trigger] document.depends_on.included@[k]@).len()
                > 0 && document.depends_on.included@[k]@[0] == '/',
{
}

impl Config {
    /// Takes the configuration read from `file_path`, checking that every
    /// path it takes in is relative.
    pub fn read_toml(file_path: &str, document: DependencyToml) -> (r: Result<Config, WipError>)
        ensures
            r matches Ok(c) ==> c.path@ == file_path@ && c.wip == document,
            r is Ok <==> forall|k: int|
                0 <= k < document.depends_on.included@.len() ==> !is_absolute_path(
                    #[trigger] document.depends_on.included@[k]@,
                ),
            r matches Err(e) ==> exists|j: int|
                #[trigger] is_first_absolute_path(document.depends_on.included@, j) && (e matches WipError::AbsoluteDependency(p)
                    && p@ == document.depends_on.included@[j]@),
    {
        match first_absolute_path(&document.depends_on.included) {
            Some(j) => Err(WipError::AbsoluteDependency(document.depends_on.included[j].clone())),
            None => Ok(Config { wip: document, path: String::from_str(file_path) }),
        }
    }

    /// The trees to walk: the paths left out and the paths taken in, each
    /// joined to the directory of the configuration file.
    pub fn roots(&self) -> (r: Result<(Vec<String>, Vec<String>), WipError>)
        ensures
            match path_parent(self.path@) {
                None => r matches Err(WipError::NoParentDirectory),
                Some(dir) => r matches Ok((ex, inc)) && joined_all(dir, self.wip.depends_on.exclude@, ex@)
                    && joined_all(dir, self.wip.depends_on.included@, inc@),
            },
    {
        let dir = match parent(self.path.as_str()) {
            Some(d) => d,
            None => return Err(WipError::NoParentDirectory),
        };
        let ex = join_all(dir.as_str(), &self.wip.depends_on.exclude);
        let inc = join_all(dir.as_str(), &self.wip.depends_on.included);
        Ok((ex, inc))
    }

    /// The files met walking the trees taken in and not met walking the
    /// trees left out (walked from [`Self::roots`]), each once.
    pub fn all_files(&self, excluded: &Vec<WalkEntry>, included: &Vec<WalkEntry>) -> (r: Result<
        Vec<String>,
        WipError,
    >)
        ensures
            path_parent(self.path@) is None ==> r matches Err(WipError::NoParentDirectory),
            path_parent(self.path@) is Some ==> (r matches Ok(files) && files_fit(excluded@, included@, files@)),
    {
        if parent(self.path.as_str()).is_none() {
            return Err(WipError::NoParentDirectory);
        }
        Ok(collect_files(excluded, included))
    }
}

} // verus!
