//! What the build script computes: the `[package.metadata.subtree]` table of
//! a crate manifest, and the `cargo:rerun-if-changed` lines for the paths it
//! lists.

use vstd::prelude::*;
use vstd::string::*;
use crate::paths::{diff_paths, is_absolute, is_absolute_path, join, path_diff, path_join};

verus! {

/// A tree of named files and directories.
pub enum FileTree<T> {
    File { name: String, contents: T },
    Directory { name: String, contents: Box<FileTree<T>> },
}

impl FileTree<()> {
    /// Builds a file tree from paths (nothing is built yet).
    pub fn from_paths() {
    }
}

/// The `[package.metadata.subtree]` table: whether files are taken in by
/// default, and the paths (relative to the repository root) taken in.
#[derive(Debug, Clone)]
pub struct SubtreeMetadata {
    pub default_include: bool,
    pub included: Vec<String>,
}

/// The `[package.metadata]` table of the crate.
#[derive(Debug, Clone)]
pub struct MyMetadata {
    pub subtree: SubtreeMetadata,
}

impl MyMetadata {
    /// The metadata of the manifest's package, where `package_metadata` is
    /// the manifest's package (if any) with its metadata (if any). Files may
    /// not be taken in by default.
    pub fn from_manifest(package_metadata: Option<Option<MyMetadata>>) -> (r: MyMetadata)
        requires
            package_metadata matches Some(Some(m)) && !m.subtree.default_include,
        ensures
            r == package_metadata.unwrap().unwrap(),
    {
        match package_metadata {
            Some(Some(m)) => m,
            _ => {
                assert(false);
                MyMetadata {
                    subtree: SubtreeMetadata { default_include: false, included: Vec::new() },
                }
            },
        }
    }
}

/// The path of the repository file `p` relative to the crate directory.
pub open spec fn rerun_path(top_level_dir: Seq<char>, this_crate_dir: Seq<char>, p: Seq<char>) -> Option<
    Seq<char>,
> {
    path_diff(path_join(top_level_dir, p), this_crate_dir)
}

/// Every path of `included` is relative and has a path relative to the
/// crate directory.
pub open spec fn rerun_paths_exist(
    included: Seq<String>,
    top_level_dir: Seq<char>,
    this_crate_dir: Seq<char>,
) -> bool {
    forall|k: int|
        0 <= k < included.len() ==> !is_absolute_path(#[trigger] included[k]@) && rerun_path(
            top_level_dir,
            this_crate_dir,
            included[k]@,
        ) is Some
}

/// `lines` holds one `cargo:rerun-if-changed=` line for each path of
/// `included`, naming it relative to the crate directory.
pub open spec fn rerun_lines_fit(
    included: Seq<String>,
    top_level_dir: Seq<char>,
    this_crate_dir: Seq<char>,
    lines: Seq<String>,
) -> bool {
    &&& lines.len() == included.len()
    &&& forall|k: int|
        0 <= k < lines.len() ==> #[trigger] lines[k]@ == "cargo:rerun-if-changed="@ + rerun_path(
            top_level_dir,
            this_crate_dir,
            included[k]@,
        ).unwrap()
}

/// The `cargo:rerun-if-changed` lines for the repository paths `included`,
/// each taken from the repository root `top_level_dir` and named relative to
/// the crate directory `this_crate_dir`.
pub fn rerun_if_changed(included: &Vec<String>, top_level_dir: &str, this_crate_dir: &str) -> (r: Vec<
    String,
>)
    requires
        rerun_paths_exist(included@, top_level_dir@, this_crate_dir@),
    ensures
        rerun_lines_fit(included@, top_level_dir@, this_crate_dir@, r@),
{
    let mut lines: Vec<String> = Vec::new();
    let mut k: usize = 0;
    while k < included.len()
        invariant
            rerun_paths_exist(included@, top_level_dir@, this_crate_dir@),
            k <= included@.len(),
            rerun_lines_fit(included@.take(k as int), top_level_dir@, this_crate_dir@, lines@),
        decreases included@.len() - k,
    {
        let full = join(top_level_dir, included[k].as_str());
        let rel = diff_paths(full.as_str(), this_crate_dir);
        assert(rerun_path(top_level_dir@, this_crate_dir@, included@[k as int]@) is Some);
        match rel {
            Some(d) => {
                let mut line = String::from_str("cargo:rerun-if-changed=");
                line.append(d.as_str());
                let ghost prev = lines@;
                lines.push(line);
                proof {
                    let done = included@.take(k + 1);
                    assert forall|m: int| 0 <= m < lines@.len() implies #[trigger] lines@[m]@
                        == "cargo:rerun-if-changed="@ + rerun_path(
                        top_level_dir@,
                        this_crate_dir@,
                        done[m]@,
                    ).unwrap() by {
                        if m < k {
                            assert(lines@[m] == prev[m]);
                            assert(done[m] == included@.take(k as int)[m]);
                            assert(prev[m]@ == "cargo:rerun-if-changed="@ + rerun_path(
                                top_level_dir@,
                                this_crate_dir@,
                                included@.take(k as int)[m]@,
                            ).unwrap());
                        }
                    }
                }
            },
            None => {
                assert(false);
            },
        }
        k = k + 1;
    }
    assert(included@.take(k as int) =~= included@);
    lines
}

/// [`rerun_if_changed`] where every path is relative and has a path
/// relative to the crate directory; `None` otherwise.
pub fn try_rerun_if_changed(included: &Vec<String>, top_level_dir: &str, this_crate_dir: &str) -> (r:
    Option<Vec<String>>)
    ensures
        r is Some <==> rerun_paths_exist(included@, top_level_dir@, this_crate_dir@),
        r matches Some(lines) ==> rerun_lines_fit(included@, top_level_dir@, this_crate_dir@, lines@),
{
    let mut k: usize = 0;
    while k < included.len()
        invariant
            k <= included@.len(),
            rerun_paths_exist(included@.take(k as int), top_level_dir@, this_crate_dir@),
        decreases included@.len() - k,
    {
        if is_absolute(included[k].as_str()) {
            assert(is_absolute_path(included@[k as int]@));
            return None;
        }
        let full = join(top_level_dir, included[k].as_str());
        if diff_paths(full.as_str(), this_crate_dir).is_none() {
            assert(rerun_path(top_level_dir@, this_crate_dir@, included@[k as int]@) is None);
            return None;
        }
        proof {
            let done = included@.take(k + 1);
            assert forall|m: int| 0 <= m < done.len() implies !is_absolute_path(#[trigger] done[m]@)
                && rerun_path(top_level_dir@, this_crate_dir@, done[m]@) is Some by {
                if m < k {
                    assert(done[m] == included@.take(k as int)[m]);
                }
            }
        }
        k = k + 1;
    }
    assert(included@.take(k as int) =~= included@);
    Some(rerun_if_changed(included, top_level_dir, this_crate_dir))
}

/// `rel` joined to `base`, as `Path::join` does.
pub fn join_path(base: &str, rel: &str) -> (r: String)
    ensures
        r@ == path_join(base@, rel@),
{
    join(base, rel)
}

} // verus!
