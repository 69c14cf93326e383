use vstd::prelude::*;
use vstd::string::*;
use crate::errors::{DocumentError, MakepadAnalyzerError};
use crate::paths::{join, joined, lemma_parent_shorter, parent, parent_of, same_text};

verus! {

/// Whether `path` is among the paths of `listing`.
pub open spec fn is_listed(listing: Seq<String>, path: Seq<char>) -> bool {
    exists|i: int| 0 <= i < listing.len() && #[trigger] listing[i]@ == path
}

/// The manifest file nearest to `start`, where `existing` lists the files
/// that exist: the one in `start` itself, or in the nearest directory above
/// it that has one. Whether `start` itself, or a directory on the way up,
/// exists is not asked.
pub open spec fn manifest_above(start: Seq<char>, existing: Seq<String>) -> Option<Seq<char>>
    decreases start.len(),
    via manifest_above_decreases
{
    if is_listed(existing, joined(start, "Cargo.toml"@)) {
        Some(joined(start, "Cargo.toml"@))
    } else {
        match parent_of(start) {
            Some(dir) => manifest_above(dir, existing),
            None => None,
        }
    }
}

#[via_fn]
proof fn manifest_above_decreases(start: Seq<char>, existing: Seq<String>) {
    if parent_of(start) is Some {
        lemma_parent_shorter(start);
    }
}

/// What a project declares about itself.
#[derive(Clone, Debug, PartialEq, Eq)]
pub struct MakepadManifest {
    name: String,
}

/// A project's manifest, with the path of the file that holds it.
#[derive(Clone, Debug, PartialEq, Eq)]
pub struct MakepadManifestFile {
    manifest: MakepadManifest,
    path: String,
}

/// Whether `path` is among the paths of `listing`.
pub fn listed(listing: &Vec<String>, path: &str) -> (found: bool)
    ensures
        found == is_listed(listing@, path@),
{
    let mut i: usize = 0;
    while i < listing.len()
        invariant
            i <= listing@.len(),
            forall|k: int| 0 <= k < i ==> listing@[k]@ != path@,
        decreases listing@.len() - i,
    {
        if same_text(listing[i].as_str(), path) {
            return true;
        }
        i += 1;
    }
    false
}

impl MakepadManifestFile {
    /// The path of the manifest file.
    pub closed spec fn location(&self) -> Seq<char> {
        self.path@
    }

    /// The manifest of the project that `path` belongs to, where `existing`
    /// lists the files that exist. `ManifestFileNotFound` comes back where
    /// neither `path` nor any directory above it holds a manifest file.
    pub fn from_dir(path: &str, existing: &Vec<String>) -> (found: Result<
        Self,
        MakepadAnalyzerError,
    >)
        ensures
            match manifest_above(path@, existing@) {
                Some(location) => found matches Ok(file) && file.location() == location,
                None => found matches Err(
                    MakepadAnalyzerError::DocumentError(
                        DocumentError::ManifestFileNotFound { dir },
                    ),
                ) && dir@ == path@,
            },
    {
        match Self::find_cargo_toml(path, existing) {
            Some(location) => Ok(
                MakepadManifestFile {
                    manifest: MakepadManifest { name: "Makepad".to_owned() },
                    path: location,
                },
            ),
            None => Err(
                MakepadAnalyzerError::DocumentError(
                    DocumentError::ManifestFileNotFound { dir: path.to_owned() },
                ),
            ),
        }
    }

    pub fn path(&self) -> (path: &str)
        ensures
            path@ == self.location(),
    {
        self.path.as_str()
    }

    /// Walks upward from `start_dir` and stops at the first directory that
    /// holds a manifest file; there is none where the walk passes the
    /// topmost directory.
    pub fn find_cargo_toml(start_dir: &str, existing: &Vec<String>) -> (found: Option<String>)
        ensures
            match manifest_above(start_dir@, existing@) {
                Some(location) => found matches Some(given) && given@ == location,
                None => found is None,
            },
    {
        let mut current = start_dir.to_owned();
        loop
            invariant
                manifest_above(current@, existing@) == manifest_above(start_dir@, existing@),
            decreases current@.len(),
        {
            let candidate = join(current.as_str(), "Cargo.toml");
            if listed(existing, candidate.as_str()) {
                return Some(candidate);
            }
            match parent(current.as_str()) {
                Some(dir) => {
                    proof {
                        lemma_parent_shorter(current@);
                    }
                    current = dir;
                },
                None => {
                    return None;
                },
            }
        }
    }
}

} // verus!
